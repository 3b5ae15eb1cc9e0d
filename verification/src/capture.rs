//! The capture pipeline: how the receive channel is set up, what the capture task
//! does at each step, and what becomes of each read.

use vstd::prelude::*;

use crate::pcm::{attenuate, attenuated_prefix, encoded, law_bytes_are_little_endian, raw_bytes};
use crate::{
    BUFFER_SAMPLES_PER_READ, DMA_DESC_NUM, DMA_FRAME_NUM, MIC_CLK_GPIO, MIC_DIN_GPIO, SAMPLE_RATE,
};

verus! {

/// Size in bytes of one sample.
pub const SAMPLE_BYTES: usize = 2;

/// Ticks that a write to the USB serial driver may wait for room.
pub const USB_WRITE_TICKS: u32 = 10;

/// Ticks that a stream waits after its sink took nothing.
pub const BACKOFF_TICKS: u32 = 1;

/// Size of each of the USB serial driver's two buffers.
pub const USB_BUFFER_BYTES: u32 = 4096;

/// What `xTaskCreatePinnedToCore` returns when the task was created.
pub const PD_PASS: i32 = 1;

/// Who drives the clock of the I2S bus.
#[derive(Debug, Clone, Copy, PartialEq, Eq, Structural)]
pub enum I2sRole {
    Master,
    Slave,
}

/// How an I2S receive channel is created.
#[derive(Debug, Clone, Copy, PartialEq, Eq, Structural)]
pub struct I2sChannelConfig {
    pub id: i32,
    pub role: I2sRole,
    pub dma_desc_num: u32,
    pub dma_frame_num: u32,
    pub auto_clear_before_cb: bool,
    pub allow_pd: bool,
    pub intr_priority: i32,
}

/// The ratio of PDM bits to PCM samples.
#[derive(Debug, Clone, Copy, PartialEq, Eq, Structural)]
pub enum DownSampling {
    /// 8 times 8.
    Dsr8S,
    /// 8 times 16.
    Dsr16S,
}

/// How many slots carry audio.
#[derive(Debug, Clone, Copy, PartialEq, Eq, Structural)]
pub enum SlotMode {
    Mono,
    Stereo,
}

/// Which slot the microphone talks in.
#[derive(Debug, Clone, Copy, PartialEq, Eq, Structural)]
pub enum SlotMask {
    Left,
    Right,
}

/// Clocking of the PDM receiver.
#[derive(Debug, Clone, Copy, PartialEq, Eq, Structural)]
pub struct PdmClockConfig {
    pub sample_rate_hz: u32,
    pub mclk_multiple: u32,
    pub dn_sample_mode: DownSampling,
    /// Zero leaves the divider to the driver.
    pub bclk_div: u32,
}

/// Slots of the PDM receiver.
#[derive(Debug, Clone, Copy, PartialEq, Eq, Structural)]
pub struct PdmSlotConfig {
    pub data_bit_width: u32,
    pub slot_bit_width: u32,
    pub slot_mode: SlotMode,
    pub slot_mask: SlotMask,
}

/// Pins of the PDM receiver.
#[derive(Debug, Clone, Copy, PartialEq, Eq, Structural)]
pub struct PdmGpioConfig {
    pub clk: i32,
    pub din: i32,
}

/// How a receive channel is put into PDM mode.
#[derive(Debug, Clone, Copy, PartialEq, Eq, Structural)]
pub struct PdmRxConfig {
    pub clk_cfg: PdmClockConfig,
    pub slot_cfg: PdmSlotConfig,
    pub gpio_cfg: PdmGpioConfig,
}

/// The configuration of the microphone's receive channel.
pub fn i2s_rx_channel_config() -> (r: I2sChannelConfig)
    ensures
        r.id == 0,
        r.role == I2sRole::Master,
        r.dma_desc_num == DMA_DESC_NUM,
        r.dma_frame_num == DMA_FRAME_NUM,
        r.auto_clear_before_cb,
        !r.allow_pd,
        r.intr_priority == 0,
{
    I2sChannelConfig {
        id: 0,
        role: I2sRole::Master,
        dma_desc_num: DMA_DESC_NUM,
        dma_frame_num: DMA_FRAME_NUM,
        auto_clear_before_cb: true,
        allow_pd: false,
        intr_priority: 0,
    }
}

/// The PDM mode of the microphone: 16 kHz, 16-bit mono from the right slot.
pub fn pdm_rx_config() -> (r: PdmRxConfig)
    ensures
        r.clk_cfg.sample_rate_hz == SAMPLE_RATE,
        r.clk_cfg.mclk_multiple == 256,
        r.clk_cfg.dn_sample_mode == DownSampling::Dsr16S,
        r.clk_cfg.bclk_div == 0,
        r.slot_cfg.data_bit_width == 8 * SAMPLE_BYTES,
        r.slot_cfg.slot_bit_width == r.slot_cfg.data_bit_width,
        r.slot_cfg.slot_mode == SlotMode::Mono,
        r.slot_cfg.slot_mask == SlotMask::Right,
        r.gpio_cfg.clk == MIC_CLK_GPIO,
        r.gpio_cfg.din == MIC_DIN_GPIO,
{
    PdmRxConfig {
        clk_cfg: PdmClockConfig {
            sample_rate_hz: SAMPLE_RATE,
            mclk_multiple: 256,
            dn_sample_mode: DownSampling::Dsr16S,
            bclk_div: 0,
        },
        slot_cfg: PdmSlotConfig {
            data_bit_width: 16,
            slot_bit_width: 16,
            slot_mode: SlotMode::Mono,
            slot_mask: SlotMask::Right,
        },
        gpio_cfg: PdmGpioConfig { clk: MIC_CLK_GPIO, din: MIC_DIN_GPIO },
    }
}

/// Whether a task was created, or the code that creating it failed with.
pub fn task_created(res: i32) -> (r: Result<(), i32>)
    ensures
        r == (if res == PD_PASS {
            Ok::<(), i32>(())
        } else {
            Err(res)
        }),
{
    if res != PD_PASS {
        Err(res)
    } else {
        Ok(())
    }
}

/// What the capture task is about to do, or how it ended.
#[derive(Debug, Clone, Copy, PartialEq, Eq, Structural)]
pub enum CaptureStage {
    /// Install the USB serial driver.
    InstallUsb,
    /// Create the receive channel.
    CreateChannel,
    /// Put the channel into PDM mode.
    ConfigurePdm,
    /// Enable the channel.
    EnableChannel,
    /// Hand the channel to the stream, for good.
    Stream,
    /// Delete the task.
    DeleteTask,
    /// The channel could not be created; the code is the driver's.
    NewChannelFailed(i32),
    /// The channel could not be put into PDM mode; the code is the driver's.
    PdmModeFailed(i32),
}

impl CaptureStage {
    /// Nothing follows this stage.
    pub open spec fn is_final(self) -> bool {
        match self {
            CaptureStage::InstallUsb
            | CaptureStage::CreateChannel
            | CaptureStage::ConfigurePdm
            | CaptureStage::EnableChannel => false,
            _ => true,
        }
    }
}

/// The stage after `stage`, whose driver call returned `ret`. A USB driver that
/// cannot be installed does not hold up capture.
pub open spec fn stage_after(stage: CaptureStage, ret: i32, has_stream: bool) -> CaptureStage {
    match stage {
        CaptureStage::InstallUsb => CaptureStage::CreateChannel,
        CaptureStage::CreateChannel => if ret != 0 {
            CaptureStage::NewChannelFailed(ret)
        } else {
            CaptureStage::ConfigurePdm
        },
        CaptureStage::ConfigurePdm => if ret != 0 {
            CaptureStage::PdmModeFailed(ret)
        } else {
            CaptureStage::EnableChannel
        },
        CaptureStage::EnableChannel => if ret == 0 && has_stream {
            CaptureStage::Stream
        } else {
            CaptureStage::DeleteTask
        },
        last => last,
    }
}

/// Moves the capture task on, given what the driver call of its stage returned and
/// whether there is a stream to hand the channel to.
pub fn next_stage(stage: CaptureStage, ret: i32, has_stream: bool) -> (r: CaptureStage)
    ensures
        r == stage_after(stage, ret, has_stream),
{
    match stage {
        CaptureStage::InstallUsb => CaptureStage::CreateChannel,
        CaptureStage::CreateChannel => {
            if ret != 0 {
                CaptureStage::NewChannelFailed(ret)
            } else {
                CaptureStage::ConfigurePdm
            }
        },
        CaptureStage::ConfigurePdm => {
            if ret != 0 {
                CaptureStage::PdmModeFailed(ret)
            } else {
                CaptureStage::EnableChannel
            }
        },
        CaptureStage::EnableChannel => {
            if ret != 0 {
                CaptureStage::DeleteTask
            } else if has_stream {
                CaptureStage::Stream
            } else {
                CaptureStage::DeleteTask
            }
        },
        CaptureStage::Stream => CaptureStage::Stream,
        CaptureStage::DeleteTask => CaptureStage::DeleteTask,
        CaptureStage::NewChannelFailed(code) => CaptureStage::NewChannelFailed(code),
        CaptureStage::PdmModeFailed(code) => CaptureStage::PdmModeFailed(code),
    }
}

/// The stage that a task reaches from `stage` when its driver calls return `rets`, in
/// turn.
pub open spec fn stage_after_all(
    stage: CaptureStage,
    rets: Seq<i32>,
    has_stream: bool,
) -> CaptureStage
    decreases rets.len(),
{
    if rets.len() == 0 {
        stage
    } else {
        stage_after(stage_after_all(stage, rets.drop_last(), has_stream), rets.last(), has_stream)
    }
}

/// What happened to a stream: a read of the channel or a write to the sink returned.
#[derive(Debug, Clone, Copy, PartialEq, Eq, Structural)]
pub enum StreamEvent {
    /// The driver returned `ret` and put `num_bytes` bytes into the buffer.
    Read { ret: i32, num_bytes: usize },
    /// The sink took that many bytes, or failed with a negative code.
    Wrote(isize),
}

/// What a stream does next with its sink of samples.
#[derive(Debug, Clone, Copy, PartialEq, Eq, Structural)]
pub enum StreamAction {
    /// Read the channel again.
    Read,
    /// Give the sink that many samples from the front of the buffer.
    Sink(usize),
    /// Wait, then read the channel again.
    Delay,
}

/// What a raw stream does next with its sink of bytes.
pub enum RawAction {
    /// Read the channel again.
    Read,
    /// Give the sink these bytes.
    Forward(Vec<u8>),
    /// Wait, then read the channel again.
    Delay,
}

/// The buffer holds what a good read is said to have put into it.
pub open spec fn event_fits(event: StreamEvent, buf: Seq<i16>) -> bool {
    match event {
        StreamEvent::Read { ret, num_bytes } => ret == 0 ==> num_bytes <= SAMPLE_BYTES * buf.len(),
        StreamEvent::Wrote(_) => true,
    }
}

/// The buffer after the event: a good read is attenuated, sample by whole sample.
pub open spec fn buffer_after(event: StreamEvent, buf: Seq<i16>) -> Seq<i16> {
    match event {
        StreamEvent::Read { ret, num_bytes } if ret == 0 => attenuated_prefix(
            buf,
            num_bytes as int / SAMPLE_BYTES as int,
        ),
        _ => buf,
    }
}

/// What a stream does next with its sink of samples, after the event.
pub open spec fn action_after(event: StreamEvent) -> StreamAction {
    match event {
        StreamEvent::Read { ret, num_bytes } => if ret == 0 && num_bytes != 0 {
            StreamAction::Sink((num_bytes as int / SAMPLE_BYTES as int) as usize)
        } else {
            StreamAction::Read
        },
        StreamEvent::Wrote(n) => if n <= 0 {
            StreamAction::Delay
        } else {
            StreamAction::Read
        },
    }
}

/// `action` is what a raw stream does next with its sink of bytes, after the event that
/// left `buf` in its buffer.
pub open spec fn raw_action_after(event: StreamEvent, buf: Seq<i16>, action: RawAction) -> bool {
    match action_after(event) {
        StreamAction::Read => action is Read,
        StreamAction::Delay => action is Delay,
        StreamAction::Sink(_) => action matches RawAction::Forward(raw) && raw@ == encoded(
            buf,
        ).take(event->num_bytes as int),
    }
}

/// One step of the loop that reads the channel and feeds a sink of samples. Failed
/// and empty reads are repeated; a sink that takes nothing is given a rest.
pub fn stream_to_sink(event: StreamEvent, buf: &mut [i16]) -> (action: StreamAction)
    requires
        event_fits(event, old(buf)@),
    ensures
        final(buf)@ == buffer_after(event, old(buf)@),
        final(buf)@.len() == old(buf)@.len(),
        event matches StreamEvent::Read { ret, num_bytes } ==> ret == 0 ==> forall|i: int|
            #![trigger final(buf)@[i]]
            0 <= i < num_bytes as int / 2 ==> final(buf)@[i] == old(buf)@[i] as int / 2,
        event matches StreamEvent::Read { ret, num_bytes } ==> ret == 0 ==> forall|i: int|
            #![trigger final(buf)@[i]]
            num_bytes as int / 2 <= i < old(buf)@.len() ==> final(buf)@[i] == old(buf)@[i],
        action == (match event {
            StreamEvent::Read { ret, num_bytes } => if ret == 0 && num_bytes != 0 {
                StreamAction::Sink(num_bytes / SAMPLE_BYTES)
            } else {
                StreamAction::Read
            },
            StreamEvent::Wrote(n) => if n <= 0 {
                StreamAction::Delay
            } else {
                StreamAction::Read
            },
        }),
        action == action_after(event),
{
    match event {
        StreamEvent::Read { ret, num_bytes } => {
            if ret != 0 {
                return StreamAction::Read;
            }
            if num_bytes == 0 {
                assert(buf@ =~= attenuated_prefix(buf@, 0));
                return StreamAction::Read;
            }
            let count: usize = num_bytes / SAMPLE_BYTES;
            attenuate(buf, count);
            StreamAction::Sink(count)
        },
        StreamEvent::Wrote(n) => {
            if n <= 0 {
                StreamAction::Delay
            } else {
                StreamAction::Read
            }
        },
    }
}

/// One step of the loop that reads the channel and forwards the bytes of each read,
/// with an odd byte at the end as it came.
pub fn stream_pcm(event: StreamEvent, buf: &mut [i16]) -> (action: RawAction)
    requires
        event_fits(event, old(buf)@),
    ensures
        final(buf)@ == buffer_after(event, old(buf)@),
        final(buf)@.len() == old(buf)@.len(),
        event matches StreamEvent::Read { ret, num_bytes } ==> ret == 0 ==> forall|i: int|
            #![trigger final(buf)@[i]]
            0 <= i < num_bytes as int / 2 ==> final(buf)@[i] == old(buf)@[i] as int / 2,
        event matches StreamEvent::Read { ret, num_bytes } ==> ret == 0 ==> forall|i: int|
            #![trigger final(buf)@[i]]
            num_bytes as int / 2 <= i < old(buf)@.len() ==> final(buf)@[i] == old(buf)@[i],
        match event {
            StreamEvent::Read { ret, num_bytes } => if ret == 0 && num_bytes != 0 {
                action matches RawAction::Forward(raw) && raw@ == encoded(final(buf)@).take(
                    num_bytes as int,
                )
            } else {
                action is Read
            },
            StreamEvent::Wrote(n) => if n <= 0 {
                action is Delay
            } else {
                action is Read
            },
        },
        raw_action_after(event, final(buf)@, action),
{
    match stream_to_sink(event, buf) {
        StreamAction::Read => RawAction::Read,
        StreamAction::Delay => RawAction::Delay,
        StreamAction::Sink(_) => {
            match event {
                StreamEvent::Read { num_bytes, .. } => {
                    RawAction::Forward(raw_bytes(buf, num_bytes))
                },
                StreamEvent::Wrote(_) => RawAction::Read,
            }
        },
    }
}

/// The bytes that the USB serial sink writes for `samples`.
pub fn usb_serial_sink(samples: &[i16]) -> (raw: Vec<u8>)
    requires
        SAMPLE_BYTES * samples@.len() <= usize::MAX,
    ensures
        raw@ == encoded(samples@),
{
    let raw: Vec<u8> = raw_bytes(samples, samples.len() * SAMPLE_BYTES);
    assert(raw@ =~= encoded(samples@));
    raw
}

/// The number of bytes that one read asks the driver for.
pub fn read_request_bytes() -> (n: usize)
    ensures
        n == SAMPLE_BYTES * BUFFER_SAMPLES_PER_READ,
{
    SAMPLE_BYTES * BUFFER_SAMPLES_PER_READ
}

/// A task streams only after the channel was created, configured and enabled without
/// an error and a stream was there; then it streams for good.
pub proof fn law_streaming_needs_a_clean_start(usb: i32, rets: Seq<i32>, has_stream: bool)
    requires
        stage_after_all(CaptureStage::InstallUsb, seq![usb] + rets, has_stream)
            == CaptureStage::Stream,
    ensures
        has_stream,
        rets.len() >= 3,
        rets[0] == 0 && rets[1] == 0 && rets[2] == 0,
{
    lemma_stage_without_usb(usb, rets, has_stream);
    lemma_clean_start(rets, has_stream);
}

/// What the USB driver returns has no part in the stages that follow.
proof fn lemma_stage_without_usb(usb: i32, rets: Seq<i32>, has_stream: bool)
    ensures
        stage_after_all(CaptureStage::InstallUsb, seq![usb] + rets, has_stream) == stage_after_all(
            CaptureStage::CreateChannel,
            rets,
            has_stream,
        ),
    decreases rets.len(),
{
    if rets.len() == 0 {
        assert(seq![usb] + rets =~= seq![usb]);
        assert(seq![usb].drop_last() =~= Seq::<i32>::empty());
        reveal_with_fuel(stage_after_all, 2);
    } else {
        lemma_stage_without_usb(usb, rets.drop_last(), has_stream);
        assert((seq![usb] + rets).drop_last() =~= seq![usb] + rets.drop_last());
    }
}

/// Where a task stands that began by creating the channel.
proof fn lemma_clean_start(rets: Seq<i32>, has_stream: bool)
    ensures
        ({
            let stage = stage_after_all(CaptureStage::CreateChannel, rets, has_stream);
            &&& stage == CaptureStage::CreateChannel ==> rets.len() == 0
            &&& stage == CaptureStage::ConfigurePdm ==> rets.len() == 1 && rets[0] == 0
            &&& stage == CaptureStage::EnableChannel ==> rets.len() == 2 && rets[0] == 0 && rets[1]
                == 0
            &&& stage == CaptureStage::Stream ==> has_stream && rets.len() >= 3 && rets[0] == 0
                && rets[1] == 0 && rets[2] == 0
            &&& stage != CaptureStage::InstallUsb
        }),
    decreases rets.len(),
{
    if rets.len() > 0 {
        lemma_clean_start(rets.drop_last(), has_stream);
        let before = stage_after_all(CaptureStage::CreateChannel, rets.drop_last(), has_stream);
        let stage = stage_after_all(CaptureStage::CreateChannel, rets, has_stream);
        assert(stage == stage_after(before, rets.last(), has_stream));
        assert(forall|i: int|
            0 <= i < rets.len() - 1 ==> #[trigger] rets.drop_last()[i] == rets[i]);
    }
}

/// A stage that ended the task is never left.
pub proof fn law_final_stages_stay(stage: CaptureStage, ret: i32, has_stream: bool)
    requires
        stage.is_final(),
    ensures
        stage_after(stage, ret, has_stream) == stage,
{
}

/// The bytes that a raw stream forwards for a read of whole samples are those that
/// the USB serial sink writes for the samples of the same read.
pub proof fn law_both_streams_send_the_same(buf: Seq<i16>, num_samples: int)
    requires
        0 <= num_samples <= buf.len(),
    ensures
        encoded(attenuated_prefix(buf, num_samples)).take(SAMPLE_BYTES * num_samples) == encoded(
            attenuated_prefix(buf, num_samples).take(num_samples),
        ),
{
    let after = attenuated_prefix(buf, num_samples);
    assert(encoded(after).take(SAMPLE_BYTES * num_samples) =~= encoded(after.take(num_samples)));
}

/// A good read is halved whole: in the buffer that the step leaves, each sample of the
/// read is half of what the microphone gave, rounded down, and each sample behind the read
/// is what it was.
pub proof fn law_step_halves_the_whole_read(buf: Seq<i16>, num_bytes: usize, i: int)
    requires
        num_bytes <= 2 * buf.len(),
        0 <= i < buf.len(),
    ensures
        ({
            let after = buffer_after(StreamEvent::Read { ret: 0, num_bytes }, buf);
            &&& after.len() == buf.len()
            &&& i < num_bytes as int / 2 ==> after[i] == buf[i] as int / 2
            &&& i >= num_bytes as int / 2 ==> after[i] == buf[i]
        }),
{
}

/// A read that failed and a write leave the buffer as it is.
pub proof fn law_other_steps_leave_the_buffer(buf: Seq<i16>, ret: i32, num_bytes: usize, n: isize)
    ensures
        ret != 0 ==> buffer_after(StreamEvent::Read { ret, num_bytes }, buf) == buf,
        buffer_after(StreamEvent::Wrote(n), buf) == buf,
{
}

/// The bytes that a raw stream forwards for a good read hold every whole sample of it at
/// half its level: the low and the high byte of each are those of the sample halved and
/// rounded down, modulo 65536.
pub proof fn law_forwarded_bytes_hold_the_halved_read(buf: Seq<i16>, num_bytes: usize, i: int)
    requires
        num_bytes <= 2 * buf.len(),
        0 <= i < num_bytes as int / 2,
    ensures
        ({
            let after = buffer_after(StreamEvent::Read { ret: 0, num_bytes }, buf);
            let raw = encoded(after).take(num_bytes as int);
            let half = buf[i] as int / 2;
            &&& raw.len() == num_bytes
            &&& raw[2 * i] + 256 * raw[2 * i + 1] == (if half >= 0 {
                half
            } else {
                half + 65536
            })
        }),
{
    let after = buffer_after(StreamEvent::Read { ret: 0, num_bytes }, buf);
    law_step_halves_the_whole_read(buf, num_bytes, i);
    law_bytes_are_little_endian(after, i);
}

/// Every read that stays within the buffer can be taken in, and so can every read that
/// failed and every write.
pub proof fn law_every_read_within_the_buffer_fits(
    buf: Seq<i16>,
    ret: i32,
    num_bytes: usize,
    n: isize,
)
    ensures
        event_fits(StreamEvent::Read { ret, num_bytes }, buf) <==> ret != 0 || num_bytes <= 2
            * buf.len(),
        event_fits(StreamEvent::Wrote(n), buf),
{
}

/// Where a task ends up, by what its driver calls return in turn: it streams when the
/// channel was created, configured and enabled and there is a stream. A channel that
/// cannot be created or configured is reported with the driver's code; otherwise the task
/// is deleted. What installing the USB driver returns does not matter.
pub proof fn law_bring_up_ends_as_its_calls_return(
    usb: i32,
    create: i32,
    configure: i32,
    enable: i32,
    has_stream: bool,
)
    ensures
        ({
            let s1 = stage_after(CaptureStage::InstallUsb, usb, has_stream);
            let s2 = stage_after(s1, create, has_stream);
            let s3 = stage_after(s2, configure, has_stream);
            let s4 = stage_after(s3, enable, has_stream);
            &&& s1 == CaptureStage::CreateChannel
            &&& create != 0 ==> s2 == CaptureStage::NewChannelFailed(create) && s4 == s2
            &&& create == 0 ==> s2 == CaptureStage::ConfigurePdm
            &&& create == 0 && configure != 0 ==> s3 == CaptureStage::PdmModeFailed(configure)
                && s4 == s3
            &&& create == 0 && configure == 0 ==> s3 == CaptureStage::EnableChannel
            &&& create == 0 && configure == 0 && enable == 0 && has_stream ==> s4
                == CaptureStage::Stream
            &&& create == 0 && configure == 0 && (enable != 0 || !has_stream) ==> s4
                == CaptureStage::DeleteTask
        }),
{
}

/// Every good read that brought something goes to the sink whole, every other is repeated,
/// and the stream rests exactly when its sink took nothing.
pub proof fn law_each_good_read_goes_to_the_sink(ret: i32, num_bytes: usize, n: isize)
    ensures
        ret == 0 && num_bytes > 0 ==> action_after(StreamEvent::Read { ret, num_bytes })
            == StreamAction::Sink((num_bytes as int / 2) as usize),
        ret != 0 || num_bytes == 0 ==> action_after(StreamEvent::Read { ret, num_bytes })
            == StreamAction::Read,
        n > 0 ==> action_after(StreamEvent::Wrote(n)) == StreamAction::Read,
        n <= 0 ==> action_after(StreamEvent::Wrote(n)) == StreamAction::Delay,
{
}

/// A raw stream forwards all bytes of every good read that brought something: as many as
/// were read, and each whole sample of them at half the level that the microphone gave it.
pub proof fn law_each_good_read_is_forwarded(
    before: Seq<i16>,
    num_bytes: usize,
    action: RawAction,
    i: int,
)
    requires
        0 < num_bytes <= 2 * before.len(),
        0 <= i < num_bytes as int / 2,
        raw_action_after(
            StreamEvent::Read { ret: 0, num_bytes },
            buffer_after(StreamEvent::Read { ret: 0, num_bytes }, before),
            action,
        ),
    ensures
        action matches RawAction::Forward(raw) && raw@.len() == num_bytes && raw@[2 * i] + 256
            * raw@[2 * i + 1] == (if before[i] as int / 2 >= 0 {
            before[i] as int / 2
        } else {
            before[i] as int / 2 + 65536
        }),
{
    law_forwarded_bytes_hold_the_halved_read(before, num_bytes, i);
}

/// A raw stream reads again after a read that failed or brought nothing and after a write
/// that took something, and rests after one that took nothing.
pub proof fn law_raw_streams_rest_like_others(
    buf: Seq<i16>,
    ret: i32,
    num_bytes: usize,
    n: isize,
    action: RawAction,
)
    ensures
        (ret != 0 || num_bytes == 0) && raw_action_after(
            StreamEvent::Read { ret, num_bytes },
            buf,
            action,
        ) ==> action is Read,
        n > 0 && raw_action_after(StreamEvent::Wrote(n), buf, action) ==> action is Read,
        n <= 0 && raw_action_after(StreamEvent::Wrote(n), buf, action) ==> action is Delay,
{
}

/// A task that streams, was deleted or failed stays so, whatever happens.
pub proof fn law_ended_tasks_stay_ended(code: i32, ret: i32, has_stream: bool)
    ensures
        stage_after(CaptureStage::Stream, ret, has_stream) == CaptureStage::Stream,
        stage_after(CaptureStage::DeleteTask, ret, has_stream) == CaptureStage::DeleteTask,
        stage_after(CaptureStage::NewChannelFailed(code), ret, has_stream)
            == CaptureStage::NewChannelFailed(code),
        stage_after(CaptureStage::PdmModeFailed(code), ret, has_stream)
            == CaptureStage::PdmModeFailed(code),
{
}

} // verus!
