use esp32s3_i2s_mic_idf::capture::{
    i2s_rx_channel_config, next_stage, pdm_rx_config, read_request_bytes, stream_pcm,
    stream_to_sink, task_created, usb_serial_sink, CaptureStage, DownSampling, I2sRole, RawAction,
    SlotMask, SlotMode, StreamAction, StreamEvent,
};

fn run(mut stage: CaptureStage, rets: &[i32], has_stream: bool) -> CaptureStage {
    for ret in rets {
        stage = next_stage(stage, *ret, has_stream);
    }
    stage
}

#[test]
fn the_channel_is_set_up_for_the_microphone() {
    let channel = i2s_rx_channel_config();
    assert_eq!(channel.id, 0);
    assert_eq!(channel.role, I2sRole::Master);
    assert_eq!(channel.dma_desc_num, 24);
    assert_eq!(channel.dma_frame_num, 512);
    assert!(channel.auto_clear_before_cb);
    assert!(!channel.allow_pd);
    assert_eq!(channel.intr_priority, 0);

    let pdm = pdm_rx_config();
    assert_eq!(pdm.clk_cfg.sample_rate_hz, 16_000);
    assert_eq!(pdm.clk_cfg.mclk_multiple, 256);
    assert_eq!(pdm.clk_cfg.dn_sample_mode, DownSampling::Dsr16S);
    assert_eq!(pdm.clk_cfg.bclk_div, 0);
    assert_eq!(pdm.slot_cfg.data_bit_width, 16);
    assert_eq!(pdm.slot_cfg.slot_bit_width, 16);
    assert_eq!(pdm.slot_cfg.slot_mode, SlotMode::Mono);
    assert_eq!(pdm.slot_cfg.slot_mask, SlotMask::Right);
    assert_eq!(pdm.gpio_cfg.clk, 42);
    assert_eq!(pdm.gpio_cfg.din, 41);
    assert_eq!(read_request_bytes(), 1024);
}

#[test]
fn only_pd_pass_means_that_a_task_was_created() {
    assert_eq!(task_created(1), Ok(()));
    assert_eq!(task_created(0), Err(0));
    assert_eq!(task_created(-1), Err(-1));
}

#[test]
fn a_clean_start_ends_in_streaming() {
    assert_eq!(run(CaptureStage::InstallUsb, &[0, 0, 0, 0], true), CaptureStage::Stream);
    assert_eq!(run(CaptureStage::InstallUsb, &[-1, 0, 0, 0], true), CaptureStage::Stream);
    assert_eq!(run(CaptureStage::CreateChannel, &[0, 0, 0, 5, 6], true), CaptureStage::Stream);
}

#[test]
fn every_failure_on_the_way_has_its_end() {
    assert_eq!(
        run(CaptureStage::InstallUsb, &[0, 257], true),
        CaptureStage::NewChannelFailed(257)
    );
    assert_eq!(
        run(CaptureStage::InstallUsb, &[0, 0, 258], true),
        CaptureStage::PdmModeFailed(258)
    );
    assert_eq!(run(CaptureStage::InstallUsb, &[0, 0, 0, 259], true), CaptureStage::DeleteTask);
    assert_eq!(run(CaptureStage::InstallUsb, &[0, 0, 0, 0], false), CaptureStage::DeleteTask);
    assert_eq!(
        run(CaptureStage::InstallUsb, &[0, 257, 0, 0, 0], true),
        CaptureStage::NewChannelFailed(257)
    );
}

#[test]
fn failed_and_empty_reads_are_repeated() {
    let mut buf = [100i16; 4];
    assert_eq!(
        stream_to_sink(StreamEvent::Read { ret: 263, num_bytes: 8 }, &mut buf),
        StreamAction::Read
    );
    assert_eq!(
        stream_to_sink(StreamEvent::Read { ret: 0, num_bytes: 0 }, &mut buf),
        StreamAction::Read
    );
    assert_eq!(buf, [100; 4]);
}

#[test]
fn a_good_read_is_attenuated_and_given_to_the_sink() {
    let mut buf = [100i16, -5, 8, 9];
    assert_eq!(
        stream_to_sink(StreamEvent::Read { ret: 0, num_bytes: 7 }, &mut buf),
        StreamAction::Sink(3)
    );
    assert_eq!(buf, [50, -3, 4, 9]);
    assert_eq!(
        stream_to_sink(StreamEvent::Read { ret: 0, num_bytes: 1 }, &mut buf),
        StreamAction::Sink(0)
    );
    assert_eq!(buf, [50, -3, 4, 9]);
}

#[test]
fn a_sink_that_takes_nothing_is_given_a_rest() {
    let mut buf = [1i16; 1];
    assert_eq!(stream_to_sink(StreamEvent::Wrote(2), &mut buf), StreamAction::Read);
    assert_eq!(stream_to_sink(StreamEvent::Wrote(0), &mut buf), StreamAction::Delay);
    assert_eq!(stream_to_sink(StreamEvent::Wrote(-1), &mut buf), StreamAction::Delay);
}

#[test]
fn a_raw_stream_forwards_every_byte_of_a_read() {
    let mut buf = [0x0204i16, -2, 0x0666];
    match stream_pcm(StreamEvent::Read { ret: 0, num_bytes: 5 }, &mut buf) {
        RawAction::Forward(raw) => assert_eq!(raw, vec![0x02, 0x01, 0xff, 0xff, 0x66]),
        _ => panic!("nothing was forwarded"),
    }
    assert_eq!(buf, [0x0102, -1, 0x0666]);
    assert!(matches!(
        stream_pcm(StreamEvent::Read { ret: 1, num_bytes: 5 }, &mut buf),
        RawAction::Read
    ));
    assert!(matches!(stream_pcm(StreamEvent::Wrote(0), &mut buf), RawAction::Delay));
    assert!(matches!(stream_pcm(StreamEvent::Wrote(9), &mut buf), RawAction::Read));
}

#[test]
fn both_streams_send_the_same_bytes() {
    let raw = [12345i16, -12345, 7, -7];
    let mut a = raw;
    let mut b = raw;
    let event = StreamEvent::Read { ret: 0, num_bytes: 6 };
    let sent = match stream_to_sink(event, &mut a) {
        StreamAction::Sink(n) => usb_serial_sink(&a[..n]),
        _ => panic!("nothing for the sink"),
    };
    match stream_pcm(event, &mut b) {
        RawAction::Forward(bytes) => assert_eq!(bytes, sent),
        _ => panic!("nothing was forwarded"),
    }
}

#[test]
fn what_a_failed_read_counts_does_not_matter() {
    let mut buf = [100i16, -100];
    let failed = StreamEvent::Read { ret: 259, num_bytes: usize::MAX };
    assert_eq!(stream_to_sink(failed, &mut buf), StreamAction::Read);
    assert!(matches!(stream_pcm(failed, &mut buf), RawAction::Read));
    assert_eq!(buf, [100, -100]);
}
