//! Frames on their way from the capture task to the websocket subscribers: who
//! listens, when capture starts, and what each connection does with what it hears.

use vstd::arithmetic::div_mod::lemma_small_mod;
use vstd::prelude::*;

use crate::counter::{lemma_wrapping_steps, wrapping_pred, wrapping_succ};
use crate::frame_pool::{
    exhausted, filled, frame_payload, is_first_free, law_a_free_slot_is_always_found,
    law_the_lowest_free_slot_is_taken, make_frame, overwritten, released,
    FrameHandle, FramePool, SlotView, FRAME_POOL_CAPACITY,
};
use crate::FRAME_BYTES;

verus! {

/// Number of outgoing messages that a connection queues for its writer.
pub const OUTGOING_QUEUE: usize = 16;

/// The number of subscribers that are connected.
pub struct ActiveSubscribers {
    count: usize,
}

impl View for ActiveSubscribers {
    type V = usize;

    closed spec fn view(&self) -> usize {
        self.count
    }
}

impl ActiveSubscribers {
    /// Nobody is connected.
    pub fn new() -> (r: ActiveSubscribers)
        ensures
            r@ == 0,
    {
        ActiveSubscribers { count: 0 }
    }

    /// The number of subscribers.
    pub fn count(&self) -> (n: usize)
        ensures
            n == self@,
    {
        self.count
    }
}

/// Counts one subscriber for as long as it is held.
pub struct SubscriberGuard {
    _counted: (),
}

impl SubscriberGuard {
    /// Counts a subscriber in.
    pub fn new(active: &mut ActiveSubscribers) -> (r: SubscriberGuard)
        ensures
            final(active)@ == wrapping_succ(old(active)@),
    {
        active.count = active.count.wrapping_add(1);
        SubscriberGuard { _counted: () }
    }

    /// Counts the subscriber out.
    pub fn drop(self, active: &mut ActiveSubscribers)
        ensures
            final(active)@ == wrapping_pred(old(active)@),
    {
        active.count = active.count.wrapping_sub(1);
    }
}

/// Whether a claim to start capture is granted. Without a network (`None`) it is, unless
/// capture was started before; for a subscriber, it must also be the only one.
pub open spec fn grants_start(started: bool, subscribers: Option<usize>) -> bool {
    !started && (subscribers matches Some(n) ==> n == 1)
}

/// Whether capture is started after these claims, one after the other.
pub open spec fn started_after(claims: Seq<Option<usize>>) -> bool
    decreases claims.len(),
{
    claims.len() > 0 && {
        let before = started_after(claims.drop_last());
        before || grants_start(before, claims.last())
    }
}

/// Whether the capture pipeline was started.
pub struct PdmStarted {
    started: bool,
}

impl View for PdmStarted {
    type V = bool;

    closed spec fn view(&self) -> bool {
        self.started
    }
}

impl PdmStarted {
    /// Capture was not started yet.
    pub fn new() -> (r: PdmStarted)
        ensures
            !r@,
    {
        PdmStarted { started: false }
    }

    /// Claims the start of capture, which without Wi-Fi happens at once. True for the
    /// first claim only.
    pub fn start_without_network(&mut self) -> (start: bool)
        ensures
            start == grants_start(old(self)@, None),
            final(self)@ == (old(self)@ || start),
    {
        let start: bool = !self.started;
        self.started = true;
        start
    }

    /// Claims the start of capture for a subscriber that was just counted in. True when
    /// it is the only one and capture was not started before.
    pub fn start_for_subscriber(&mut self, active: &ActiveSubscribers) -> (start: bool)
        ensures
            start == grants_start(old(self)@, Some(active@)),
            final(self)@ == (old(self)@ || start),
    {
        if !self.started {
            if active.count() == 1 {
                self.started = true;
                return true;
            }
        }
        false
    }
}

/// Counts a new connection in, and claims the start of capture for it. Gives the guard
/// that counts it out again, and whether capture is to be started now.
pub fn open_connection(active: &mut ActiveSubscribers, started: &mut PdmStarted) -> (r: (
    SubscriberGuard,
    bool,
))
    ensures
        final(active)@ == wrapping_succ(old(active)@),
        r.1 == grants_start(old(started)@, Some(final(active)@)),
        final(started)@ == (old(started)@ || r.1),
{
    let guard: SubscriberGuard = SubscriberGuard::new(active);
    let start: bool = started.start_for_subscriber(active);
    (guard, start)
}

/// What the sink of samples does with one read.
pub enum SinkStep {
    /// There is no channel to send on yet.
    NoSender,
    /// Nobody listens: the samples are let go.
    NoSubscribers,
    /// Send this frame to the subscribers.
    Send(FrameHandle),
    /// The samples do not fit a slot, or no slot is free: they are let go.
    PoolExhausted,
}

/// The number of bytes that the sink reports for a step: all of them, or none while
/// there is no channel.
pub open spec fn reported_bytes(step: SinkStep, num_samples: nat) -> int {
    if step is NoSender {
        0
    } else {
        2 * num_samples as int
    }
}

/// `step` is what becomes of a read of so many samples.
pub open spec fn sink_decides(
    has_sender: bool,
    subscribers: usize,
    num_samples: nat,
    slots: Seq<SlotView>,
    step: SinkStep,
) -> bool {
    if !has_sender {
        step is NoSender
    } else if subscribers == 0 {
        step is NoSubscribers
    } else if 2 * num_samples > FRAME_BYTES || exhausted(slots) {
        step is PoolExhausted
    } else {
        step matches SinkStep::Send(frame) && is_first_free(slots, frame.slot())
    }
}

/// Decides what becomes of the samples of one read, and makes a frame of them where
/// somebody listens. Only a read of at most 320 samples fits a slot: a longer one, such as
/// one that fills the whole read buffer, is let go and sends nothing to the subscribers.
pub fn pdm_ws_stream(
    has_sender: bool,
    active: &ActiveSubscribers,
    pool: &mut FramePool,
    samples: &[i16],
) -> (r: (SinkStep, isize))
    requires
        old(pool).wf(),
        2 * samples@.len() <= isize::MAX,
    ensures
        final(pool).wf(),
        r.1 == reported_bytes(r.0, samples@.len()),
        r.0 is NoSender <==> !has_sender,
        r.0 is NoSubscribers <==> has_sender && active@ == 0,
        r.0 is PoolExhausted <==> has_sender && active@ != 0 && (2 * samples@.len() > FRAME_BYTES
            || exhausted(old(pool)@)),
        match r.0 {
            SinkStep::Send(frame) => {
                &&& frame.wf()
                &&& is_first_free(old(pool)@, frame.slot())
                &&& final(pool)@ == filled(old(pool)@, frame.slot(), samples@)
                &&& final(pool).buffers() == overwritten(
                    old(pool).buffers(),
                    frame.slot(),
                    frame_payload(samples@),
                )
            },
            _ => final(pool)@ == old(pool)@ && final(pool).buffers() == old(pool).buffers(),
        },
        sink_decides(has_sender, active@, samples@.len(), old(pool)@, r.0),
        r.0 is PoolExhausted && 2 * samples@.len() <= FRAME_BYTES ==> forall|j: int|
            0 <= j < FRAME_POOL_CAPACITY ==> #[trigger] old(pool)@[j].refs != 0,
{
    if !has_sender {
        return (SinkStep::NoSender, 0);
    }
    let reported: isize = samples.len() as isize * 2;
    if active.count() == 0 {
        return (SinkStep::NoSubscribers, reported);
    }
    let ghost before = pool@;
    match make_frame(pool, samples) {
        Some(frame) => {
            assert(!exhausted(before));
            (SinkStep::Send(frame), reported)
        },
        None => (SinkStep::PoolExhausted, reported),
    }
}

/// The number of frames sent, after one more attempt: only those count that some
/// subscriber was there for. The count wraps around.
pub fn count_frame(frames: usize, sent: bool) -> (r: usize)
    ensures
        r == (if sent {
            wrapping_succ(frames)
        } else {
            frames
        }),
{
    if sent {
        frames.wrapping_add(1)
    } else {
        frames
    }
}

/// What a connection received from its client.
pub enum Incoming {
    /// A close message.
    Close,
    /// A ping with its payload.
    Ping(Vec<u8>),
    /// Any other message.
    Other,
    /// The connection failed.
    Failed,
    /// The stream of messages ended.
    Ended,
}

/// What a connection does about it.
pub enum Reply {
    /// Stop reading.
    Stop,
    /// Queue a pong with this payload.
    Pong(Vec<u8>),
    /// Nothing.
    Ignore,
}

/// `reply` is what a connection does about `msg`.
pub open spec fn answers(msg: Incoming, reply: Reply) -> bool {
    match msg {
        Incoming::Close | Incoming::Failed | Incoming::Ended => reply is Stop,
        Incoming::Ping(payload) => reply matches Reply::Pong(echo) && echo@ == payload@,
        Incoming::Other => reply is Ignore,
    }
}

/// Answers a ping with its own payload, and reads on until the client closes, fails or
/// goes away.
pub fn on_incoming(msg: Incoming) -> (r: Reply)
    ensures
        r is Stop <==> msg is Close || msg is Failed || msg is Ended,
        r is Ignore <==> msg is Other,
        msg matches Incoming::Ping(payload) ==> r matches Reply::Pong(echo) && echo@ == payload@,
        answers(msg, r),
{
    match msg {
        Incoming::Close => Reply::Stop,
        Incoming::Ping(payload) => Reply::Pong(payload),
        Incoming::Other => Reply::Ignore,
        Incoming::Failed => Reply::Stop,
        Incoming::Ended => Reply::Stop,
    }
}

/// What a connection heard from the capture task.
pub enum Heard {
    /// A frame.
    Frame(FrameHandle),
    /// So many frames were overwritten before the connection got to them.
    Lagged(u64),
    /// No more frames will come.
    Closed,
}

/// What a connection does about it.
pub enum Forward {
    /// Queue a binary message with this payload, and hold on to the frame meanwhile.
    Binary(Vec<u8>, FrameHandle),
    /// Wait for the next frame.
    Next,
    /// Stop forwarding.
    Stop,
}

/// `r` is what a connection does about `heard`, given the pool's slots.
pub open spec fn forwards(heard: Heard, slots: Seq<SlotView>, r: Forward) -> bool {
    match heard {
        Heard::Frame(frame) => r matches Forward::Binary(payload, held) && payload@
            == slots[frame.slot()].payload && held == frame,
        Heard::Lagged(_) => r is Next,
        Heard::Closed => r is Stop,
    }
}

/// Copies the payload of a frame out of the pool. The frame itself is held until the
/// message is queued. A lagging connection carries on with the latest frames.
pub fn on_heard(heard: Heard, pool: &FramePool) -> (r: Forward)
    requires
        pool.wf(),
        heard matches Heard::Frame(frame) ==> frame.wf(),
    ensures
        r is Next <==> heard is Lagged,
        r is Stop <==> heard is Closed,
        heard matches Heard::Frame(frame) ==> r matches Forward::Binary(payload, held) && payload@
            == pool@[frame.slot()].payload && held == frame,
        forwards(heard, pool@, r),
{
    match heard {
        Heard::Frame(frame) => {
            let payload: Vec<u8> = vstd::slice::slice_to_vec(frame.as_slice(pool));
            Forward::Binary(payload, frame)
        },
        Heard::Lagged(_) => Forward::Next,
        Heard::Closed => Forward::Stop,
    }
}

/// Gives a frame back once its message was queued, or could not be because the writer is
/// gone. Without a writer there is nothing left to forward to.
pub fn on_queued(frame: FrameHandle, queued: bool, pool: &mut FramePool) -> (r: Forward)
    requires
        old(pool).wf(),
        frame.wf(),
    ensures
        final(pool).wf(),
        final(pool)@ == released(old(pool)@, frame.slot()),
        final(pool).buffers() == old(pool).buffers(),
        r is Next <==> queued,
        r is Stop <==> !queued,
{
    frame.drop(pool);
    if queued {
        Forward::Next
    } else {
        Forward::Stop
    }
}

/// Counting a subscriber in and out again leaves the count as it was.
pub proof fn law_guard_is_neutral(count: usize)
    ensures
        wrapping_pred(wrapping_succ(count)) == count,
{
}

/// One event in the life of a subscriber's guard, which is told apart by a number.
pub ghost enum GuardOp {
    /// The guard is made.
    New(int),
    /// The guard is dropped.
    Drop(int),
}

/// The guards that are alive after these events.
pub open spec fn live_guards(ops: Seq<GuardOp>) -> Set<int>
    decreases ops.len(),
{
    if ops.len() == 0 {
        Set::empty()
    } else {
        match ops.last() {
            GuardOp::New(id) => live_guards(ops.drop_last()).insert(id),
            GuardOp::Drop(id) => live_guards(ops.drop_last()).remove(id),
        }
    }
}

/// The number of subscribers that is counted after these events, from none on.
pub open spec fn count_after(ops: Seq<GuardOp>) -> usize
    decreases ops.len(),
{
    if ops.len() == 0 {
        0
    } else {
        match ops.last() {
            GuardOp::New(_) => wrapping_succ(count_after(ops.drop_last())),
            GuardOp::Drop(_) => wrapping_pred(count_after(ops.drop_last())),
        }
    }
}

/// A guard is dropped only while it is alive, and so at most once; no two live guards
/// are the same.
pub open spec fn is_guard_history(ops: Seq<GuardOp>) -> bool {
    forall|n: int|
        #![trigger ops[n]]
        0 <= n < ops.len() ==> match ops[n] {
            GuardOp::New(id) => !live_guards(ops.take(n)).contains(id),
            GuardOp::Drop(id) => live_guards(ops.take(n)).contains(id),
        }
}

/// Whatever guards are made and dropped, the count is the number of those alive, up to
/// the point where it wraps around: it equals that number as long as it fits.
pub proof fn law_count_is_the_live_guards(ops: Seq<GuardOp>)
    requires
        is_guard_history(ops),
    ensures
        live_guards(ops).finite(),
        count_after(ops) == live_guards(ops).len() as int % (usize::MAX + 1),
        live_guards(ops).len() <= usize::MAX ==> count_after(ops) == live_guards(ops).len(),
    decreases ops.len(),
{
    if ops.len() > 0 {
        let head = ops.drop_last();
        let last = ops.len() - 1;
        assert forall|n: int| #![trigger head[n]] 0 <= n < head.len() implies match head[n] {
            GuardOp::New(id) => !live_guards(head.take(n)).contains(id),
            GuardOp::Drop(id) => live_guards(head.take(n)).contains(id),
        } by {
            assert(head.take(n) =~= ops.take(n));
            assert(head[n] == ops[n]);
        }
        law_count_is_the_live_guards(head);
        assert(ops.take(last) =~= head);
        assert(ops[last] == ops.last());
        lemma_wrapping_steps(live_guards(head).len() as int);
    }
    if live_guards(ops).len() <= usize::MAX {
        lemma_small_mod(live_guards(ops).len(), (usize::MAX + 1) as nat);
    }
}

/// The first subscriber starts capture, where it was not started before.
pub proof fn law_first_subscriber_starts_capture(started: bool)
    ensures
        grants_start(started, Some(wrapping_succ(0))) == !started,
{
}

/// The sink makes the stream rest only while there is no channel to send on: whatever
/// else becomes of a read that brought samples, it is reported as taken.
pub proof fn law_stream_rests_only_without_sender(step: SinkStep, num_samples: nat)
    requires
        num_samples > 0,
    ensures
        reported_bytes(step, num_samples) <= 0 <==> step is NoSender,
{
}

/// Once started, capture stays started.
proof fn lemma_started_stays(claims: Seq<Option<usize>>, i: int, j: int)
    requires
        0 <= i <= j <= claims.len(),
        started_after(claims.take(i)),
    ensures
        started_after(claims.take(j)),
    decreases j - i,
{
    if i < j {
        lemma_started_stays(claims, i, j - 1);
        assert(claims.take(j).drop_last() =~= claims.take(j - 1));
    }
}

/// Capture starts at most once, whoever claims its start and in whatever order: of two
/// claims at most one is granted.
pub proof fn law_capture_starts_once(claims: Seq<Option<usize>>, i: int, j: int)
    requires
        0 <= i < j < claims.len(),
        grants_start(started_after(claims.take(i)), claims[i]),
    ensures
        !grants_start(started_after(claims.take(j)), claims[j]),
{
    assert(claims.take(i + 1).drop_last() =~= claims.take(i));
    lemma_started_stays(claims, i + 1, j);
}

/// A claim is granted exactly when capture was not started and the claim is for no network
/// or for the only subscriber.
pub proof fn law_only_the_first_starts_capture(started: bool, count: usize)
    ensures
        grants_start(started, None) <==> !started,
        grants_start(started, Some(count)) <==> !started && count == 1,
{
}

/// After any claims capture is started exactly when one of them was for no network or for
/// an only subscriber: no such claim is lost, and no other starts anything.
pub proof fn law_started_exactly_when_somebody_could_start(claims: Seq<Option<usize>>)
    ensures
        started_after(claims) <==> exists|k: int|
            0 <= k < claims.len() && (#[trigger] claims[k] == None::<usize> || claims[k] == Some(
                1usize,
            )),
    decreases claims.len(),
{
    if claims.len() > 0 {
        let head = claims.drop_last();
        law_started_exactly_when_somebody_could_start(head);
        assert(forall|k: int| 0 <= k < head.len() ==> #[trigger] head[k] == claims[k]);
        if started_after(head) {
            let k = choose|k: int|
                0 <= k < head.len() && (#[trigger] head[k] == None::<usize> || head[k] == Some(
                    1usize,
                ));
            assert(claims[k] == head[k]);
        }
        if exists|k: int|
            0 <= k < claims.len() && (#[trigger] claims[k] == None::<usize> || claims[k] == Some(
                1usize,
            )) {
            let k = choose|k: int|
                0 <= k < claims.len() && (#[trigger] claims[k] == None::<usize> || claims[k]
                    == Some(1usize));
            if k < head.len() {
                assert(head[k] == claims[k]);
            }
        }
        assert(claims[claims.len() - 1] == claims.last());
    }
}

/// What the sink reports: nothing without a channel, and otherwise all bytes of the read,
/// two for each sample, whatever became of them.
pub proof fn law_every_read_is_reported_whole(frame: FrameHandle, num_samples: nat)
    ensures
        reported_bytes(SinkStep::NoSender, num_samples) == 0,
        reported_bytes(SinkStep::NoSubscribers, num_samples) == 2 * num_samples,
        reported_bytes(SinkStep::Send(frame), num_samples) == 2 * num_samples,
        reported_bytes(SinkStep::PoolExhausted, num_samples) == 2 * num_samples,
{
}

/// Samples reach the subscribers: where there is a channel and at least one subscriber, a
/// read of at most 320 samples is sent whenever a slot is free, and that slot was. Nothing
/// is sent otherwise.
pub proof fn law_audio_is_sent_whenever_there_is_room(
    has_sender: bool,
    subscribers: usize,
    num_samples: nat,
    slots: Seq<SlotView>,
    step: SinkStep,
    k: int,
)
    requires
        sink_decides(has_sender, subscribers, num_samples, slots, step),
    ensures
        has_sender && subscribers > 0 && num_samples <= 320 && 0 <= k < slots.len()
            && slots[k].refs == 0 ==> (step matches SinkStep::Send(frame) && 0 <= frame.slot() <= k
            && slots[frame.slot()].refs == 0),
        step is Send ==> has_sender && subscribers > 0 && num_samples <= 320,
        step is NoSender <==> !has_sender,
        step is NoSubscribers <==> has_sender && subscribers == 0,
{
    if 0 <= k < slots.len() && slots[k].refs == 0 {
        law_a_free_slot_is_always_found(slots, k);
        if step is Send {
            let i = choose|i: int| 0 <= i <= k && #[trigger] is_first_free(slots, i);
            law_the_lowest_free_slot_is_taken(slots, step->Send_0.slot(), i);
        }
    }
}

/// Every ping is answered with its own payload, whatever it holds; reading stops exactly
/// when the client closes, fails or goes away, and every other message is passed over.
pub proof fn law_every_ping_is_echoed(msg: Incoming, reply: Reply)
    requires
        answers(msg, reply),
    ensures
        msg matches Incoming::Ping(payload) ==> reply matches Reply::Pong(echo) && echo@
            == payload@,
        reply is Pong ==> msg is Ping,
        reply is Stop <==> msg is Close || msg is Failed || msg is Ended,
        msg is Other ==> reply is Ignore,
{
}

/// Every frame that is heard is forwarded whole and held; a connection stops only when no
/// more frames will come, and goes on however many it missed.
pub proof fn law_every_heard_frame_is_forwarded(heard: Heard, slots: Seq<SlotView>, r: Forward)
    requires
        forwards(heard, slots, r),
    ensures
        heard matches Heard::Frame(frame) ==> r matches Forward::Binary(payload, held) && payload@
            == slots[frame.slot()].payload && held.slot() == frame.slot(),
        r is Stop <==> heard is Closed,
        r is Next <==> heard is Lagged,
{
}

} // verus!
