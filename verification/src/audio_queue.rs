//! The bounded queue of raw frames between the capture task and the websocket server.

use std::collections::VecDeque;
use vstd::prelude::*;

verus! {

/// Size of the largest raw frame: one read of the receive channel.
pub const RAW_FRAME_BYTES: usize = 1024;

/// Number of frames that the queue holds.
pub const AUDIO_QUEUE_FRAMES: usize = 8;

/// Milliseconds that the server waits for a frame before it looks again.
pub const FRAME_WAIT_MS: u64 = 250;

/// The fixed-capacity vector of the `heapless` crate.
#[verifier::external_type_specification]
#[verifier::external_body]
#[verifier::reject_recursive_types(T)]
pub struct ExHeaplessVec<T, const N: usize>(heapless::Vec<T, N>);

/// A raw frame.
pub type Frame = heapless::Vec<u8, RAW_FRAME_BYTES>;

/// The bytes that a frame holds.
pub uninterp spec fn frame_bytes(frame: Frame) -> Seq<u8>;

/// Calls `heapless::Vec::new`: the frame is empty.
#[verifier::external_body]
fn new_frame() -> (frame: Frame)
    ensures
        frame_bytes(frame) == Seq::<u8>::empty(),
{
    Frame::new()
}

/// Calls `heapless::Vec::extend_from_slice`: the bytes are appended, or the frame is left
/// as it was when they do not fit.
#[verifier::external_body]
fn extend_frame(frame: &mut Frame, raw: &[u8]) -> (r: Result<(), ()>)
    ensures
        r is Ok <==> frame_bytes(*old(frame)).len() + raw@.len() <= RAW_FRAME_BYTES,
        r is Ok ==> frame_bytes(*final(frame)) == frame_bytes(*old(frame)) + raw@,
        r is Err ==> frame_bytes(*final(frame)) == frame_bytes(*old(frame)),
{
    frame.extend_from_slice(raw)
}

/// Calls `heapless::Vec::as_slice`: the bytes of the frame, never more than its capacity.
#[verifier::external_body]
pub(crate) fn frame_as_slice(frame: &Frame) -> (r: &[u8])
    ensures
        r@ == frame_bytes(*frame),
        r@.len() <= RAW_FRAME_BYTES,
{
    frame.as_slice()
}

/// What became of a raw frame.
#[derive(Debug, Clone, Copy, PartialEq, Eq, Structural)]
pub enum Pushed {
    /// It is in the queue.
    Queued,
    /// It is larger than a frame may be, and was dropped.
    TooLarge,
    /// The queue is full: the consumer is slow, and the frame was dropped.
    Full,
    /// Nobody will ever take it, and it was dropped.
    Disconnected,
}

/// What the consumer finds.
pub enum Taken {
    /// The oldest frame.
    Frame(Frame),
    /// Nothing at the moment.
    Empty,
    /// Nothing, for good.
    Disconnected,
}

/// The queue: oldest frame first.
pub struct AudioContext {
    frames: VecDeque<Frame>,
    producer_gone: bool,
    consumer_gone: bool,
}

impl View for AudioContext {
    type V = Seq<Seq<u8>>;

    closed spec fn view(&self) -> Seq<Seq<u8>> {
        self.frames@.map_values(|f: Frame| frame_bytes(f))
    }
}

impl AudioContext {
    /// The queue is within its bound.
    pub closed spec fn wf(self) -> bool {
        self.frames@.len() <= AUDIO_QUEUE_FRAMES
    }

    /// The producer hung up.
    pub closed spec fn no_producer(self) -> bool {
        self.producer_gone
    }

    /// The consumer hung up.
    pub closed spec fn no_consumer(self) -> bool {
        self.consumer_gone
    }

    /// An empty queue with both ends connected.
    pub fn new() -> (r: AudioContext)
        ensures
            r.wf(),
            r@ == Seq::<Seq<u8>>::empty(),
            !r.no_producer(),
            !r.no_consumer(),
    {
        let r = AudioContext {
            frames: VecDeque::new(),
            producer_gone: false,
            consumer_gone: false,
        };
        assert(r@ =~= Seq::<Seq<u8>>::empty());
        r
    }

    /// Queues the bytes of one read as a frame, or drops them: when there are too many,
    /// when the consumer hung up, or when the queue is full.
    pub fn push_frame(&mut self, raw: &[u8]) -> (r: Pushed)
        requires
            old(self).wf(),
        ensures
            final(self).wf(),
            r == (if raw@.len() > RAW_FRAME_BYTES {
                Pushed::TooLarge
            } else if old(self).no_consumer() {
                Pushed::Disconnected
            } else if old(self)@.len() >= AUDIO_QUEUE_FRAMES {
                Pushed::Full
            } else {
                Pushed::Queued
            }),
            final(self)@ == (if r == Pushed::Queued {
                old(self)@.push(raw@)
            } else {
                old(self)@
            }),
            r == push_outcome(old(self)@, raw@, old(self).no_consumer()),
            old(self).no_consumer() ==> final(self)@ == old(self)@,
            !old(self).no_consumer() ==> final(self)@ == after_queue_op(
                old(self)@,
                QueueOp::Push(raw@),
            ),
            final(self).no_producer() == old(self).no_producer(),
            final(self).no_consumer() == old(self).no_consumer(),
    {
        let mut frame: Frame = new_frame();
        if extend_frame(&mut frame, raw).is_err() {
            return Pushed::TooLarge;
        }
        if self.consumer_gone {
            return Pushed::Disconnected;
        }
        if self.frames.len() >= AUDIO_QUEUE_FRAMES {
            return Pushed::Full;
        }
        let ghost before = self@;
        assert(frame_bytes(frame) =~= raw@);
        self.frames.push_back(frame);
        assert(self@ =~= before.push(raw@));
        Pushed::Queued
    }

    /// Takes the oldest frame out of the queue.
    pub fn try_recv(&mut self) -> (r: Taken)
        requires
            old(self).wf(),
        ensures
            final(self).wf(),
            match r {
                Taken::Frame(frame) => {
                    &&& old(self)@.len() > 0
                    &&& frame_bytes(frame) == old(self)@[0]
                    &&& final(self)@ == old(self)@.drop_first()
                },
                Taken::Empty => {
                    &&& old(self)@.len() == 0 && !old(self).no_producer()
                    &&& final(self)@ == old(self)@
                },
                Taken::Disconnected => {
                    &&& old(self)@.len() == 0 && old(self).no_producer()
                    &&& final(self)@ == old(self)@
                },
            },
            final(self)@ == after_queue_op(old(self)@, QueueOp::Take),
            found(old(self)@, old(self).no_producer(), r),
            final(self).no_producer() == old(self).no_producer(),
            final(self).no_consumer() == old(self).no_consumer(),
    {
        let ghost before = self@;
        match self.frames.pop_front() {
            Some(frame) => {
                assert(self@ =~= before.drop_first());
                Taken::Frame(frame)
            },
            None => {
                if self.producer_gone {
                    Taken::Disconnected
                } else {
                    Taken::Empty
                }
            },
        }
    }

    /// The producer hangs up.
    pub fn close_producer(&mut self)
        requires
            old(self).wf(),
        ensures
            final(self).wf(),
            final(self)@ == old(self)@,
            final(self).no_producer(),
            final(self).no_consumer() == old(self).no_consumer(),
    {
        self.producer_gone = true;
    }

    /// The consumer hangs up.
    pub fn close_consumer(&mut self)
        requires
            old(self).wf(),
        ensures
            final(self).wf(),
            final(self)@ == old(self)@,
            final(self).no_producer() == old(self).no_producer(),
            final(self).no_consumer(),
    {
        self.consumer_gone = true;
    }
}

/// Throws away what is queued, so that a new client hears live audio.
pub fn drain_audio_queue(queue: &mut AudioContext)
    requires
        old(queue).wf(),
    ensures
        final(queue).wf(),
        final(queue)@ == Seq::<Seq<u8>>::empty(),
        final(queue).no_producer() == old(queue).no_producer(),
        final(queue).no_consumer() == old(queue).no_consumer(),
{
    loop
        invariant
            queue.wf(),
            queue.no_producer() == old(queue).no_producer(),
            queue.no_consumer() == old(queue).no_consumer(),
        ensures
            queue@.len() == 0,
        decreases queue@.len(),
    {
        match queue.try_recv() {
            Taken::Frame(_) => {},
            Taken::Empty => {
                break ;
            },
            Taken::Disconnected => {
                break ;
            },
        }
    }
    assert(queue@ =~= Seq::<Seq<u8>>::empty());
}

/// One operation on a queue with a consumer at its other end.
pub ghost enum QueueOp {
    /// These bytes are pushed.
    Push(Seq<u8>),
    /// The oldest frame is taken, if there is one.
    Take,
}

/// The queue takes these bytes in: they fit a frame, and there is room for one.
pub open spec fn takes_in(queue: Seq<Seq<u8>>, raw: Seq<u8>) -> bool {
    raw.len() <= RAW_FRAME_BYTES && queue.len() < AUDIO_QUEUE_FRAMES
}

/// The frames in a queue after one operation.
pub open spec fn after_queue_op(queue: Seq<Seq<u8>>, op: QueueOp) -> Seq<Seq<u8>> {
    match op {
        QueueOp::Push(raw) => if takes_in(queue, raw) {
            queue.push(raw)
        } else {
            queue
        },
        QueueOp::Take => if queue.len() > 0 {
            queue.drop_first()
        } else {
            queue
        },
    }
}

/// What becomes of bytes that are pushed.
pub open spec fn push_outcome(queue: Seq<Seq<u8>>, raw: Seq<u8>, no_consumer: bool) -> Pushed {
    if raw.len() > RAW_FRAME_BYTES {
        Pushed::TooLarge
    } else if no_consumer {
        Pushed::Disconnected
    } else if takes_in(queue, raw) {
        Pushed::Queued
    } else {
        Pushed::Full
    }
}

/// `taken` is what the consumer finds in the queue.
pub open spec fn found(queue: Seq<Seq<u8>>, no_producer: bool, taken: Taken) -> bool {
    match taken {
        Taken::Frame(frame) => queue.len() > 0 && frame_bytes(frame) == queue[0],
        Taken::Empty => queue.len() == 0 && !no_producer,
        Taken::Disconnected => queue.len() == 0 && no_producer,
    }
}

/// The frames in a queue after these operations, one after the other.
pub open spec fn after_queue_ops(queue: Seq<Seq<u8>>, ops: Seq<QueueOp>) -> Seq<Seq<u8>>
    decreases ops.len(),
{
    if ops.len() == 0 {
        queue
    } else {
        after_queue_op(after_queue_ops(queue, ops.drop_last()), ops.last())
    }
}

/// The frames that these operations brought into the queue, in order: too large ones are
/// left out, and those that came when it was full.
pub open spec fn frames_in(queue: Seq<Seq<u8>>, ops: Seq<QueueOp>) -> Seq<Seq<u8>>
    decreases ops.len(),
{
    if ops.len() == 0 {
        Seq::empty()
    } else {
        let before = frames_in(queue, ops.drop_last());
        match ops.last() {
            QueueOp::Push(raw) if takes_in(
                after_queue_ops(queue, ops.drop_last()),
                raw,
            ) => before.push(raw),
            _ => before,
        }
    }
}

/// The frames that these operations took out of the queue, in order.
pub open spec fn frames_out(queue: Seq<Seq<u8>>, ops: Seq<QueueOp>) -> Seq<Seq<u8>>
    decreases ops.len(),
{
    if ops.len() == 0 {
        Seq::empty()
    } else {
        let before = frames_out(queue, ops.drop_last());
        let held = after_queue_ops(queue, ops.drop_last());
        if ops.last() is Take && held.len() > 0 {
            before.push(held[0])
        } else {
            before
        }
    }
}

/// Frames come out in the order in which they went in, whatever pushes and takes there
/// are and in whatever order: what was there and what came in is what went out and what
/// is left.
pub proof fn law_queue_is_first_in_first_out(queue: Seq<Seq<u8>>, ops: Seq<QueueOp>)
    ensures
        queue + frames_in(queue, ops) == frames_out(queue, ops) + after_queue_ops(queue, ops),
    decreases ops.len(),
{
    if ops.len() == 0 {
        assert(queue + frames_in(queue, ops) =~= frames_out(queue, ops) + after_queue_ops(
            queue,
            ops,
        ));
    } else {
        let head = ops.drop_last();
        law_queue_is_first_in_first_out(queue, head);
        let came = frames_in(queue, head);
        let went = frames_out(queue, head);
        let held = after_queue_ops(queue, head);
        match ops.last() {
            QueueOp::Push(raw) => {
                if takes_in(held, raw) {
                    assert(queue + came.push(raw) =~= (queue + came).push(raw));
                    assert(went + held.push(raw) =~= (went + held).push(raw));
                }
            },
            QueueOp::Take => {
                if held.len() > 0 {
                    assert(went.push(held[0]) + held.drop_first() =~= went + held);
                }
            },
        }
    }
}

/// The queue stays within its bound, whatever pushes and takes there are.
pub proof fn law_queue_stays_bounded(queue: Seq<Seq<u8>>, ops: Seq<QueueOp>)
    requires
        queue.len() <= AUDIO_QUEUE_FRAMES,
    ensures
        after_queue_ops(queue, ops).len() <= AUDIO_QUEUE_FRAMES,
    decreases ops.len(),
{
    if ops.len() > 0 {
        law_queue_stays_bounded(queue, ops.drop_last());
    }
}

/// A slow consumer loses the newest frames, never the oldest: what was queued stays in
/// front while nothing is taken.
pub proof fn law_queue_keeps_the_oldest(queue: Seq<Seq<u8>>, ops: Seq<QueueOp>)
    requires
        forall|i: int| 0 <= i < ops.len() ==> (#[trigger] ops[i]) is Push,
    ensures
        queue.is_prefix_of(after_queue_ops(queue, ops)),
    decreases ops.len(),
{
    if ops.len() > 0 {
        let head = ops.drop_last();
        assert forall|i: int| 0 <= i < head.len() implies (#[trigger] head[i]) is Push by {
            assert(head[i] == ops[i]);
        }
        law_queue_keeps_the_oldest(queue, head);
    }
}

/// Bytes are lost only when they are more than 1024, when eight frames wait already, or
/// when nobody will take them; everything else is queued, whatever it holds.
pub proof fn law_frames_are_lost_only_for_want_of_room(
    queue: Seq<Seq<u8>>,
    raw: Seq<u8>,
    no_consumer: bool,
)
    ensures
        push_outcome(queue, raw, no_consumer) == Pushed::Queued <==> raw.len() <= 1024
            && queue.len() < 8 && !no_consumer,
        push_outcome(queue, raw, no_consumer) == Pushed::TooLarge <==> raw.len() > 1024,
        push_outcome(queue, raw, no_consumer) == Pushed::Disconnected <==> raw.len() <= 1024
            && no_consumer,
        raw.len() <= 1024 && queue.len() < 8 ==> after_queue_op(queue, QueueOp::Push(raw))
            == queue.push(raw),
        raw.len() > 1024 || queue.len() >= 8 ==> after_queue_op(queue, QueueOp::Push(raw)) == queue,
{
}

/// A consumer gets a frame whenever one waits, also after the producer hung up, and it is
/// the oldest; it is told of the producer only when nothing waits.
pub proof fn law_waiting_frames_are_always_found(
    queue: Seq<Seq<u8>>,
    no_producer: bool,
    taken: Taken,
)
    requires
        found(queue, no_producer, taken),
    ensures
        queue.len() > 0 ==> (taken matches Taken::Frame(frame) && frame_bytes(frame) == queue[0]),
        queue.len() == 0 && no_producer ==> taken is Disconnected,
        queue.len() == 0 && !no_producer ==> taken is Empty,
        queue.len() > 0 ==> after_queue_op(queue, QueueOp::Take) == queue.skip(1),
{
    if queue.len() > 0 {
        assert(after_queue_op(queue, QueueOp::Take) =~= queue.skip(1));
    }
}

} // verus!
