//! A fixed pool of reference-counted frame slots.
//!
//! A frame of PCM is written once into a free slot and then shared by handles. Each
//! handle counts as one reference; the slot is free again when the last is dropped.

use vstd::arithmetic::div_mod::{lemma_mod_self_0, lemma_small_mod};
use vstd::prelude::*;

use crate::counter::{
    law_counts_wrap_only_at_the_ends, lemma_wrapping_steps, wrapping_pred, wrapping_succ,
};
use crate::pcm::{
    amplified, amplify_sample, attenuated, decoded, encoded, law_bytes_are_little_endian,
    law_encoding_round_trip, law_gain_doubles_or_saturates, law_gain_undoes_attenuation,
    sample_byte, sample_to_le,
};
use crate::FRAME_BYTES;

verus! {

/// Number of slots in a pool.
pub const FRAME_POOL_CAPACITY: usize = 64;

/// Number of frames that the broadcast channel holds for a slow subscriber.
pub const FRAME_BACKLOG: usize = 4;

/// What a slot holds, as far as callers can see.
pub ghost struct SlotView {
    /// Number of references to the slot.
    pub refs: usize,
    /// The bytes of the frame.
    pub payload: Seq<u8>,
}

/// One slot: room for a frame, the frame's length and its reference count.
pub struct FrameSlot {
    data: Vec<u8>,
    len: usize,
    refs: usize,
}

impl FrameSlot {
    /// The buffer has its full size and the frame lies within it.
    pub closed spec fn wf(self) -> bool {
        &&& self.data@.len() == FRAME_BYTES
        &&& self.len <= FRAME_BYTES
    }

    /// The slot's bytes, those of the frame and those behind it.
    pub closed spec fn buffer(self) -> Seq<u8> {
        self.data@
    }
}

impl View for FrameSlot {
    type V = SlotView;

    closed spec fn view(&self) -> SlotView {
        SlotView { refs: self.refs, payload: self.data@.take(self.len as int) }
    }
}

impl FrameSlot {
    /// A free slot, filled with zeros.
    pub fn new() -> (slot: FrameSlot)
        ensures
            slot.wf(),
            slot@ == free_slot(),
            slot.buffer() == zeroed_buffer(),
    {
        let mut data: Vec<u8> = Vec::new();
        let mut i: usize = 0;
        while i < FRAME_BYTES
            invariant
                i <= FRAME_BYTES,
                data@ =~= Seq::new(i as nat, |j: int| 0u8),
            decreases FRAME_BYTES - i,
        {
            data.push(0);
            i += 1;
        }
        let slot = FrameSlot { data, len: 0, refs: 0 };
        assert(slot@.payload =~= Seq::<u8>::empty());
        slot
    }

    /// The bytes of the frame.
    pub fn as_slice(&self) -> (r: &[u8])
        requires
            self.wf(),
        ensures
            r@ == self@.payload,
    {
        vstd::slice::slice_subrange(self.data.as_slice(), 0, self.len)
    }

    /// The slot's whole buffer, to be written to.
    pub fn as_mut_slice(&mut self) -> (r: &mut [u8])
        requires
            old(self).wf(),
        ensures
            r@ == old(self).buffer(),
            r@.len() == FRAME_BYTES,
            final(r)@.len() == FRAME_BYTES ==> final(self).wf(),
            final(self).buffer() == final(r)@,
            final(self)@.refs == old(self)@.refs,
            final(self)@.payload == final(r)@.take(old(self)@.payload.len() as int),
    {
        self.data.as_mut_slice()
    }
}

/// A slot's bytes before anything was written to it.
pub open spec fn zeroed_buffer() -> Seq<u8> {
    Seq::new(FRAME_BYTES as nat, |i: int| 0u8)
}

/// A slot that nothing refers to.
pub open spec fn free_slot() -> SlotView {
    SlotView { refs: 0, payload: Seq::empty() }
}

/// Slot `i` is the lowest one that nothing refers to.
pub open spec fn is_first_free(slots: Seq<SlotView>, i: int) -> bool {
    &&& 0 <= i < slots.len()
    &&& slots[i].refs == 0
    &&& forall|j: int| 0 <= j < i ==> #[trigger] slots[j].refs != 0
}

/// Every slot is referred to.
pub open spec fn exhausted(slots: Seq<SlotView>) -> bool {
    forall|j: int| 0 <= j < slots.len() ==> #[trigger] slots[j].refs != 0
}

/// The slots after slot `i` was taken for a new frame.
pub open spec fn acquired(slots: Seq<SlotView>, i: int) -> Seq<SlotView> {
    slots.update(i, SlotView { refs: 1, payload: Seq::empty() })
}

/// The slots after one more reference to slot `i`; the count wraps around.
pub open spec fn retained(slots: Seq<SlotView>, i: int) -> Seq<SlotView> {
    slots.update(
        i,
        SlotView { refs: wrapping_succ(slots[i].refs), payload: slots[i].payload },
    )
}

/// The slots after one reference less to slot `i`; the count wraps around. The last
/// reference takes the frame with it.
pub open spec fn released(slots: Seq<SlotView>, i: int) -> Seq<SlotView> {
    let payload = if slots[i].refs == 1 {
        Seq::empty()
    } else {
        slots[i].payload
    };
    slots.update(i, SlotView { refs: wrapping_pred(slots[i].refs), payload })
}

/// The bytes of the frame that carries `samples`: each amplified, then s16le.
pub open spec fn frame_payload(samples: Seq<i16>) -> Seq<u8> {
    encoded(samples.map_values(|s: i16| amplified(s)))
}

/// The slots after slot `i` was filled with a frame of `samples`, with one reference.
pub open spec fn filled(slots: Seq<SlotView>, i: int, samples: Seq<i16>) -> Seq<SlotView> {
    slots.update(i, SlotView { refs: 1, payload: frame_payload(samples) })
}

/// The bytes of all slots after `bytes` were written to the front of slot `i`.
pub open spec fn overwritten(buffers: Seq<Seq<u8>>, i: int, bytes: Seq<u8>) -> Seq<Seq<u8>> {
    buffers.update(i, bytes + buffers[i].skip(bytes.len() as int))
}

/// The pool's slots.
pub struct FramePool {
    slots: Vec<FrameSlot>,
}

impl FramePool {
    /// All slots are there and each is well formed.
    pub closed spec fn wf(self) -> bool {
        &&& self.slots@.len() == FRAME_POOL_CAPACITY
        &&& forall|i: int| 0 <= i < self.slots@.len() ==> (#[trigger] self.slots@[i]).wf()
    }

    /// The bytes of each slot, those of its frame and those behind it.
    pub closed spec fn buffers(self) -> Seq<Seq<u8>> {
        self.slots@.map_values(|s: FrameSlot| s.buffer())
    }
}

impl View for FramePool {
    type V = Seq<SlotView>;

    closed spec fn view(&self) -> Seq<SlotView> {
        self.slots@.map_values(|s: FrameSlot| s@)
    }
}

/// A pool of free slots.
pub fn init_slots() -> (pool: FramePool)
    ensures
        pool.wf(),
        pool@ == Seq::new(FRAME_POOL_CAPACITY as nat, |i: int| free_slot()),
        pool.buffers() == Seq::new(FRAME_POOL_CAPACITY as nat, |i: int| zeroed_buffer()),
{
    let mut slots: Vec<FrameSlot> = Vec::new();
    let mut i: usize = 0;
    while i < FRAME_POOL_CAPACITY
        invariant
            i <= FRAME_POOL_CAPACITY,
            slots@.len() == i,
            forall|j: int| 0 <= j < i ==> (#[trigger] slots@[j]).wf(),
            forall|j: int| 0 <= j < i ==> (#[trigger] slots@[j])@ == free_slot(),
            forall|j: int| 0 <= j < i ==> (#[trigger] slots@[j]).buffer() == zeroed_buffer(),
        decreases FRAME_POOL_CAPACITY - i,
    {
        slots.push(FrameSlot::new());
        i += 1;
    }
    let pool = FramePool { slots };
    assert(pool@ =~= Seq::new(FRAME_POOL_CAPACITY as nat, |i: int| free_slot()));
    assert(pool.buffers() =~= Seq::new(FRAME_POOL_CAPACITY as nat, |i: int| zeroed_buffer()));
    pool
}

/// Takes the lowest free slot for a frame of `len` bytes, with one reference and no
/// bytes yet. There is none for a frame that is larger than a slot, nor when every
/// slot is in use. No byte of any slot is touched.
pub fn acquire_slot(pool: &mut FramePool, len: usize) -> (r: Option<usize>)
    requires
        old(pool).wf(),
    ensures
        final(pool).wf(),
        final(pool).buffers() == old(pool).buffers(),
        match r {
            Some(idx) => {
                &&& len <= FRAME_BYTES
                &&& is_first_free(old(pool)@, idx as int)
                &&& final(pool)@ == acquired(old(pool)@, idx as int)
            },
            None => {
                &&& len > FRAME_BYTES || exhausted(old(pool)@)
                &&& final(pool)@ == old(pool)@
            },
        },
        r is None && len <= FRAME_BYTES ==> forall|j: int|
            0 <= j < FRAME_POOL_CAPACITY ==> #[trigger] old(pool)@[j].refs != 0,
        r matches Some(idx) ==> idx < FRAME_POOL_CAPACITY && old(pool)@[idx as int].refs == 0
            && final(pool)@[idx as int].refs == 1,
        r matches Some(idx) ==> forall|j: int|
            0 <= j < idx ==> #[trigger] old(pool)@[j].refs != 0,
{
    if len > FRAME_BYTES {
        return None;
    }
    let ghost before = pool@;
    let ghost bytes = pool.buffers();
    let mut idx: usize = 0;
    while idx < FRAME_POOL_CAPACITY
        invariant
            idx <= FRAME_POOL_CAPACITY,
            len <= FRAME_BYTES,
            pool.wf(),
            pool@ == before,
            pool.buffers() == bytes,
            before == old(pool)@,
            bytes == old(pool).buffers(),
            forall|j: int| 0 <= j < idx ==> #[trigger] before[j].refs != 0,
        decreases FRAME_POOL_CAPACITY - idx,
    {
        assert(before[idx as int] == pool.slots@[idx as int]@);
        assert(bytes[idx as int] == pool.slots@[idx as int].buffer());
        if pool.slots[idx].refs == 0 {
            let slot: &mut FrameSlot = &mut pool.slots[idx];
            slot.refs = 1;
            slot.len = 0;
            proof {
                assert(pool.slots@[idx as int]@.payload =~= Seq::<u8>::empty());
                assert(pool@ =~= acquired(before, idx as int));
                assert(pool.buffers() =~= bytes);
            }
            return Some(idx);
        }
        idx += 1;
    }
    assert(before.len() == FRAME_POOL_CAPACITY);
    None
}

/// Adds a reference to a slot. No byte of any slot is touched.
pub fn retain_slot(pool: &mut FramePool, index: usize)
    requires
        old(pool).wf(),
        index < FRAME_POOL_CAPACITY,
    ensures
        final(pool).wf(),
        final(pool)@ == retained(old(pool)@, index as int),
        final(pool).buffers() == old(pool).buffers(),
{
    let ghost before = pool@;
    let ghost bytes = pool.buffers();
    assert(before[index as int] == pool.slots@[index as int]@);
    assert(bytes[index as int] == pool.slots@[index as int].buffer());
    let slot: &mut FrameSlot = &mut pool.slots[index];
    slot.refs = slot.refs.wrapping_add(1);
    proof {
        assert(pool@ =~= retained(before, index as int));
        assert(pool.buffers() =~= bytes);
    }
}

/// Takes a reference from a slot; with the last one the frame's length becomes zero. No
/// byte of any slot is touched.
pub fn release_slot(pool: &mut FramePool, index: usize)
    requires
        old(pool).wf(),
        index < FRAME_POOL_CAPACITY,
    ensures
        final(pool).wf(),
        final(pool)@ == released(old(pool)@, index as int),
        final(pool).buffers() == old(pool).buffers(),
{
    let ghost before = pool@;
    let ghost bytes = pool.buffers();
    assert(before[index as int] == pool.slots@[index as int]@);
    assert(bytes[index as int] == pool.slots@[index as int].buffer());
    let slot: &mut FrameSlot = &mut pool.slots[index];
    let prev: usize = slot.refs;
    slot.refs = prev.wrapping_sub(1);
    if prev == 1 {
        slot.len = 0;
    }
    proof {
        if before[index as int].refs == 1 {
            assert(pool.slots@[index as int]@.payload =~= Seq::<u8>::empty());
        }
        assert(pool@ =~= released(before, index as int));
        assert(pool.buffers() =~= bytes);
    }
}

/// A reference to the frame in one slot of a pool.
#[derive(Debug)]
pub struct FrameHandle {
    index: usize,
}

impl FrameHandle {
    /// The slot that the handle refers to.
    pub closed spec fn slot(self) -> int {
        self.index as int
    }

    /// The handle refers to a slot that a pool has.
    pub closed spec fn wf(self) -> bool {
        self.index < FRAME_POOL_CAPACITY
    }

    /// A second handle to the same frame, counted as a reference of its own.
    pub fn clone(&self, pool: &mut FramePool) -> (r: FrameHandle)
        requires
            old(pool).wf(),
            self.wf(),
        ensures
            final(pool).wf(),
            final(pool)@ == retained(old(pool)@, self.slot()),
            final(pool).buffers() == old(pool).buffers(),
            r.wf(),
            r.slot() == self.slot(),
    {
        retain_slot(pool, self.index);
        FrameHandle { index: self.index }
    }

    /// Gives the handle's reference back.
    pub fn drop(self, pool: &mut FramePool)
        requires
            old(pool).wf(),
            self.wf(),
        ensures
            final(pool).wf(),
            final(pool)@ == released(old(pool)@, self.slot()),
            final(pool).buffers() == old(pool).buffers(),
    {
        release_slot(pool, self.index);
    }

    /// The bytes of the frame.
    pub fn as_slice<'a>(&self, pool: &'a FramePool) -> (r: &'a [u8])
        requires
            pool.wf(),
            self.wf(),
        ensures
            r@ == pool@[self.slot()].payload,
    {
        assert(pool@[self.slot()] == pool.slots@[self.index as int]@);
        pool.slots[self.index].as_slice()
    }
}

/// Writes the frame of `samples` to the front of a slot's buffer.
fn write_frame(buf: &mut [u8], samples: &[i16])
    requires
        2 * samples@.len() <= old(buf)@.len(),
    ensures
        final(buf)@ == frame_payload(samples@) + old(buf)@.skip(2 * samples@.len() as int),
{
    let ghost before = buf@;
    let ghost louder = samples@.map_values(|s: i16| amplified(s));
    let ghost target = frame_payload(samples@);
    let mut i: usize = 0;
    while i < samples.len()
        invariant
            i <= samples@.len(),
            2 * samples@.len() <= before.len(),
            before.len() == buf@.len(),
            louder == samples@.map_values(|s: i16| amplified(s)),
            target == encoded(louder),
            forall|j: int| 0 <= j < 2 * i ==> #[trigger] buf@[j] == target[j],
            forall|j: int| 2 * i <= j < before.len() ==> #[trigger] buf@[j] == before[j],
        decreases samples@.len() - i,
    {
        let louder_sample: i16 = amplify_sample(samples[i]);
        let pair: (u8, u8) = sample_to_le(louder_sample);
        assert((2 * i) % 2 == 0 && (2 * i) / 2 == i as int);
        assert((2 * i + 1) % 2 == 1 && (2 * i + 1) / 2 == i as int);
        assert(target[2 * i as int] == sample_byte(louder, 2 * i as int));
        assert(target[2 * i + 1] == sample_byte(louder, 2 * i + 1));
        assert(buf.len() == before.len());
        buf[2 * i] = pair.0;
        buf[2 * i + 1] = pair.1;
        i += 1;
    }
    assert(buf@ =~= target + before.skip(2 * samples@.len() as int));
}

/// Puts `samples` into the lowest free slot as a frame, and gives the first handle to
/// it. There is none for more samples than a slot can hold, nor when every slot is in
/// use. The bytes behind the frame and those of all other slots stay as they were.
pub fn make_frame(pool: &mut FramePool, samples: &[i16]) -> (r: Option<FrameHandle>)
    requires
        old(pool).wf(),
    ensures
        final(pool).wf(),
        match r {
            Some(handle) => {
                &&& handle.wf()
                &&& 2 * samples@.len() <= FRAME_BYTES
                &&& is_first_free(old(pool)@, handle.slot())
                &&& final(pool)@ == filled(old(pool)@, handle.slot(), samples@)
                &&& final(pool).buffers() == overwritten(
                    old(pool).buffers(),
                    handle.slot(),
                    frame_payload(samples@),
                )
            },
            None => {
                &&& 2 * samples@.len() > FRAME_BYTES || exhausted(old(pool)@)
                &&& final(pool)@ == old(pool)@
                &&& final(pool).buffers() == old(pool).buffers()
            },
        },
        r is None && 2 * samples@.len() <= FRAME_BYTES ==> forall|j: int|
            0 <= j < FRAME_POOL_CAPACITY ==> #[trigger] old(pool)@[j].refs != 0,
        r matches Some(handle) ==> 0 <= handle.slot() < FRAME_POOL_CAPACITY
            && old(pool)@[handle.slot()].refs == 0 && final(pool)@[handle.slot()].refs == 1,
{
    let len_bytes: usize = match samples.len().checked_mul(2) {
        Some(n) => n,
        None => {
            return None;
        },
    };
    let ghost before = pool@;
    let ghost bytes = pool.buffers();
    match acquire_slot(pool, len_bytes) {
        None => None,
        Some(idx) => {
            assert(pool.slots@[idx as int].wf());
            assert(pool@[idx as int] == pool.slots@[idx as int]@);
            assert(bytes[idx as int] == pool.slots@[idx as int].buffer());
            let ghost taken = pool.slots@;
            let slot: &mut FrameSlot = &mut pool.slots[idx];
            write_frame(slot.as_mut_slice(), samples);
            slot.len = len_bytes;
            proof {
                assert(pool.slots@[idx as int]@.payload =~= frame_payload(samples@));
                assert forall|j: int| 0 <= j < before.len() implies pool@[j] == filled(
                    before,
                    idx as int,
                    samples@,
                )[j] by {
                    assert(acquired(before, idx as int)[j] == taken[j]@);
                }
                assert forall|j: int| 0 <= j < bytes.len() implies pool.buffers()[j] == overwritten(
                    bytes,
                    idx as int,
                    frame_payload(samples@),
                )[j] by {
                    assert(bytes[j] == taken[j].buffer());
                }
                assert(pool.buffers() =~= overwritten(bytes, idx as int, frame_payload(samples@)));
                assert(pool@ =~= filled(before, idx as int, samples@));
            }
            Some(FrameHandle { index: idx })
        },
    }
}

/// A pool has all its slots, each with its full buffer, and each frame stands at the front
/// of its slot's buffer.
pub proof fn law_pool_has_all_its_slots(pool: FramePool)
    requires
        pool.wf(),
    ensures
        pool@.len() == FRAME_POOL_CAPACITY,
        pool.buffers().len() == FRAME_POOL_CAPACITY,
        forall|i: int|
            0 <= i < FRAME_POOL_CAPACITY ==> (#[trigger] pool.buffers()[i]).len() == FRAME_BYTES,
        forall|i: int|
            0 <= i < FRAME_POOL_CAPACITY ==> (#[trigger] pool@[i]).payload.is_prefix_of(
                pool.buffers()[i],
            ),
{
    assert forall|i: int| 0 <= i < FRAME_POOL_CAPACITY implies (#[trigger] pool.buffers()[i]).len()
        == FRAME_BYTES by {
        assert(pool.slots@[i].wf());
    }
    assert forall|i: int| 0 <= i < FRAME_POOL_CAPACITY implies (#[trigger] pool@[i])
        .payload.is_prefix_of(pool.buffers()[i]) by {
        assert(pool.slots@[i].wf());
    }
}

/// A handle to a frame refers to one of the pool's slots.
pub proof fn law_handle_refers_to_a_slot(handle: FrameHandle)
    requires
        handle.wf(),
    ensures
        0 <= handle.slot() < FRAME_POOL_CAPACITY,
{
}

/// No free slot holds bytes.
pub open spec fn free_slots_empty(slots: Seq<SlotView>) -> bool {
    forall|i: int|
        0 <= i < slots.len() && (#[trigger] slots[i]).refs == 0 ==> slots[i].payload
            == Seq::<u8>::empty()
}

/// The number of references to all slots together.
pub open spec fn total_refs(slots: Seq<SlotView>) -> int
    decreases slots.len(),
{
    if slots.len() == 0 {
        0
    } else {
        total_refs(slots.drop_last()) + slots.last().refs
    }
}

/// Changing the count of one slot changes the total by the same amount.
proof fn lemma_total_refs_update(slots: Seq<SlotView>, i: int, slot: SlotView)
    requires
        0 <= i < slots.len(),
    ensures
        total_refs(slots.update(i, slot)) == total_refs(slots) - slots[i].refs + slot.refs,
    decreases slots.len(),
{
    let updated = slots.update(i, slot);
    if i == slots.len() - 1 {
        assert(updated.drop_last() =~= slots.drop_last());
    } else {
        assert(updated.drop_last() =~= slots.drop_last().update(i, slot));
        lemma_total_refs_update(slots.drop_last(), i, slot);
    }
}

/// Dropping a handle that was just cloned from a live one leaves the pool as it was.
pub proof fn law_drop_undoes_clone(slots: Seq<SlotView>, i: int)
    requires
        0 <= i < slots.len(),
        slots[i].refs != 0,
    ensures
        released(retained(slots, i), i) == slots,
{
    assert(released(retained(slots, i), i) =~= slots);
}

/// Dropping the only handle to a fresh frame leaves the pool as it was, when its free
/// slots were empty.
pub proof fn law_drop_undoes_make_frame(slots: Seq<SlotView>, i: int, samples: Seq<i16>)
    requires
        is_first_free(slots, i),
        free_slots_empty(slots),
    ensures
        released(filled(slots, i, samples), i) == slots,
{
    assert(released(filled(slots, i, samples), i) =~= slots);
}

/// A frame that is referred to is not touched by what happens to other slots, and is
/// never chosen for a new frame.
pub proof fn law_live_frame_is_kept(slots: Seq<SlotView>, i: int, j: int, samples: Seq<i16>)
    requires
        0 <= i < slots.len(),
        0 <= j < slots.len(),
        slots[i].refs != 0,
    ensures
        i != j ==> retained(slots, j)[i] == slots[i],
        i != j ==> released(slots, j)[i] == slots[i],
        is_first_free(slots, j) ==> i != j && acquired(slots, j)[i] == slots[i],
        is_first_free(slots, j) ==> i != j && filled(slots, j, samples)[i] == slots[i],
{
}

/// A frame stays as it was written while more references to it come and go, as long
/// as one is left.
pub proof fn law_shared_frame_is_kept(slots: Seq<SlotView>, i: int)
    requires
        0 <= i < slots.len(),
    ensures
        retained(slots, i)[i].payload == slots[i].payload,
        slots[i].refs != 1 ==> released(slots, i)[i].payload == slots[i].payload,
{
}

/// Free slots are empty in a new pool, and every operation keeps it so; for a further
/// reference only short of the point where the count wraps around.
pub proof fn law_free_slots_stay_empty(slots: Seq<SlotView>, i: int, samples: Seq<i16>)
    requires
        free_slots_empty(slots),
        0 <= i < slots.len(),
    ensures
        free_slots_empty(Seq::new(FRAME_POOL_CAPACITY as nat, |j: int| free_slot())),
        free_slots_empty(acquired(slots, i)),
        free_slots_empty(filled(slots, i, samples)),
        free_slots_empty(released(slots, i)),
        slots[i].refs < usize::MAX ==> free_slots_empty(retained(slots, i)),
{
}

/// A new frame and a clone add one reference, a drop takes one away; short of the
/// points where a count wraps around.
pub proof fn law_references_balance(slots: Seq<SlotView>, i: int, samples: Seq<i16>)
    requires
        0 <= i < slots.len(),
    ensures
        is_first_free(slots, i) ==> total_refs(acquired(slots, i)) == total_refs(slots) + 1,
        is_first_free(slots, i) ==> total_refs(filled(slots, i, samples)) == total_refs(slots) + 1,
        slots[i].refs < usize::MAX ==> total_refs(retained(slots, i)) == total_refs(slots) + 1,
        slots[i].refs > 0 ==> total_refs(released(slots, i)) == total_refs(slots) - 1,
{
    lemma_total_refs_update(slots, i, acquired(slots, i)[i]);
    lemma_total_refs_update(slots, i, filled(slots, i, samples)[i]);
    lemma_total_refs_update(slots, i, retained(slots, i)[i]);
    lemma_total_refs_update(slots, i, released(slots, i)[i]);
}

/// One operation on a pool.
pub ghost enum PoolOp {
    /// A frame of these samples is made in that slot.
    Make(int, Seq<i16>),
    /// A handle to that slot is cloned.
    Clone(int),
    /// A handle to that slot is dropped.
    Drop(int),
}

/// The slots after one operation.
pub open spec fn after_op(slots: Seq<SlotView>, op: PoolOp) -> Seq<SlotView> {
    match op {
        PoolOp::Make(i, samples) => filled(slots, i, samples),
        PoolOp::Clone(i) => retained(slots, i),
        PoolOp::Drop(i) => released(slots, i),
    }
}

/// The pool can carry the operation out: a frame is made in the lowest free slot only.
pub open spec fn op_allowed(slots: Seq<SlotView>, op: PoolOp) -> bool {
    match op {
        PoolOp::Make(i, samples) => is_first_free(slots, i),
        PoolOp::Clone(i) => 0 <= i < slots.len(),
        PoolOp::Drop(i) => 0 <= i < slots.len(),
    }
}

/// The slots after a number of operations.
pub open spec fn after_ops(slots: Seq<SlotView>, ops: Seq<PoolOp>) -> Seq<SlotView>
    decreases ops.len(),
{
    if ops.len() == 0 {
        slots
    } else {
        after_op(after_ops(slots, ops.drop_last()), ops.last())
    }
}

/// A frame keeps its bytes through any operations on the pool for as long as something
/// refers to it.
pub proof fn law_frame_lives_while_referred_to(slots: Seq<SlotView>, ops: Seq<PoolOp>, k: int)
    requires
        0 <= k < slots.len(),
        forall|n: int|
            #![trigger ops[n]]
            0 <= n < ops.len() ==> op_allowed(after_ops(slots, ops.take(n)), ops[n]),
        forall|n: int|
            0 <= n <= ops.len() ==> (#[trigger] after_ops(slots, ops.take(n)))[k].refs != 0,
    ensures
        after_ops(slots, ops).len() == slots.len(),
        after_ops(slots, ops)[k].payload == slots[k].payload,
    decreases ops.len(),
{
    if ops.len() > 0 {
        let last = ops.len() - 1;
        let head = ops.drop_last();
        assert forall|n: int| #![trigger head[n]] 0 <= n < head.len() implies op_allowed(
            after_ops(slots, head.take(n)),
            head[n],
        ) by {
            assert(head.take(n) =~= ops.take(n));
            assert(head[n] == ops[n]);
        }
        assert forall|n: int| 0 <= n <= head.len() implies (#[trigger] after_ops(
            slots,
            head.take(n),
        ))[k].refs != 0 by {
            assert(head.take(n) =~= ops.take(n));
        }
        law_frame_lives_while_referred_to(slots, head, k);
        assert(ops.take(last) =~= head);
        assert(ops.take(ops.len() as int) =~= ops);
        assert(op_allowed(after_ops(slots, ops.take(last)), ops[last]));
        assert(after_ops(slots, ops.take(ops.len() as int))[k].refs != 0);
        assert(after_ops(slots, ops.take(last))[k].refs != 0);
    }
}

/// One event in the life of a handle, which is told apart by a number.
pub ghost enum HandleOp {
    /// The handle is made with a new frame of these samples in that slot.
    Make(int, int, Seq<i16>),
    /// The second handle is cloned from the first.
    Clone(int, int),
    /// The handle is dropped.
    Drop(int),
}

/// What a handle was made for.
pub ghost struct HandleView {
    /// The slot that it refers to.
    pub slot: int,
    /// The bytes of the frame.
    pub payload: Seq<u8>,
}

/// The handles that are alive after these events.
pub open spec fn handles_after(ops: Seq<HandleOp>) -> Map<int, HandleView>
    decreases ops.len(),
{
    if ops.len() == 0 {
        Map::empty()
    } else {
        let before = handles_after(ops.drop_last());
        match ops.last() {
            HandleOp::Make(id, i, samples) => before.insert(
                id,
                HandleView { slot: i, payload: frame_payload(samples) },
            ),
            HandleOp::Clone(from, id) => before.insert(id, before[from]),
            HandleOp::Drop(id) => before.remove(id),
        }
    }
}

/// The slots of a new pool after these events.
pub open spec fn slots_after(ops: Seq<HandleOp>) -> Seq<SlotView>
    decreases ops.len(),
{
    if ops.len() == 0 {
        Seq::new(FRAME_POOL_CAPACITY as nat, |i: int| free_slot())
    } else {
        let before = slots_after(ops.drop_last());
        let handles = handles_after(ops.drop_last());
        match ops.last() {
            HandleOp::Make(_, i, samples) => filled(before, i, samples),
            HandleOp::Clone(from, _) => retained(before, handles[from].slot),
            HandleOp::Drop(id) => released(before, handles[id].slot),
        }
    }
}

/// The event can follow the events before it: a frame is made in the lowest free slot,
/// only a live handle is cloned or dropped, and so dropped at most once, and no two live
/// handles are the same.
pub open spec fn handle_op_allowed(before: Seq<HandleOp>, op: HandleOp) -> bool {
    let live = handles_after(before).dom();
    match op {
        HandleOp::Make(id, i, _) => !live.contains(id) && is_first_free(slots_after(before), i),
        HandleOp::Clone(from, id) => live.contains(from) && !live.contains(id),
        HandleOp::Drop(id) => live.contains(id),
    }
}

/// Slots are taken only with a new frame or a clone, and given back only with a handle.
pub open spec fn is_handle_history(ops: Seq<HandleOp>) -> bool {
    forall|n: int|
        #![trigger ops[n]]
        0 <= n < ops.len() ==> handle_op_allowed(ops.take(n), ops[n])
}

/// The handles to slot `i` that are alive after these events.
pub open spec fn live_handles(ops: Seq<HandleOp>, i: int) -> Set<int> {
    Set::new(
        |id: int| handles_after(ops).dom().contains(id) && handles_after(ops)[id].slot == i,
    )
}

/// A history without its last event is one, and the last event is allowed behind it.
proof fn lemma_history_step(ops: Seq<HandleOp>)
    requires
        is_handle_history(ops),
        ops.len() > 0,
    ensures
        is_handle_history(ops.drop_last()),
        handle_op_allowed(ops.drop_last(), ops.last()),
{
    let head = ops.drop_last();
    assert forall|n: int| #![trigger head[n]] 0 <= n < head.len() implies handle_op_allowed(
        head.take(n),
        head[n],
    ) by {
        assert(head.take(n) =~= ops.take(n));
        assert(head[n] == ops[n]);
    }
    assert(ops.take(ops.len() - 1) =~= head);
    assert(ops[ops.len() - 1] == ops.last());
}

/// Live handles refer to slots that there are.
proof fn lemma_handles_in_pool(ops: Seq<HandleOp>)
    requires
        is_handle_history(ops),
    ensures
        slots_after(ops).len() == FRAME_POOL_CAPACITY,
        forall|id: int| #[trigger]
            handles_after(ops).dom().contains(id) ==> 0 <= handles_after(ops)[id].slot
                < FRAME_POOL_CAPACITY,
    decreases ops.len(),
{
    if ops.len() > 0 {
        lemma_history_step(ops);
        lemma_handles_in_pool(ops.drop_last());
    }
}

/// The slot that an event concerns.
spec fn slot_of(before: Seq<HandleOp>, op: HandleOp) -> int {
    match op {
        HandleOp::Make(_, slot, _) => slot,
        HandleOp::Clone(from, _) => handles_after(before)[from].slot,
        HandleOp::Drop(id) => handles_after(before)[id].slot,
    }
}

/// How one more event changes which handles to a slot are alive.
proof fn lemma_live_step(ops: Seq<HandleOp>, i: int)
    requires
        is_handle_history(ops),
        ops.len() > 0,
    ensures
        slot_of(ops.drop_last(), ops.last()) != i ==> live_handles(ops, i) == live_handles(
            ops.drop_last(),
            i,
        ),
        slot_of(ops.drop_last(), ops.last()) == i ==> {
            let before = live_handles(ops.drop_last(), i);
            match ops.last() {
                HandleOp::Make(id, _, _) => !before.contains(id) && live_handles(ops, i)
                    == before.insert(id),
                HandleOp::Clone(_, id) => !before.contains(id) && live_handles(ops, i)
                    == before.insert(id),
                HandleOp::Drop(id) => before.contains(id) && live_handles(ops, i) == before.remove(
                    id,
                ),
            }
        },
{
    lemma_history_step(ops);
    let before = live_handles(ops.drop_last(), i);
    let live = live_handles(ops, i);
    if slot_of(ops.drop_last(), ops.last()) != i {
        assert(live =~= before);
    } else {
        match ops.last() {
            HandleOp::Make(id, _, _) => {
                assert(live =~= before.insert(id));
            },
            HandleOp::Clone(_, id) => {
                assert(live =~= before.insert(id));
            },
            HandleOp::Drop(id) => {
                assert(live =~= before.remove(id));
            },
        }
    }
}

/// How one more event changes a slot's count.
proof fn lemma_refs_step(ops: Seq<HandleOp>, i: int)
    requires
        is_handle_history(ops),
        ops.len() > 0,
        0 <= i < FRAME_POOL_CAPACITY,
    ensures
        slot_of(ops.drop_last(), ops.last()) != i ==> slots_after(ops)[i].refs == slots_after(
            ops.drop_last(),
        )[i].refs,
        slot_of(ops.drop_last(), ops.last()) == i ==> {
            let before = slots_after(ops.drop_last())[i].refs;
            match ops.last() {
                HandleOp::Make(_, _, _) => slots_after(ops)[i].refs == wrapping_succ(before),
                HandleOp::Clone(_, _) => slots_after(ops)[i].refs == wrapping_succ(before),
                HandleOp::Drop(_) => slots_after(ops)[i].refs == wrapping_pred(before),
            }
        },
{
    lemma_history_step(ops);
    lemma_handles_in_pool(ops.drop_last());
}

/// A slot's count is the number of live handles to it, around at its end.
proof fn lemma_count_wraps(ops: Seq<HandleOp>, i: int)
    requires
        is_handle_history(ops),
        0 <= i < FRAME_POOL_CAPACITY,
    ensures
        live_handles(ops, i).finite(),
        slots_after(ops)[i].refs == live_handles(ops, i).len() as int % (usize::MAX + 1),
    decreases ops.len(),
{
    if ops.len() == 0 {
        assert(live_handles(ops, i) =~= Set::empty());
        lemma_small_mod(0, (usize::MAX + 1) as nat);
    } else {
        lemma_history_step(ops);
        lemma_count_wraps(ops.drop_last(), i);
        lemma_live_step(ops, i);
        lemma_refs_step(ops, i);
        lemma_wrapping_steps(live_handles(ops.drop_last(), i).len() as int);
    }
}

/// Whatever frames are made and handles cloned and dropped, a slot's count is the number
/// of live handles to it, up to the point where it wraps around: it equals that number as
/// long as it fits. Until then a slot is free exactly while no handle to it is alive.
pub proof fn law_count_is_the_live_handles(ops: Seq<HandleOp>, i: int)
    requires
        is_handle_history(ops),
        0 <= i < FRAME_POOL_CAPACITY,
    ensures
        live_handles(ops, i).finite(),
        slots_after(ops)[i].refs == live_handles(ops, i).len() as int % (usize::MAX + 1),
        live_handles(ops, i).len() <= usize::MAX ==> {
            &&& slots_after(ops)[i].refs == live_handles(ops, i).len()
            &&& slots_after(ops)[i].refs == 0 <==> live_handles(ops, i) == Set::<int>::empty()
        },
{
    lemma_count_wraps(ops, i);
    let live = live_handles(ops, i);
    if live.len() <= usize::MAX {
        lemma_small_mod(live.len(), (usize::MAX + 1) as nat);
        if live.len() == 0 {
            live.lemma_len0_is_empty();
        }
    }
}

/// A live handle always gives the frame that it was made for, length and bytes, whatever
/// else happens to the pool, as long as the number of handles to its slot has always fit
/// the count.
pub proof fn law_live_handle_keeps_its_frame(ops: Seq<HandleOp>, id: int)
    requires
        is_handle_history(ops),
        handles_after(ops).dom().contains(id),
        forall|n: int|
            #![trigger ops.take(n)]
            0 <= n <= ops.len() ==> live_handles(ops.take(n), handles_after(ops)[id].slot).len()
                <= usize::MAX,
    ensures
        0 <= handles_after(ops)[id].slot < FRAME_POOL_CAPACITY,
        slots_after(ops)[handles_after(ops)[id].slot].refs != 0,
        slots_after(ops)[handles_after(ops)[id].slot].payload == handles_after(ops)[id].payload,
    decreases ops.len(),
{
    let k = handles_after(ops)[id].slot;
    let head = ops.drop_last();
    lemma_handles_in_pool(ops);
    lemma_history_step(ops);
    lemma_handles_in_pool(head);
    law_count_is_the_live_handles(ops, k);
    assert(ops.take(ops.len() as int) =~= ops);
    assert(live_handles(ops, k).contains(id));
    assert forall|n: int| #![trigger head.take(n)] 0 <= n <= head.len() implies live_handles(
        head.take(n),
        k,
    ).len() <= usize::MAX by {
        assert(head.take(n) =~= ops.take(n));
    }
    match ops.last() {
        HandleOp::Make(made, i, _) => {
            if made != id {
                law_live_handle_keeps_its_frame(head, id);
            }
        },
        HandleOp::Clone(from, made) => {
            if made == id {
                law_live_handle_keeps_its_frame(head, from);
            } else {
                law_live_handle_keeps_its_frame(head, id);
            }
        },
        HandleOp::Drop(_) => {
            law_live_handle_keeps_its_frame(head, id);
        },
    }
}

/// A frame made of attenuated samples decodes to the samples that came from the
/// microphone, each with its lowest bit cleared.
pub proof fn law_frame_restores_level(raw: Seq<i16>, i: int)
    requires
        0 <= i < raw.len(),
    ensures
        decoded(frame_payload(raw.map_values(|s: i16| attenuated(s)))).len() == raw.len(),
        decoded(frame_payload(raw.map_values(|s: i16| attenuated(s))))[i] == raw[i] - raw[i] as int
            % 2,
{
    let quiet = raw.map_values(|s: i16| attenuated(s));
    law_encoding_round_trip(quiet.map_values(|s: i16| amplified(s)));
    law_gain_undoes_attenuation(raw[i]);
}

/// A slot is given whenever one is free, and it is the lowest that is: a pool counts as
/// exhausted only when every slot is referred to, and a slot that is taken has none below
/// it that could have been.
pub proof fn law_a_free_slot_is_always_found(slots: Seq<SlotView>, k: int)
    requires
        0 <= k < slots.len(),
        slots[k].refs == 0,
    ensures
        !exhausted(slots),
        exists|i: int| 0 <= i <= k && #[trigger] is_first_free(slots, i),
    decreases k,
{
    if exists|j: int| 0 <= j < k && #[trigger] slots[j].refs == 0 {
        let j = choose|j: int| 0 <= j < k && #[trigger] slots[j].refs == 0;
        law_a_free_slot_is_always_found(slots, j);
    } else {
        assert(is_first_free(slots, k));
    }
}

/// The slot that is taken was free, and every lower one was referred to; so it is the only
/// one that could be taken.
pub proof fn law_the_lowest_free_slot_is_taken(slots: Seq<SlotView>, i: int, j: int)
    requires
        is_first_free(slots, i),
    ensures
        0 <= i < slots.len() && slots[i].refs == 0,
        0 <= j < i ==> slots[j].refs != 0,
        is_first_free(slots, j) ==> i == j,
{
}

/// Some element of a set has this label.
spec fn has_label(s: Set<int>, label: spec_fn(int) -> int, i: int) -> bool {
    exists|id: int| s.contains(id) && #[trigger] label(id) == i
}

/// A set that has an element for each of `k` labels has `k` elements at least.
proof fn lemma_one_for_each(s: Set<int>, label: spec_fn(int) -> int, k: nat)
    requires
        s.finite(),
        forall|i: int| 0 <= i < k ==> #[trigger] has_label(s, label, i),
    ensures
        s.len() >= k,
    decreases k,
{
    if k > 0 {
        let last = k - 1;
        assert(has_label(s, label, last));
        let id = choose|id: int| s.contains(id) && #[trigger] label(id) == last;
        let rest = s.remove(id);
        assert forall|i: int| 0 <= i < last implies #[trigger] has_label(rest, label, i) by {
            assert(has_label(s, label, i));
            let other = choose|other: int| s.contains(other) && #[trigger] label(other) == i;
            assert(rest.contains(other) && label(other) == i);
        }
        lemma_one_for_each(rest, label, (k - 1) as nat);
    }
}

/// There are finitely many live handles.
proof fn lemma_finitely_many_handles(ops: Seq<HandleOp>)
    ensures
        handles_after(ops).dom().finite(),
    decreases ops.len(),
{
    if ops.len() > 0 {
        lemma_finitely_many_handles(ops.drop_last());
    }
}

/// While fewer handles are alive than there are slots, a new frame finds one: some slot is
/// free, the pool does not count as exhausted, and there is a lowest free slot.
pub proof fn law_fewer_handles_than_slots_leave_room(ops: Seq<HandleOp>)
    requires
        is_handle_history(ops),
        handles_after(ops).dom().len() < FRAME_POOL_CAPACITY,
    ensures
        !exhausted(slots_after(ops)),
        exists|i: int|
            0 <= i < FRAME_POOL_CAPACITY && #[trigger] slots_after(ops)[i].refs == 0,
        exists|i: int| #[trigger] is_first_free(slots_after(ops), i),
{
    let handles = handles_after(ops);
    let slots = slots_after(ops);
    lemma_handles_in_pool(ops);
    lemma_finitely_many_handles(ops);
    if forall|i: int| 0 <= i < FRAME_POOL_CAPACITY ==> #[trigger] slots[i].refs != 0 {
        let label = |id: int| handles[id].slot;
        assert forall|i: int| 0 <= i < FRAME_POOL_CAPACITY implies #[trigger] has_label(
            handles.dom(),
            label,
            i,
        ) by {
            law_count_is_the_live_handles(ops, i);
            let live = live_handles(ops, i);
            assert(slots[i].refs != 0);
            assert(live.len() != 0);
            let id = live.choose();
            assert(live.contains(id));
            assert(label(id) == i);
        }
        lemma_one_for_each(handles.dom(), label, FRAME_POOL_CAPACITY as nat);
    }
    let i = choose|i: int| 0 <= i < FRAME_POOL_CAPACITY && #[trigger] slots[i].refs == 0;
    law_a_free_slot_is_always_found(slots, i);
}

/// A new frame stands in its slot with one reference and nothing else changed. It has two
/// bytes for each sample, the low one first, which together are the sample doubled and
/// held within sixteen bits, modulo 65536.
pub proof fn law_frame_carries_each_sample(
    slots: Seq<SlotView>,
    slot: int,
    samples: Seq<i16>,
    i: int,
)
    requires
        0 <= slot < slots.len(),
        0 <= i < samples.len(),
    ensures
        ({
            let after = filled(slots, slot, samples);
            let bytes = after[slot].payload;
            let louder = if 2 * samples[i] > 32767 {
                32767
            } else if 2 * samples[i] < -32768 {
                -32768
            } else {
                2 * samples[i]
            };
            &&& after.len() == slots.len()
            &&& after[slot].refs == 1
            &&& bytes == frame_payload(samples)
            &&& bytes.len() == 2 * samples.len()
            &&& bytes[2 * i] + 256 * bytes[2 * i + 1] == (if louder >= 0 {
                louder
            } else {
                louder + 65536
            })
            &&& forall|j: int| 0 <= j < slots.len() && j != slot ==> after[j] == slots[j]
        }),
{
    law_bytes_are_little_endian(samples.map_values(|s: i16| amplified(s)), i);
    law_gain_doubles_or_saturates(samples[i]);
}

/// A slot that is taken has one reference and no bytes, whatever it held; no other slot
/// changes.
pub proof fn law_taken_slot_is_empty(slots: Seq<SlotView>, i: int, j: int)
    requires
        0 <= i < slots.len(),
        0 <= j < slots.len(),
    ensures
        acquired(slots, i).len() == slots.len(),
        acquired(slots, i)[i].refs == 1,
        acquired(slots, i)[i].payload.len() == 0,
        i != j ==> acquired(slots, i)[j] == slots[j],
{
}

/// A clone adds one to its slot's count and a drop takes one away, around at the ends; the
/// bytes stay, but for the last reference, which leaves none. No other slot changes.
pub proof fn law_clone_and_drop_count_by_one(slots: Seq<SlotView>, i: int, j: int)
    requires
        0 <= i < slots.len(),
        0 <= j < slots.len(),
    ensures
        retained(slots, i).len() == slots.len() && released(slots, i).len() == slots.len(),
        retained(slots, i)[i].refs == (slots[i].refs + 1) % (usize::MAX + 1),
        retained(slots, i)[i].payload == slots[i].payload,
        slots[i].refs > 0 ==> released(slots, i)[i].refs == slots[i].refs - 1,
        slots[i].refs == 0 ==> released(slots, i)[i].refs == usize::MAX,
        slots[i].refs == 1 ==> released(slots, i)[i].payload.len() == 0,
        slots[i].refs != 1 ==> released(slots, i)[i].payload == slots[i].payload,
        i != j ==> retained(slots, i)[j] == slots[j] && released(slots, i)[j] == slots[j],
{
    law_counts_wrap_only_at_the_ends(slots[i].refs);
    if slots[i].refs < usize::MAX {
        lemma_small_mod((slots[i].refs + 1) as nat, (usize::MAX + 1) as nat);
    } else {
        lemma_mod_self_0(usize::MAX + 1);
    }
}

/// A new slot is free and empty, and its bytes are zeros.
pub proof fn law_new_slots_are_free(i: int)
    requires
        0 <= i < FRAME_BYTES,
    ensures
        free_slot().refs == 0,
        free_slot().payload.len() == 0,
        zeroed_buffer().len() == FRAME_BYTES,
        zeroed_buffer()[i] == 0,
{
}

/// Writing to the front of a slot's buffer touches only that front: the rest of the buffer
/// and all other buffers stay, byte by byte.
pub proof fn law_writing_touches_only_the_front(
    buffers: Seq<Seq<u8>>,
    i: int,
    bytes: Seq<u8>,
    j: int,
    k: int,
)
    requires
        0 <= i < buffers.len(),
        0 <= j < buffers.len(),
        bytes.len() <= buffers[i].len(),
        0 <= k < buffers[j].len(),
    ensures
        overwritten(buffers, i, bytes).len() == buffers.len(),
        overwritten(buffers, i, bytes)[j].len() == buffers[j].len(),
        overwritten(buffers, i, bytes)[j][k] == (if i == j && k < bytes.len() {
            bytes[k]
        } else {
            buffers[j][k]
        }),
{
}

} // verus!
