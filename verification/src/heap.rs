//! The arena that holds the owned payloads of non-immediate values. A
//! value whose descriptor has `size > 0` carries the handle of exactly one
//! slot here, zero-initialized at allocation to exactly that many bytes,
//! and released exactly once, explicitly, when the value's lifetime ends.
//! There is no tracing and no reference counting: release is guarded by
//! its precondition, so a live slot can be freed once and never twice.

use vstd::prelude::*;

verus! {

/// How many slots of a heap are live (still allocated).
pub open spec fn count_live(slots: Seq<Option<Seq<u8>>>) -> nat
    decreases slots.len(),
{
    if slots.len() == 0 {
        0
    } else {
        count_live(slots.drop_last()) + if slots.last() is Some {
            1nat
        } else {
            0nat
        }
    }
}

/// Appending a slot raises the live count by one when it is live, and not
/// at all when it is already freed.
pub proof fn lemma_count_live_push(slots: Seq<Option<Seq<u8>>>, slot: Option<Seq<u8>>)
    ensures
        count_live(slots.push(slot)) == count_live(slots) + if slot is Some { 1nat } else { 0nat },
{
    assert(slots.push(slot).drop_last() =~= slots);
}

/// Freeing a live slot lowers the live count by exactly one.
pub proof fn lemma_count_live_free(slots: Seq<Option<Seq<u8>>>, i: int)
    requires
        0 <= i < slots.len(),
        slots[i] is Some,
    ensures
        count_live(slots.update(i, None)) + 1 == count_live(slots),
    decreases slots.len(),
{
    let freed = slots.update(i, None);
    if i == slots.len() - 1 {
        assert(freed.drop_last() =~= slots.drop_last());
    } else {
        assert(freed.drop_last() =~= slots.drop_last().update(i, None));
        lemma_count_live_free(slots.drop_last(), i);
    }
}

/// The arena of owned payload buffers. Its view is the sequence of slots,
/// each `Some` sequence of bytes while live and `None` once released.
pub struct Heap {
    slots: Vec<Option<Vec<u8>>>,
}

impl View for Heap {
    type V = Seq<Option<Seq<u8>>>;

    closed spec fn view(&self) -> Seq<Option<Seq<u8>>> {
        self.slots.deep_view()
    }
}

impl Heap {
    /// Whether `handle` names a live (not yet released) allocation.
    pub open spec fn is_live(self, handle: int) -> bool {
        0 <= handle < self@.len() && self@[handle] is Some
    }

    /// How many allocations are live.
    pub open spec fn live_count(self) -> nat {
        count_live(self@)
    }

    /// An empty arena: no slots, nothing live.
    pub fn new() -> (h: Heap)
        ensures
            h@ =~= Seq::<Option<Seq<u8>>>::empty(),
    {
        Heap { slots: Vec::new() }
    }

    /// Allocate a zero-initialized buffer of exactly `size` bytes and hand
    /// back the fresh handle that owns it. Every earlier slot is untouched,
    /// and the live count rises by one.
    pub fn allocate(&mut self, size: usize) -> (handle: usize)
        requires
            size > 0,
        ensures
            handle == old(self)@.len(),
            final(self)@ =~= old(self)@.push(Some(Seq::new(size as nat, |i: int| 0u8))),
            final(self).live_count() == old(self).live_count() + 1,
    {
        let handle = self.slots.len();
        let buffer: Vec<u8> = vec![0u8; size];
        assert(buffer.deep_view() =~= Seq::new(size as nat, |i: int| 0u8));
        self.slots.push(Some(buffer));
        assert(self@ =~= old(self)@.push(Some(Seq::new(size as nat, |i: int| 0u8))));
        proof {
            lemma_count_live_push(old(self)@, Some(Seq::new(size as nat, |i: int| 0u8)));
        }
        handle
    }

    /// Release the live allocation named by `handle`, exactly once: the
    /// slot becomes freed, every other slot is untouched, and the live
    /// count falls by one. Releasing a freed handle is excluded by the
    /// precondition, so no allocation can be double-freed.
    pub fn release(&mut self, handle: usize)
        requires
            old(self).is_live(handle as int),
        ensures
            final(self)@ =~= old(self)@.update(handle as int, None),
            final(self).live_count() + 1 == old(self).live_count(),
    {
        self.slots[handle] = None;
        assert(self@ =~= old(self)@.update(handle as int, None));
        proof {
            lemma_count_live_free(old(self)@, handle as int);
        }
    }

    /// Count the live allocations, for instrumentation: allocate/release
    /// cycles that neither leak nor double-free bring this back to where
    /// it started.
    pub fn live_allocations(&self) -> (n: usize)
        ensures
            n == self.live_count(),
    {
        let mut n: usize = 0;
        let mut i: usize = 0;
        while i < self.slots.len()
            invariant
                i <= self.slots@.len(),
                self@.len() == self.slots@.len(),
                n == count_live(self@.take(i as int)),
                n <= i,
            decreases self.slots@.len() - i,
        {
            proof {
                assert(self@.take(i as int + 1).drop_last() =~= self@.take(i as int));
                assert(self@.take(i as int + 1).last() == self@[i as int]);
            }
            if self.slots[i].is_some() {
                n = n + 1;
            }
            i = i + 1;
        }
        proof {
            assert(self@.take(self@.len() as int) =~= self@);
        }
        n
    }
}

} // verus!
