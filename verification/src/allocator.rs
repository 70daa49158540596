//! A durable source of strictly increasing unique identifiers.

use vstd::prelude::*;

verus! {

/// A monotonic counter handing out identifiers `0, 1, 2, ...` on demand.
///
/// The counter only ever grows: an identifier, once issued, is never issued
/// again over the lifetime of the store, even when the record it named has
/// long been deleted.
pub struct IdAllocator {
    pub next_id: u64,
}

/// One allocation: `id` is handed out and the counter moves past it.
pub open spec fn alloc_step(pre: IdAllocator, post: IdAllocator, id: u64) -> bool {
    &&& id == pre.next_id
    &&& post.next_id == pre.next_id + 1
}

impl IdAllocator {
    /// A fresh allocator; its first call to [`Self::next`] returns 0.
    pub fn new() -> (a: Self)
        ensures
            a.next_id == 0,
    {
        IdAllocator { next_id: 0 }
    }

    /// Hands out the next identifier. The 64-bit identifier space is treated
    /// as inexhaustible; no wraparound is provided.
    pub fn next(&mut self) -> (id: u64)
        requires
            old(self).next_id < u64::MAX,
        ensures
            alloc_step(*old(self), *final(self), id),
            id == old(self).next_id,
            final(self).next_id == old(self).next_id + 1,
    {
        let id = self.next_id;
        self.next_id = self.next_id + 1;
        id
    }
}

/// Identifiers issued by an allocator are strictly increasing and never
/// repeat. If one allocation yields `id1`, and a later allocation yields
/// `id2` — later meaning the counter has not moved backwards in between,
/// which no operation ever makes it do — then `id1 < id2`, even when records
/// were deleted and recreated in between.
pub proof fn lemma_issued_ids_strictly_increase(
    a0: IdAllocator,
    a1: IdAllocator,
    b0: IdAllocator,
    b1: IdAllocator,
    id1: u64,
    id2: u64,
)
    requires
        alloc_step(a0, a1, id1),
        a1.next_id <= b0.next_id,
        alloc_step(b0, b1, id2),
    ensures
        id1 < id2,
{
}

} // verus!
