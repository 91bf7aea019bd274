//! The identifier allocator: a counter owned by the hub instance that hands
//! out connection identifiers, starting at 1, no value twice.

use vstd::prelude::*;

verus! {

pub struct IdAllocator {
    next: usize,
    issued: Ghost<Set<usize>>,
}

impl IdAllocator {
    /// Every identifier handed out so far lies below the counter, so the
    /// next value can never collide with an earlier one.
    pub closed spec fn wf(self) -> bool {
        &&& self.next >= 1
        &&& forall|id: usize| self.issued@.contains(id) ==> 1 <= id < self.next
    }

    /// The identifiers handed out so far.
    pub closed spec fn issued(self) -> Set<usize> {
        self.issued@
    }

    /// The value the next allocation returns.
    pub closed spec fn upcoming(self) -> usize {
        self.next
    }

    /// The value the next allocation returns, readable at run time.
    pub fn upcoming_value(&self) -> (v: usize)
        ensures
            v == self.upcoming(),
    {
        self.next
    }

    /// A fresh allocator: the first identifier it hands out is 1.
    pub fn new() -> (r: IdAllocator)
        ensures
            r.wf(),
            r.issued() == Set::<usize>::empty(),
            r.upcoming() == 1usize,
    {
        IdAllocator { next: 1, issued: Ghost(Set::empty()) }
    }

    /// Allocation: returns a value never returned before by this allocator.
    /// Monotonic increase is a convenience, uniqueness the hard invariant.
    pub fn next_id(&mut self) -> (id: usize)
        requires
            old(self).wf(),
            old(self).upcoming() < usize::MAX,
        ensures
            final(self).wf(),
            id == old(self).upcoming(),
            id >= 1,
            !old(self).issued().contains(id),
            final(self).issued() == old(self).issued().insert(id),
            final(self).upcoming() == id + 1,
    {
        let id = self.next;
        self.next = self.next + 1;
        proof {
            self.issued@ = self.issued@.insert(id);
        }
        id
    }
}

} // verus!
