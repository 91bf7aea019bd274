//! The hub: an identifier allocator and a connection registry owned by one
//! instance. A session connects (allocate, register an empty queue), its
//! inbound frames are enriched and fanned out to every registered queue,
//! its writer drains its own queue in order, and disconnecting removes it.

use vstd::prelude::*;
use crate::envelope::enrich_model;
use crate::envelope::enrich_frame;
use crate::ids::IdAllocator;
use crate::msg::{Frame, FrameModel};
use crate::registry::{Contents, Registry, fanout};

verus! {

pub struct Hub {
    allocator: IdAllocator,
    registry: Registry,
}

impl Hub {
    /// Allocator and registry are well formed, and every registered
    /// identifier was issued by this hub's allocator — so a fresh
    /// identifier can never collide with a live connection.
    pub closed spec fn wf(self) -> bool {
        &&& self.allocator.wf()
        &&& self.registry.wf()
        &&& forall|id: usize| self.registry.has(id) ==> self.allocator.issued().contains(id)
    }

    /// The registered connections and their outbound queues.
    pub closed spec fn contents(self) -> Contents {
        self.registry.contents()
    }

    /// Whether the allocator can still hand out an identifier.
    pub closed spec fn can_allocate(self) -> bool {
        self.allocator.upcoming() < usize::MAX
    }

    /// A hub with no connections; the first identifier assigned is 1.
    pub fn new() -> (r: Hub)
        ensures
            r.wf(),
            r.contents() == Map::<usize, Seq<FrameModel>>::empty(),
            r.can_allocate(),
    {
        let h = Hub { allocator: IdAllocator::new(), registry: Registry::new() };
        proof {
            h.registry.lemma_has_dom();
            assert forall|id: usize| !(#[trigger] h.registry.has(id)) by {
                assert(!h.registry.contents().dom().contains(id));
            }
        }
        h
    }

    /// A session connects: allocate a fresh identifier and register it
    /// with an empty outbound queue.
    pub fn connect(&mut self) -> (id: usize)
        requires
            old(self).wf(),
            old(self).can_allocate(),
        ensures
            final(self).wf(),
            id >= 1,
            !old(self).contents().dom().contains(id),
            final(self).contents() == old(self).contents().insert(id, Seq::<FrameModel>::empty()),
    {
        let id = self.allocator.next_id();
        proof {
            assert(!self.registry.has(id));
            old(self).registry.lemma_has_dom();
        }
        self.registry.register(id);
        proof {
            assert forall|k: usize| #[trigger] self.registry.has(k)
                implies self.allocator.issued().contains(k) by {
                self.registry.lemma_has_dom();
                old(self).registry.lemma_has_dom();
                assert(self.registry.contents().dom().contains(k));
                if k != id {
                    assert(old(self).registry.contents().dom().contains(k));
                    assert(old(self).registry.has(k));
                }
            }
        }
        id
    }

    /// `connect`, for a caller that has not tracked whether the allocator
    /// can still hand out an identifier: `None` exactly when it cannot,
    /// with the hub unchanged.
    pub fn try_connect(&mut self) -> (r: Option<usize>)
        requires
            old(self).wf(),
        ensures
            final(self).wf(),
            match r {
                Some(id) => old(self).can_allocate() && id >= 1
                    && !old(self).contents().dom().contains(id)
                    && final(self).contents() == old(self).contents().insert(
                    id,
                    Seq::<FrameModel>::empty(),
                ),
                None => !old(self).can_allocate() && final(self).contents() == old(
                    self,
                ).contents(),
            },
    {
        if self.allocator.upcoming_value() < usize::MAX {
            Some(self.connect())
        } else {
            None
        }
    }

    /// A session ends: remove its entry and queue. Disconnecting an
    /// identifier that is not present is a no-op and does not error.
    pub fn disconnect(&mut self, id: usize)
        requires
            old(self).wf(),
        ensures
            final(self).wf(),
            final(self).contents() == old(self).contents().remove(id),
            !old(self).contents().dom().contains(id) ==> final(self).contents() == old(self).contents(),
    {
        proof {
            old(self).registry.lemma_has_dom();
        }
        self.registry.deregister(id);
        proof {
            assert forall|k: usize| #[trigger] self.registry.has(k)
                implies self.allocator.issued().contains(k) by {
                self.registry.lemma_has_dom();
                old(self).registry.lemma_has_dom();
                assert(self.registry.contents().dom().contains(k));
                assert(old(self).registry.contents().dom().contains(k));
                assert(old(self).registry.has(k));
            }
        }
    }

    /// One inbound frame from a session: a close frame ends the read loop
    /// and touches nothing; every other frame is enriched (text payloads
    /// only) and a copy is enqueued for every registered connection, the
    /// sender included.
    pub fn handle_inbound(&mut self, id: usize, f: &Frame) -> (cont: bool)
        requires
            old(self).wf(),
        ensures
            final(self).wf(),
            f@ is Close ==> !cont && final(self).contents() == old(self).contents(),
            !(f@ is Close) ==> cont
                && final(self).contents() == fanout(
                old(self).contents(),
                enrich_model(f@, id as nat),
            ),
    {
        match f {
            Frame::Close => false,
            _ => {
                let e = enrich_frame(f, id);
                self.registry.broadcast(&e);
                proof {
                    assert forall|k: usize| #[trigger] self.registry.has(k)
                        implies self.allocator.issued().contains(k) by {
                        self.registry.lemma_has_dom();
                        old(self).registry.lemma_has_dom();
                        assert(self.registry.contents().dom().contains(k));
                        assert(old(self).registry.contents().dom().contains(k));
                        assert(old(self).registry.has(k));
                    }
                }
                true
            }
        }
    }

    /// The outbound writer's step: the oldest frame queued for this
    /// connection, in enqueue order; `None` when nothing waits or the
    /// connection is gone.
    pub fn take_next(&mut self, id: usize) -> (r: Option<Frame>)
        requires
            old(self).wf(),
        ensures
            final(self).wf(),
            match r {
                Some(f) => old(self).contents().dom().contains(id)
                    && old(self).contents()[id].len() > 0
                    && f@ == old(self).contents()[id][0]
                    && final(self).contents() == old(self).contents().insert(
                        id,
                        old(self).contents()[id].subrange(1, old(self).contents()[id].len() as int),
                    ),
                None => (!old(self).contents().dom().contains(id)
                    || old(self).contents()[id].len() == 0)
                    && final(self).contents() == old(self).contents(),
            },
    {
        proof {
            old(self).registry.lemma_has_dom();
        }
        let r = self.registry.take_next(id);
        proof {
            assert forall|k: usize| #[trigger] self.registry.has(k)
                implies self.allocator.issued().contains(k) by {
                self.registry.lemma_has_dom();
                old(self).registry.lemma_has_dom();
                assert(self.registry.contents().dom().contains(k));
                assert(old(self).registry.contents().dom().contains(k));
                assert(old(self).registry.has(k));
            }
        }
        r
    }

    /// A point-in-time copy of the registered identifiers.
    pub fn snapshot(&self) -> (ids: Vec<usize>)
        requires
            self.wf(),
        ensures
            forall|id: usize| ids@.contains(id) <==> self.contents().dom().contains(id),
            forall|a: int, b: int| 0 <= a < b < ids@.len() ==> ids@[a] != ids@[b],
    {
        proof {
            self.registry.lemma_has_dom();
        }
        self.registry.snapshot()
    }

    /// Whether the identifier is currently registered.
    pub fn is_registered(&self, id: usize) -> (b: bool)
        requires
            self.wf(),
        ensures
            b == self.contents().dom().contains(id),
    {
        proof {
            self.registry.lemma_has_dom();
        }
        self.registry.is_registered(id)
    }

    /// How many frames wait in the identifier's outbound queue.
    pub fn queue_len(&self, id: usize) -> (n: usize)
        requires
            self.wf(),
        ensures
            self.contents().dom().contains(id) ==> n == self.contents()[id].len(),
            !self.contents().dom().contains(id) ==> n == 0,
    {
        proof {
            self.registry.lemma_has_dom();
        }
        self.registry.queue_len(id)
    }
}

} // verus!
