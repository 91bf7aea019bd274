//! The connection registry: a mapping from connection identifier to that
//! connection's outbound queue. Registration adds a key exactly once,
//! deregistration removes it (a no-op when absent), and a broadcast appends
//! one copy of a message to every registered queue. Its mathematical value
//! is a `Map` from identifier to the queue's sequence of frame models.

use vstd::prelude::*;
use crate::msg::{Frame, FrameModel};

verus! {

/// The abstract state of the registry: each registered connection's
/// outbound queue, oldest message first.
pub type Contents = Map<usize, Seq<FrameModel>>;

/// The mathematical value of an outbound queue.
pub open spec fn qmodel(q: Seq<Frame>) -> Seq<FrameModel> {
    q.map_values(|f: Frame| f@)
}

/// What one broadcast does to the registry contents: every registered
/// queue receives exactly one copy of the frame, appended at the tail.
pub open spec fn fanout(m: Contents, f: FrameModel) -> Contents {
    Map::new(|id: usize| m.dom().contains(id), |id: usize| m[id].push(f))
}

pub struct Registry {
    entries: Vec<(usize, Vec<Frame>)>,
}

impl Registry {
    spec fn raw(self) -> Seq<(usize, Vec<Frame>)> {
        self.entries@
    }

    /// Whether a connection with this identifier is registered.
    pub closed spec fn has(self, id: usize) -> bool {
        exists|i: int| 0 <= i < self.raw().len() && self.raw()[i].0 == id
    }

    spec fn idx(self, id: usize) -> int {
        choose|i: int| 0 <= i < self.raw().len() && self.raw()[i].0 == id
    }

    /// No two entries carry the same connection identifier.
    pub closed spec fn wf(self) -> bool {
        forall|i: int, j: int|
            0 <= i < j < self.raw().len() ==> self.raw()[i].0 != self.raw()[j].0
    }

    /// The registry as a map from identifier to queue model.
    pub closed spec fn contents(self) -> Contents {
        Map::new(|id: usize| self.has(id), |id: usize| qmodel(self.raw()[self.idx(id)].1@))
    }

    /// A registered identifier and a key of the contents map are the same
    /// thing.
    pub proof fn lemma_has_dom(self)
        ensures
            forall|id: usize| #[trigger] self.contents().dom().contains(id) <==> self.has(id),
    {
    }

    proof fn lemma_idx(self, id: usize)
        requires
            self.wf(),
            self.has(id),
        ensures
            0 <= self.idx(id) < self.raw().len(),
            self.raw()[self.idx(id)].0 == id,
            forall|i: int|
                0 <= i < self.raw().len() && self.raw()[i].0 == id ==> i == self.idx(id),
    {
        let w = self.idx(id);
        assert(0 <= w < self.raw().len() && self.raw()[w].0 == id);
        assert forall|i: int|
            0 <= i < self.raw().len() && self.raw()[i].0 == id implies i == w by {
            if i < w {
                assert(self.raw()[i].0 != self.raw()[w].0);
            } else if w < i {
                assert(self.raw()[w].0 != self.raw()[i].0);
            }
        }
    }

    /// An empty registry.
    pub fn new() -> (r: Registry)
        ensures
            r.wf(),
            r.contents() == Map::<usize, Seq<FrameModel>>::empty(),
    {
        let r = Registry { entries: Vec::new() };
        proof {
            assert(r.contents() =~= Map::<usize, Seq<FrameModel>>::empty());
        }
        r
    }

    fn find(&self, id: usize) -> (r: Option<usize>)
        requires
            self.wf(),
        ensures
            match r {
                Some(i) => i < self.entries.len() && self.raw()[i as int].0 == id
                    && self.has(id) && self.idx(id) == i as int,
                None => !self.has(id),
            },
    {
        let mut i: usize = 0;
        while i < self.entries.len()
            invariant
                self.wf(),
                i <= self.entries.len(),
                forall|j: int| 0 <= j < i ==> self.raw()[j].0 != id,
            decreases self.entries.len() - i,
        {
            if self.entries[i].0 == id {
                proof {
                    assert((i as int) < self.raw().len() && self.raw()[i as int].0 == id);
                    self.lemma_idx(id);
                }
                return Some(i);
            }
            i += 1;
        }
        None
    }

    /// Registration: inserts the identifier with a fresh, empty outbound
    /// queue. The caller must not register an identifier twice; the
    /// allocator's uniqueness guarantee provides that.
    pub fn register(&mut self, id: usize)
        requires
            old(self).wf(),
            !old(self).has(id),
        ensures
            final(self).wf(),
            final(self).has(id),
            final(self).contents() == old(self).contents().insert(id, Seq::<FrameModel>::empty()),
    {
        let ghost snap = self.raw();
        self.entries.push((id, Vec::new()));
        proof {
            let n = snap.len() as int;
            assert(self.raw().len() == n + 1);
            assert(self.raw()[n].0 == id);
            assert forall|i: int, j: int|
                0 <= i < j < self.raw().len() implies self.raw()[i].0 != self.raw()[j].0 by {
                if j < n {
                    assert(self.raw()[i] == snap[i] && self.raw()[j] == snap[j]);
                } else {
                    assert(self.raw()[i] == snap[i]);
                    assert(!(exists|k: int| 0 <= k < n && snap[k].0 == id));
                }
            }
            self.lemma_idx(id);
            assert(qmodel(self.raw()[self.idx(id)].1@) =~= Seq::<FrameModel>::empty());
            assert forall|k: usize| #[trigger] old(self).has(k) && k != id
                implies self.has(k) && self.contents()[k] == old(self).contents()[k] by {
                let i = old(self).idx(k);
                old(self).lemma_idx(k);
                assert(self.raw()[i] == snap[i]);
                assert(self.has(k));
                self.lemma_idx(k);
                assert(self.idx(k) == i);
            }
            assert forall|k: usize| #[trigger] self.has(k) implies old(self).has(k) || k == id by {
                let i = self.idx(k);
                self.lemma_idx(k);
                if i < n {
                    assert(snap[i].0 == k);
                }
            }
            assert(self.contents() =~= old(self).contents().insert(id, Seq::<FrameModel>::empty()));
        }
    }

    /// Deregistration: removes the identifier if present; deregistering an
    /// identifier that is not present is a no-op and does not error.
    pub fn deregister(&mut self, id: usize)
        requires
            old(self).wf(),
        ensures
            final(self).wf(),
            !final(self).has(id),
            final(self).contents() == old(self).contents().remove(id),
            !old(self).has(id) ==> final(self).contents() == old(self).contents(),
    {
        let found = self.find(id);
        match found {
            None => {
                proof {
                    assert(self.contents() =~= old(self).contents().remove(id));
                    assert(self.contents() =~= old(self).contents());
                }
            }
            Some(i) => {
                let ghost snap = self.raw();
                self.entries.swap_remove(i);
                proof {
                    let n = snap.len() as int;
                    let ii = i as int;
                    // after swap_remove: entry i holds the old last entry,
                    // and the length shrank by one
                    assert forall|x: int| 0 <= x < self.raw().len()
                        implies self.raw()[x] == (if x == ii && ii < n - 1 { snap[n - 1] } else { snap[x] }) by {
                    }
                    assert forall|a: int, b: int|
                        0 <= a < b < self.raw().len() implies self.raw()[a].0 != self.raw()[b].0 by {
                        let sa: int = if a == ii && ii < n - 1 { n - 1 } else { a };
                        let sb: int = if b == ii && ii < n - 1 { n - 1 } else { b };
                        assert(self.raw()[a] == snap[sa]);
                        assert(self.raw()[b] == snap[sb]);
                        assert(sa != sb);
                    }
                    assert forall|k: usize| #[trigger] self.has(k) implies old(self).has(k) && k != id by {
                        let x = self.idx(k);
                        self.lemma_idx(k);
                        let sx: int = if x == ii && ii < n - 1 { n - 1 } else { x };
                        assert(self.raw()[x] == snap[sx]);
                        assert(snap[sx].0 == k);
                        if k == id {
                            assert(sx != ii);
                            assert(snap[sx].0 != snap[ii].0);
                        }
                    }
                    assert forall|k: usize| #[trigger] old(self).has(k) && k != id
                        implies self.has(k) && self.contents()[k] == old(self).contents()[k] by {
                        let x = old(self).idx(k);
                        old(self).lemma_idx(k);
                        assert(x != ii);
                        let nx: int = if x == n - 1 { ii } else { x };
                        if x == n - 1 {
                            assert(ii < n - 1);
                            assert(self.raw()[ii] == snap[n - 1]);
                        } else {
                            assert(self.raw()[x] == snap[x]);
                        }
                        assert(0 <= nx < self.raw().len() && self.raw()[nx].0 == k);
                        assert(self.has(k));
                        self.lemma_idx(k);
                        assert(self.idx(k) == nx);
                        assert(self.raw()[nx].1 == snap[x].1);
                    }
                    assert(self.contents() =~= old(self).contents().remove(id));
                }
            }
        }
    }

    /// A point-in-time copy of the registered identifiers, for iteration
    /// without holding the registry during delivery.
    pub fn snapshot(&self) -> (ids: Vec<usize>)
        requires
            self.wf(),
        ensures
            forall|id: usize| ids@.contains(id) <==> self.has(id),
            forall|a: int, b: int| 0 <= a < b < ids@.len() ==> ids@[a] != ids@[b],
    {
        let mut ids: Vec<usize> = Vec::new();
        let mut i: usize = 0;
        while i < self.entries.len()
            invariant
                self.wf(),
                i <= self.entries.len(),
                ids@.len() == i as int,
                forall|j: int| 0 <= j < i ==> ids@[j] == self.raw()[j].0,
            decreases self.entries.len() - i,
        {
            ids.push(self.entries[i].0);
            i += 1;
        }
        proof {
            assert forall|id: usize| ids@.contains(id) implies self.has(id) by {
                let j = choose|j: int| 0 <= j < ids@.len() && ids@[j] == id;
                assert(self.raw()[j].0 == id);
            }
            assert forall|id: usize| self.has(id) implies ids@.contains(id) by {
                let j = self.idx(id);
                self.lemma_idx(id);
                assert(ids@[j] == id);
            }
        }
        ids
    }

    /// The broadcast step: appends one copy of the frame to every
    /// registered connection's outbound queue; no queue blocks another.
    pub fn broadcast(&mut self, f: &Frame)
        requires
            old(self).wf(),
        ensures
            final(self).wf(),
            final(self).contents() == fanout(old(self).contents(), f@),
    {
        let ghost snap = self.raw();
        let n = self.entries.len();
        let mut k: usize = 0;
        while k < n
            invariant
                n == snap.len(),
                self.raw().len() == n as int,
                forall|j: int| 0 <= j < self.raw().len() ==> (#[trigger] self.raw()[j]).0 == snap[j].0,
                forall|j: int| k <= j < self.raw().len() ==> (#[trigger] self.raw()[j]).1 == snap[j].1,
                forall|j: int| 0 <= j < k ==> qmodel((#[trigger] self.raw()[j]).1@)
                    == qmodel(snap[j].1@).push(f@),
            decreases n - k,
        {
            let ghost pre = self.raw();
            let mut e = self.entries.remove(k);
            let ghost removed = self.raw();
            let d = f.duplicate();
            let ghost gd = d;
            e.1.push(d);
            let ghost ge = e;
            self.entries.insert(k, e);
            proof {
                assert(removed == pre.remove(k as int));
                assert(self.raw() == removed.insert(k as int, ge));
                assert forall|j: int| 0 <= j < self.raw().len()
                    implies self.raw()[j] == (if j == k { ge } else { pre[j] }) by {
                    assert(self.raw() =~= pre.remove(k as int).insert(k as int, ge));
                }
                assert(ge.0 == snap[k as int].0);
                assert(ge.1@ == snap[k as int].1@.push(gd));
                assert forall|x: int| 0 <= x < ge.1@.len()
                    implies qmodel(ge.1@)[x] == qmodel(snap[k as int].1@).push(f@)[x] by {
                    if x == ge.1@.len() - 1 {
                        assert(ge.1@[x] == gd);
                        assert(gd@ == f@);
                    }
                }
                assert(qmodel(ge.1@) =~= qmodel(snap[k as int].1@).push(f@));
            }
            k += 1;
        }
        proof {
            let post = *self;
            assert forall|i: int, j: int|
                0 <= i < j < post.raw().len() implies post.raw()[i].0 != post.raw()[j].0 by {
                assert(post.raw()[i].0 == snap[i].0);
                assert(post.raw()[j].0 == snap[j].0);
            }
            assert forall|id: usize| #[trigger] post.has(id) <==> old(self).has(id) by {
                if post.has(id) {
                    let x = post.idx(id);
                    post.lemma_idx(id);
                    assert(snap[x].0 == id);
                }
                if old(self).has(id) {
                    let x = old(self).idx(id);
                    old(self).lemma_idx(id);
                    assert(post.raw()[x].0 == id);
                }
            }
            assert forall|id: usize| #[trigger] old(self).has(id)
                implies post.contents()[id] == old(self).contents()[id].push(f@) by {
                let x = old(self).idx(id);
                old(self).lemma_idx(id);
                assert(post.raw()[x].0 == id);
                post.lemma_idx(id);
                assert(post.idx(id) == x);
                assert(qmodel(post.raw()[x].1@) == qmodel(snap[x].1@).push(f@));
            }
            assert(post.contents() =~= fanout(old(self).contents(), f@));
        }
    }

    /// The outbound writer's step for one connection: the oldest queued
    /// frame leaves the queue, strictly in enqueue order.
    pub fn take_next(&mut self, id: usize) -> (r: Option<Frame>)
        requires
            old(self).wf(),
        ensures
            final(self).wf(),
            match r {
                Some(f) => old(self).has(id)
                    && old(self).contents()[id].len() > 0
                    && f@ == old(self).contents()[id][0]
                    && final(self).contents() == old(self).contents().insert(
                        id,
                        old(self).contents()[id].subrange(1, old(self).contents()[id].len() as int),
                    ),
                None => (!old(self).has(id) || old(self).contents()[id].len() == 0)
                    && final(self).contents() == old(self).contents(),
            },
    {
        let found = self.find(id);
        match found {
            None => {
                proof {
                    assert(self.contents() =~= old(self).contents());
                }
                None
            }
            Some(i) => {
                if self.entries[i].1.len() == 0 {
                    proof {
                        assert(qmodel(self.raw()[i as int].1@).len() == 0);
                        assert(self.contents() =~= old(self).contents());
                    }
                    return None;
                }
                let ghost pre = self.raw();
                let mut e = self.entries.remove(i);
                let out = e.1.remove(0);
                let ghost ge = e;
                self.entries.insert(i, e);
                proof {
                    let ii = i as int;
                    assert(self.raw() == pre.remove(ii).insert(ii, ge));
                    assert forall|j: int| 0 <= j < self.raw().len()
                        implies self.raw()[j] == (if j == ii { ge } else { pre[j] }) by {
                        assert(self.raw() =~= pre.remove(ii).insert(ii, ge));
                    }
                    assert(self.raw().len() == pre.len());
                    assert forall|a: int, b: int|
                        0 <= a < b < self.raw().len() implies self.raw()[a].0 != self.raw()[b].0 by {
                        assert(self.raw()[a].0 == pre[a].0);
                        assert(self.raw()[b].0 == pre[b].0);
                    }
                    let q0 = qmodel(pre[ii].1@);
                    assert(out@ == q0[0]);
                    assert(qmodel(ge.1@) =~= q0.subrange(1, q0.len() as int));
                    assert forall|k: usize| #[trigger] self.has(k) <==> old(self).has(k) by {
                        if self.has(k) {
                            let x = self.idx(k);
                            self.lemma_idx(k);
                            assert(pre[x].0 == k);
                        }
                        if old(self).has(k) {
                            let x = old(self).idx(k);
                            old(self).lemma_idx(k);
                            assert(self.raw()[x].0 == k);
                        }
                    }
                    assert forall|k: usize| #[trigger] old(self).has(k) && k != id
                        implies self.contents()[k] == old(self).contents()[k] by {
                        let x = old(self).idx(k);
                        old(self).lemma_idx(k);
                        assert(x != ii);
                        assert(self.raw()[x] == pre[x]);
                        self.lemma_idx(k);
                        assert(self.idx(k) == x);
                    }
                    self.lemma_idx(id);
                    assert(self.idx(id) == ii);
                    assert(self.contents() =~= old(self).contents().insert(
                        id,
                        old(self).contents()[id].subrange(1, old(self).contents()[id].len() as int),
                    ));
                }
                Some(out)
            }
        }
    }

    /// Whether the identifier is currently registered.
    pub fn is_registered(&self, id: usize) -> (b: bool)
        requires
            self.wf(),
        ensures
            b == self.has(id),
    {
        self.find(id).is_some()
    }

    /// How many frames wait in the identifier's outbound queue; zero when
    /// the identifier is not registered.
    pub fn queue_len(&self, id: usize) -> (n: usize)
        requires
            self.wf(),
        ensures
            self.has(id) ==> n == self.contents()[id].len(),
            !self.has(id) ==> n == 0,
    {
        match self.find(id) {
            Some(i) => {
                proof {
                    self.lemma_idx(id);
                }
                self.entries[i].1.len()
            }
            None => 0,
        }
    }
}

} // verus!
