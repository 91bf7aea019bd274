//! Laws of the registry model: what any interleaving of registrations and
//! deregistrations leaves behind, the relative order of broadcasts, and the
//! first-in-first-out discipline of one connection's outbound queue.

use vstd::prelude::*;
use crate::envelope::{enrich_model, enrich_text_model};
use crate::msg::FrameModel;
use crate::registry::{Contents, fanout};

verus! {

/// One structural mutation of the registry, as issued by some session.
pub enum RegOp {
    Register(usize),
    Deregister(usize),
}

/// The effect of one operation on the registry contents.
pub open spec fn apply_op(m: Contents, op: RegOp) -> Contents {
    match op {
        RegOp::Register(id) => m.insert(id, Seq::<FrameModel>::empty()),
        RegOp::Deregister(id) => m.remove(id),
    }
}

/// The effect of a whole interleaving of operations, first to last.
pub open spec fn apply_ops(m: Contents, ops: Seq<RegOp>) -> Contents
    decreases ops.len(),
{
    if ops.len() == 0 {
        m
    } else {
        apply_ops(apply_op(m, ops[0]), ops.subrange(1, ops.len() as int))
    }
}

/// Whether the interleaving deregisters this identifier and never
/// registers it again afterwards.
pub open spec fn finally_removed(ops: Seq<RegOp>, id: usize) -> bool {
    exists|k: int|
        0 <= k < ops.len() && ops[k] == RegOp::Deregister(id)
            && (forall|j: int| k < j < ops.len() ==> ops[j] != RegOp::Register(id))
}

/// However N concurrent connections' registrations and deregistrations
/// interleave, once every identifier that was present or registered has
/// been deregistered (and not re-registered), the registry is empty.
/// Uniqueness of entries holds throughout: the contents are a map, and
/// every executable operation keeps the representation's identifiers
/// distinct (`Registry::wf` in its contracts).
pub proof fn lemma_interleaving_drains_registry(m: Contents, ops: Seq<RegOp>)
    requires
        forall|id: usize| m.dom().contains(id) ==> finally_removed(ops, id),
        forall|id: usize, j: int|
            0 <= j < ops.len() && ops[j] == RegOp::Register(id) ==> finally_removed(ops, id),
    ensures
        apply_ops(m, ops).dom() =~= Set::<usize>::empty(),
    decreases ops.len(),
{
    if ops.len() == 0 {
        assert forall|id: usize| !(#[trigger] apply_ops(m, ops).dom().contains(id)) by {
            if m.dom().contains(id) {
                assert(finally_removed(ops, id));
                let k = choose|k: int|
                    0 <= k < ops.len() && ops[k] == RegOp::Deregister(id)
                        && (forall|j: int| k < j < ops.len() ==> ops[j] != RegOp::Register(id));
                assert(false);
            }
        }
    } else {
        let op0 = ops[0];
        let rest = ops.subrange(1, ops.len() as int);
        let m1 = apply_op(m, op0);
        assert forall|id: usize| #[trigger] m1.dom().contains(id)
            implies finally_removed(rest, id) by {
            let was = m.dom().contains(id);
            assert(match op0 {
                RegOp::Register(r) => was || r == id,
                RegOp::Deregister(r) => was && r != id,
            });
            let k = choose|k: int|
                0 <= k < ops.len() && ops[k] == RegOp::Deregister(id)
                    && (forall|j: int| k < j < ops.len() ==> ops[j] != RegOp::Register(id));
            assert(finally_removed(ops, id));
            if k == 0 {
                // the very first operation removed it and nothing registers
                // it again, so it cannot be in the map now
                assert(op0 == RegOp::Deregister(id));
                assert(false);
            } else {
                assert(rest[k - 1] == ops[k]);
                assert forall|j: int| k - 1 < j < rest.len()
                    implies rest[j] != RegOp::Register(id) by {
                    assert(rest[j] == ops[j + 1]);
                }
            }
        }
        assert forall|id: usize, j: int|
            0 <= j < rest.len() && rest[j] == RegOp::Register(id)
            implies finally_removed(rest, id) by {
            assert(rest[j] == ops[j + 1]);
            assert(finally_removed(ops, id));
            let k = choose|k: int|
                0 <= k < ops.len() && ops[k] == RegOp::Deregister(id)
                    && (forall|jj: int| k < jj < ops.len() ==> ops[jj] != RegOp::Register(id));
            if k == 0 {
                assert(ops[j + 1] == RegOp::Register(id));
                assert(j + 1 > k);
                assert(false);
            }
            assert(rest[k - 1] == ops[k]);
            assert forall|jj: int| k - 1 < jj < rest.len()
                implies rest[jj] != RegOp::Register(id) by {
                assert(rest[jj] == ops[jj + 1]);
            }
        }
        lemma_interleaving_drains_registry(m1, rest);
        assert(apply_ops(m, ops) == apply_ops(m1, rest));
    }
}

/// Broadcasts keep their relative order: after broadcasting `f1` and then
/// `f2`, every connection that was registered for both holds its old queue
/// followed by exactly one copy of `f1` and then one copy of `f2`.
pub proof fn lemma_broadcast_relative_order(m: Contents, f1: FrameModel, f2: FrameModel)
    ensures
        forall|id: usize| #[trigger] m.dom().contains(id)
            ==> fanout(fanout(m, f1), f2)[id] == m[id].push(f1).push(f2),
        forall|id: usize|
            #[trigger] fanout(fanout(m, f1), f2).dom().contains(id) <==> m.dom().contains(id),
{
    assert forall|id: usize| #[trigger] m.dom().contains(id)
        implies fanout(fanout(m, f1), f2)[id] == m[id].push(f1).push(f2) by {
        assert(fanout(m, f1).dom().contains(id));
        assert(fanout(m, f1)[id] == m[id].push(f1));
    }
}

/// A text payload broadcast by `sender` while some set of connections is
/// registered lands as exactly one copy at the tail of each of their
/// queues — enriched with the true sender's identifier — and registers or
/// removes nobody.
pub proof fn lemma_broadcast_delivers_enriched_copy(m: Contents, t: Seq<char>, sender: usize)
    ensures
        forall|id: usize| #[trigger] m.dom().contains(id)
            ==> fanout(m, enrich_model(FrameModel::Text(t), sender as nat))[id]
                == m[id].push(FrameModel::Text(enrich_text_model(t, sender as nat))),
        forall|id: usize|
            #[trigger] fanout(m, enrich_model(FrameModel::Text(t), sender as nat)).dom().contains(
                id,
            ) <==> m.dom().contains(id),
{
}

/// After `k` writer steps the queue holds what the first `k` steps did not
/// yet deliver.
pub open spec fn queue_after_takes(q: Seq<FrameModel>, k: nat) -> Seq<FrameModel>
    decreases k,
{
    if k == 0 {
        q
    } else {
        let prev = queue_after_takes(q, (k - 1) as nat);
        if prev.len() > 0 {
            prev.subrange(1, prev.len() as int)
        } else {
            prev
        }
    }
}

/// The outbound queue is first-in-first-out: the writer's `k`-th step
/// delivers exactly the `k`-th message that was enqueued, so a message
/// enqueued earlier is observed before one enqueued later.
pub proof fn lemma_outbound_fifo(q: Seq<FrameModel>, k: nat)
    requires
        k < q.len(),
    ensures
        queue_after_takes(q, k) == q.subrange(k as int, q.len() as int),
        queue_after_takes(q, k).len() == q.len() - k,
        queue_after_takes(q, k)[0] == q[k as int],
    decreases k,
{
    if k == 0 {
        assert(q.subrange(0, q.len() as int) =~= q);
    } else {
        lemma_outbound_fifo(q, (k - 1) as nat);
        let prev = queue_after_takes(q, (k - 1) as nat);
        assert(prev.subrange(1, prev.len() as int)
            =~= q.subrange(k as int, q.len() as int));
    }
}

} // verus!
