use vstd::prelude::*;
use vstd::seq_lib::*;
use crate::handles::ObjectReference;
use crate::vm::{ConservativeScanning, Slot, VMBinding, ValidityPredicate};
use crate::walk::{
    accept_slot, accept_slots, drain, lemma_visit_progress, popped, unvisited, visit, Backlog,
    Fault, Walk,
};

verus! {

/// The objects that the sound ones among `slots` refer to, in the order of
/// the slots.
pub open spec fn sound_targets<Pred: ValidityPredicate<VM>, VM: VMBinding>(
    pred: Pred,
    slots: Seq<VM::VMSlot>,
) -> Seq<ObjectReference>
    decreases slots.len(),
{
    if slots.len() == 0 {
        Seq::empty()
    } else {
        let before = sound_targets::<Pred, VM>(pred, slots.drop_last());
        match (pred.slot_fault(slots.last()), slots.last().referent()) {
            (None, Some(target)) => before.push(target),
            _ => before,
        }
    }
}

/// The bad edges that the unsound ones among `slots` give, in the order of
/// the slots.
pub open spec fn slot_faults<Pred: ValidityPredicate<VM>, VM: VMBinding>(
    pred: Pred,
    slots: Seq<VM::VMSlot>,
) -> Seq<Fault<VM::VMSlot>>
    decreases slots.len(),
{
    if slots.len() == 0 {
        Seq::empty()
    } else {
        let before = slot_faults::<Pred, VM>(pred, slots.drop_last());
        match pred.slot_fault(slots.last()) {
            Some(reason) => before.push(Fault::BadEdge(slots.last(), reason)),
            None => before,
        }
    }
}

/// Offering slots to a collector puts the targets of the sound ones behind
/// what waits and the faults of the others behind what is recorded, and
/// changes nothing else.
pub proof fn lemma_accept_slots<Pred: ValidityPredicate<VM>, VM: VMBinding>(
    pred: Pred,
    b: Backlog<VM::VMSlot>,
    slots: Seq<VM::VMSlot>,
)
    ensures
        accept_slots::<Pred, VM>(pred, b, slots).pending == b.pending + sound_targets::<Pred, VM>(
            pred,
            slots,
        ),
        accept_slots::<Pred, VM>(pred, b, slots).faults == b.faults + slot_faults::<Pred, VM>(
            pred,
            slots,
        ),
    decreases slots.len(),
{
    if slots.len() != 0 {
        lemma_accept_slots::<Pred, VM>(pred, b, slots.drop_last());
        let mid = accept_slots::<Pred, VM>(pred, b, slots.drop_last());
        let end = accept_slot::<Pred, VM>(pred, mid, slots.last());
        assert(end.pending =~= b.pending + sound_targets::<Pred, VM>(pred, slots));
        assert(end.faults =~= b.faults + slot_faults::<Pred, VM>(pred, slots));
    } else {
        assert(b.pending + sound_targets::<Pred, VM>(pred, slots) =~= b.pending);
        assert(b.faults + slot_faults::<Pred, VM>(pred, slots) =~= b.faults);
    }
}

/// A slot is sound and refers to `to`.
pub open spec fn leads_to<Pred: ValidityPredicate<VM>, VM: VMBinding>(
    pred: Pred,
    slot: VM::VMSlot,
    to: ObjectReference,
) -> bool {
    pred.slot_fault(slot) is None && slot.referent() == Some(to)
}

/// An object is among the targets of the sound slots exactly when one of the
/// slots is sound and refers to it.
pub proof fn lemma_sound_targets<Pred: ValidityPredicate<VM>, VM: VMBinding>(
    pred: Pred,
    slots: Seq<VM::VMSlot>,
    to: ObjectReference,
)
    ensures
        sound_targets::<Pred, VM>(pred, slots).contains(to) <==> exists|i: int|
            0 <= i < slots.len() && leads_to::<Pred, VM>(pred, #[trigger] slots[i], to),
    decreases slots.len(),
{
    broadcast use lemma_seq_contains_after_push;

    if slots.len() != 0 {
        let shorter = slots.drop_last();
        lemma_sound_targets::<Pred, VM>(pred, shorter, to);
        if sound_targets::<Pred, VM>(pred, slots).contains(to) {
            if sound_targets::<Pred, VM>(pred, shorter).contains(to) {
                let i = choose|i: int|
                    0 <= i < shorter.len() && leads_to::<Pred, VM>(pred, #[trigger] shorter[i], to);
                assert(leads_to::<Pred, VM>(pred, slots[i], to));
            } else {
                assert(leads_to::<Pred, VM>(pred, slots[slots.len() - 1], to));
            }
        }
        if exists|i: int|
            0 <= i < slots.len() && leads_to::<Pred, VM>(pred, #[trigger] slots[i], to) {
            let i = choose|i: int|
                0 <= i < slots.len() && leads_to::<Pred, VM>(pred, #[trigger] slots[i], to);
            if i < shorter.len() {
                assert(leads_to::<Pred, VM>(pred, shorter[i], to));
            }
        }
    }
}

/// The walk passes from `from` to `to`: `from` is a sound node, and one of
/// its slots is sound and refers to `to`.
pub open spec fn sound_edge<Pred: ValidityPredicate<VM>, VM: ConservativeScanning>(
    pred: Pred,
    from: ObjectReference,
    to: ObjectReference,
) -> bool {
    &&& pred.node_fault(from) is None
    &&& exists|i: int|
        0 <= i < VM::outgoing(from).len() && leads_to::<Pred, VM>(
            pred,
            #[trigger] VM::outgoing(from)[i],
            to,
        )
}

/// Each object of `path` but the last passes on to the next.
pub open spec fn sound_path<Pred: ValidityPredicate<VM>, VM: ConservativeScanning>(
    pred: Pred,
    path: Seq<ObjectReference>,
) -> bool {
    &&& path.len() > 0
    &&& forall|k: int|
        0 <= k < path.len() - 1 ==> sound_edge::<Pred, VM>(pred, #[trigger] path[k], path[k + 1])
}

/// `node` is one of `starts`, or the walk passes to it from one of them
/// over sound nodes and sound slots.
pub open spec fn reachable<Pred: ValidityPredicate<VM>, VM: ConservativeScanning>(
    pred: Pred,
    starts: Seq<ObjectReference>,
    node: ObjectReference,
) -> bool {
    exists|path: Seq<ObjectReference>| #[trigger]
        sound_path::<Pred, VM>(pred, path) && starts.contains(path.first()) && path.last() == node
}

/// Whether the walk has met `node`: it was taken up, or it waits.
pub open spec fn met<S>(w: Walk<S>, node: ObjectReference) -> bool {
    w.trail.contains(node) || w.backlog.pending.contains(node)
}

/// What holds of a walk from `starts` at every moment: it has met all of
/// `starts` and only objects that they reach, and whatever a node that was
/// taken up passes on to has been met as well.
pub open spec fn on_course<Pred: ValidityPredicate<VM>, VM: ConservativeScanning>(
    pred: Pred,
    starts: Seq<ObjectReference>,
    w: Walk<VM::VMSlot>,
) -> bool {
    &&& w.trail.no_duplicates()
    &&& forall|n: ObjectReference| #[trigger] met(w, n) ==> reachable::<Pred, VM>(pred, starts, n)
    &&& forall|n: ObjectReference| starts.contains(n) ==> #[trigger] met(w, n)
    &&& forall|a: ObjectReference, b: ObjectReference|
        w.trail.contains(a) && #[trigger] sound_edge::<Pred, VM>(pred, a, b) ==> met(w, b)
}

/// Each of `starts` is reached from them.
pub proof fn lemma_start_reachable<Pred: ValidityPredicate<VM>, VM: ConservativeScanning>(
    pred: Pred,
    starts: Seq<ObjectReference>,
    node: ObjectReference,
)
    requires
        starts.contains(node),
    ensures
        reachable::<Pred, VM>(pred, starts, node),
{
    let path = seq![node];
    assert(sound_path::<Pred, VM>(pred, path));
    assert(path.first() == node && path.last() == node);
}

/// What an object that is reached passes on to is reached too.
pub proof fn lemma_reachable_onward<Pred: ValidityPredicate<VM>, VM: ConservativeScanning>(
    pred: Pred,
    starts: Seq<ObjectReference>,
    from: ObjectReference,
    to: ObjectReference,
)
    requires
        reachable::<Pred, VM>(pred, starts, from),
        sound_edge::<Pred, VM>(pred, from, to),
    ensures
        reachable::<Pred, VM>(pred, starts, to),
{
    let path = choose|path: Seq<ObjectReference>| #[trigger]
        sound_path::<Pred, VM>(pred, path) && starts.contains(path.first()) && path.last() == from;
    let longer = path.push(to);
    assert(sound_path::<Pred, VM>(pred, longer)) by {
        assert forall|k: int| 0 <= k < longer.len() - 1 implies sound_edge::<Pred, VM>(
            pred,
            #[trigger] longer[k],
            longer[k + 1],
        ) by {
            if k < path.len() - 1 {
                assert(sound_edge::<Pred, VM>(pred, path[k], path[k + 1]));
            }
        }
    }
    assert(longer.first() == path.first());
    assert(longer.last() == to);
}

/// A walk that has only its starts waiting is on course.
pub proof fn lemma_on_course_at_start<Pred: ValidityPredicate<VM>, VM: ConservativeScanning>(
    pred: Pred,
    w: Walk<VM::VMSlot>,
)
    requires
        w.trail.len() == 0,
    ensures
        on_course::<Pred, VM>(pred, w.backlog.pending, w),
{
    assert forall|n: ObjectReference| #[trigger] met(w, n) implies reachable::<Pred, VM>(
        pred,
        w.backlog.pending,
        n,
    ) by {
        lemma_start_reachable::<Pred, VM>(pred, w.backlog.pending, n);
    }
}

/// Taking the oldest waiting node and visiting it keeps a walk on course.
pub proof fn lemma_step_on_course<Pred: ValidityPredicate<VM>, VM: ConservativeScanning>(
    pred: Pred,
    starts: Seq<ObjectReference>,
    w: Walk<VM::VMSlot>,
)
    requires
        on_course::<Pred, VM>(pred, starts, w),
        w.backlog.pending.len() > 0,
    ensures
        on_course::<Pred, VM>(
            pred,
            starts,
            visit::<Pred, VM>(pred, popped(w), w.backlog.pending.first()),
        ),
{
    broadcast use lemma_seq_contains_after_push, lemma_seq_concat_contains_all_elements;

    let node = w.backlog.pending.first();
    let p = popped(w);
    let next = visit::<Pred, VM>(pred, p, node);
    lemma_visit_progress::<Pred, VM>(pred, p, node);
    assert(met(w, node)) by {
        assert(w.backlog.pending[0] == node);
    }
    // what waited before still waits, or is the node that was taken
    assert forall|n: ObjectReference| w.backlog.pending.contains(n) implies n == node
        || p.backlog.pending.contains(n) by {
        let i = choose|i: int| 0 <= i < w.backlog.pending.len() && w.backlog.pending[i] == n;
        if i != 0 {
            assert(p.backlog.pending[i - 1] == n);
        }
    }
    assert forall|n: ObjectReference| p.backlog.pending.contains(n) implies
        w.backlog.pending.contains(n) by {
        let i = choose|i: int| 0 <= i < p.backlog.pending.len() && p.backlog.pending[i] == n;
        assert(w.backlog.pending[i + 1] == n);
    }
    if w.trail.contains(node) {
        assert(next == p);
        assert forall|n: ObjectReference| #[trigger] met(next, n) implies reachable::<Pred, VM>(
            pred,
            starts,
            n,
        ) by {
            assert(met(w, n));
        }
        assert forall|n: ObjectReference| starts.contains(n) implies #[trigger] met(next, n) by {
            assert(met(w, n));
        }
        assert forall|a: ObjectReference, b: ObjectReference|
            next.trail.contains(a) && #[trigger] sound_edge::<Pred, VM>(pred, a, b) implies met(
            next,
            b,
        ) by {
            assert(met(w, b));
        }
    } else {
        lemma_accept_slots::<Pred, VM>(pred, p.backlog, VM::outgoing(node));
        let fresh = sound_targets::<Pred, VM>(pred, VM::outgoing(node));
        assert(next.trail == w.trail.push(node));
        if pred.node_fault(node) is None {
            assert(next.backlog.pending == p.backlog.pending + fresh);
        } else {
            assert(next.backlog.pending == p.backlog.pending);
        }
        assert forall|n: ObjectReference| #[trigger] met(next, n) implies reachable::<Pred, VM>(
            pred,
            starts,
            n,
        ) by {
            if met(w, n) {
            } else {
                assert(pred.node_fault(node) is None && fresh.contains(n));
                lemma_sound_targets::<Pred, VM>(pred, VM::outgoing(node), n);
                assert(sound_edge::<Pred, VM>(pred, node, n));
                lemma_reachable_onward::<Pred, VM>(pred, starts, node, n);
            }
        }
        assert forall|n: ObjectReference| starts.contains(n) implies #[trigger] met(next, n) by {
            assert(met(w, n));
        }
        assert forall|a: ObjectReference, b: ObjectReference|
            next.trail.contains(a) && #[trigger] sound_edge::<Pred, VM>(pred, a, b) implies met(
            next,
            b,
        ) by {
            if a == node {
                lemma_sound_targets::<Pred, VM>(pred, VM::outgoing(node), b);
                assert(fresh.contains(b));
            } else {
                assert(met(w, b));
            }
        }
    }
}

/// A walk that is on course stays so until nothing waits.
pub proof fn lemma_drain_on_course<Pred: ValidityPredicate<VM>, VM: ConservativeScanning>(
    pred: Pred,
    starts: Seq<ObjectReference>,
    w: Walk<VM::VMSlot>,
)
    requires
        on_course::<Pred, VM>(pred, starts, w),
    ensures
        on_course::<Pred, VM>(pred, starts, drain::<Pred, VM>(pred, w)),
        drain::<Pred, VM>(pred, w).backlog.pending.len() == 0,
    decreases unvisited(w.trail), w.backlog.pending.len(),
{
    if w.backlog.pending.len() != 0 {
        let node = w.backlog.pending.first();
        lemma_visit_progress::<Pred, VM>(pred, popped(w), node);
        lemma_step_on_course::<Pred, VM>(pred, starts, w);
        lemma_drain_on_course::<Pred, VM>(pred, starts, visit::<Pred, VM>(pred, popped(w), node));
    }
}

/// In a walk that is on course and has nothing waiting, every object on a
/// sound path from a start was taken up.
proof fn lemma_path_taken<Pred: ValidityPredicate<VM>, VM: ConservativeScanning>(
    pred: Pred,
    starts: Seq<ObjectReference>,
    w: Walk<VM::VMSlot>,
    path: Seq<ObjectReference>,
    k: int,
)
    requires
        on_course::<Pred, VM>(pred, starts, w),
        w.backlog.pending.len() == 0,
        sound_path::<Pred, VM>(pred, path),
        starts.contains(path.first()),
        0 <= k < path.len(),
    ensures
        w.trail.contains(path[k]),
    decreases k,
{
    if k == 0 {
        assert(met(w, path[0]));
    } else {
        lemma_path_taken::<Pred, VM>(pred, starts, w, path, k - 1);
        assert(sound_edge::<Pred, VM>(pred, path[k - 1], path[k - 1 + 1]));
        assert(met(w, path[k]));
    }
}

/// The walk from a set of waiting nodes ends, takes up every object that
/// they reach over sound nodes and sound slots, takes up nothing else, and
/// takes up none of them twice.
pub proof fn lemma_drain_visits_reachable<
    Pred: ValidityPredicate<VM>,
    VM: ConservativeScanning,
>(pred: Pred, w: Walk<VM::VMSlot>)
    requires
        w.trail.len() == 0,
    ensures
        drain::<Pred, VM>(pred, w).backlog.pending.len() == 0,
        drain::<Pred, VM>(pred, w).trail.no_duplicates(),
        forall|node: ObjectReference|
            #[trigger] drain::<Pred, VM>(pred, w).trail.contains(node) <==> reachable::<Pred, VM>(
                pred,
                w.backlog.pending,
                node,
            ),
{
    let starts = w.backlog.pending;
    let end = drain::<Pred, VM>(pred, w);
    lemma_on_course_at_start::<Pred, VM>(pred, w);
    lemma_drain_on_course::<Pred, VM>(pred, starts, w);
    assert forall|node: ObjectReference| #[trigger]
        end.trail.contains(node) <==> reachable::<Pred, VM>(pred, starts, node) by {
        if end.trail.contains(node) {
            assert(met(end, node));
        }
        if reachable::<Pred, VM>(pred, starts, node) {
            let path = choose|path: Seq<ObjectReference>| #[trigger]
                sound_path::<Pred, VM>(pred, path) && starts.contains(path.first())
                    && path.last() == node;
            lemma_path_taken::<Pred, VM>(pred, starts, end, path, path.len() - 1);
        }
    }
}

} // verus!
