use vstd::prelude::*;
use vstd::set_lib::*;
use crate::handles::ObjectReference;
use crate::vm::{ConservativeScanning, RootBatch, Slot, VMBinding, ValidityPredicate};

verus! {

/// A failure found while the heap is walked, as a plain value.
pub enum Fault<S> {
    /// A slot that the validity predicate turned down, with the reason.
    BadEdge(S, Seq<char>),
    /// A node that the validity predicate turned down, with the reason.
    BadNode(ObjectReference, Seq<char>),
}

/// What a work collector holds: the nodes that wait to be visited, the
/// oldest first, and the failures recorded so far.
pub struct Backlog<S> {
    pub pending: Seq<ObjectReference>,
    pub faults: Seq<Fault<S>>,
}

/// The state of a walk: the nodes that were taken up so far, each at the
/// moment it was first met, and what is still to do.
pub struct Walk<S> {
    pub trail: Seq<ObjectReference>,
    pub backlog: Backlog<S>,
}

/// A backlog with no node waiting and no failure recorded.
pub open spec fn empty_backlog<S>() -> Backlog<S> {
    Backlog { pending: Seq::empty(), faults: Seq::empty() }
}

/// The collector is offered one slot. A slot that the predicate turns down
/// is recorded as a bad edge and not loaded. A sound slot is loaded, and the
/// object it refers to joins the queue; a sound slot that refers to nothing
/// changes nothing.
pub open spec fn accept_slot<Pred: ValidityPredicate<VM>, VM: VMBinding>(
    pred: Pred,
    b: Backlog<VM::VMSlot>,
    slot: VM::VMSlot,
) -> Backlog<VM::VMSlot> {
    match pred.slot_fault(slot) {
        Some(reason) => Backlog { faults: b.faults.push(Fault::BadEdge(slot, reason)), ..b },
        None => match slot.referent() {
            Some(target) => Backlog { pending: b.pending.push(target), ..b },
            None => b,
        },
    }
}

/// The collector is offered each of `slots` in turn.
pub open spec fn accept_slots<Pred: ValidityPredicate<VM>, VM: VMBinding>(
    pred: Pred,
    b: Backlog<VM::VMSlot>,
    slots: Seq<VM::VMSlot>,
) -> Backlog<VM::VMSlot>
    decreases slots.len(),
{
    if slots.len() == 0 {
        b
    } else {
        accept_slot::<Pred, VM>(
            pred,
            accept_slots::<Pred, VM>(pred, b, slots.drop_last()),
            slots.last(),
        )
    }
}

/// The collector is handed objects that the runtime vouches for: they join
/// the queue unchecked.
pub open spec fn accept_nodes<S>(b: Backlog<S>, nodes: Seq<ObjectReference>) -> Backlog<S> {
    Backlog { pending: b.pending + nodes, ..b }
}

/// The collector is handed one delivery of roots.
pub open spec fn accept_batch<Pred: ValidityPredicate<VM>, VM: VMBinding>(
    pred: Pred,
    b: Backlog<VM::VMSlot>,
    batch: RootBatch<VM::VMSlot>,
) -> Backlog<VM::VMSlot> {
    match batch {
        RootBatch::Slots(slots) => accept_slots::<Pred, VM>(pred, b, slots),
        RootBatch::Pinned(nodes) => accept_nodes(b, nodes),
        RootBatch::TransitivelyPinned(nodes) => accept_nodes(b, nodes),
    }
}

/// The collector is handed each of `batches` in turn.
pub open spec fn accept_batches<Pred: ValidityPredicate<VM>, VM: VMBinding>(
    pred: Pred,
    b: Backlog<VM::VMSlot>,
    batches: Seq<RootBatch<VM::VMSlot>>,
) -> Backlog<VM::VMSlot>
    decreases batches.len(),
{
    if batches.len() == 0 {
        b
    } else {
        accept_batch::<Pred, VM>(
            pred,
            accept_batches::<Pred, VM>(pred, b, batches.drop_last()),
            batches.last(),
        )
    }
}

/// A node is taken from the queue. One that was met before is passed over.
/// A new one joins the trail and is put to the predicate: when it is sound
/// its slots are offered to the collector, when it is not it is recorded as
/// a bad node and its slots are never looked at.
pub open spec fn visit<Pred: ValidityPredicate<VM>, VM: ConservativeScanning>(
    pred: Pred,
    w: Walk<VM::VMSlot>,
    node: ObjectReference,
) -> Walk<VM::VMSlot> {
    if w.trail.contains(node) {
        w
    } else {
        match pred.node_fault(node) {
            None => Walk {
                trail: w.trail.push(node),
                backlog: accept_slots::<Pred, VM>(pred, w.backlog, VM::outgoing(node)),
            },
            Some(reason) => Walk {
                trail: w.trail.push(node),
                backlog: Backlog {
                    faults: w.backlog.faults.push(Fault::BadNode(node, reason)),
                    ..w.backlog
                },
            },
        }
    }
}

/// The walk with the oldest waiting node taken off the queue.
pub open spec fn popped<S>(w: Walk<S>) -> Walk<S> {
    Walk { backlog: Backlog { pending: w.backlog.pending.drop_first(), ..w.backlog }, ..w }
}

/// How many objects a trail has not met yet, of all that a machine can
/// address.
pub open spec fn unvisited(trail: Seq<ObjectReference>) -> nat {
    (Set::<usize>::full().len() - trail.len()) as nat
}

/// The walk is carried on until no node waits: the oldest waiting node is
/// taken and visited, again and again.
pub open spec fn drain<Pred: ValidityPredicate<VM>, VM: ConservativeScanning>(
    pred: Pred,
    w: Walk<VM::VMSlot>,
) -> Walk<VM::VMSlot>
    decreases unvisited(w.trail), w.backlog.pending.len(),
    when w.trail.no_duplicates()
    via drain_decreases::<Pred, VM>
{
    if w.backlog.pending.len() == 0 {
        w
    } else {
        drain::<Pred, VM>(pred, visit::<Pred, VM>(pred, popped(w), w.backlog.pending.first()))
    }
}

/// The whole walk of a checker that starts with nothing and is handed the
/// roots as `batches`.
pub open spec fn survey<Pred: ValidityPredicate<VM>, VM: ConservativeScanning>(
    pred: Pred,
    batches: Seq<RootBatch<VM::VMSlot>>,
) -> Walk<VM::VMSlot> {
    drain::<Pred, VM>(
        pred,
        Walk {
            trail: Seq::empty(),
            backlog: accept_batches::<Pred, VM>(pred, empty_backlog(), batches),
        },
    )
}

#[via_fn]
proof fn drain_decreases<Pred: ValidityPredicate<VM>, VM: ConservativeScanning>(
    pred: Pred,
    w: Walk<VM::VMSlot>,
) {
    if w.backlog.pending.len() != 0 {
        lemma_visit_progress::<Pred, VM>(pred, popped(w), w.backlog.pending.first());
    }
}

/// A trail that meets no object twice is no longer than the number of
/// objects that a machine can address.
pub proof fn lemma_trail_bounded(trail: Seq<ObjectReference>)
    requires
        trail.no_duplicates(),
    ensures
        trail.len() <= Set::<usize>::full().len(),
{
    let addrs = trail.map_values(|o: ObjectReference| o.addr);
    assert(addrs.no_duplicates()) by {
        assert forall|i: int, j: int| 0 <= i < addrs.len() && 0 <= j < addrs.len() && i != j
            implies addrs[i] != addrs[j] by {
            assert(trail[i] != trail[j]);
        }
    }
    addrs.unique_seq_to_set();
    <usize as FiniteFull>::full_properties();
    lemma_len_subset(addrs.to_set(), Set::<usize>::full());
}

/// A visit keeps the trail free of repetitions, and either lengthens it by
/// the node or leaves the whole walk as it was.
pub proof fn lemma_visit_progress<Pred: ValidityPredicate<VM>, VM: ConservativeScanning>(
    pred: Pred,
    w: Walk<VM::VMSlot>,
    node: ObjectReference,
)
    requires
        w.trail.no_duplicates(),
    ensures
        visit::<Pred, VM>(pred, w, node).trail.no_duplicates(),
        w.trail.contains(node) ==> visit::<Pred, VM>(pred, w, node) == w,
        !w.trail.contains(node) ==> visit::<Pred, VM>(pred, w, node).trail == w.trail.push(node)
            && unvisited(w.trail.push(node)) < unvisited(w.trail),
{
    if !w.trail.contains(node) {
        let longer = w.trail.push(node);
        assert(longer.no_duplicates()) by {
            assert forall|i: int, j: int| 0 <= i < longer.len() && 0 <= j < longer.len() && i != j
                implies longer[i] != longer[j] by {
                if i < w.trail.len() && j < w.trail.len() {
                } else if i < w.trail.len() {
                    assert(w.trail.contains(w.trail[i]));
                } else {
                    assert(w.trail.contains(w.trail[j]));
                }
            }
        }
        lemma_trail_bounded(longer);
    }
}

} // verus!
