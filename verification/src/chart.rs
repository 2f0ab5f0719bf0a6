use vstd::prelude::*;
use crate::graph::{error_attrs, node_id_text, roots_id_text, GraphItem, NodeAttrs};
use crate::handles::ObjectReference;
use crate::vm::{ConservativeScanning, RootBatch, Slot, VMBinding, ValidityPredicate};
use crate::walk::{
    accept_batches, empty_backlog, lemma_visit_progress, popped, unvisited, visit, Backlog, Walk,
};

verus! {

/// The state of a walk that draws the heap: the walk itself, and the items
/// drawn so far. The roots wait in a queue of their own, which is no part
/// of this state.
pub struct Chart<S> {
    pub walk: Walk<S>,
    pub items: Seq<GraphItem>,
}

/// What is drawn for one slot of the node named `cursor`: an edge to what
/// the slot refers to, or nothing when it refers to nothing.
pub open spec fn draw_slot<S: Slot>(cursor: Seq<char>, slot: S) -> Seq<GraphItem> {
    match slot.referent() {
        Some(target) => seq![GraphItem::Edge(cursor, node_id_text(target))],
        None => Seq::empty(),
    }
}

/// What is drawn for each of `slots` in turn.
pub open spec fn draw_slots<S: Slot>(cursor: Seq<char>, slots: Seq<S>) -> Seq<GraphItem>
    decreases slots.len(),
{
    if slots.len() == 0 {
        Seq::empty()
    } else {
        draw_slots(cursor, slots.drop_last()) + draw_slot(cursor, slots.last())
    }
}

/// What is drawn for a node that is taken up: for a sound node its
/// declaration with its attributes and then its slots; for one that the
/// predicate turns down its declaration with the reason as its `error`, and
/// nothing of its slots.
pub open spec fn draw_node<
    Pred: ValidityPredicate<VM>,
    VM: VMBinding + ConservativeScanning + NodeAttrs,
>(pred: Pred, node: ObjectReference) -> Seq<GraphItem> {
    match pred.node_fault(node) {
        None => seq![GraphItem::Node(node_id_text(node), VM::attrs_of(node))] + draw_slots(
            node_id_text(node),
            VM::outgoing(node),
        ),
        Some(reason) => seq![GraphItem::Node(node_id_text(node), error_attrs(reason))],
    }
}

/// A node is taken up. One that was met before is passed over. A new one is
/// visited as a sanity check visits it, and drawn.
pub open spec fn chart_node<
    Pred: ValidityPredicate<VM>,
    VM: VMBinding + ConservativeScanning + NodeAttrs,
>(pred: Pred, c: Chart<VM::VMSlot>, node: ObjectReference) -> Chart<VM::VMSlot> {
    if c.walk.trail.contains(node) {
        c
    } else {
        Chart {
            walk: visit::<Pred, VM>(pred, c.walk, node),
            items: c.items + draw_node::<Pred, VM>(pred, node),
        }
    }
}

/// A root is taken from the root queue. One that was met before is passed
/// over; for a new one an edge from the node of all roots is drawn, and then
/// the root is taken up as a node.
pub open spec fn chart_root<
    Pred: ValidityPredicate<VM>,
    VM: VMBinding + ConservativeScanning + NodeAttrs,
>(pred: Pred, c: Chart<VM::VMSlot>, root: ObjectReference) -> Chart<VM::VMSlot> {
    if c.walk.trail.contains(root) {
        c
    } else {
        chart_node::<Pred, VM>(
            pred,
            Chart {
                items: c.items.push(GraphItem::Edge(roots_id_text(), node_id_text(root))),
                ..c
            },
            root,
        )
    }
}

/// Each of `roots` is taken in turn.
pub open spec fn chart_roots<
    Pred: ValidityPredicate<VM>,
    VM: VMBinding + ConservativeScanning + NodeAttrs,
>(pred: Pred, c: Chart<VM::VMSlot>, roots: Seq<ObjectReference>) -> Chart<VM::VMSlot>
    decreases roots.len(),
{
    if roots.len() == 0 {
        c
    } else {
        chart_root::<Pred, VM>(
            pred,
            chart_roots::<Pred, VM>(pred, c, roots.drop_last()),
            roots.last(),
        )
    }
}

/// The chart with the oldest waiting node taken off the work queue.
pub open spec fn chart_popped<S>(c: Chart<S>) -> Chart<S> {
    Chart { walk: popped(c.walk), ..c }
}

/// The work queue is emptied: the oldest waiting node is taken up, again
/// and again, until none waits.
pub open spec fn chart_work<
    Pred: ValidityPredicate<VM>,
    VM: VMBinding + ConservativeScanning + NodeAttrs,
>(pred: Pred, c: Chart<VM::VMSlot>) -> Chart<VM::VMSlot>
    decreases unvisited(c.walk.trail), c.walk.backlog.pending.len(),
    when c.walk.trail.no_duplicates()
    via chart_work_decreases::<Pred, VM>
{
    if c.walk.backlog.pending.len() == 0 {
        c
    } else {
        chart_work::<Pred, VM>(
            pred,
            chart_node::<Pred, VM>(pred, chart_popped(c), c.walk.backlog.pending.first()),
        )
    }
}

#[via_fn]
proof fn chart_work_decreases<
    Pred: ValidityPredicate<VM>,
    VM: VMBinding + ConservativeScanning + NodeAttrs,
>(pred: Pred, c: Chart<VM::VMSlot>) {
    if c.walk.backlog.pending.len() != 0 {
        lemma_visit_progress::<Pred, VM>(pred, popped(c.walk), c.walk.backlog.pending.first());
    }
}

/// The roots are taken first, each in turn, and then the work queue is
/// emptied.
pub open spec fn chart<
    Pred: ValidityPredicate<VM>,
    VM: VMBinding + ConservativeScanning + NodeAttrs,
>(pred: Pred, c: Chart<VM::VMSlot>, roots: Seq<ObjectReference>) -> Chart<VM::VMSlot> {
    chart_work::<Pred, VM>(pred, chart_roots::<Pred, VM>(pred, c, roots))
}

/// What the root queue and the log of a dumper hold once the runtime has
/// handed over its roots as `batches`: they are collected as a work
/// collector collects them, the targets of sound root slots and the trusted
/// objects going to the root queue, in which `roots` waited before, and bad
/// root slots to the log.
pub open spec fn collected_roots<Pred: ValidityPredicate<VM>, VM: VMBinding>(
    pred: Pred,
    c: Chart<VM::VMSlot>,
    roots: Seq<ObjectReference>,
    batches: Seq<RootBatch<VM::VMSlot>>,
) -> Backlog<VM::VMSlot> {
    accept_batches::<Pred, VM>(
        pred,
        Backlog { pending: roots, faults: c.walk.backlog.faults },
        batches,
    )
}

/// A whole run of a dumper that holds the chart `c` and in whose root queue
/// `roots` wait: the runtime hands over its roots as `batches`, which are
/// collected; then the roots and the work queue are taken.
pub open spec fn chart_run<
    Pred: ValidityPredicate<VM>,
    VM: VMBinding + ConservativeScanning + NodeAttrs,
>(
    pred: Pred,
    c: Chart<VM::VMSlot>,
    roots: Seq<ObjectReference>,
    batches: Seq<RootBatch<VM::VMSlot>>,
) -> Chart<VM::VMSlot> {
    let collected = collected_roots::<Pred, VM>(pred, c, roots, batches);
    chart::<Pred, VM>(
        pred,
        Chart {
            walk: Walk {
                backlog: Backlog { faults: collected.faults, ..c.walk.backlog },
                ..c.walk
            },
            ..c
        },
        collected.pending,
    )
}

/// A chart on which nothing is drawn, nothing waits and nothing is
/// recorded.
pub open spec fn empty_chart<S>() -> Chart<S> {
    Chart { walk: Walk { trail: Seq::empty(), backlog: empty_backlog() }, items: Seq::empty() }
}

/// The whole dump of a dumper that starts with nothing and is handed the
/// roots as `batches`.
pub open spec fn dump_of<
    Pred: ValidityPredicate<VM>,
    VM: VMBinding + ConservativeScanning + NodeAttrs,
>(pred: Pred, batches: Seq<RootBatch<VM::VMSlot>>) -> Chart<VM::VMSlot> {
    chart_run::<Pred, VM>(pred, empty_chart(), Seq::empty(), batches)
}

/// Taking up a node only adds to what is drawn, and a node that is new
/// adds something.
pub proof fn lemma_chart_node_grows<
    Pred: ValidityPredicate<VM>,
    VM: VMBinding + ConservativeScanning + NodeAttrs,
>(pred: Pred, c: Chart<VM::VMSlot>, node: ObjectReference)
    ensures
        c.items.len() <= chart_node::<Pred, VM>(pred, c, node).items.len(),
        !c.walk.trail.contains(node) ==> c.items.len() < chart_node::<Pred, VM>(
            pred,
            c,
            node,
        ).items.len(),
{
}

/// Taking a root only adds to what is drawn, and a root that is new adds
/// something.
pub proof fn lemma_chart_root_grows<
    Pred: ValidityPredicate<VM>,
    VM: VMBinding + ConservativeScanning + NodeAttrs,
>(pred: Pred, c: Chart<VM::VMSlot>, root: ObjectReference)
    ensures
        c.items.len() <= chart_root::<Pred, VM>(pred, c, root).items.len(),
        !c.walk.trail.contains(root) ==> c.items.len() < chart_root::<Pred, VM>(
            pred,
            c,
            root,
        ).items.len(),
{
}

/// Taking roots keeps the trail free of repetitions, and taking more of
/// them never draws less.
pub proof fn lemma_chart_roots_grow<
    Pred: ValidityPredicate<VM>,
    VM: VMBinding + ConservativeScanning + NodeAttrs,
>(pred: Pred, c: Chart<VM::VMSlot>, roots: Seq<ObjectReference>, some: int)
    requires
        c.walk.trail.no_duplicates(),
        0 <= some <= roots.len(),
    ensures
        chart_roots::<Pred, VM>(pred, c, roots).walk.trail.no_duplicates(),
        chart_roots::<Pred, VM>(pred, c, roots.take(some)).items.len() <= chart_roots::<Pred, VM>(
            pred,
            c,
            roots,
        ).items.len(),
    decreases roots.len(),
{
    if roots.len() == 0 || some == roots.len() {
        assert(roots.take(some) =~= roots);
    }
    if roots.len() != 0 {
        let fewer = if some == roots.len() {
            some - 1
        } else {
            some
        };
        lemma_chart_roots_grow::<Pred, VM>(pred, c, roots.drop_last(), fewer);
        let before = chart_roots::<Pred, VM>(pred, c, roots.drop_last());
        lemma_visit_progress::<Pred, VM>(pred, before.walk, roots.last());
        lemma_chart_root_grows::<Pred, VM>(pred, before, roots.last());
        if some < roots.len() {
            assert(roots.drop_last().take(some) =~= roots.take(some));
        }
    }
}

/// Emptying the work queue only adds to what is drawn.
pub proof fn lemma_chart_work_grows<
    Pred: ValidityPredicate<VM>,
    VM: VMBinding + ConservativeScanning + NodeAttrs,
>(pred: Pred, c: Chart<VM::VMSlot>)
    requires
        c.walk.trail.no_duplicates(),
    ensures
        c.items.len() <= chart_work::<Pred, VM>(pred, c).items.len(),
    decreases unvisited(c.walk.trail), c.walk.backlog.pending.len(),
{
    if c.walk.backlog.pending.len() != 0 {
        let node = c.walk.backlog.pending.first();
        lemma_visit_progress::<Pred, VM>(pred, popped(c.walk), node);
        lemma_chart_node_grows::<Pred, VM>(pred, chart_popped(c), node);
        lemma_chart_work_grows::<Pred, VM>(
            pred,
            chart_node::<Pred, VM>(pred, chart_popped(c), node),
        );
    }
}

} // verus!
