use vstd::prelude::*;
use vstd::seq_lib::*;
use crate::chart::{
    chart, chart_node, chart_popped, chart_root, chart_roots, chart_work, draw_node, draw_slot,
    draw_slots, dump_of, empty_chart, Chart,
};
use crate::text::{hexadecimal, lemma_digits_tell_apart};
use crate::graph::{
    body_text, dot_footer, dot_header, dot_text, error_attrs, node_id_text, roots_id_text,
    GraphItem, NodeAttrs,
};
use crate::handles::ObjectReference;
use crate::reach::{
    lemma_accept_slots, lemma_drain_visits_reachable, lemma_sound_targets, leads_to, reachable,
    slot_faults, sound_path, sound_targets,
};
use crate::vm::{ConservativeScanning, RootBatch, Slot, VMBinding, ValidityPredicate};
use crate::walk::{
    accept_batches, accept_slots, drain, empty_backlog, lemma_visit_progress,
    popped, survey, unvisited, visit, Backlog, Fault, Walk,
};

verus! {

/// The failures that taking up `node` adds to the log: the bad node itself
/// when the predicate turns it down, else the bad edges among its slots.
pub open spec fn node_faults<Pred: ValidityPredicate<VM>, VM: ConservativeScanning>(
    pred: Pred,
    node: ObjectReference,
) -> Seq<Fault<VM::VMSlot>> {
    match pred.node_fault(node) {
        Some(reason) => seq![Fault::BadNode(node, reason)],
        None => slot_faults::<Pred, VM>(pred, VM::outgoing(node)),
    }
}

/// The failures that taking up each of `nodes` in turn adds to the log.
pub open spec fn trail_faults<Pred: ValidityPredicate<VM>, VM: ConservativeScanning>(
    pred: Pred,
    nodes: Seq<ObjectReference>,
) -> Seq<Fault<VM::VMSlot>>
    decreases nodes.len(),
{
    if nodes.len() == 0 {
        Seq::empty()
    } else {
        node_faults::<Pred, VM>(pred, nodes.first()) + trail_faults::<Pred, VM>(
            pred,
            nodes.drop_first(),
        )
    }
}

/// A node that the predicate turns down is recorded once, as a bad node;
/// its slots are not looked at: nothing joins the queue, and no bad edge is
/// recorded for it.
pub proof fn lemma_unsound_node_is_not_scanned<
    Pred: ValidityPredicate<VM>,
    VM: ConservativeScanning,
>(pred: Pred, w: Walk<VM::VMSlot>, node: ObjectReference)
    requires
        !w.trail.contains(node),
        pred.node_fault(node) is Some,
    ensures
        visit::<Pred, VM>(pred, w, node).trail == w.trail.push(node),
        visit::<Pred, VM>(pred, w, node).backlog.pending == w.backlog.pending,
        visit::<Pred, VM>(pred, w, node).backlog.faults == w.backlog.faults.push(
            Fault::BadNode(node, pred.node_fault(node)->0),
        ),
{
}

/// A walk only adds to its trail, and what it adds to its log is what the
/// nodes that it newly takes up give, in the order in which it takes them
/// up: one bad node for a node that is turned down, and for a sound node the
/// bad edges among its slots.
pub proof fn lemma_drain_faults<Pred: ValidityPredicate<VM>, VM: ConservativeScanning>(
    pred: Pred,
    w: Walk<VM::VMSlot>,
)
    requires
        w.trail.no_duplicates(),
    ensures
        w.trail.is_prefix_of(drain::<Pred, VM>(pred, w).trail),
        drain::<Pred, VM>(pred, w).backlog.faults == w.backlog.faults + trail_faults::<Pred, VM>(
            pred,
            drain::<Pred, VM>(pred, w).trail.skip(w.trail.len() as int),
        ),
    decreases unvisited(w.trail), w.backlog.pending.len(),
{
    let end = drain::<Pred, VM>(pred, w);
    if w.backlog.pending.len() == 0 {
        assert(end.trail.skip(w.trail.len() as int) =~= Seq::empty());
        assert(w.backlog.faults + Seq::empty() =~= w.backlog.faults);
    } else {
        let node = w.backlog.pending.first();
        let next = visit::<Pred, VM>(pred, popped(w), node);
        lemma_visit_progress::<Pred, VM>(pred, popped(w), node);
        lemma_drain_faults::<Pred, VM>(pred, next);
        if !w.trail.contains(node) {
            let n = w.trail.len() as int;
            assert(next.trail == w.trail.push(node));
            assert(end.trail[n] == next.trail[n]);
            let added = end.trail.skip(n);
            assert(added.first() == node);
            assert(added.drop_first() =~= end.trail.skip(n + 1));
            lemma_accept_slots::<Pred, VM>(pred, w.backlog, VM::outgoing(node));
            lemma_accept_slots::<Pred, VM>(pred, popped(w).backlog, VM::outgoing(node));
            assert(next.backlog.faults =~= w.backlog.faults + node_faults::<Pred, VM>(pred, node));
            assert(end.backlog.faults =~= w.backlog.faults + trail_faults::<Pred, VM>(
                pred,
                added,
            ));
        }
    }
}

/// How many roots a delivery holds.
pub open spec fn batch_len<S>(batch: RootBatch<S>) -> nat {
    match batch {
        RootBatch::Slots(slots) => slots.len(),
        RootBatch::Pinned(nodes) => nodes.len(),
        RootBatch::TransitivelyPinned(nodes) => nodes.len(),
    }
}

/// None of the deliveries holds a root.
pub open spec fn no_roots<S>(batches: Seq<RootBatch<S>>) -> bool {
    forall|i: int| 0 <= i < batches.len() ==> batch_len(#[trigger] batches[i]) == 0
}

/// Deliveries that hold no root leave a collector as it was.
pub proof fn lemma_accept_no_roots<Pred: ValidityPredicate<VM>, VM: VMBinding>(
    pred: Pred,
    b: Backlog<VM::VMSlot>,
    batches: Seq<RootBatch<VM::VMSlot>>,
)
    requires
        no_roots(batches),
    ensures
        accept_batches::<Pred, VM>(pred, b, batches) == b,
    decreases batches.len(),
{
    if batches.len() != 0 {
        let shorter = batches.drop_last();
        assert(no_roots(shorter)) by {
            assert forall|i: int| 0 <= i < shorter.len() implies batch_len(#[trigger] shorter[i])
                == 0 by {
                assert(shorter[i] == batches[i]);
            }
        }
        lemma_accept_no_roots::<Pred, VM>(pred, b, shorter);
        assert(batch_len(batches[batches.len() - 1]) == 0);
        match batches.last() {
            RootBatch::Slots(slots) => {},
            RootBatch::Pinned(nodes) => {
                assert(b.pending + nodes =~= b.pending);
            },
            RootBatch::TransitivelyPinned(nodes) => {
                assert(b.pending + nodes =~= b.pending);
            },
        }
    }
}

/// With no roots a sanity check takes up nothing and records nothing.
pub proof fn lemma_survey_without_roots<Pred: ValidityPredicate<VM>, VM: ConservativeScanning>(
    pred: Pred,
    batches: Seq<RootBatch<VM::VMSlot>>,
)
    requires
        no_roots(batches),
    ensures
        survey::<Pred, VM>(pred, batches) == (Walk {
            trail: Seq::empty(),
            backlog: empty_backlog::<VM::VMSlot>(),
        }),
{
    lemma_accept_no_roots::<Pred, VM>(pred, empty_backlog(), batches);
}

/// A sanity check takes up every object that the roots reach over sound
/// nodes and sound slots, nothing else, and none of them twice; when it
/// ends nothing waits; and its log holds what the objects it took up give,
/// behind what the root slots gave.
pub proof fn lemma_survey_visits_reachable<
    Pred: ValidityPredicate<VM>,
    VM: ConservativeScanning,
>(pred: Pred, batches: Seq<RootBatch<VM::VMSlot>>)
    ensures
        survey::<Pred, VM>(pred, batches).backlog.pending.len() == 0,
        survey::<Pred, VM>(pred, batches).trail.no_duplicates(),
        forall|node: ObjectReference| #[trigger]
            survey::<Pred, VM>(pred, batches).trail.contains(node) <==> reachable::<Pred, VM>(
                pred,
                accept_batches::<Pred, VM>(pred, empty_backlog(), batches).pending,
                node,
            ),
        survey::<Pred, VM>(pred, batches).backlog.faults == accept_batches::<Pred, VM>(
            pred,
            empty_backlog(),
            batches,
        ).faults + trail_faults::<Pred, VM>(pred, survey::<Pred, VM>(pred, batches).trail),
{
    let start = Walk {
        trail: Seq::empty(),
        backlog: accept_batches::<Pred, VM>(pred, empty_backlog(), batches),
    };
    lemma_drain_visits_reachable::<Pred, VM>(pred, start);
    lemma_drain_faults::<Pred, VM>(pred, start);
    assert(survey::<Pred, VM>(pred, batches).trail.skip(0) =~= survey::<Pred, VM>(
        pred,
        batches,
    ).trail);
}

/// What is reached from some of the starts is reached from all of them.
pub proof fn lemma_reachable_from_more<Pred: ValidityPredicate<VM>, VM: ConservativeScanning>(
    pred: Pred,
    few: Seq<ObjectReference>,
    many: Seq<ObjectReference>,
    node: ObjectReference,
)
    requires
        forall|n: ObjectReference| few.contains(n) ==> many.contains(n),
        reachable::<Pred, VM>(pred, few, node),
    ensures
        reachable::<Pred, VM>(pred, many, node),
{
    let path = choose|path: Seq<ObjectReference>| #[trigger]
        sound_path::<Pred, VM>(pred, path) && few.contains(path.first()) && path.last() == node;
    assert(sound_path::<Pred, VM>(pred, path) && many.contains(path.first()));
}

/// Among root slots of which one is turned down and all others are sound,
/// the one is recorded as the only bad edge of the roots, and the walk goes
/// on from all the others: whatever one of them reaches is taken up.
pub proof fn lemma_one_bad_root_slot<Pred: ValidityPredicate<VM>, VM: ConservativeScanning>(
    pred: Pred,
    slots: Seq<VM::VMSlot>,
    bad: int,
)
    requires
        0 <= bad < slots.len(),
        pred.slot_fault(slots[bad]) is Some,
        forall|i: int| 0 <= i < slots.len() && i != bad ==> pred.slot_fault(slots[i]) is None,
    ensures
        accept_slots::<Pred, VM>(pred, empty_backlog(), slots).faults == seq![
            Fault::BadEdge(slots[bad], pred.slot_fault(slots[bad])->0),
        ],
        forall|i: int, root: ObjectReference, node: ObjectReference|
            0 <= i < slots.len() && i != bad && #[trigger] slots[i].referent() == Some(root)
                && #[trigger] reachable::<Pred, VM>(pred, seq![root], node) ==> survey::<Pred, VM>(
                pred,
                seq![RootBatch::Slots(slots)],
            ).trail.contains(node),
        survey::<Pred, VM>(pred, seq![RootBatch::Slots(slots)]).backlog.faults == seq![
            Fault::BadEdge(slots[bad], pred.slot_fault(slots[bad])->0),
        ] + trail_faults::<Pred, VM>(
            pred,
            survey::<Pred, VM>(pred, seq![RootBatch::Slots(slots)]).trail,
        ),
{
    let batches = seq![RootBatch::Slots(slots)];
    let b = accept_slots::<Pred, VM>(pred, empty_backlog(), slots);
    assert(accept_batches::<Pred, VM>(pred, empty_backlog(), batches) == b) by {
        assert(batches.drop_last() =~= Seq::empty());
        assert(batches.last() == RootBatch::Slots(slots));
        assert(accept_batches::<Pred, VM>(pred, empty_backlog(), batches.drop_last())
            == empty_backlog::<VM::VMSlot>());
    }
    lemma_accept_slots::<Pred, VM>(pred, empty_backlog(), slots);
    lemma_only_fault::<Pred, VM>(pred, slots, bad);
    assert(b.faults =~= slot_faults::<Pred, VM>(pred, slots));
    assert(b.pending =~= sound_targets::<Pred, VM>(pred, slots));
    lemma_survey_visits_reachable::<Pred, VM>(pred, batches);
    assert forall|i: int, root: ObjectReference, node: ObjectReference|
        0 <= i < slots.len() && i != bad && #[trigger] slots[i].referent() == Some(root)
            && #[trigger] reachable::<Pred, VM>(pred, seq![root], node) implies survey::<Pred, VM>(
        pred,
        batches,
    ).trail.contains(node) by {
        lemma_sound_targets::<Pred, VM>(pred, slots, root);
        assert(leads_to::<Pred, VM>(pred, slots[i], root));
        assert(b.pending.contains(root));
        assert forall|n: ObjectReference| seq![root].contains(n) implies b.pending.contains(n) by {
            assert(n == root) by {
                let j = choose|j: int| 0 <= j < seq![root].len() && seq![root][j] == n;
            }
        }
        lemma_reachable_from_more::<Pred, VM>(pred, seq![root], b.pending, node);
    }
}

/// Slots of which one is turned down and all others are sound give one bad
/// edge.
proof fn lemma_only_fault<Pred: ValidityPredicate<VM>, VM: VMBinding>(
    pred: Pred,
    slots: Seq<VM::VMSlot>,
    bad: int,
)
    requires
        forall|i: int| 0 <= i < slots.len() && i != bad ==> pred.slot_fault(slots[i]) is None,
    ensures
        0 <= bad < slots.len() && pred.slot_fault(slots[bad]) is Some ==> slot_faults::<Pred, VM>(
            pred,
            slots,
        ) == seq![Fault::BadEdge(slots[bad], pred.slot_fault(slots[bad])->0)],
        !(0 <= bad < slots.len()) ==> slot_faults::<Pred, VM>(pred, slots) == Seq::<
            Fault<VM::VMSlot>,
        >::empty(),
    decreases slots.len(),
{
    if slots.len() != 0 {
        let shorter = slots.drop_last();
        if bad == slots.len() - 1 {
            lemma_only_fault::<Pred, VM>(pred, shorter, -1);
            if pred.slot_fault(slots[bad]) is Some {
                assert(slot_faults::<Pred, VM>(pred, slots) =~= seq![
                    Fault::BadEdge(slots[bad], pred.slot_fault(slots[bad])->0),
                ]);
            }
        } else {
            assert forall|i: int| 0 <= i < shorter.len() && i != bad implies pred.slot_fault(
                shorter[i],
            ) is None by {
                assert(shorter[i] == slots[i]);
            }
            lemma_only_fault::<Pred, VM>(pred, shorter, bad);
            assert(pred.slot_fault(slots[slots.len() - 1]) is None);
            if 0 <= bad < slots.len() {
                assert(shorter[bad] == slots[bad]);
            }
        }
    }
}

/// With no roots a dump takes up nothing, records nothing and draws
/// nothing: its text is the header and the footer.
pub proof fn lemma_dump_without_roots<
    Pred: ValidityPredicate<VM>,
    VM: VMBinding + ConservativeScanning + NodeAttrs,
>(pred: Pred, batches: Seq<RootBatch<VM::VMSlot>>)
    requires
        no_roots(batches),
    ensures
        dump_of::<Pred, VM>(pred, batches) == empty_chart::<VM::VMSlot>(),
        dot_text(dump_of::<Pred, VM>(pred, batches).items) == dot_header() + dot_footer(),
{
    lemma_accept_no_roots::<Pred, VM>(pred, empty_backlog(), batches);
    assert(dot_header() + body_text(Seq::empty()) + dot_footer() =~= dot_header() + dot_footer());
}

/// A node that the predicate turns down is recorded as a bad node and drawn
/// once, with the reason as its `error`; its slots are not looked at: no
/// edge is drawn from it, nothing joins the queue, and no bad edge is
/// recorded for it.
pub proof fn lemma_unsound_node_is_drawn_flagged<
    Pred: ValidityPredicate<VM>,
    VM: VMBinding + ConservativeScanning + NodeAttrs,
>(pred: Pred, c: Chart<VM::VMSlot>, node: ObjectReference)
    requires
        !c.walk.trail.contains(node),
        pred.node_fault(node) is Some,
    ensures
        chart_node::<Pred, VM>(pred, c, node) == (Chart {
            walk: Walk {
                trail: c.walk.trail.push(node),
                backlog: Backlog {
                    pending: c.walk.backlog.pending,
                    faults: c.walk.backlog.faults.push(
                        Fault::BadNode(node, pred.node_fault(node)->0),
                    ),
                },
            },
            items: c.items.push(
                GraphItem::Node(node_id_text(node), error_attrs(pred.node_fault(node)->0)),
            ),
        }),
{
    assert(c.items + draw_node::<Pred, VM>(pred, node) =~= c.items.push(
        GraphItem::Node(node_id_text(node), error_attrs(pred.node_fault(node)->0)),
    ));
}

/// A walk is where a chart would be if the roots of the chart waited before
/// all else on the work queue.
pub open spec fn in_step<S>(w: Walk<S>, c: Chart<S>, roots: Seq<ObjectReference>) -> bool {
    &&& w.trail == c.walk.trail
    &&& w.backlog.pending == roots + c.walk.backlog.pending
    &&& w.backlog.faults == c.walk.backlog.faults
}

/// Taking up a node on a chart and visiting it on a walk lead from states
/// in step to states in step.
proof fn lemma_node_in_step<
    Pred: ValidityPredicate<VM>,
    VM: VMBinding + ConservativeScanning + NodeAttrs,
>(
    pred: Pred,
    w: Walk<VM::VMSlot>,
    c: Chart<VM::VMSlot>,
    roots: Seq<ObjectReference>,
    node: ObjectReference,
)
    requires
        in_step(w, c, roots),
    ensures
        in_step(visit::<Pred, VM>(pred, w, node), chart_node::<Pred, VM>(pred, c, node), roots),
{
    if !c.walk.trail.contains(node) {
        if pred.node_fault(node) is None {
            lemma_accept_slots::<Pred, VM>(pred, w.backlog, VM::outgoing(node));
            lemma_accept_slots::<Pred, VM>(pred, c.walk.backlog, VM::outgoing(node));
            let fresh = sound_targets::<Pred, VM>(pred, VM::outgoing(node));
            assert((roots + c.walk.backlog.pending) + fresh =~= roots + (c.walk.backlog.pending
                + fresh));
        }
    }
}

/// Taking the roots one by one from the first is the same as taking them
/// one by one up to the last.
proof fn lemma_chart_roots_from_first<
    Pred: ValidityPredicate<VM>,
    VM: VMBinding + ConservativeScanning + NodeAttrs,
>(pred: Pred, c: Chart<VM::VMSlot>, roots: Seq<ObjectReference>)
    requires
        roots.len() > 0,
    ensures
        chart_roots::<Pred, VM>(pred, c, roots) == chart_roots::<Pred, VM>(
            pred,
            chart_root::<Pred, VM>(pred, c, roots.first()),
            roots.drop_first(),
        ),
    decreases roots.len(),
{
    let first = roots.first();
    let c1 = chart_root::<Pred, VM>(pred, c, first);
    if roots.len() == 1 {
        assert(roots.drop_last() =~= Seq::empty());
        assert(roots.drop_first() =~= Seq::empty());
        assert(chart_roots::<Pred, VM>(pred, c, roots.drop_last()) == c);
        assert(chart_roots::<Pred, VM>(pred, c1, roots.drop_first()) == c1);
    } else {
        let front = roots.drop_last();
        let back = roots.drop_first();
        lemma_chart_roots_from_first::<Pred, VM>(pred, c, front);
        assert(front.drop_first() =~= back.drop_last());
        assert(front.first() == first);
        assert(back.last() == roots.last());
        assert(chart_roots::<Pred, VM>(pred, c1, back) == chart_root::<Pred, VM>(
            pred,
            chart_roots::<Pred, VM>(pred, c1, back.drop_last()),
            back.last(),
        ));
    }
}

/// Emptying the work queue of a chart walks the heap as draining the walk
/// of the chart does.
pub proof fn lemma_chart_work_walks<
    Pred: ValidityPredicate<VM>,
    VM: VMBinding + ConservativeScanning + NodeAttrs,
>(pred: Pred, c: Chart<VM::VMSlot>)
    requires
        c.walk.trail.no_duplicates(),
    ensures
        chart_work::<Pred, VM>(pred, c).walk == drain::<Pred, VM>(pred, c.walk),
    decreases unvisited(c.walk.trail), c.walk.backlog.pending.len(),
{
    if c.walk.backlog.pending.len() != 0 {
        let node = c.walk.backlog.pending.first();
        lemma_visit_progress::<Pred, VM>(pred, popped(c.walk), node);
        lemma_chart_work_walks::<Pred, VM>(
            pred,
            chart_node::<Pred, VM>(pred, chart_popped(c), node),
        );
    }
}

/// Taking the roots of a chart and then emptying its work queue walks the
/// heap as draining a walk does in which the roots wait before all else.
proof fn lemma_chart_in_step<
    Pred: ValidityPredicate<VM>,
    VM: VMBinding + ConservativeScanning + NodeAttrs,
>(pred: Pred, w: Walk<VM::VMSlot>, c: Chart<VM::VMSlot>, roots: Seq<ObjectReference>)
    requires
        c.walk.trail.no_duplicates(),
        in_step(w, c, roots),
    ensures
        chart::<Pred, VM>(pred, c, roots).walk == drain::<Pred, VM>(pred, w),
    decreases roots.len(),
{
    if roots.len() == 0 {
        assert(roots + c.walk.backlog.pending =~= c.walk.backlog.pending);
        assert(w == c.walk);
        lemma_chart_work_walks::<Pred, VM>(pred, c);
    } else {
        let root = roots.first();
        let rest = roots.drop_first();
        lemma_chart_roots_from_first::<Pred, VM>(pred, c, roots);
        let w1 = popped(w);
        assert(w.backlog.pending.first() == root);
        assert(w1.backlog.pending =~= rest + c.walk.backlog.pending);
        let c1 = chart_root::<Pred, VM>(pred, c, root);
        let w2 = visit::<Pred, VM>(pred, w1, root);
        if !c.walk.trail.contains(root) {
            let edged = Chart {
                items: c.items.push(GraphItem::Edge(roots_id_text(), node_id_text(root))),
                ..c
            };
            lemma_node_in_step::<Pred, VM>(pred, w1, edged, rest, root);
        }
        lemma_visit_progress::<Pred, VM>(pred, w1, root);
        lemma_chart_in_step::<Pred, VM>(pred, w2, c1, rest);
    }
}

/// A dump walks the heap exactly as a sanity check does: it takes up the
/// same objects in the same order and records the same failures.
pub proof fn lemma_dump_walks_as_survey<
    Pred: ValidityPredicate<VM>,
    VM: VMBinding + ConservativeScanning + NodeAttrs,
>(pred: Pred, batches: Seq<RootBatch<VM::VMSlot>>)
    ensures
        dump_of::<Pred, VM>(pred, batches).walk == survey::<Pred, VM>(pred, batches),
{
    let collected = accept_batches::<Pred, VM>(pred, empty_backlog(), batches);
    let w = Walk { trail: Seq::empty(), backlog: collected };
    let c = Chart {
        walk: Walk {
            trail: Seq::empty(),
            backlog: Backlog { pending: Seq::empty(), faults: collected.faults },
        },
        items: Seq::empty(),
    };
    assert(collected.pending + c.walk.backlog.pending =~= collected.pending);
    lemma_chart_in_step::<Pred, VM>(pred, w, c, collected.pending);
}

/// A dump takes up every object that the roots reach over sound nodes and
/// sound slots, nothing else, and none of them twice; when it ends nothing
/// waits.
pub proof fn lemma_dump_visits_reachable<
    Pred: ValidityPredicate<VM>,
    VM: VMBinding + ConservativeScanning + NodeAttrs,
>(pred: Pred, batches: Seq<RootBatch<VM::VMSlot>>)
    ensures
        dump_of::<Pred, VM>(pred, batches).walk.backlog.pending.len() == 0,
        dump_of::<Pred, VM>(pred, batches).walk.trail.no_duplicates(),
        forall|node: ObjectReference| #[trigger]
            dump_of::<Pred, VM>(pred, batches).walk.trail.contains(node) <==> reachable::<
                Pred,
                VM,
            >(pred, accept_batches::<Pred, VM>(pred, empty_backlog(), batches).pending, node),
{
    lemma_dump_walks_as_survey::<Pred, VM>(pred, batches);
    lemma_survey_visits_reachable::<Pred, VM>(pred, batches);
}

/// Two objects are drawn under the same name only if they are the same
/// object.
pub proof fn lemma_node_ids_tell_apart(a: ObjectReference, b: ObjectReference)
    requires
        node_id_text(a) == node_id_text(b),
    ensures
        a == b,
{
    reveal_strlit("\"");
    reveal_strlit("0x");
    let ha = hexadecimal(a.addr as nat);
    let hb = hexadecimal(b.addr as nat);
    let ia = node_id_text(a);
    let ib = node_id_text(b);
    assert(ia.len() == ha.len() + 4);
    assert(ib.len() == hb.len() + 4);
    assert(ha =~= ia.subrange(3, ia.len() - 1));
    assert(hb =~= ib.subrange(3, ib.len() - 1));
    lemma_digits_tell_apart(a.addr as nat, b.addr as nat, 16);
}

/// The names under which objects are drawn, in the order of the objects.
pub open spec fn names(nodes: Seq<ObjectReference>) -> Seq<Seq<char>> {
    nodes.map_values(|o: ObjectReference| node_id_text(o))
}

/// The names of the nodes that are declared among `items`, in the order of
/// the items.
pub open spec fn declared(items: Seq<GraphItem>) -> Seq<Seq<char>>
    decreases items.len(),
{
    if items.len() == 0 {
        Seq::empty()
    } else {
        match items.last() {
            GraphItem::Node(id, _) => declared(items.drop_last()).push(id),
            GraphItem::Edge(_, _) => declared(items.drop_last()),
        }
    }
}

/// Objects that are all different are drawn under names that are all
/// different.
pub proof fn lemma_names_differ(nodes: Seq<ObjectReference>)
    requires
        nodes.no_duplicates(),
    ensures
        names(nodes).no_duplicates(),
{
    assert forall|i: int, j: int|
        0 <= i < names(nodes).len() && 0 <= j < names(nodes).len() && i != j implies names(
        nodes,
    )[i] != names(nodes)[j] by {
        if names(nodes)[i] == names(nodes)[j] {
            lemma_node_ids_tell_apart(nodes[i], nodes[j]);
        }
    }
}

/// What is declared among items put one behind the other is what is
/// declared among the first and then among the second.
pub proof fn lemma_declared_add(first: Seq<GraphItem>, second: Seq<GraphItem>)
    ensures
        declared(first + second) == declared(first) + declared(second),
    decreases second.len(),
{
    if second.len() == 0 {
        assert(first + second =~= first);
        assert(declared(first) + declared(second) =~= declared(first));
    } else {
        lemma_declared_add(first, second.drop_last());
        assert((first + second).drop_last() =~= first + second.drop_last());
        assert((first + second).last() == second.last());
        assert(declared(first + second) =~= declared(first) + declared(second));
    }
}

/// Drawing slots declares no node.
pub proof fn lemma_slots_declare_nothing<S: Slot>(cursor: Seq<char>, slots: Seq<S>)
    ensures
        declared(draw_slots(cursor, slots)) == Seq::<Seq<char>>::empty(),
    decreases slots.len(),
{
    if slots.len() != 0 {
        lemma_slots_declare_nothing(cursor, slots.drop_last());
        lemma_declared_add(draw_slots(cursor, slots.drop_last()), draw_slot(cursor, slots.last()));
        let one = draw_slot(cursor, slots.last());
        if one.len() != 0 {
            assert(one.drop_last() =~= Seq::<GraphItem>::empty());
            assert(declared(one.drop_last()) == Seq::<Seq<char>>::empty());
        }
        assert(declared(one) == Seq::<Seq<char>>::empty());
        assert(declared(draw_slots(cursor, slots)) =~= Seq::<Seq<char>>::empty());
    }
}

/// Drawing a node declares that node and no other.
pub proof fn lemma_node_declares_itself<
    Pred: ValidityPredicate<VM>,
    VM: VMBinding + ConservativeScanning + NodeAttrs,
>(pred: Pred, node: ObjectReference)
    ensures
        declared(draw_node::<Pred, VM>(pred, node)) == seq![node_id_text(node)],
{
    let head = match pred.node_fault(node) {
        None => seq![GraphItem::Node(node_id_text(node), VM::attrs_of(node))],
        Some(reason) => seq![GraphItem::Node(node_id_text(node), error_attrs(reason))],
    };
    assert(head.drop_last() =~= Seq::<GraphItem>::empty());
    assert(declared(head.drop_last()) == Seq::<Seq<char>>::empty());
    assert(declared(head) =~= seq![node_id_text(node)]);
    if pred.node_fault(node) is None {
        let edges = draw_slots(node_id_text(node), VM::outgoing(node));
        lemma_slots_declare_nothing(node_id_text(node), VM::outgoing(node));
        lemma_declared_add(head, edges);
        assert(declared(head) + declared(edges) =~= seq![node_id_text(node)]);
    }
}

/// The nodes declared on a chart are the objects taken up, each once and in
/// the order in which they were taken up.
pub open spec fn declares_trail<S>(c: Chart<S>) -> bool {
    declared(c.items) == names(c.walk.trail)
}

/// Taking up a node keeps the declarations of a chart in line with its
/// trail.
pub proof fn lemma_chart_node_declares<
    Pred: ValidityPredicate<VM>,
    VM: VMBinding + ConservativeScanning + NodeAttrs,
>(pred: Pred, c: Chart<VM::VMSlot>, node: ObjectReference)
    requires
        declares_trail(c),
        c.walk.trail.no_duplicates(),
    ensures
        declares_trail(chart_node::<Pred, VM>(pred, c, node)),
{
    if !c.walk.trail.contains(node) {
        lemma_visit_progress::<Pred, VM>(pred, c.walk, node);
        lemma_node_declares_itself::<Pred, VM>(pred, node);
        lemma_declared_add(c.items, draw_node::<Pred, VM>(pred, node));
        assert(names(c.walk.trail.push(node)) =~= names(c.walk.trail) + seq![node_id_text(node)]);
    }
}

/// Taking a root keeps the declarations of a chart in line with its trail.
pub proof fn lemma_chart_root_declares<
    Pred: ValidityPredicate<VM>,
    VM: VMBinding + ConservativeScanning + NodeAttrs,
>(pred: Pred, c: Chart<VM::VMSlot>, root: ObjectReference)
    requires
        declares_trail(c),
        c.walk.trail.no_duplicates(),
    ensures
        declares_trail(chart_root::<Pred, VM>(pred, c, root)),
        chart_root::<Pred, VM>(pred, c, root).walk.trail.no_duplicates(),
{
    lemma_visit_progress::<Pred, VM>(pred, c.walk, root);
    if !c.walk.trail.contains(root) {
        let edge = GraphItem::Edge(roots_id_text(), node_id_text(root));
        let edged = Chart { items: c.items.push(edge), ..c };
        assert(edged.items.drop_last() =~= c.items);
        lemma_chart_node_declares::<Pred, VM>(pred, edged, root);
    }
}

/// Taking roots keeps the declarations of a chart in line with its trail.
pub proof fn lemma_chart_roots_declare<
    Pred: ValidityPredicate<VM>,
    VM: VMBinding + ConservativeScanning + NodeAttrs,
>(pred: Pred, c: Chart<VM::VMSlot>, roots: Seq<ObjectReference>)
    requires
        declares_trail(c),
        c.walk.trail.no_duplicates(),
    ensures
        declares_trail(chart_roots::<Pred, VM>(pred, c, roots)),
        chart_roots::<Pred, VM>(pred, c, roots).walk.trail.no_duplicates(),
    decreases roots.len(),
{
    if roots.len() != 0 {
        lemma_chart_roots_declare::<Pred, VM>(pred, c, roots.drop_last());
        lemma_chart_root_declares::<Pred, VM>(
            pred,
            chart_roots::<Pred, VM>(pred, c, roots.drop_last()),
            roots.last(),
        );
    }
}

/// Emptying the work queue keeps the declarations of a chart in line with
/// its trail.
pub proof fn lemma_chart_work_declares<
    Pred: ValidityPredicate<VM>,
    VM: VMBinding + ConservativeScanning + NodeAttrs,
>(pred: Pred, c: Chart<VM::VMSlot>)
    requires
        declares_trail(c),
        c.walk.trail.no_duplicates(),
    ensures
        declares_trail(chart_work::<Pred, VM>(pred, c)),
    decreases unvisited(c.walk.trail), c.walk.backlog.pending.len(),
{
    if c.walk.backlog.pending.len() != 0 {
        let node = c.walk.backlog.pending.first();
        lemma_visit_progress::<Pred, VM>(pred, popped(c.walk), node);
        lemma_chart_node_declares::<Pred, VM>(pred, chart_popped(c), node);
        lemma_chart_work_declares::<Pred, VM>(
            pred,
            chart_node::<Pred, VM>(pred, chart_popped(c), node),
        );
    }
}

/// A dump declares every object that it takes up exactly once, in the
/// order in which it takes them up, and no two of them under the same name.
pub proof fn lemma_dump_declares_each_node_once<
    Pred: ValidityPredicate<VM>,
    VM: VMBinding + ConservativeScanning + NodeAttrs,
>(pred: Pred, batches: Seq<RootBatch<VM::VMSlot>>)
    ensures
        declared(dump_of::<Pred, VM>(pred, batches).items) == names(
            dump_of::<Pred, VM>(pred, batches).walk.trail,
        ),
        declared(dump_of::<Pred, VM>(pred, batches).items).no_duplicates(),
{
    let collected = accept_batches::<Pred, VM>(pred, empty_backlog(), batches);
    let c = Chart::<VM::VMSlot> {
        walk: Walk {
            trail: Seq::empty(),
            backlog: Backlog { pending: Seq::empty(), faults: collected.faults },
        },
        items: Seq::empty(),
    };
    assert(names(c.walk.trail) =~= Seq::<Seq<char>>::empty());
    lemma_chart_roots_declare::<Pred, VM>(pred, c, collected.pending);
    lemma_chart_work_declares::<Pred, VM>(
        pred,
        chart_roots::<Pred, VM>(pred, c, collected.pending),
    );
    lemma_dump_visits_reachable::<Pred, VM>(pred, batches);
    lemma_names_differ(dump_of::<Pred, VM>(pred, batches).walk.trail);
}

/// The edge that is drawn to a root from the node of all roots.
pub open spec fn root_edge(root: ObjectReference) -> GraphItem {
    GraphItem::Edge(roots_id_text(), node_id_text(root))
}

/// What is drawn for roots that are taken up one after the other: for each
/// its root edge and then the node itself.
pub open spec fn drawn_roots<
    Pred: ValidityPredicate<VM>,
    VM: VMBinding + ConservativeScanning + NodeAttrs,
>(pred: Pred, nodes: Seq<ObjectReference>) -> Seq<GraphItem>
    decreases nodes.len(),
{
    if nodes.len() == 0 {
        Seq::empty()
    } else {
        drawn_roots::<Pred, VM>(pred, nodes.drop_last()).push(root_edge(nodes.last()))
            + draw_node::<Pred, VM>(pred, nodes.last())
    }
}

/// What is drawn for nodes that are taken up one after the other from the
/// work queue.
pub open spec fn drawn_nodes<
    Pred: ValidityPredicate<VM>,
    VM: VMBinding + ConservativeScanning + NodeAttrs,
>(pred: Pred, nodes: Seq<ObjectReference>) -> Seq<GraphItem>
    decreases nodes.len(),
{
    if nodes.len() == 0 {
        Seq::empty()
    } else {
        draw_node::<Pred, VM>(pred, nodes.first()) + drawn_nodes::<Pred, VM>(
            pred,
            nodes.drop_first(),
        )
    }
}

/// Taking roots only adds to the trail, and draws, behind what was drawn,
/// what the roots that are newly taken up give.
pub proof fn lemma_chart_roots_items<
    Pred: ValidityPredicate<VM>,
    VM: VMBinding + ConservativeScanning + NodeAttrs,
>(pred: Pred, c: Chart<VM::VMSlot>, roots: Seq<ObjectReference>)
    requires
        c.walk.trail.no_duplicates(),
    ensures
        chart_roots::<Pred, VM>(pred, c, roots).walk.trail.no_duplicates(),
        c.walk.trail.is_prefix_of(chart_roots::<Pred, VM>(pred, c, roots).walk.trail),
        chart_roots::<Pred, VM>(pred, c, roots).items == c.items + drawn_roots::<Pred, VM>(
            pred,
            chart_roots::<Pred, VM>(pred, c, roots).walk.trail.skip(c.walk.trail.len() as int),
        ),
    decreases roots.len(),
{
    let n = c.walk.trail.len() as int;
    if roots.len() == 0 {
        assert(c.walk.trail.skip(n) =~= Seq::empty());
        assert(c.items + Seq::empty() =~= c.items);
    } else {
        lemma_chart_roots_items::<Pred, VM>(pred, c, roots.drop_last());
        let mid = chart_roots::<Pred, VM>(pred, c, roots.drop_last());
        let root = roots.last();
        let end = chart_root::<Pred, VM>(pred, mid, root);
        lemma_visit_progress::<Pred, VM>(pred, mid.walk, root);
        if !mid.walk.trail.contains(root) {
            let added = end.walk.trail.skip(n);
            assert(end.walk.trail == mid.walk.trail.push(root));
            assert(added.drop_last() =~= mid.walk.trail.skip(n));
            assert(added.last() == root);
            assert(end.items =~= c.items + drawn_roots::<Pred, VM>(pred, added));
        }
    }
}

/// Emptying the work queue only adds to the trail, and draws, behind what
/// was drawn, what the nodes that are newly taken up give.
pub proof fn lemma_chart_work_items<
    Pred: ValidityPredicate<VM>,
    VM: VMBinding + ConservativeScanning + NodeAttrs,
>(pred: Pred, c: Chart<VM::VMSlot>)
    requires
        c.walk.trail.no_duplicates(),
    ensures
        c.walk.trail.is_prefix_of(chart_work::<Pred, VM>(pred, c).walk.trail),
        chart_work::<Pred, VM>(pred, c).items == c.items + drawn_nodes::<Pred, VM>(
            pred,
            chart_work::<Pred, VM>(pred, c).walk.trail.skip(c.walk.trail.len() as int),
        ),
    decreases unvisited(c.walk.trail), c.walk.backlog.pending.len(),
{
    let n = c.walk.trail.len() as int;
    let end = chart_work::<Pred, VM>(pred, c);
    if c.walk.backlog.pending.len() == 0 {
        assert(end.walk.trail.skip(n) =~= Seq::empty());
        assert(c.items + Seq::empty() =~= c.items);
    } else {
        let node = c.walk.backlog.pending.first();
        let next = chart_node::<Pred, VM>(pred, chart_popped(c), node);
        lemma_visit_progress::<Pred, VM>(pred, popped(c.walk), node);
        lemma_chart_work_items::<Pred, VM>(pred, next);
        if !c.walk.trail.contains(node) {
            assert(next.walk.trail == c.walk.trail.push(node));
            assert(end.walk.trail[n] == next.walk.trail[n]);
            let added = end.walk.trail.skip(n);
            assert(added.first() == node);
            assert(added.drop_first() =~= end.walk.trail.skip(n + 1));
            assert(end.items =~= c.items + drawn_nodes::<Pred, VM>(pred, added));
        }
    }
}

/// The roots that a dump takes up, each once, in the order in which it
/// first meets them.
pub open spec fn roots_taken<
    Pred: ValidityPredicate<VM>,
    VM: VMBinding + ConservativeScanning + NodeAttrs,
>(pred: Pred, batches: Seq<RootBatch<VM::VMSlot>>) -> Seq<ObjectReference> {
    let collected = accept_batches::<Pred, VM>(pred, empty_backlog(), batches);
    chart_roots::<Pred, VM>(
        pred,
        Chart {
            walk: Walk {
                trail: Seq::empty(),
                backlog: Backlog { pending: Seq::empty(), faults: collected.faults },
            },
            items: Seq::empty(),
        },
        collected.pending,
    ).walk.trail
}

/// What a dump draws is fixed by what it takes up: its trail begins with
/// the roots, and it draws for each root its root edge and the node, and
/// then for each further object on the trail the node; a node is drawn with
/// its attributes and an edge for each of its slots that refers to an
/// object, or, when the predicate turns it down, with its fault alone.
pub proof fn lemma_dump_items<
    Pred: ValidityPredicate<VM>,
    VM: VMBinding + ConservativeScanning + NodeAttrs,
>(pred: Pred, batches: Seq<RootBatch<VM::VMSlot>>)
    ensures
        roots_taken::<Pred, VM>(pred, batches).is_prefix_of(
            dump_of::<Pred, VM>(pred, batches).walk.trail,
        ),
        dump_of::<Pred, VM>(pred, batches).items == drawn_roots::<Pred, VM>(
            pred,
            roots_taken::<Pred, VM>(pred, batches),
        ) + drawn_nodes::<Pred, VM>(
            pred,
            dump_of::<Pred, VM>(pred, batches).walk.trail.skip(
                roots_taken::<Pred, VM>(pred, batches).len() as int,
            ),
        ),
{
    let collected = accept_batches::<Pred, VM>(pred, empty_backlog(), batches);
    let c = Chart::<VM::VMSlot> {
        walk: Walk {
            trail: Seq::empty(),
            backlog: Backlog { pending: Seq::empty(), faults: collected.faults },
        },
        items: Seq::empty(),
    };
    lemma_chart_roots_items::<Pred, VM>(pred, c, collected.pending);
    let rooted = chart_roots::<Pred, VM>(pred, c, collected.pending);
    assert(rooted.walk.trail.skip(0) =~= rooted.walk.trail);
    assert(c.items + drawn_roots::<Pred, VM>(pred, rooted.walk.trail) =~= drawn_roots::<Pred, VM>(
        pred,
        rooted.walk.trail,
    ));
    lemma_chart_work_items::<Pred, VM>(pred, rooted);
}

/// What is drawn for one of several roots is among what is drawn for all
/// of them, and so is its root edge.
pub proof fn lemma_drawn_roots_has<
    Pred: ValidityPredicate<VM>,
    VM: VMBinding + ConservativeScanning + NodeAttrs,
>(pred: Pred, nodes: Seq<ObjectReference>, i: int, item: GraphItem)
    requires
        0 <= i < nodes.len(),
        item == root_edge(nodes[i]) || draw_node::<Pred, VM>(pred, nodes[i]).contains(item),
    ensures
        drawn_roots::<Pred, VM>(pred, nodes).contains(item),
    decreases nodes.len(),
{
    broadcast use lemma_seq_contains_after_push, lemma_seq_concat_contains_all_elements;

    if i < nodes.len() - 1 {
        assert(nodes.drop_last()[i] == nodes[i]);
        lemma_drawn_roots_has::<Pred, VM>(pred, nodes.drop_last(), i, item);
    }
}

/// What is drawn for one of several nodes is among what is drawn for all
/// of them.
pub proof fn lemma_drawn_nodes_has<
    Pred: ValidityPredicate<VM>,
    VM: VMBinding + ConservativeScanning + NodeAttrs,
>(pred: Pred, nodes: Seq<ObjectReference>, i: int, item: GraphItem)
    requires
        0 <= i < nodes.len(),
        draw_node::<Pred, VM>(pred, nodes[i]).contains(item),
    ensures
        drawn_nodes::<Pred, VM>(pred, nodes).contains(item),
    decreases nodes.len(),
{
    broadcast use lemma_seq_concat_contains_all_elements;

    if i > 0 {
        assert(nodes.drop_first()[i - 1] == nodes[i]);
        lemma_drawn_nodes_has::<Pred, VM>(pred, nodes.drop_first(), i - 1, item);
    }
}

/// Whatever is drawn for roots is the root edge of one of them or belongs
/// to the drawing of one of them.
pub proof fn lemma_drawn_roots_origin<
    Pred: ValidityPredicate<VM>,
    VM: VMBinding + ConservativeScanning + NodeAttrs,
>(pred: Pred, nodes: Seq<ObjectReference>, item: GraphItem) -> (i: int)
    requires
        drawn_roots::<Pred, VM>(pred, nodes).contains(item),
    ensures
        0 <= i < nodes.len(),
        item == root_edge(nodes[i]) || draw_node::<Pred, VM>(pred, nodes[i]).contains(item),
    decreases nodes.len(),
{
    broadcast use lemma_seq_contains_after_push, lemma_seq_concat_contains_all_elements;

    if nodes.len() == 0 {
        assert(false);
        0
    } else if item == root_edge(nodes.last()) || draw_node::<Pred, VM>(
        pred,
        nodes.last(),
    ).contains(item) {
        nodes.len() - 1
    } else {
        let i = lemma_drawn_roots_origin::<Pred, VM>(pred, nodes.drop_last(), item);
        assert(nodes.drop_last()[i] == nodes[i]);
        i
    }
}

/// Whatever is drawn for nodes belongs to the drawing of one of them.
pub proof fn lemma_drawn_nodes_origin<
    Pred: ValidityPredicate<VM>,
    VM: VMBinding + ConservativeScanning + NodeAttrs,
>(pred: Pred, nodes: Seq<ObjectReference>, item: GraphItem) -> (i: int)
    requires
        drawn_nodes::<Pred, VM>(pred, nodes).contains(item),
    ensures
        0 <= i < nodes.len(),
        draw_node::<Pred, VM>(pred, nodes[i]).contains(item),
    decreases nodes.len(),
{
    broadcast use lemma_seq_concat_contains_all_elements;

    if nodes.len() == 0 {
        assert(false);
        0
    } else if draw_node::<Pred, VM>(pred, nodes.first()).contains(item) {
        0
    } else {
        let i = lemma_drawn_nodes_origin::<Pred, VM>(pred, nodes.drop_first(), item);
        assert(nodes.drop_first()[i] == nodes[i + 1]);
        i + 1
    }
}

/// A dump draws all that belongs to each object it takes up: whatever is
/// part of the drawing of a node on its trail is among its items.
pub proof fn lemma_dump_draws_what_it_takes_up<
    Pred: ValidityPredicate<VM>,
    VM: VMBinding + ConservativeScanning + NodeAttrs,
>(pred: Pred, batches: Seq<RootBatch<VM::VMSlot>>, node: ObjectReference, item: GraphItem)
    requires
        dump_of::<Pred, VM>(pred, batches).walk.trail.contains(node),
        draw_node::<Pred, VM>(pred, node).contains(item),
    ensures
        dump_of::<Pred, VM>(pred, batches).items.contains(item),
{
    broadcast use lemma_seq_concat_contains_all_elements;

    lemma_dump_items::<Pred, VM>(pred, batches);
    let trail = dump_of::<Pred, VM>(pred, batches).walk.trail;
    let roots = roots_taken::<Pred, VM>(pred, batches);
    let rest = trail.skip(roots.len() as int);
    let i = choose|i: int| 0 <= i < trail.len() && trail[i] == node;
    if i < roots.len() {
        assert(roots[i] == trail[i]);
        lemma_drawn_roots_has::<Pred, VM>(pred, roots, i, item);
    } else {
        assert(rest[i - roots.len()] == trail[i]);
        lemma_drawn_nodes_has::<Pred, VM>(pred, rest, i - roots.len(), item);
    }
}

/// Whatever a dump draws is the root edge of a root on its trail or belongs
/// to the drawing of a node on its trail.
pub proof fn lemma_dump_item_origin<
    Pred: ValidityPredicate<VM>,
    VM: VMBinding + ConservativeScanning + NodeAttrs,
>(pred: Pred, batches: Seq<RootBatch<VM::VMSlot>>, item: GraphItem) -> (node: ObjectReference)
    requires
        dump_of::<Pred, VM>(pred, batches).items.contains(item),
    ensures
        dump_of::<Pred, VM>(pred, batches).walk.trail.contains(node),
        item == root_edge(node) || draw_node::<Pred, VM>(pred, node).contains(item),
{
    broadcast use lemma_seq_concat_contains_all_elements;

    lemma_dump_items::<Pred, VM>(pred, batches);
    let trail = dump_of::<Pred, VM>(pred, batches).walk.trail;
    let roots = roots_taken::<Pred, VM>(pred, batches);
    let rest = trail.skip(roots.len() as int);
    if drawn_roots::<Pred, VM>(pred, roots).contains(item) {
        let i = lemma_drawn_roots_origin::<Pred, VM>(pred, roots, item);
        assert(trail[i] == roots[i]);
        roots[i]
    } else {
        let i = lemma_drawn_nodes_origin::<Pred, VM>(pred, rest, item);
        assert(trail[i + roots.len()] == rest[i]);
        rest[i]
    }
}

/// Every item that is drawn for the slots of a node is an edge from that
/// node, and one is drawn for each slot that refers to an object.
pub proof fn lemma_draw_slots<S: Slot>(cursor: Seq<char>, slots: Seq<S>)
    ensures
        forall|item: GraphItem| #[trigger]
            draw_slots(cursor, slots).contains(item) ==> item is Edge && item->Edge_0 == cursor,
        forall|i: int|
            0 <= i < slots.len() && (#[trigger] slots[i]).referent() is Some ==> draw_slots(
                cursor,
                slots,
            ).contains(GraphItem::Edge(cursor, node_id_text(slots[i].referent()->0))),
    decreases slots.len(),
{
    broadcast use lemma_seq_concat_contains_all_elements;

    if slots.len() != 0 {
        lemma_draw_slots(cursor, slots.drop_last());
        let last = draw_slot(cursor, slots.last());
        assert forall|item: GraphItem| #[trigger]
            draw_slots(cursor, slots).contains(item) implies item is Edge && item->Edge_0
            == cursor by {
            lemma_seq_concat_contains_all_elements(
                draw_slots(cursor, slots.drop_last()),
                last,
                item,
            );
            if last.contains(item) {
                let k = choose|k: int| 0 <= k < last.len() && last[k] == item;
            }
        }
        assert forall|i: int|
            0 <= i < slots.len() && (#[trigger] slots[i]).referent() is Some implies draw_slots(
            cursor,
            slots,
        ).contains(GraphItem::Edge(cursor, node_id_text(slots[i].referent()->0))) by {
            if i < slots.len() - 1 {
                assert(slots.drop_last()[i] == slots[i]);
            } else {
                assert(last[0] == GraphItem::Edge(cursor, node_id_text(slots[i].referent()->0)));
            }
        }
    } else {
        assert forall|item: GraphItem| #[trigger]
            draw_slots(cursor, slots).contains(item) implies false by {
            let k = choose|k: int|
                0 <= k < draw_slots(cursor, slots).len() && draw_slots(cursor, slots)[k] == item;
        }
    }
}

/// A sound object that a dump takes up has its node line, with the
/// attributes that the runtime gives for it, and an edge to whatever one of
/// its slots refers to; an object that the predicate turns down has its
/// node line with the reason as its `error`. This holds whatever else the
/// dump meets: an unsound node takes nothing from the nodes beside it.
pub proof fn lemma_dump_draws_nodes_and_edges<
    Pred: ValidityPredicate<VM>,
    VM: VMBinding + ConservativeScanning + NodeAttrs,
>(pred: Pred, batches: Seq<RootBatch<VM::VMSlot>>, node: ObjectReference)
    requires
        dump_of::<Pred, VM>(pred, batches).walk.trail.contains(node),
    ensures
        pred.node_fault(node) is None ==> dump_of::<Pred, VM>(pred, batches).items.contains(
            GraphItem::Node(node_id_text(node), VM::attrs_of(node)),
        ),
        pred.node_fault(node) is Some ==> dump_of::<Pred, VM>(pred, batches).items.contains(
            GraphItem::Node(node_id_text(node), error_attrs(pred.node_fault(node)->0)),
        ),
        forall|i: int|
            pred.node_fault(node) is None && 0 <= i < VM::outgoing(node).len() && (
            #[trigger] VM::outgoing(node)[i]).referent() is Some ==> dump_of::<Pred, VM>(
                pred,
                batches,
            ).items.contains(
                GraphItem::Edge(
                    node_id_text(node),
                    node_id_text(VM::outgoing(node)[i].referent()->0),
                ),
            ),
{
    broadcast use lemma_seq_concat_contains_all_elements;

    let drawing = draw_node::<Pred, VM>(pred, node);
    match pred.node_fault(node) {
        None => {
            let line = GraphItem::Node(node_id_text(node), VM::attrs_of(node));
            assert(seq![line][0] == line);
            assert(drawing.contains(line));
            lemma_dump_draws_what_it_takes_up::<Pred, VM>(pred, batches, node, line);
            lemma_draw_slots(node_id_text(node), VM::outgoing(node));
            assert forall|i: int|
                0 <= i < VM::outgoing(node).len() && (#[trigger] VM::outgoing(
                    node,
                )[i]).referent() is Some implies dump_of::<Pred, VM>(pred, batches).items.contains(
                GraphItem::Edge(
                    node_id_text(node),
                    node_id_text(VM::outgoing(node)[i].referent()->0),
                ),
            ) by {
                let edge = GraphItem::Edge(
                    node_id_text(node),
                    node_id_text(VM::outgoing(node)[i].referent()->0),
                );
                assert(drawing.contains(edge));
                lemma_dump_draws_what_it_takes_up::<Pred, VM>(pred, batches, node, edge);
            }
        },
        Some(reason) => {
            let line = GraphItem::Node(node_id_text(node), error_attrs(reason));
            assert(drawing[0] == line);
            lemma_dump_draws_what_it_takes_up::<Pred, VM>(pred, batches, node, line);
        },
    }
}

/// In a dump no edge starts at an object that the predicate turns down.
pub proof fn lemma_dump_draws_no_edge_from_unsound<
    Pred: ValidityPredicate<VM>,
    VM: VMBinding + ConservativeScanning + NodeAttrs,
>(pred: Pred, batches: Seq<RootBatch<VM::VMSlot>>, node: ObjectReference, to: Seq<char>)
    requires
        pred.node_fault(node) is Some,
    ensures
        !dump_of::<Pred, VM>(pred, batches).items.contains(
            GraphItem::Edge(node_id_text(node), to),
        ),
{
    broadcast use lemma_seq_concat_contains_all_elements;

    let edge = GraphItem::Edge(node_id_text(node), to);
    if dump_of::<Pred, VM>(pred, batches).items.contains(edge) {
        let from = lemma_dump_item_origin::<Pred, VM>(pred, batches, edge);
        if edge == root_edge(from) {
            reveal_strlit("roots");
            reveal_strlit("\"");
            assert(node_id_text(node)[0] == '"');
            assert(roots_id_text()[0] == 'r');
        } else {
            let drawing = draw_node::<Pred, VM>(pred, from);
            let k = choose|k: int| 0 <= k < drawing.len() && drawing[k] == edge;
            match pred.node_fault(from) {
                Some(reason) => {},
                None => {
                    lemma_draw_slots(node_id_text(from), VM::outgoing(from));
                    let line = seq![GraphItem::Node(node_id_text(from), VM::attrs_of(from))];
                    if line.contains(edge) {
                        let j = choose|j: int| 0 <= j < line.len() && line[j] == edge;
                    }
                    assert(draw_slots(node_id_text(from), VM::outgoing(from)).contains(edge));
                    lemma_node_ids_tell_apart(from, node);
                },
            }
        }
    }
}

} // verus!
