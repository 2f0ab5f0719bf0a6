use vstd::prelude::*;
use vstd::string::StringExecFns;
use crossbeam::queue::SegQueue;
use std::collections::HashSet;
use crate::chart::{
    chart, chart_node, chart_popped, chart_root, chart_roots, chart_run, chart_work,
    collected_roots, draw_node, draw_slot, draw_slots, dump_of, empty_chart,
    lemma_chart_node_grows, lemma_chart_root_grows, lemma_chart_roots_grow,
    lemma_chart_work_grows, Chart,
};
use crate::dot::DotOutput;
use crate::graph::{
    attrs_of_list, dot_text, error_attrs, node_id_text, unknown_id_text, GraphOutput, NodeAttr,
    NodeAttrs, NodeId,
};
use crate::handles::{ObjectReference, VMWorkerThread};
use crate::queue::{queue_new, queue_pop, queue_push, queued};
use crate::sanity::{faults_of, Error, WorkFactory};
use crate::text::push_digits;
use crate::vm::{
    observes_all, receives_all, ConservativeScanning, RootBatch, RootsWorkFactory, Scanning,
    Slot, SlotVisitor, VMBinding, ValidityPredicate,
};
use crate::walk::{
    accept_batch, accept_batches, accept_nodes, accept_slot, accept_slots, empty_backlog,
    lemma_visit_progress, unvisited, Backlog, Walk,
};

verus! {

/// The root queue of a drawing walk. It collects the roots as a work
/// collector does, and is kept apart from the work queue, so that the edges
/// to the roots can be drawn from a node of their own. The failures of the
/// whole walk are recorded here.
pub struct RootSet<Pred: ValidityPredicate<VM>, VM: VMBinding> {
    collector: WorkFactory<Pred, VM>,
}

impl<Pred: ValidityPredicate<VM>, VM: VMBinding> View for RootSet<Pred, VM> {
    type V = Backlog<VM::VMSlot>;

    closed spec fn view(&self) -> Backlog<VM::VMSlot> {
        self.collector@
    }
}

impl<Pred: ValidityPredicate<VM>, VM: VMBinding> RootSet<Pred, VM> {
    /// The predicate that root slots are put to.
    pub closed spec fn pred(&self) -> Pred {
        self.collector.pred()
    }

    /// A root queue in which nothing waits, with an empty log.
    pub fn new(pred: Pred) -> (roots: Self)
        ensures
            roots.pred() == pred,
            roots@ == empty_backlog::<VM::VMSlot>(),
    {
        RootSet { collector: WorkFactory::new(pred) }
    }

    /// The predicate that root slots are put to.
    pub fn predicate(&self) -> (pred: &Pred)
        ensures
            *pred == self.pred(),
    {
        self.collector.predicate()
    }

    /// Offers a root slot. One that the predicate turns down is recorded as
    /// a bad edge and not loaded; a sound one is loaded and what it refers to
    /// joins the queue; a sound one that refers to nothing is passed over.
    pub fn push_slot(&mut self, slot: VM::VMSlot)
        ensures
            final(self).pred() == old(self).pred(),
            final(self)@ == accept_slot::<Pred, VM>(old(self).pred(), old(self)@, slot),
    {
        self.collector.push_slot(slot);
    }

    /// Puts a root object on the queue, unchecked.
    pub fn push_node(&mut self, node: ObjectReference)
        ensures
            final(self).pred() == old(self).pred(),
            final(self)@ == (Backlog { pending: old(self)@.pending.push(node), ..old(self)@ }),
    {
        self.collector.push_node(node);
    }

    /// Puts root objects on the queue, in their order, unchecked.
    pub fn push_nodes(&mut self, nodes: Vec<ObjectReference>)
        ensures
            final(self).pred() == old(self).pred(),
            final(self)@ == accept_nodes(old(self)@, nodes@),
    {
        self.collector.push_nodes(nodes);
    }

    /// Records a failure. Nothing else changes.
    pub fn push_error(&mut self, error: Error<VM::VMSlot>)
        ensures
            final(self).pred() == old(self).pred(),
            final(self)@ == (Backlog { faults: old(self)@.faults.push(error@), ..old(self)@ }),
    {
        self.collector.push_error(error);
    }

    /// Takes the oldest waiting root off the queue, if one waits.
    pub fn pop_node(&mut self) -> (head: Option<ObjectReference>)
        ensures
            final(self).pred() == old(self).pred(),
            final(self)@.faults == old(self)@.faults,
            old(self)@.pending.len() == 0 ==> head is None && final(self)@ == old(self)@,
            old(self)@.pending.len() > 0 ==> head == Some(old(self)@.pending.first())
                && final(self)@.pending == old(self)@.pending.drop_first(),
    {
        self.collector.pop_node()
    }

    /// Hands out the failures recorded so far and leaves the log empty.
    pub fn take_errors(&mut self) -> (errors: Vec<Error<VM::VMSlot>>)
        ensures
            final(self).pred() == old(self).pred(),
            faults_of(errors@) == old(self)@.faults,
            final(self)@ == (Backlog { faults: Seq::empty(), ..old(self)@ }),
    {
        self.collector.take_errors()
    }
}

impl<Pred: ValidityPredicate<VM>, VM: VMBinding> RootsWorkFactory<VM::VMSlot> for RootSet<
    Pred,
    VM,
> {
    open spec fn receives(&self, batch: RootBatch<VM::VMSlot>, after: &Self) -> bool {
        &&& after.pred() == self.pred()
        &&& after@ == accept_batch::<Pred, VM>(self.pred(), self@, batch)
    }

    fn create_process_roots_work(&mut self, slots: Vec<VM::VMSlot>) {
        self.collector.create_process_roots_work(slots);
    }

    fn create_process_pinning_roots_work(&mut self, nodes: Vec<ObjectReference>) {
        self.push_nodes(nodes);
    }

    fn create_process_tpinning_roots_work(&mut self, nodes: Vec<ObjectReference>) {
        self.push_nodes(nodes);
    }
}

/// A root queue that was handed `batches` holds what the model of the
/// collector says.
pub proof fn lemma_roots_received<Pred: ValidityPredicate<VM>, VM: VMBinding>(
    before: RootSet<Pred, VM>,
    batches: Seq<RootBatch<VM::VMSlot>>,
    after: RootSet<Pred, VM>,
)
    requires
        receives_all(before, batches, after),
    ensures
        after.pred() == before.pred(),
        after@ == accept_batches::<Pred, VM>(before.pred(), before@, batches),
    decreases batches.len(),
{
    if batches.len() != 0 {
        let mid = choose|mid: RootSet<Pred, VM>|
            #![trigger mid.receives(batches.last(), &after)]
            receives_all(before, batches.drop_last(), mid) && mid.receives(batches.last(), &after);
        lemma_roots_received(before, batches.drop_last(), mid);
    }
}

/// The name under which an object is drawn.
pub fn node_id_of(obj: ObjectReference) -> (id: NodeId)
    ensures
        id@ == node_id_text(obj),
{
    let mut name = String::from_str("\"");
    name.append("0x");
    push_digits(&mut name, obj.to_raw_address(), 16);
    name.append("\"");
    NodeId(name)
}

/// Walks the heap from its roots as a sanity check does and draws every
/// node and edge it meets into a sink. What the predicate turns down is
/// recorded, and a node that it turns down is drawn with its fault and not
/// looked into; nothing stops the walk but a sink that fails.
pub struct HeapGraphDumper<
    Pred: ValidityPredicate<VM>,
    VM: VMBinding + ConservativeScanning + NodeAttrs,
    Output: GraphOutput,
> {
    tls: VMWorkerThread,
    visited: HashSet<usize>,
    root_set: RootSet<Pred, VM>,
    current_source: NodeId,
    work_list: SegQueue<ObjectReference>,
    output: Output,
    failure: Option<std::io::Error>,
    trail: Ghost<Seq<ObjectReference>>,
}

impl<
    Pred: ValidityPredicate<VM>,
    VM: VMBinding + ConservativeScanning + NodeAttrs,
    Output: GraphOutput,
> View for HeapGraphDumper<Pred, VM, Output> {
    type V = Chart<VM::VMSlot>;

    closed spec fn view(&self) -> Chart<VM::VMSlot> {
        Chart {
            walk: Walk {
                trail: self.trail@,
                backlog: Backlog { pending: queued(self.work_list), faults: self.root_set@.faults },
            },
            items: self.output.rendered(),
        }
    }
}

impl<
    Pred: ValidityPredicate<VM>,
    VM: VMBinding + ConservativeScanning + NodeAttrs,
    Output: GraphOutput,
> SlotVisitor<VM::VMSlot> for HeapGraphDumper<Pred, VM, Output> {
    open spec fn observes(&self, slot: VM::VMSlot, after: &Self) -> bool {
        &&& after.same_walker(*self)
        &&& after.cursor() == self.cursor()
        &&& after@.walk.trail == self@.walk.trail
        &&& self@.walk.backlog.faults.is_prefix_of(after@.walk.backlog.faults)
        &&& self.failed() ==> after.failed() && after@ == self@
        &&& !self.failed() && (Output::dependable() || slot.referent() is None)
            ==> !after.failed()
        &&& !after.failed() ==> {
            &&& after@.walk.backlog == accept_slot::<Pred, VM>(
                self.pred(),
                self@.walk.backlog,
                slot,
            )
            &&& after@.items == self@.items + draw_slot(self.cursor(), slot)
        }
    }

    open spec fn ready(&self) -> bool {
        self.sound()
    }

    /// A slot of the node under the cursor is taken in. When it refers to
    /// an object, the edge from the cursor to that object is drawn. A sound
    /// slot puts the object on the work queue; one that the predicate turns
    /// down is recorded as a bad edge. A slot that refers to nothing makes
    /// no call on the sink, so that nothing can fail. Once the sink has
    /// failed nothing more is drawn, queued or recorded.
    fn visit_slot(&mut self, slot: VM::VMSlot)
        ensures
            final(self).sound(),
            final(self).same_walker(*old(self)),
            final(self).cursor() == old(self).cursor(),
            final(self)@.walk.trail == old(self)@.walk.trail,
            old(self)@.walk.backlog.faults.is_prefix_of(final(self)@.walk.backlog.faults),
            old(self).failed() ==> final(self).failed() && final(self)@ == old(self)@,
            !old(self).failed() && (Output::dependable() || slot.referent() is None)
                ==> !final(self).failed(),
            !final(self).failed() ==> {
                &&& final(self)@.walk.backlog == accept_slot::<Pred, VM>(
                    old(self).pred(),
                    old(self)@.walk.backlog,
                    slot,
                )
                &&& final(self)@.items == old(self)@.items + draw_slot(old(self).cursor(), slot)
            },
    {
        if self.failure.is_some() {
            return ;
        }
        let target = slot.load();
        match target {
            Some(dst) => {
                let dst_id = node_id_of(dst);
                match self.output.add_slot(&self.current_source, &dst_id) {
                    Ok(()) => {
                        assert(self.output.rendered() =~= old(self).output.rendered() + draw_slot(
                            self.current_source@,
                            slot,
                        ));
                    },
                    Err(error) => {
                        self.failure = Some(error);
                        return ;
                    },
                }
            },
            None => {
                assert(self.output.rendered() =~= old(self).output.rendered() + draw_slot(
                    self.current_source@,
                    slot,
                ));
            },
        }
        match self.root_set.predicate().is_valid_slot(slot) {
            Ok(()) => {
                match target {
                    Some(dst) => {
                        queue_push(&mut self.work_list, dst);
                    },
                    None => {},
                }
            },
            Err(reason) => {
                self.root_set.push_error(Error::BadEdge(slot, reason));
            },
        }
    }
}

impl<
    Pred: ValidityPredicate<VM>,
    VM: VMBinding + ConservativeScanning + NodeAttrs,
    Output: GraphOutput,
> HeapGraphDumper<Pred, VM, Output> {
    /// The set of visited objects agrees with the trail, the trail meets no
    /// object twice, and the sink is in order.
    pub closed spec fn sound(&self) -> bool {
        &&& self.trail@.no_duplicates()
        &&& forall|o: ObjectReference| self.visited@.contains(o.addr) <==> self.trail@.contains(o)
        &&& self.output.wf()
    }

    /// Whether a failure of the sink is outstanding.
    pub closed spec fn failed(&self) -> bool {
        self.failure is Some
    }

    /// The name of the node whose slots are being drawn; the idle name
    /// while no node is under scan.
    pub closed spec fn cursor(&self) -> Seq<char> {
        self.current_source@
    }

    /// The dumper is in order, no failure of the sink is outstanding, and
    /// no node is under scan.
    pub open spec fn wf(&self) -> bool {
        &&& self.sound()
        &&& !self.failed()
        &&& self.cursor() == unknown_id_text()
    }

    /// The predicate that nodes and slots are put to.
    pub closed spec fn pred(&self) -> Pred {
        self.root_set.pred()
    }

    /// The thread on whose behalf the dumper runs.
    pub closed spec fn tls(&self) -> VMWorkerThread {
        self.tls
    }

    /// The roots that wait to be taken, the oldest first.
    pub closed spec fn roots(&self) -> Seq<ObjectReference> {
        self.root_set@.pending
    }

    /// The sink that the dumper draws into.
    pub closed spec fn output(&self) -> Output {
        self.output
    }

    /// The dumper is the one that `other` is, with the same predicate,
    /// thread and waiting roots.
    pub open spec fn same_walker(&self, other: Self) -> bool {
        &&& self.pred() == other.pred()
        &&& self.tls() == other.tls()
        &&& self.roots() == other.roots()
    }

    /// The trail of a dumper that is in order meets no object twice.
    pub proof fn lemma_trail_distinct(&self)
        requires
            self.sound(),
        ensures
            self@.walk.trail.no_duplicates(),
    {
    }

    /// A dumper that has seen nothing yet and draws into `output`. No node
    /// is under scan.
    pub fn new(pred: Pred, tls: VMWorkerThread, output: Output) -> (dumper: Self)
        requires
            output.wf(),
        ensures
            dumper.wf(),
            dumper.cursor() == unknown_id_text(),
            dumper.pred() == pred,
            dumper.tls() == tls,
            dumper.output() == output,
            dumper.roots() == Seq::<ObjectReference>::empty(),
            dumper@ == (Chart { items: output.rendered(), ..empty_chart::<VM::VMSlot>() }),
    {
        HeapGraphDumper {
            tls,
            visited: HashSet::new(),
            root_set: RootSet::new(pred),
            current_source: NodeId(String::from_str("unknown")),
            work_list: queue_new(),
            output,
            failure: None,
            trail: Ghost(Seq::empty()),
        }
    }

    /// The name under which an object is drawn.
    pub fn to_node_id(&self, obj: ObjectReference) -> (id: NodeId)
        ensures
            id@ == node_id_text(obj),
    {
        node_id_of(obj)
    }

    /// The name of the node whose slots are being drawn.
    pub fn current_source(&self) -> (id: &NodeId)
        ensures
            id@ == self.cursor(),
    {
        &self.current_source
    }

    /// Whether the dumper has taken up `node`.
    pub fn has_visited(&self, node: ObjectReference) -> (seen: bool)
        requires
            self.sound(),
        ensures
            seen == self@.walk.trail.contains(node),
    {
        broadcast use vstd::std_specs::hash::group_hash_axioms;

        let addr = node.to_raw_address();
        self.visited.contains(&addr)
    }

    /// Hands out the failure of the sink that is outstanding, if one is.
    /// Nothing else changes.
    pub fn take_failure(&mut self) -> (failure: Option<std::io::Error>)
        ensures
            failure is Some == old(self).failed(),
            !final(self).failed(),
            final(self).sound() == old(self).sound(),
            final(self).cursor() == old(self).cursor(),
            final(self).same_walker(*old(self)),
            final(self).output() == old(self).output(),
            final(self)@ == old(self)@,
    {
        self.failure.take()
    }

    /// Hands out the failures recorded so far and leaves the log empty.
    pub fn take_errors(&mut self) -> (errors: Vec<Error<VM::VMSlot>>)
        ensures
            final(self).sound() == old(self).sound(),
            final(self).failed() == old(self).failed(),
            final(self).cursor() == old(self).cursor(),
            final(self).same_walker(*old(self)),
            final(self).output() == old(self).output(),
            faults_of(errors@) == old(self)@.walk.backlog.faults,
            final(self)@ == (Chart {
                walk: Walk {
                    backlog: Backlog { faults: Seq::empty(), ..old(self)@.walk.backlog },
                    ..old(self)@.walk
                },
                ..old(self)@
            }),
    {
        self.root_set.take_errors()
    }

    /// Gives the sink back, with all that was drawn into it.
    pub fn into_output(self) -> (output: Output)
        requires
            self.sound(),
        ensures
            output.wf(),
            output == self.output(),
            output.rendered() == self@.items,
    {
        self.output
    }

    /// The state after the slots of one node were shown to the dumper.
    proof fn lemma_observed(before: Self, slots: Seq<VM::VMSlot>, after: Self)
        requires
            observes_all(before, slots, after),
        ensures
            after.same_walker(before),
            after.cursor() == before.cursor(),
            after@.walk.trail == before@.walk.trail,
            before@.walk.backlog.faults.is_prefix_of(after@.walk.backlog.faults),
            before.failed() ==> after.failed(),
            Output::dependable() && !before.failed() ==> !after.failed(),
            !after.failed() ==> {
                &&& after@.walk.backlog == accept_slots::<Pred, VM>(
                    before.pred(),
                    before@.walk.backlog,
                    slots,
                )
                &&& after@.items == before@.items + draw_slots(before.cursor(), slots)
            },
        decreases slots.len(),
    {
        if slots.len() != 0 {
            let mid = choose|mid: Self|
                #![trigger mid.observes(slots.last(), &after)]
                observes_all(before, slots.drop_last(), mid) && mid.observes(slots.last(), &after);
            Self::lemma_observed(before, slots.drop_last(), mid);
            if !after.failed() {
                assert(after@.items =~= before@.items + draw_slots(before.cursor(), slots));
            }
        } else {
            assert(before@.items + draw_slots(before.cursor(), slots) =~= before@.items);
        }
    }

    /// Takes up one node. One that was met before changes nothing and makes
    /// no call on the sink, so that nothing can fail. A new one joins the
    /// trail, the cursor is set to its name, it is put to the predicate and
    /// drawn as `chart_node` says, and the cursor is set back to the idle
    /// name. If the sink fails on the way, the node stays on the trail and
    /// what was recorded before stays recorded.
    fn visit_node(&mut self, node: ObjectReference)
        requires
            old(self).wf(),
        ensures
            final(self).sound(),
            final(self).cursor() == unknown_id_text(),
            final(self).same_walker(*old(self)),
            Output::dependable() ==> !final(self).failed(),
            old(self)@.walk.trail.contains(node) ==> !final(self).failed() && final(self)@ == old(
                self,
            )@,
            !final(self).failed() ==> final(self)@ == chart_node::<Pred, VM>(
                old(self).pred(),
                old(self)@,
                node,
            ),
            !old(self)@.walk.trail.contains(node) ==> final(self)@.walk.trail == old(
                self,
            )@.walk.trail.push(node),
            old(self)@.walk.backlog.faults.is_prefix_of(final(self)@.walk.backlog.faults),
    {
        broadcast use vstd::std_specs::hash::group_hash_axioms;

        let addr = node.to_raw_address();
        if !self.visited.contains(&addr) {
            assert(!self.trail@.contains(node));
            self.visited.insert(addr);
            proof {
                lemma_visit_progress::<Pred, VM>(self.pred(), self@.walk, node);
                self.trail@ = self.trail@.push(node);
            }
            assert(self.sound()) by {
                assert forall|o: ObjectReference|
                    self.visited@.contains(o.addr) <==> self.trail@.contains(o) by {
                    if o == node {
                        assert(self.trail@.last() == node);
                    } else if old(self).trail@.contains(o) {
                        let i = choose|i: int|
                            0 <= i < old(self).trail@.len() && old(self).trail@[i] == o;
                        assert(self.trail@[i] == o);
                    }
                }
            }
            let node_id = self.to_node_id(node);
            self.current_source = self.to_node_id(node);
            match self.root_set.predicate().is_valid_node(node) {
                Ok(()) => {
                    let attrs = VM::node_attrs(node);
                    match self.output.add_node(&node_id, &attrs) {
                        Ok(()) => {
                            let ghost before = *self;
                            VM::conservatively_scan_object(self.tls, node, self);
                            proof {
                                Self::lemma_observed(before, VM::outgoing(node), *self);
                                if !self.failed() {
                                    assert(self@.items =~= old(self)@.items + draw_node::<
                                        Pred,
                                        VM,
                                    >(old(self).pred(), node));
                                }
                            }
                        },
                        Err(error) => {
                            self.failure = Some(error);
                        },
                    }
                },
                Err(reason) => {
                    let mut attrs: Vec<NodeAttr> = Vec::new();
                    attrs.push(NodeAttr::String(String::from_str("error"), reason.clone()));
                    assert(attrs_of_list(attrs@) =~= error_attrs(reason@));
                    match self.output.add_node(&node_id, &attrs) {
                        Ok(()) => {
                            self.root_set.push_error(Error::BadNode(node, reason));
                            assert(self@.items =~= old(self)@.items + draw_node::<Pred, VM>(
                                old(self).pred(),
                                node,
                            ));
                        },
                        Err(error) => {
                            self.failure = Some(error);
                        },
                    }
                },
            }
            self.current_source = NodeId(String::from_str("unknown"));
        } else {
            assert(self.trail@.contains(node));
        }
    }

    /// Takes one root from the root queue. One that was met before changes
    /// nothing and makes no call on the sink. For a new one the edge from
    /// the node of all roots is drawn, and then the root is taken up as a
    /// node: see `chart_root`.
    fn visit_root(&mut self, root: ObjectReference)
        requires
            old(self).wf(),
        ensures
            final(self).sound(),
            final(self).cursor() == unknown_id_text(),
            final(self).same_walker(*old(self)),
            Output::dependable() ==> !final(self).failed(),
            old(self)@.walk.trail.contains(root) ==> !final(self).failed() && final(self)@ == old(
                self,
            )@,
            !final(self).failed() ==> final(self)@ == chart_root::<Pred, VM>(
                old(self).pred(),
                old(self)@,
                root,
            ),
            old(self)@.walk.trail.is_prefix_of(final(self)@.walk.trail),
            old(self)@.walk.backlog.faults.is_prefix_of(final(self)@.walk.backlog.faults),
    {
        broadcast use vstd::std_specs::hash::group_hash_axioms;

        let addr = root.to_raw_address();
        if !self.visited.contains(&addr) {
            assert(!self.trail@.contains(root));
            let node_id = self.to_node_id(root);
            let roots_id = NodeId(String::from_str("roots"));
            match self.output.add_slot(&roots_id, &node_id) {
                Ok(()) => {
                    self.visit_node(root);
                },
                Err(error) => {
                    self.failure = Some(error);
                },
            }
        } else {
            assert(self.trail@.contains(root));
        }
    }

    /// Has the runtime enumerate the roots into the root queue, takes the
    /// roots in turn, and then takes what waits on the work queue, the
    /// oldest first, until nothing waits. A failure of the sink ends the run
    /// and is handed to the caller.
    ///
    /// A run that has nothing to draw makes no call on the sink and
    /// succeeds, whatever the sink. After a failure the dumper is in order
    /// again: the trail holds what it held and the nodes taken up since,
    /// none twice; the log holds what the root slots gave and what was
    /// recorded since; the roots not yet taken still wait.
    pub fn visit_roots(&mut self) -> (done: Result<(), std::io::Error>) where VM: Scanning
        requires
            old(self).wf(),
        ensures
            final(self).wf(),
            final(self).cursor() == unknown_id_text(),
            final(self).pred() == old(self).pred(),
            final(self).tls() == old(self).tls(),
            Output::dependable() ==> done is Ok,
            done is Ok ==> final(self).roots().len() == 0,
            done is Ok ==> final(self)@.walk.backlog.pending.len() == 0,
            final(self)@.walk.trail.no_duplicates(),
            old(self)@.walk.trail.is_prefix_of(final(self)@.walk.trail),
            exists|batches: Seq<RootBatch<VM::VMSlot>>|
                {
                    &&& #[trigger] VM::enumerates_roots(batches)
                    &&& done is Ok ==> final(self)@ == chart_run::<Pred, VM>(
                        old(self).pred(),
                        old(self)@,
                        old(self).roots(),
                        batches,
                    )
                    &&& done is Err ==> old(self)@.items.len() < chart_run::<Pred, VM>(
                        old(self).pred(),
                        old(self)@,
                        old(self).roots(),
                        batches,
                    ).items.len()
                    &&& collected_roots::<Pred, VM>(
                        old(self).pred(),
                        old(self)@,
                        old(self).roots(),
                        batches,
                    ).faults.is_prefix_of(final(self)@.walk.backlog.faults)
                    &&& final(self).roots().is_suffix_of(
                        collected_roots::<Pred, VM>(
                            old(self).pred(),
                            old(self)@,
                            old(self).roots(),
                            batches,
                        ).pending,
                    )
                },
    {
        let ghost before = self.root_set;
        VM::scan_vm_specific_roots(self.tls, &mut self.root_set);
        let ghost batches = choose|batches: Seq<RootBatch<VM::VMSlot>>| #[trigger]
            VM::enumerates_roots(batches) && receives_all(before, batches, self.root_set);
        proof {
            lemma_roots_received(before, batches, self.root_set);
        }
        let ghost pred = self.pred();
        let ghost start = self@;
        let ghost roots = self.root_set@.pending;
        let ghost taken: int = 0;
        proof {
            assert(roots.take(0) =~= Seq::<ObjectReference>::empty());
            assert(roots.skip(0) =~= roots);
        }
        loop
            invariant_except_break
                !self.failed(),
                self@ == chart_roots::<Pred, VM>(pred, start, roots.take(taken)),
            invariant
                self.sound(),
                self.cursor() == unknown_id_text(),
                self.pred() == pred,
                self.tls == old(self).tls,
                start.walk.trail.no_duplicates(),
                0 <= taken <= roots.len(),
                self.root_set@.pending == roots.skip(taken),
                start.walk.trail.is_prefix_of(self@.walk.trail),
                start.walk.backlog.faults.is_prefix_of(self@.walk.backlog.faults),
            ensures
                Output::dependable() ==> !self.failed(),
                !self.failed() ==> self.root_set@.pending.len() == 0 && self@ == chart_roots::<
                    Pred,
                    VM,
                >(pred, start, roots),
                self.failed() ==> start.items.len() < chart::<Pred, VM>(
                    pred,
                    start,
                    roots,
                ).items.len(),
            decreases roots.len() - taken,
        {
            let ghost here = self@;
            match self.root_set.pop_node() {
                None => {
                    assert(roots.take(taken) =~= roots);
                    break ;
                },
                Some(root) => {
                    self.visit_root(root);
                    proof {
                        assert(roots.take(taken + 1).drop_last() =~= roots.take(taken));
                        assert(roots.take(taken + 1).last() == root);
                        assert(roots.skip(taken).drop_first() =~= roots.skip(taken + 1));
                        if self.failed() {
                            lemma_chart_root_grows::<Pred, VM>(pred, here, root);
                            lemma_chart_roots_grow::<Pred, VM>(pred, start, roots.take(taken), 0);
                            assert(roots.take(taken).take(0) =~= Seq::<ObjectReference>::empty());
                            lemma_chart_roots_grow::<Pred, VM>(pred, start, roots, taken + 1);
                            lemma_chart_work_grows::<Pred, VM>(
                                pred,
                                chart_roots::<Pred, VM>(pred, start, roots),
                            );
                        }
                        taken = taken + 1;
                    }
                    if self.failure.is_some() {
                        break ;
                    }
                },
            }
        }
        let ghost rooted = self@;
        if self.failure.is_none() {
            proof {
                lemma_chart_roots_grow::<Pred, VM>(pred, start, roots, 0);
                assert(roots.take(0) =~= Seq::<ObjectReference>::empty());
            }
            loop
                invariant_except_break
                    !self.failed(),
                    chart_work::<Pred, VM>(pred, self@) == chart_work::<Pred, VM>(pred, rooted),
                    start.items.len() <= self@.items.len(),
                invariant
                    self.sound(),
                    self.cursor() == unknown_id_text(),
                    self.pred() == pred,
                    self.tls == old(self).tls,
                    self.root_set@.pending == roots.skip(taken),
                    start.walk.trail.is_prefix_of(self@.walk.trail),
                    start.walk.backlog.faults.is_prefix_of(self@.walk.backlog.faults),
                ensures
                    Output::dependable() ==> !self.failed(),
                    !self.failed() ==> self@ == chart_work::<Pred, VM>(pred, rooted),
                    !self.failed() ==> self@.walk.backlog.pending.len() == 0,
                    self.failed() ==> start.items.len() < chart_work::<Pred, VM>(
                        pred,
                        rooted,
                    ).items.len(),
                decreases unvisited(self@.walk.trail), self@.walk.backlog.pending.len(),
            {
                let ghost c = self@;
                match queue_pop(&mut self.work_list) {
                    None => {
                        break ;
                    },
                    Some(node) => {
                        assert(self@ == chart_popped(c));
                        proof {
                            lemma_visit_progress::<Pred, VM>(pred, self@.walk, node);
                            lemma_chart_node_grows::<Pred, VM>(pred, chart_popped(c), node);
                            lemma_chart_work_grows::<Pred, VM>(
                                pred,
                                chart_node::<Pred, VM>(pred, chart_popped(c), node),
                            );
                        }
                        self.visit_node(node);
                        if self.failure.is_some() {
                            break ;
                        }
                    },
                }
            }
        }
        proof {
            assert(VM::enumerates_roots(batches));
            assert(start.walk.trail == old(self)@.walk.trail);
            self.lemma_trail_distinct();
        }
        match self.failure.take() {
            Some(error) => Err(error),
            None => Ok(()),
        }
    }
}

/// Draws the heap, as it is reached from its roots, as a graph in the DOT
/// language and hands out the text.
pub fn dump_graph<
    Pred: ValidityPredicate<VM>,
    VM: VMBinding + Scanning + ConservativeScanning + NodeAttrs,
>(pred: Pred, tls: VMWorkerThread) -> (text: String)
    ensures
        exists|batches: Seq<RootBatch<VM::VMSlot>>| #[trigger]
            VM::enumerates_roots(batches) && text@ == dot_text(
                dump_of::<Pred, VM>(pred, batches).items,
            ),
{
    let out = DotOutput::new();
    let mut dumper: HeapGraphDumper<Pred, VM, DotOutput> = HeapGraphDumper::new(pred, tls, out);
    let done = dumper.visit_roots();
    // writing into memory cannot fail
    assert(done is Ok);
    dumper.into_output().close()
}

} // verus!
