use vstd::prelude::*;
use crossbeam::queue::SegQueue;
use std::collections::HashSet;
use crate::handles::{ObjectReference, VMWorkerThread};
use crate::queue::{queue_new, queue_pop, queue_push, queued};
use crate::vm::{
    observes_all, receives_all, ConservativeScanning, RootBatch, RootsWorkFactory, Scanning,
    Slot, SlotVisitor, VMBinding, ValidityPredicate,
};
use crate::walk::{
    accept_batch, accept_batches, accept_nodes, accept_slot, accept_slots, drain, empty_backlog,
    lemma_visit_progress, popped, survey, unvisited, visit, Backlog, Fault, Walk,
};

verus! {

/// A failure found while the heap is walked.
#[derive(Clone, Debug)]
pub enum Error<S> {
    /// A slot that the validity predicate turned down, with the reason.
    BadEdge(S, String),
    /// A node that the validity predicate turned down, with the reason.
    BadNode(ObjectReference, String),
}

impl<S> View for Error<S> {
    type V = Fault<S>;

    open spec fn view(&self) -> Fault<S> {
        match *self {
            Error::BadEdge(slot, reason) => Fault::BadEdge(slot, reason@),
            Error::BadNode(node, reason) => Fault::BadNode(node, reason@),
        }
    }
}

impl<S> Error<S> {
    /// The reason that the validity predicate gave.
    pub fn reason(&self) -> (reason: &String)
        ensures
            match self@ {
                Fault::BadEdge(_, text) => reason@ == text,
                Fault::BadNode(_, text) => reason@ == text,
            },
    {
        match self {
            Error::BadEdge(_, reason) => reason,
            Error::BadNode(_, reason) => reason,
        }
    }
}

/// The failures of a log, each as a plain value, in the order of the log.
pub open spec fn faults_of<S>(errors: Seq<Error<S>>) -> Seq<Fault<S>> {
    errors.map_values(|e: Error<S>| e@)
}

/// Collects work for a walk: the nodes that wait to be visited and the
/// failures met so far. Roots and the slots of scanned objects both arrive
/// here.
pub struct WorkFactory<Pred: ValidityPredicate<VM>, VM: VMBinding> {
    errors: Vec<Error<VM::VMSlot>>,
    work_list: SegQueue<ObjectReference>,
    pred: Pred,
}

impl<Pred: ValidityPredicate<VM>, VM: VMBinding> View for WorkFactory<Pred, VM> {
    type V = Backlog<VM::VMSlot>;

    closed spec fn view(&self) -> Backlog<VM::VMSlot> {
        Backlog { pending: queued(self.work_list), faults: faults_of(self.errors@) }
    }
}

impl<Pred: ValidityPredicate<VM>, VM: VMBinding> WorkFactory<Pred, VM> {
    /// The predicate that the collector puts slots to.
    pub closed spec fn pred(&self) -> Pred {
        self.pred
    }

    /// A collector with nothing waiting and nothing recorded.
    pub fn new(pred: Pred) -> (factory: Self)
        ensures
            factory.pred() == pred,
            factory@ == empty_backlog::<VM::VMSlot>(),
    {
        let factory = WorkFactory { errors: Vec::new(), work_list: queue_new(), pred };
        assert(faults_of(factory.errors@) =~= Seq::<Fault<VM::VMSlot>>::empty());
        factory
    }

    /// Records a failure. Nothing else changes.
    pub fn push_error(&mut self, error: Error<VM::VMSlot>)
        ensures
            final(self).pred() == old(self).pred(),
            final(self)@ == (Backlog { faults: old(self)@.faults.push(error@), ..old(self)@ }),
    {
        self.errors.push(error);
        assert(faults_of(self.errors@) =~= faults_of(old(self).errors@).push(error@));
    }

    /// Offers a slot. One that the predicate turns down is recorded as a bad
    /// edge and not loaded; a sound one is loaded and what it refers to
    /// joins the queue; a sound one that refers to nothing is passed over.
    pub fn push_slot(&mut self, slot: VM::VMSlot)
        ensures
            final(self).pred() == old(self).pred(),
            final(self)@ == accept_slot::<Pred, VM>(old(self).pred(), old(self)@, slot),
    {
        match self.pred.is_valid_slot(slot) {
            Ok(()) => {
                match slot.load() {
                    Some(node) => {
                        queue_push(&mut self.work_list, node);
                    },
                    None => {},
                }
            },
            Err(reason) => {
                self.push_error(Error::BadEdge(slot, reason));
            },
        }
    }

    /// The predicate that the collector puts slots to.
    pub fn predicate(&self) -> (pred: &Pred)
        ensures
            *pred == self.pred(),
    {
        &self.pred
    }

    /// Puts one object that the runtime vouches for on the queue, unchecked.
    pub fn push_node(&mut self, node: ObjectReference)
        ensures
            final(self).pred() == old(self).pred(),
            final(self)@ == (Backlog { pending: old(self)@.pending.push(node), ..old(self)@ }),
    {
        queue_push(&mut self.work_list, node);
    }

    /// Puts objects that the runtime vouches for on the queue, unchecked.
    pub fn push_nodes(&mut self, nodes: Vec<ObjectReference>)
        ensures
            final(self).pred() == old(self).pred(),
            final(self)@ == accept_nodes(old(self)@, nodes@),
    {
        let mut i: usize = 0;
        while i < nodes.len()
            invariant
                i <= nodes.len(),
                self.pred == old(self).pred,
                self.errors == old(self).errors,
                queued(self.work_list) == queued(old(self).work_list) + nodes@.take(i as int),
            decreases nodes.len() - i,
        {
            queue_push(&mut self.work_list, nodes[i]);
            assert(nodes@.take(i as int + 1) =~= nodes@.take(i as int).push(nodes@[i as int]));
            i += 1;
        }
        assert(nodes@.take(nodes.len() as int) =~= nodes@);
    }

    /// Takes the oldest waiting node off the queue, if one waits.
    pub fn pop_node(&mut self) -> (head: Option<ObjectReference>)
        ensures
            final(self).pred() == old(self).pred(),
            final(self)@.faults == old(self)@.faults,
            old(self)@.pending.len() == 0 ==> head is None && final(self)@ == old(self)@,
            old(self)@.pending.len() > 0 ==> head == Some(old(self)@.pending.first())
                && final(self)@.pending == old(self)@.pending.drop_first(),
    {
        queue_pop(&mut self.work_list)
    }

    /// Hands out the failures recorded so far and leaves the log empty.
    pub fn take_errors(&mut self) -> (errors: Vec<Error<VM::VMSlot>>)
        ensures
            final(self).pred() == old(self).pred(),
            faults_of(errors@) == old(self)@.faults,
            final(self)@ == (Backlog { faults: Seq::empty(), ..old(self)@ }),
    {
        let mut errors: Vec<Error<VM::VMSlot>> = Vec::new();
        std::mem::swap(&mut errors, &mut self.errors);
        assert(faults_of(self.errors@) =~= Seq::<Fault<VM::VMSlot>>::empty());
        errors
    }
}

impl<Pred: ValidityPredicate<VM>, VM: VMBinding> RootsWorkFactory<VM::VMSlot> for WorkFactory<
    Pred,
    VM,
> {
    open spec fn receives(&self, batch: RootBatch<VM::VMSlot>, after: &Self) -> bool {
        &&& after.pred() == self.pred()
        &&& after@ == accept_batch::<Pred, VM>(self.pred(), self@, batch)
    }

    fn create_process_roots_work(&mut self, slots: Vec<VM::VMSlot>) {
        let mut i: usize = 0;
        while i < slots.len()
            invariant
                i <= slots.len(),
                self.pred() == old(self).pred(),
                self@ == accept_slots::<Pred, VM>(old(self).pred(), old(self)@, slots@.take(i as int)),
            decreases slots.len() - i,
        {
            self.push_slot(slots[i]);
            assert(slots@.take(i as int + 1).drop_last() =~= slots@.take(i as int));
            i += 1;
        }
        assert(slots@.take(slots.len() as int) =~= slots@);
    }

    fn create_process_pinning_roots_work(&mut self, nodes: Vec<ObjectReference>) {
        self.push_nodes(nodes);
    }

    fn create_process_tpinning_roots_work(&mut self, nodes: Vec<ObjectReference>) {
        self.push_nodes(nodes);
    }
}

/// A factory that was handed `batches` holds what the model of the
/// collector says.
pub proof fn lemma_received<Pred: ValidityPredicate<VM>, VM: VMBinding>(
    before: WorkFactory<Pred, VM>,
    batches: Seq<RootBatch<VM::VMSlot>>,
    after: WorkFactory<Pred, VM>,
)
    requires
        receives_all(before, batches, after),
    ensures
        after.pred() == before.pred(),
        after@ == accept_batches::<Pred, VM>(before.pred(), before@, batches),
    decreases batches.len(),
{
    if batches.len() != 0 {
        let mid = choose|mid: WorkFactory<Pred, VM>|
            #![trigger mid.receives(batches.last(), &after)]
            receives_all(before, batches.drop_last(), mid) && mid.receives(batches.last(), &after);
        lemma_received(before, batches.drop_last(), mid);
    }
}

/// Walks the heap from its roots and checks every node and edge on the way
/// against a validity predicate. Failures are collected, never acted on.
pub struct SanityChecker<Pred: ValidityPredicate<VM>, VM: VMBinding + ConservativeScanning> {
    tls: VMWorkerThread,
    visited: HashSet<usize>,
    worker: WorkFactory<Pred, VM>,
    trail: Ghost<Seq<ObjectReference>>,
}

impl<Pred: ValidityPredicate<VM>, VM: VMBinding + ConservativeScanning> View for SanityChecker<
    Pred,
    VM,
> {
    type V = Walk<VM::VMSlot>;

    closed spec fn view(&self) -> Walk<VM::VMSlot> {
        Walk { trail: self.trail@, backlog: self.worker@ }
    }
}

impl<Pred: ValidityPredicate<VM>, VM: VMBinding + ConservativeScanning> SlotVisitor<
    VM::VMSlot,
> for SanityChecker<Pred, VM> {
    closed spec fn observes(&self, slot: VM::VMSlot, after: &Self) -> bool {
        &&& after.tls == self.tls
        &&& after.visited == self.visited
        &&& after.trail == self.trail
        &&& after.worker.pred() == self.worker.pred()
        &&& after.worker@ == accept_slot::<Pred, VM>(self.worker.pred(), self.worker@, slot)
    }

    /// A slot of the node under scan is offered to the collector.
    fn visit_slot(&mut self, slot: VM::VMSlot)
        ensures
            final(self).wf() == old(self).wf(),
            final(self).pred() == old(self).pred(),
            final(self)@ == (Walk {
                backlog: accept_slot::<Pred, VM>(old(self).pred(), old(self)@.backlog, slot),
                ..old(self)@
            }),
    {
        self.worker.push_slot(slot);
    }
}

impl<Pred: ValidityPredicate<VM>, VM: VMBinding + ConservativeScanning> SanityChecker<Pred, VM> {
    /// The set of visited objects agrees with the trail, and the trail meets
    /// no object twice.
    pub closed spec fn wf(&self) -> bool {
        &&& self.trail@.no_duplicates()
        &&& forall|o: ObjectReference| self.visited@.contains(o.addr) <==> self.trail@.contains(o)
    }

    /// The predicate that nodes and slots are put to.
    pub closed spec fn pred(&self) -> Pred {
        self.worker.pred()
    }

    /// The thread on whose behalf the checker runs.
    pub closed spec fn tls(&self) -> VMWorkerThread {
        self.tls
    }

    /// A checker that has seen nothing yet.
    pub fn new(pred: Pred, tls: VMWorkerThread) -> (checker: Self)
        ensures
            checker.wf(),
            checker.pred() == pred,
            checker.tls() == tls,
            checker@ == (Walk { trail: Seq::empty(), backlog: empty_backlog::<VM::VMSlot>() }),
    {
        let worker = WorkFactory::new(pred);
        SanityChecker { tls, visited: HashSet::new(), worker, trail: Ghost(Seq::empty()) }
    }

    /// Whether the checker has taken up `node`.
    pub fn has_visited(&self, node: ObjectReference) -> (seen: bool)
        requires
            self.wf(),
        ensures
            seen == self@.trail.contains(node),
    {
        broadcast use vstd::std_specs::hash::group_hash_axioms;

        let addr = node.to_raw_address();
        self.visited.contains(&addr)
    }

    /// The state after the slots of one node were shown to the checker.
    proof fn lemma_observed(before: Self, slots: Seq<VM::VMSlot>, after: Self)
        requires
            observes_all(before, slots, after),
        ensures
            after.tls == before.tls,
            after.visited == before.visited,
            after.trail == before.trail,
            after.worker.pred() == before.worker.pred(),
            after.worker@ == accept_slots::<Pred, VM>(before.worker.pred(), before.worker@, slots),
        decreases slots.len(),
    {
        if slots.len() != 0 {
            let mid = choose|mid: Self|
                #![trigger mid.observes(slots.last(), &after)]
                observes_all(before, slots.drop_last(), mid) && mid.observes(slots.last(), &after);
            Self::lemma_observed(before, slots.drop_last(), mid);
        }
    }

    /// Takes up one node: see `visit`.
    pub fn check_node(&mut self, node: ObjectReference)
        requires
            old(self).wf(),
        ensures
            final(self).wf(),
            final(self).pred() == old(self).pred(),
            final(self).tls() == old(self).tls(),
            final(self)@ == visit::<Pred, VM>(old(self).pred(), old(self)@, node),
    {
        broadcast use vstd::std_specs::hash::group_hash_axioms;

        let addr = node.to_raw_address();
        if !self.visited.contains(&addr) {
            assert(!self.trail@.contains(node));
            self.visited.insert(addr);
            proof {
                lemma_visit_progress::<Pred, VM>(self.pred(), self@, node);
                self.trail@ = self.trail@.push(node);
            }
            assert(self.wf()) by {
                assert forall|o: ObjectReference|
                    self.visited@.contains(o.addr) <==> self.trail@.contains(o) by {
                    if o == node {
                        assert(self.trail@.last() == node);
                    } else if old(self).trail@.contains(o) {
                        let i = choose|i: int| 0 <= i < old(self).trail@.len() && old(self).trail@[i] == o;
                        assert(self.trail@[i] == o);
                    }
                }
            }
            match self.worker.pred.is_valid_node(node) {
                Ok(()) => {
                    let ghost before = *self;
                    VM::conservatively_scan_object(self.tls, node, self);
                    proof {
                        Self::lemma_observed(before, VM::outgoing(node), *self);
                    }
                },
                Err(reason) => {
                    self.worker.push_error(Error::BadNode(node, reason));
                },
            }
        } else {
            assert(self.trail@.contains(node));
        }
    }

    /// Has the runtime enumerate the roots into the collector, then visits
    /// what waits, the oldest first, until nothing waits.
    pub fn check_roots(&mut self) where VM: Scanning
        requires
            old(self).wf(),
        ensures
            final(self).wf(),
            final(self).pred() == old(self).pred(),
            final(self).tls() == old(self).tls(),
            exists|batches: Seq<RootBatch<VM::VMSlot>>| #[trigger]
                VM::enumerates_roots(batches) && final(self)@ == drain::<Pred, VM>(
                    old(self).pred(),
                    Walk {
                        backlog: accept_batches::<Pred, VM>(
                            old(self).pred(),
                            old(self)@.backlog,
                            batches,
                        ),
                        ..old(self)@
                    },
                ),
    {
        let ghost before = self.worker;
        VM::scan_vm_specific_roots(self.tls, &mut self.worker);
        let ghost batches = choose|batches: Seq<RootBatch<VM::VMSlot>>| #[trigger]
            VM::enumerates_roots(batches) && receives_all(before, batches, self.worker);
        proof {
            lemma_received(before, batches, self.worker);
        }
        self.drain_work();
        assert(VM::enumerates_roots(batches));
    }

    /// Visits what waits, the oldest first, until nothing waits.
    pub fn drain_work(&mut self)
        requires
            old(self).wf(),
        ensures
            final(self).wf(),
            final(self).pred() == old(self).pred(),
            final(self).tls() == old(self).tls(),
            final(self)@ == drain::<Pred, VM>(old(self).pred(), old(self)@),
    {
        loop
            invariant
                self.wf(),
                self.pred() == old(self).pred(),
                self.tls() == old(self).tls(),
                drain::<Pred, VM>(self.pred(), self@) == drain::<Pred, VM>(
                    old(self).pred(),
                    old(self)@,
                ),
            ensures
                self@.backlog.pending.len() == 0,
            decreases unvisited(self@.trail), self@.backlog.pending.len(),
        {
            let ghost w = self@;
            match self.worker.pop_node() {
                None => {
                    break ;
                },
                Some(node) => {
                    assert(self@ == popped(w));
                    proof {
                        lemma_visit_progress::<Pred, VM>(self.pred(), self@, node);
                    }
                    self.check_node(node);
                },
            }
        }
    }

    /// Hands out the failures recorded so far and leaves the log empty.
    pub fn take_errors(&mut self) -> (errors: Vec<Error<VM::VMSlot>>)
        ensures
            final(self).wf() == old(self).wf(),
            final(self).pred() == old(self).pred(),
            final(self).tls() == old(self).tls(),
            faults_of(errors@) == old(self)@.backlog.faults,
            final(self)@ == (Walk {
                backlog: Backlog { faults: Seq::empty(), ..old(self)@.backlog },
                ..old(self)@
            }),
    {
        self.worker.take_errors()
    }
}

/// Walks the whole heap from its roots and reports what the validity
/// predicate turned down: `Ok` when nothing was, else every failure that was
/// recorded, in the order of the log.
pub fn check_heap<
    Pred: ValidityPredicate<VM>,
    VM: VMBinding + Scanning + ConservativeScanning,
>(pred: Pred, tls: VMWorkerThread) -> (verdict: Result<(), Vec<Error<VM::VMSlot>>>)
    ensures
        exists|batches: Seq<RootBatch<VM::VMSlot>>| #[trigger]
            VM::enumerates_roots(batches) && match verdict {
                Ok(_) => survey::<Pred, VM>(pred, batches).backlog.faults.len() == 0,
                Err(errors) => errors.len() > 0 && faults_of(errors@) == survey::<Pred, VM>(
                    pred,
                    batches,
                ).backlog.faults,
            },
{
    let mut checker: SanityChecker<Pred, VM> = SanityChecker::new(pred, tls);
    checker.check_roots();
    let errors = checker.take_errors();
    if errors.len() == 0 {
        Ok(())
    } else {
        Err(errors)
    }
}

} // verus!
