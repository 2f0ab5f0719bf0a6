use vstd::prelude::*;
use crate::handles::{ObjectReference, VMWorkerThread};

verus! {

// The traits of this file are what an embedding runtime implements. Each
// says in `spec` functions what the heap is like, as far as a walk can see
// it, and in the contracts of its executable functions that these behave
// accordingly. The heap is taken to be at rest while it is walked: the same
// question gets the same answer. The `spec` functions have bodies only so
// that an implementation that is not verified need not write them; such an
// implementation leaves them unspecified, and nothing is proved of it.

/// A location that holds, or can hold, a reference to an object: a field of
/// an object or an entry of the root set.
pub trait Slot: Copy {
    /// The object that the slot refers to, if any.
    open spec fn referent(&self) -> Option<ObjectReference> {
        arbitrary()
    }

    /// Reads the slot: the object it refers to, or `None` when the slot is
    /// cleared or was never set.
    fn load(&self) -> (target: Option<ObjectReference>)
        ensures
            target == self.referent(),
    ;
}

/// What a runtime brings along: the kind of slot that its objects are made of.
pub trait VMBinding: Sized {
    type VMSlot: Slot;
}

/// Decides whether a node or a slot of the heap is well formed.
pub trait ValidityPredicate<VM: VMBinding> {
    /// What is wrong with `node`: `None` for a sound node, else the reason
    /// given for it.
    open spec fn node_fault(&self, node: ObjectReference) -> Option<Seq<char>> {
        arbitrary()
    }

    /// What is wrong with `slot`: `None` for a sound slot, else the reason
    /// given for it.
    open spec fn slot_fault(&self, slot: VM::VMSlot) -> Option<Seq<char>> {
        arbitrary()
    }

    /// Judges a node: `Ok` for a sound one, else the reason.
    fn is_valid_node(&self, node: ObjectReference) -> (verdict: Result<(), String>)
        ensures
            match verdict {
                Ok(_) => self.node_fault(node) is None,
                Err(reason) => self.node_fault(node) == Some(reason@),
            },
    ;

    /// Judges a slot: `Ok` for a sound one, else the reason.
    fn is_valid_slot(&self, slot: VM::VMSlot) -> (verdict: Result<(), String>)
        ensures
            match verdict {
                Ok(_) => self.slot_fault(slot) is None,
                Err(reason) => self.slot_fault(slot) == Some(reason@),
            },
    ;
}

/// Is shown the slots of an object, one at a time.
pub trait SlotVisitor<S: Slot>: Sized {
    /// How the visitor changes when it is shown `slot`: `after` is a state
    /// that it may then be in.
    open spec fn observes(&self, slot: S, after: &Self) -> bool {
        arbitrary()
    }

    /// What the visitor asks to be true of itself before it is shown a slot,
    /// and keeps true.
    open spec fn ready(&self) -> bool {
        true
    }

    /// Shows the visitor one slot.
    fn visit_slot(&mut self, slot: S)
        requires
            old(self).ready(),
        ensures
            final(self).ready(),
            old(self).observes(slot, final(self)),
    ;
}

/// `after` is a state that a visitor in state `before` may be in once it
/// has been shown each of `slots` once, in their order.
pub open spec fn observes_all<S: Slot, EV: SlotVisitor<S>>(
    before: EV,
    slots: Seq<S>,
    after: EV,
) -> bool
    decreases slots.len(),
{
    if slots.len() == 0 {
        after == before
    } else {
        exists|mid: EV|
            #![trigger mid.observes(slots.last(), &after)]
            observes_all(before, slots.drop_last(), mid) && mid.observes(slots.last(), &after)
    }
}

/// Scans an object for the locations in it that bear a reference, taking
/// weak and ambiguous references for strong ones.
pub trait ConservativeScanning: VMBinding {
    /// The slots of `obj`, in the order in which a scan reports them.
    open spec fn outgoing(obj: ObjectReference) -> Seq<Self::VMSlot> {
        arbitrary()
    }

    /// Shows `ev` each slot of `obj` exactly once.
    fn conservatively_scan_object<EV: SlotVisitor<Self::VMSlot>>(
        tls: VMWorkerThread,
        obj: ObjectReference,
        ev: &mut EV,
    )
        requires
            old(ev).ready(),
        ensures
            final(ev).ready(),
            observes_all(*old(ev), Self::outgoing(obj), *final(ev)),
    ;
}

/// One delivery of roots by the runtime.
pub enum RootBatch<S> {
    /// Root slots: each is still to be checked and loaded.
    Slots(Seq<S>),
    /// Objects that the runtime has pinned and vouches for.
    Pinned(Seq<ObjectReference>),
    /// Objects that the runtime has pinned together with all they reach.
    TransitivelyPinned(Seq<ObjectReference>),
}

/// Takes delivery of the roots that a runtime enumerates.
pub trait RootsWorkFactory<S: Slot>: Sized {
    /// How the factory changes when it is handed `batch`: `after` is a state
    /// that it may then be in.
    open spec fn receives(&self, batch: RootBatch<S>, after: &Self) -> bool {
        arbitrary()
    }

    /// Hands over root slots.
    fn create_process_roots_work(&mut self, slots: Vec<S>)
        ensures
            old(self).receives(RootBatch::Slots(slots@), final(self)),
    ;

    /// Hands over pinned objects.
    fn create_process_pinning_roots_work(&mut self, nodes: Vec<ObjectReference>)
        ensures
            old(self).receives(RootBatch::Pinned(nodes@), final(self)),
    ;

    /// Hands over objects that are pinned with all they reach.
    fn create_process_tpinning_roots_work(&mut self, nodes: Vec<ObjectReference>)
        ensures
            old(self).receives(RootBatch::TransitivelyPinned(nodes@), final(self)),
    ;
}

/// `after` is a state that a factory in state `before` may be in once it
/// has been handed each of `batches` once, in their order.
pub open spec fn receives_all<S: Slot, F: RootsWorkFactory<S>>(
    before: F,
    batches: Seq<RootBatch<S>>,
    after: F,
) -> bool
    decreases batches.len(),
{
    if batches.len() == 0 {
        after == before
    } else {
        exists|mid: F|
            #![trigger mid.receives(batches.last(), &after)]
            receives_all(before, batches.drop_last(), mid) && mid.receives(
                batches.last(),
                &after,
            )
    }
}

/// Enumerates the roots of the heap. The factory is lent exclusively: a
/// runtime that enumerates from several threads takes turns at it.
pub trait Scanning: VMBinding {
    /// Whether `batches` is a way in which the runtime may hand over its
    /// roots. Several threads of the runtime may take part in one
    /// enumeration, so the order of the deliveries need not be the same each
    /// time.
    open spec fn enumerates_roots(batches: Seq<RootBatch<Self::VMSlot>>) -> bool {
        arbitrary()
    }

    /// Hands every root to `factory`, each exactly once, and returns.
    fn scan_vm_specific_roots<F: RootsWorkFactory<Self::VMSlot>>(
        tls: VMWorkerThread,
        factory: &mut F,
    )
        ensures
            exists|batches: Seq<RootBatch<Self::VMSlot>>| #[trigger]
                Self::enumerates_roots(batches) && receives_all(
                    *old(factory),
                    batches,
                    *final(factory),
                ),
    ;
}

} // verus!
