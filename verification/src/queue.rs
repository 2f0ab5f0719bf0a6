use vstd::prelude::*;
use crossbeam::queue::SegQueue;
use crate::handles::ObjectReference;

verus! {

/// `crossbeam::queue::SegQueue`, held as it is. What a queue holds is named
/// by `queued`; nothing else is said of it.
#[verifier::external_type_specification]
#[verifier::external_body]
#[verifier::reject_recursive_types(T)]
pub struct ExSegQueue<T>(SegQueue<T>);

/// The handles that wait in a queue, the oldest first. The queue is only
/// ever reached through the three functions below, each of which borrows it
/// exclusively, so that it holds what was pushed and not yet popped, in the
/// order of the pushes.
pub uninterp spec fn queued(q: SegQueue<ObjectReference>) -> Seq<ObjectReference>;

/// `SegQueue::new`: a new queue holds nothing.
#[verifier::external_body]
pub(crate) fn queue_new() -> (q: SegQueue<ObjectReference>)
    ensures
        queued(q) == Seq::<ObjectReference>::empty(),
{
    SegQueue::new()
}

/// `SegQueue::push`: the handle is added behind all that wait. The queue is
/// borrowed exclusively, so that no other holder can push or pop meanwhile.
#[verifier::external_body]
pub(crate) fn queue_push(q: &mut SegQueue<ObjectReference>, node: ObjectReference)
    ensures
        queued(*final(q)) == queued(*old(q)).push(node),
{
    q.push(node)
}

/// `SegQueue::pop`: the oldest handle leaves the queue and is returned; an
/// empty queue stays empty and gives `None`. The queue is borrowed
/// exclusively, so that no other holder can push or pop meanwhile.
#[verifier::external_body]
pub(crate) fn queue_pop(q: &mut SegQueue<ObjectReference>) -> (head: Option<ObjectReference>)
    ensures
        queued(*old(q)).len() == 0 ==> head is None && queued(*final(q)) == queued(*old(q)),
        queued(*old(q)).len() > 0 ==> head == Some(queued(*old(q)).first()) && queued(*final(q))
            == queued(*old(q)).drop_first(),
{
    q.pop()
}

} // verus!
