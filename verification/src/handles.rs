use vstd::prelude::*;

verus! {

/// Names one heap object. Two handles are the same handle exactly when they
/// hold the same address; nothing about the object itself takes part.
#[derive(Clone, Copy, Debug, PartialEq, Eq, Structural, Hash)]
pub struct ObjectReference {
    pub addr: usize,
}

impl ObjectReference {
    /// The handle of the object at `addr`.
    pub fn from_raw_address(addr: usize) -> (obj: ObjectReference)
        ensures
            obj.addr == addr,
    {
        ObjectReference { addr }
    }

    /// The address that the handle stands for.
    pub fn to_raw_address(&self) -> (addr: usize)
        ensures
            addr == self.addr,
    {
        self.addr
    }
}

/// Names the runtime thread on whose behalf a traversal runs. The traversal
/// only passes it on to the runtime.
#[derive(Clone, Copy, Debug, PartialEq, Eq, Structural)]
pub struct VMWorkerThread(pub usize);

} // verus!
