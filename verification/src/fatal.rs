use vstd::prelude::*;

verus! {

/// The ways in which a store can be misused. None of them can be recovered
/// from by trying again: each one points at a mistake in the code around the
/// store, and a caller is expected to stop on it.
#[derive(Clone, Copy, Debug, PartialEq, Eq, Structural)]
pub enum Fatal {
    /// The thread pool does not have as many workers as the store has shards.
    PoolMismatch,
    /// The operation is reserved to the pool's workers and the caller is not
    /// one of them.
    OutsidePool,
    /// A worker reached for a shard, or used a handle, that belongs to another
    /// worker.
    WrongWorker,
}

impl Fatal {
    /// Whether the fault is a breach of thread affinity, as opposed to a pool
    /// of the wrong size.
    pub open spec fn affinity_spec(self) -> bool {
        self != Fatal::PoolMismatch
    }

    /// Whether the fault is a breach of thread affinity, as opposed to a pool
    /// of the wrong size.
    pub fn is_affinity_violation(&self) -> (b: bool)
        ensures
            b == self.affinity_spec(),
    {
        match self {
            Fatal::PoolMismatch => false,
            Fatal::OutsidePool => true,
            Fatal::WrongWorker => true,
        }
    }
}

} // verus!
