use vstd::prelude::*;

verus! {

/// A target together with the worker that was visiting it when the handle was
/// made. A drain makes one for every event it delivers; nothing else can. It
/// is what a worker shows to push a follow-up event into its own shard of
/// another store without the target's shard being looked up again, and it is
/// of no use on any other worker.
#[derive(PartialEq, Eq, Copy, Clone, Debug)]
pub struct ThreadPinned<T> {
    data: T,
    worker: usize,
}

impl<T> ThreadPinned<T> {
    /// The target that the handle is for.
    pub closed spec fn target(&self) -> T {
        self.data
    }

    /// The index, in the pool, of the worker that the handle was made on.
    pub closed spec fn worker_spec(&self) -> usize {
        self.worker
    }

    /// The handle for `data` made on worker `worker`.
    pub closed spec fn minted(data: T, worker: usize) -> Self {
        ThreadPinned { data, worker }
    }

    /// A handle is the pair of its target and its worker, no more.
    pub broadcast proof fn minted_is_the_pair(data: T, worker: usize)
        ensures
            (#[trigger] Self::minted(data, worker)).target() == data,
            Self::minted(data, worker).worker_spec() == worker,
    {
    }

    /// The target that the handle is for.
    #[must_use]
    pub fn inner(&self) -> (data: &T)
        ensures
            *data == self.target(),
    {
        &self.data
    }

    /// The index, in the pool, of the worker that the handle was made on.
    pub fn worker(&self) -> (worker: usize)
        ensures
            worker == self.worker_spec(),
    {
        self.worker
    }

    pub(crate) fn new(data: T, worker: usize) -> (handle: Self)
        ensures
            handle == Self::minted(data, worker),
    {
        Self { data, worker }
    }

    pub(crate) fn into_inner(self) -> (data: T)
        ensures
            data == self.target(),
    {
        self.data
    }
}

} // verus!
