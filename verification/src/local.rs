use vstd::prelude::*;
use crate::fatal::Fatal;
use crate::pinned::ThreadPinned;

verus! {

/// One worker's share of a store: the targets and the events that were pushed
/// to it, side by side and in the order they came, and the worker that has
/// claimed the shard, if any has.
#[derive(Debug)]
pub struct LocalEvents<E, T> {
    pinned_worker: Option<usize>,
    targets: Vec<T>,
    events: Vec<E>,
}

/// Whether `process` may be called, on worker `worker`, on every pair of
/// `items`.
pub open spec fn deliverable<E, T, R, F: Fn(ThreadPinned<T>, E) -> R>(
    items: Seq<(T, E)>,
    worker: usize,
    process: F,
) -> bool {
    forall|j: int|
        0 <= j < items.len() ==> call_requires(
            process,
            (ThreadPinned::minted((#[trigger] items[j]).0, worker), items[j].1),
        )
}

/// Whether `out` is what `process` gave when it was called, on worker
/// `worker`, once on each pair of `items` and in their order: as many results
/// as pairs, the result at each place being one that `process` can give for
/// the pair at that place.
pub open spec fn delivered<E, T, R, F: Fn(ThreadPinned<T>, E) -> R>(
    items: Seq<(T, E)>,
    worker: usize,
    process: F,
    out: Seq<R>,
) -> bool {
    &&& out.len() == items.len()
    &&& forall|j: int|
        0 <= j < items.len() ==> call_ensures(
            process,
            (ThreadPinned::minted(items[j].0, worker), items[j].1),
            #[trigger] out[j],
        )
}

impl<E, T> LocalEvents<E, T> {
    /// The two columns have the same length: every target has its event.
    pub closed spec fn wf(&self) -> bool {
        self.targets@.len() == self.events@.len()
    }

    /// The pairs held, oldest first.
    pub closed spec fn view(&self) -> Seq<(T, E)> {
        Seq::new(self.targets@.len(), |i: int| (self.targets@[i], self.events@[i]))
    }

    /// The worker that has claimed the shard since it was last emptied.
    pub closed spec fn pinned(&self) -> Option<usize> {
        self.pinned_worker
    }

    /// Whether worker `worker` may use the shard: nobody has claimed it, or
    /// `worker` has.
    pub open spec fn admits(&self, worker: usize) -> bool {
        self.pinned() is None || self.pinned() == Some(worker)
    }

    /// Whether the shard holds nothing and belongs to nobody.
    pub open spec fn is_fresh(&self) -> bool {
        &&& self.wf()
        &&& self@ == Seq::<(T, E)>::empty()
        &&& self.pinned() is None
    }

    /// A shard with no pairs that no worker has claimed.
    #[must_use]
    pub fn empty() -> (shard: Self)
        ensures
            shard.is_fresh(),
    {
        let shard = Self { targets: Vec::new(), events: Vec::new(), pinned_worker: None };
        assert(shard@ =~= Seq::<(T, E)>::empty());
        shard
    }

    /// A shard with no pairs that no worker has claimed.
    #[must_use]
    pub fn new() -> (shard: Self)
        ensures
            shard.is_fresh(),
    {
        Self::empty()
    }

    /// The number of pairs held.
    pub fn len(&self) -> (n: usize)
        requires
            self.wf(),
        ensures
            n == self@.len(),
    {
        self.targets.len()
    }

    /// Whether no pair is held.
    pub fn is_empty(&self) -> (b: bool)
        requires
            self.wf(),
        ensures
            b == (self@.len() == 0),
    {
        self.targets.len() == 0
    }

    /// The worker that has claimed the shard since it was last emptied.
    pub fn pinned_worker(&self) -> (owner: Option<usize>)
        ensures
            owner == self.pinned(),
    {
        self.pinned_worker
    }

    /// Appends one pair behind those already held. Who has claimed the shard
    /// does not change.
    pub fn push(&mut self, target: T, data: E)
        requires
            old(self).wf(),
        ensures
            final(self).wf(),
            final(self)@ == old(self)@.push((target, data)),
            final(self).pinned() == old(self).pinned(),
    {
        self.targets.push(target);
        self.events.push(data);
        assert(self@ =~= old(self)@.push((target, data)));
    }

    /// Drops every pair and releases the shard from the worker that had
    /// claimed it.
    pub fn clear(&mut self)
        requires
            old(self).wf(),
        ensures
            final(self).is_fresh(),
    {
        self.targets.clear();
        self.events.clear();
        self.pinned_worker = None;
        assert(self@ =~= Seq::<(T, E)>::empty());
    }

    /// Claims the shard for worker `current`, or confirms the claim that
    /// `current` already has. Once a worker has claimed the shard every other
    /// worker is turned away, and the shard is left as it was.
    pub fn pin(&mut self, current: usize) -> (res: Result<(), Fatal>)
        requires
            old(self).wf(),
        ensures
            final(self).wf(),
            final(self)@ == old(self)@,
            res is Ok <==> old(self).admits(current),
            res is Ok ==> final(self).pinned() == Some(current),
            res is Err ==> res == Err::<(), Fatal>(Fatal::WrongWorker) && *final(self) == *old(
                self,
            ),
    {
        match self.pinned_worker {
            None => {
                self.pinned_worker = Some(current);
                Ok(())
            },
            Some(owner) => {
                if owner == current {
                    Ok(())
                } else {
                    Err(Fatal::WrongWorker)
                }
            },
        }
    }

    /// Appends, on worker `current`, an event for the target of a handle made
    /// on that same worker. A handle from another worker is refused, and so is
    /// any push into a shard that another worker has claimed; the shard is
    /// then left as it was. Otherwise the shard is claimed for `current` and
    /// the pair goes behind those already held.
    pub fn push_pinned(&mut self, current: usize, target: ThreadPinned<T>, data: E) -> (res: Result<
        (),
        Fatal,
    >)
        requires
            old(self).wf(),
        ensures
            final(self).wf(),
            res is Ok <==> target.worker_spec() == current && old(self).admits(current),
            res is Ok ==> final(self)@ == old(self)@.push((target.target(), data))
                && final(self).pinned() == Some(current),
            res is Err ==> res == Err::<(), Fatal>(Fatal::WrongWorker) && *final(self) == *old(
                self,
            ),
    {
        if target.worker() != current {
            return Err(Fatal::WrongWorker);
        }
        match self.pin(current) {
            Ok(()) => {
                self.push(target.into_inner(), data);
                Ok(())
            },
            Err(fault) => Err(fault),
        }
    }

    /// Takes every pair out, newest first, and leaves the columns empty.
    fn take_newest_first(&mut self) -> (stack: Vec<(T, E)>)
        requires
            old(self).wf(),
        ensures
            final(self).wf(),
            final(self)@ == Seq::<(T, E)>::empty(),
            final(self).pinned() == old(self).pinned(),
            stack@ == old(self)@.reverse(),
    {
        let mut stack: Vec<(T, E)> = Vec::new();
        while self.targets.len() > 0
            invariant
                self.wf(),
                self.pinned() == old(self).pinned(),
                self@.len() + stack@.len() == old(self)@.len(),
                forall|j: int| 0 <= j < self@.len() ==> self@[j] == old(self)@[j],
                forall|j: int|
                    0 <= j < stack@.len() ==> stack@[j] == old(self)@[old(self)@.len() - 1 - j],
            decreases self.targets@.len(),
        {
            let target = self.targets.pop();
            let data = self.events.pop();
            match (target, data) {
                (Some(target), Some(data)) => {
                    stack.push((target, data));
                },
                _ => {},
            }
        }
        assert(self@ =~= Seq::<(T, E)>::empty());
        assert(stack@ =~= old(self)@.reverse());
        stack
    }

    /// Delivers, on worker `worker`, every pair held to `process`, oldest
    /// first, each with a handle made for it on the spot, and hands back what
    /// `process` returned, in the same order. Afterwards the shard is empty and
    /// belongs to nobody. A shard that another worker has claimed is left
    /// alone, and nothing is delivered.
    pub fn drain_with<R, F: Fn(ThreadPinned<T>, E) -> R>(&mut self, worker: usize, process: &F) -> (res:
        Result<Vec<R>, Fatal>)
        requires
            old(self).wf(),
            deliverable(old(self)@, worker, *process),
        ensures
            drained(*old(self), worker, *process, *final(self), res),
    {
        match self.pin(worker) {
            Err(fault) => Err(fault),
            Ok(()) => {
                let mut stack = self.take_newest_first();
                self.pinned_worker = None;
                let ghost items = old(self)@;
                let mut out: Vec<R> = Vec::new();
                while stack.len() > 0
                    invariant
                        stack@.len() + out@.len() == items.len(),
                        forall|j: int|
                            0 <= j < stack@.len() ==> stack@[j] == items[items.len() - 1 - j],
                        deliverable(items, worker, *process),
                        delivered(items.take(out@.len() as int), worker, *process, out@),
                    decreases stack@.len(),
                {
                    let ghost k = out@.len() as int;
                    match stack.pop() {
                        Some((target, data)) => {
                            assert((target, data) == items[k]);
                            let result = process(ThreadPinned::new(target, worker), data);
                            out.push(result);
                            assert forall|j: int| 0 <= j < k + 1 implies call_ensures(
                                *process,
                                (
                                    ThreadPinned::minted(items.take(k + 1)[j].0, worker),
                                    items.take(k + 1)[j].1,
                                ),
                                #[trigger] out@[j],
                            ) by {
                                if j < k {
                                    assert(items.take(k)[j] == items.take(k + 1)[j]);
                                }
                            }
                        },
                        None => {},
                    }
                }
                assert(items.take(out@.len() as int) =~= items);
                Ok(out)
            },
        }
    }
}

/// What a drain on worker `worker` does to a shard, `before` and `after`, and
/// what it hands back.
///
/// Where the shard was free or claimed by `worker`, the drain succeeds: the
/// shard ends up empty and free, and the results are those of `process` on
/// the pairs held before, one for one and in their order. Where another worker
/// had claimed the shard, the drain fails and the shard is as before.
pub open spec fn drained<E, T, R, F: Fn(ThreadPinned<T>, E) -> R>(
    before: LocalEvents<E, T>,
    worker: usize,
    process: F,
    after: LocalEvents<E, T>,
    res: Result<Vec<R>, Fatal>,
) -> bool {
    match res {
        Ok(out) => {
            &&& before.admits(worker)
            &&& after.is_fresh()
            &&& delivered(before@, worker, process, out@)
        },
        Err(fault) => {
            &&& !before.admits(worker)
            &&& fault == Fatal::WrongWorker
            &&& after == before
        },
    }
}

impl<E, T> Default for LocalEvents<E, T> {
    fn default() -> (shard: Self)
        ensures
            shard.is_fresh(),
    {
        Self::new()
    }
}

} // verus!
