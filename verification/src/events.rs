use vstd::prelude::*;
use crate::entity::EntityId;
use crate::fatal::Fatal;
use crate::key::{shard_index, shard_of, ConsistentKey};
use crate::local::{deliverable, delivered, LocalEvents};
use crate::pinned::ThreadPinned;
use crate::pool;

verus! {

/// A store of targeted events, cut into as many shards as the thread pool had
/// workers when the store was made. The number of shards never changes.
#[derive(Debug)]
pub struct TargetedEvents<E, T = EntityId> {
    locals: Vec<LocalEvents<E, T>>,
}

/// What `shards` hold once the pair `(target, data)` has been appended to the
/// shard at place `idx`.
pub open spec fn appended<E, T>(shards: Seq<Seq<(T, E)>>, idx: int, target: T, data: E) -> Seq<
    Seq<(T, E)>,
> {
    shards.update(idx, shards[idx].push((target, data)))
}

/// What `shards` hold once the pair `(target, data)` has been routed by the
/// target's key: it is appended to the shard that the key belongs to.
pub open spec fn routed<E, T: ConsistentKey>(shards: Seq<Seq<(T, E)>>, target: T, data: E) -> Seq<
    Seq<(T, E)>,
> {
    appended(shards, shard_of(target.key_spec(), shards.len()) as int, target, data)
}

/// `shard_count` shards with nothing in them.
pub open spec fn no_events<E, T>(shard_count: nat) -> Seq<Seq<(T, E)>> {
    Seq::new(shard_count, |i: int| Seq::<(T, E)>::empty())
}

/// The number of pairs in all of `shards` together.
pub open spec fn total_len<E, T>(shards: Seq<Seq<(T, E)>>) -> nat
    decreases shards.len(),
{
    if shards.len() == 0 {
        0
    } else {
        total_len(shards.drop_last()) + shards.last().len()
    }
}

/// The results of a drain as plain rows: one row per shard, in the order of
/// the shards.
pub open spec fn rows<R>(out: Vec<Vec<R>>) -> Seq<Seq<R>> {
    Seq::new(out@.len(), |i: int| out@[i]@)
}

/// Whether `out` is what a drain of `shards` hands back when it delivers to
/// `process`: one row of results per shard, each row delivered on the worker
/// of its shard.
pub open spec fn drained_to<E, T, R, F: Fn(ThreadPinned<T>, E) -> R>(
    shards: Seq<Seq<(T, E)>>,
    process: F,
    out: Seq<Seq<R>>,
) -> bool {
    &&& out.len() == shards.len()
    &&& forall|i: int|
        #![trigger shards[i]]
        #![trigger out[i]]
        0 <= i < shards.len() ==> delivered(shards[i], i as usize, process, out[i])
}

/// Whether `res` is an outcome that a drain may have where `gate` is what was
/// settled before it, `untouched` saying whether the drain has left the shards
/// as they were.
///
/// A drain that may not start ends with the fault that stopped it, and
/// touches nothing. A drain that may start succeeds, unless the pool that
/// runs it does not have one worker per shard after all.
pub open spec fn drain_follows<R>(
    gate: Result<(), Fatal>,
    res: Result<Vec<Vec<R>>, Fatal>,
    untouched: bool,
) -> bool {
    match gate {
        Err(fault) => res == Err::<Vec<Vec<R>>, Fatal>(fault) && untouched,
        Ok(_) => res is Ok || res == Err::<Vec<Vec<R>>, Fatal>(Fatal::PoolMismatch),
    }
}

/// The first shards of a store hold no more pairs than all of them.
pub proof fn total_len_of_prefix<E, T>(shards: Seq<Seq<(T, E)>>, count: int)
    requires
        0 <= count <= shards.len(),
    ensures
        total_len(shards.take(count)) <= total_len(shards),
    decreases shards.len(),
{
    if count == shards.len() {
        assert(shards.take(count) =~= shards);
    } else {
        total_len_of_prefix(shards.drop_last(), count);
        assert(shards.drop_last().take(count) =~= shards.take(count));
    }
}

impl<E, T> TargetedEvents<E, T> {
    /// The shards, in the order of the workers that they belong to.
    pub closed spec fn shards(&self) -> Seq<LocalEvents<E, T>> {
        self.locals@
    }

    /// Every shard is well formed.
    pub open spec fn wf(&self) -> bool {
        forall|i: int| 0 <= i < self.shards().len() ==> (#[trigger] self.shards()[i]).wf()
    }

    /// The pairs held, shard by shard, oldest first within each shard.
    pub open spec fn view(&self) -> Seq<Seq<(T, E)>> {
        Seq::new(self.shards().len(), |i: int| self.shards()[i]@)
    }

    /// For each shard, the worker that has claimed it.
    pub open spec fn pins(&self) -> Seq<Option<usize>> {
        Seq::new(self.shards().len(), |i: int| self.shards()[i].pinned())
    }

    /// The number of shards.
    pub open spec fn shard_count(&self) -> nat {
        self.shards().len()
    }

    /// Whether every shard is empty and free.
    pub open spec fn is_fresh(&self) -> bool {
        forall|i: int| 0 <= i < self.shards().len() ==> (#[trigger] self.shards()[i]).is_fresh()
    }

    /// Whether some shard has been claimed by a worker other than the one it
    /// belongs to.
    pub open spec fn has_foreign_pin(&self) -> bool {
        exists|i: int| 0 <= i < self.shards().len() && !(#[trigger] self.shards()[i]).admits(i as usize)
    }

    /// A store with `shard_count` shards, all empty and free.
    #[must_use]
    pub fn with_shard_count(shard_count: usize) -> (store: Self)
        ensures
            store.wf(),
            store.is_fresh(),
            store.shard_count() == shard_count,
            store@ == no_events::<E, T>(shard_count as nat),
    {
        let mut locals: Vec<LocalEvents<E, T>> = Vec::new();
        let mut made: usize = 0;
        while made < shard_count
            invariant
                made <= shard_count,
                locals@.len() == made,
                forall|i: int| 0 <= i < locals@.len() ==> (#[trigger] locals@[i]).is_fresh(),
            decreases shard_count - made,
        {
            locals.push(LocalEvents::empty());
            made = made + 1;
        }
        let store = Self { locals };
        assert(store@ =~= no_events::<E, T>(shard_count as nat));
        store
    }

    /// A store with one shard for each worker that the thread pool has at this
    /// moment, all empty and free. A pool has a worker, so the store has a
    /// shard.
    #[must_use]
    pub fn new() -> (store: Self)
        ensures
            store.wf(),
            store.is_fresh(),
            store.shard_count() >= 1,
            store@ == no_events::<E, T>(store.shard_count()),
    {
        Self::with_shard_count(pool::current_num_threads())
    }

    /// Empties every shard and frees it from the worker that had claimed it.
    pub fn clear(&mut self)
        requires
            old(self).wf(),
        ensures
            final(self).wf(),
            final(self).is_fresh(),
            final(self).shard_count() == old(self).shard_count(),
            final(self)@ == no_events::<E, T>(old(self).shard_count()),
    {
        let count = self.locals.len();
        let mut idx: usize = 0;
        while idx < count
            invariant
                idx <= count,
                self.shards().len() == count,
                count == old(self).shards().len(),
                forall|i: int| 0 <= i < idx ==> (#[trigger] self.shards()[i]).is_fresh(),
                forall|i: int| idx <= i < count ==> (#[trigger] self.shards()[i]).wf(),
            decreases count - idx,
        {
            self.locals[idx].clear();
            idx = idx + 1;
        }
        assert(self@ =~= no_events::<E, T>(old(self).shard_count()));
    }

    /// The number of pairs held in all shards together. The store is left as
    /// it is.
    pub fn len(&mut self) -> (n: usize)
        requires
            old(self).wf(),
            total_len(old(self)@) <= usize::MAX,
        ensures
            n == total_len(old(self)@),
            final(self).shards() == old(self).shards(),
    {
        let count = self.locals.len();
        let mut sum: usize = 0;
        let mut idx: usize = 0;
        while idx < count
            invariant
                idx <= count,
                self.wf(),
                self.shards() == old(self).shards(),
                count == self.shards().len(),
                sum == total_len(self@.take(idx as int)),
                total_len(self@) <= usize::MAX,
            decreases count - idx,
        {
            proof {
                total_len_of_prefix(self@, idx + 1);
                assert(self@.take(idx + 1).drop_last() =~= self@.take(idx as int));
            }
            sum = sum + self.locals[idx].len();
            idx = idx + 1;
        }
        assert(self@.take(count as int) =~= self@);
        sum
    }

    /// Whether no shard holds a pair. The store is left as it is.
    pub fn is_empty(&mut self) -> (b: bool)
        requires
            old(self).wf(),
        ensures
            b == (forall|i: int| 0 <= i < old(self)@.len() ==> (#[trigger] old(self)@[i]).len() == 0),
            b == (total_len(old(self)@) == 0),
            final(self).shards() == old(self).shards(),
    {
        let count = self.locals.len();
        let mut idx: usize = 0;
        while idx < count
            invariant
                idx <= count,
                self.wf(),
                self.shards() == old(self).shards(),
                count == self.shards().len(),
                forall|i: int| 0 <= i < idx ==> (#[trigger] self@[i]).len() == 0,
            decreases count - idx,
        {
            if !self.locals[idx].is_empty() {
                proof {
                    assert(self@[idx as int].len() != 0);
                    total_len_counts_every_shard(self@, idx as int);
                }
                return false;
            }
            idx = idx + 1;
        }
        proof {
            total_len_of_empty_shards(self@);
        }
        true
    }

    /// The shards themselves, to be worked on one by one.
    pub fn get_mut_slice(&mut self) -> (slice: &mut [LocalEvents<E, T>])
        ensures
            slice@ == old(self).shards(),
            final(self).shards() == final(slice)@,
    {
        self.locals.as_mut_slice()
    }

    /// The shard at place `index`, if the store has that many.
    pub fn get_local(&self, index: usize) -> (res: Result<&LocalEvents<E, T>, Fatal>)
        ensures
            res is Ok <==> index < self.shard_count(),
            res matches Ok(shard) ==> *shard == self.shards()[index as int],
            res matches Err(fault) ==> fault == Fatal::PoolMismatch,
    {
        if index < self.locals.len() {
            Ok(&self.locals[index])
        } else {
            Err(Fatal::PoolMismatch)
        }
    }

    /// Routes the pair `(target, data)` to the shard of the target's key, given
    /// that the thread pool has `pool_size` workers.
    ///
    /// A pool of another size than the store was made for is a fault, and so
    /// is a store without shards; the store is then left as it is. Otherwise
    /// the pair goes behind those that its shard already holds, and nothing
    /// else changes.
    pub fn push_exclusive_among(&mut self, pool_size: usize, target: T, data: E) -> (res: Result<
        (),
        Fatal,
    >) where T: ConsistentKey
        requires
            old(self).wf(),
        ensures
            final(self).wf(),
            final(self).shard_count() == old(self).shard_count(),
            final(self).pins() == old(self).pins(),
            res is Ok <==> pool_size == old(self).shard_count() && pool_size > 0,
            res is Ok ==> final(self)@ == routed(old(self)@, target, data),
            res is Err ==> res == Err::<(), Fatal>(Fatal::PoolMismatch) && final(self).shards()
                == old(self).shards(),
    {
        let count = self.locals.len();
        if pool_size != count || count == 0 {
            return Err(Fatal::PoolMismatch);
        }
        let idx = shard_index(&target, count);
        assert(self.shards()[idx as int].wf());
        self.locals[idx].push(target, data);
        proof {
            assert(self@ =~= routed(old(self)@, target, data));
            assert(self.pins() =~= old(self).pins());
        }
        Ok(())
    }

    /// Routes the pair `(target, data)` to the shard of the target's key. Any
    /// thread may call this, in or out of the pool, as long as no worker is
    /// draining or pushing into the store at the same time.
    ///
    /// The size of the pool is asked of the pool at the moment of the call;
    /// what follows is `push_exclusive_among` with that size.
    pub fn push_exclusive(&mut self, target: T, data: E) -> (res: Result<(), Fatal>) where
        T: ConsistentKey,

        requires
            old(self).wf(),
        ensures
            final(self).wf(),
            final(self).shard_count() == old(self).shard_count(),
            final(self).pins() == old(self).pins(),
            old(self).shard_count() == 0 ==> res is Err,
            res is Ok ==> final(self)@ == routed(old(self)@, target, data),
            res is Err ==> res == Err::<(), Fatal>(Fatal::PoolMismatch) && final(self).shards()
                == old(self).shards(),
    {
        let pool_size = pool::current_num_threads();
        self.push_exclusive_among(pool_size, target, data)
    }

    /// Settles which shard a caller may use, given what the pool says of the
    /// calling thread: `index` is the thread's index among the workers, or
    /// nothing for a thread that is no worker.
    ///
    /// A worker gets its own index back if the store has a shard at that
    /// place. A thread that is no worker has no shard here, and a worker whose
    /// index is beyond the shards belongs to a pool of another size.
    pub fn resolve_worker(&self, index: Option<usize>) -> (res: Result<usize, Fatal>)
        ensures
            res == (match index {
                None => Err::<usize, Fatal>(Fatal::OutsidePool),
                Some(worker) => if worker < self.shard_count() {
                    Ok::<usize, Fatal>(worker)
                } else {
                    Err::<usize, Fatal>(Fatal::PoolMismatch)
                },
            }),
    {
        match index {
            None => Err(Fatal::OutsidePool),
            Some(worker) => {
                if worker < self.locals.len() {
                    Ok(worker)
                } else {
                    Err(Fatal::PoolMismatch)
                }
            },
        }
    }

    /// The index of the calling worker, which is also the place of its shard.
    ///
    /// The pool is asked for the index at the moment of the call; what follows
    /// is `resolve_worker` with its answer.
    pub fn current_worker(&self) -> (res: Result<usize, Fatal>)
        ensures
            res matches Ok(worker) ==> worker < self.shard_count(),
            res matches Err(fault) ==> fault == Fatal::OutsidePool || fault == Fatal::PoolMismatch,
    {
        self.resolve_worker(pool::current_thread_index())
    }

    /// Appends, on worker `worker`, an event for the target of `target`: the
    /// pair goes into the worker's own shard, whatever the target's key, and
    /// the shard is claimed for the worker.
    ///
    /// The push is refused, and the store left as it is, when the store has no
    /// shard for `worker`, when the handle was made on another worker, and
    /// when another worker has claimed the shard.
    pub fn push_shared_on(&mut self, worker: usize, target: ThreadPinned<T>, data: E) -> (res: Result<
        (),
        Fatal,
    >)
        requires
            old(self).wf(),
        ensures
            final(self).wf(),
            final(self).shard_count() == old(self).shard_count(),
            res is Ok <==> old(self).accepts(worker, target),
            res is Ok ==> final(self)@ == appended(
                old(self)@,
                worker as int,
                target.target(),
                data,
            ) && final(self).pins() == old(self).pins().update(worker as int, Some(worker)),
            res is Err ==> final(self).shards() == old(self).shards(),
            res matches Err(fault) ==> fault == (if worker >= old(self).shard_count() {
                Fatal::PoolMismatch
            } else {
                Fatal::WrongWorker
            }),
    {
        if worker >= self.locals.len() {
            return Err(Fatal::PoolMismatch);
        }
        assert(self.shards()[worker as int].wf());
        let res = self.locals[worker].push_pinned(worker, target, data);
        proof {
            if res is Ok {
                assert(self@ =~= appended(old(self)@, worker as int, target.target(), data));
                assert(self.pins() =~= old(self).pins().update(worker as int, Some(worker)));
            } else {
                assert(self.shards() =~= old(self).shards());
            }
        }
        res
    }

    /// Whether worker `worker` may push with the handle `target`: the store
    /// has a shard for the worker, the handle was made on that worker, and no
    /// other worker has claimed the shard.
    pub open spec fn accepts(&self, worker: usize, target: ThreadPinned<T>) -> bool {
        &&& worker < self.shard_count()
        &&& target.worker_spec() == worker
        &&& self.shards()[worker as int].admits(worker)
    }

    /// Appends an event for the target of `target` to the calling worker's
    /// own shard, whatever the target's key. Only a worker of the pool may
    /// call this, and only with a handle that was made on that same worker.
    ///
    /// The pool is asked which worker is calling; what follows is
    /// `push_shared_on` for that worker. So a push that succeeds is one by the
    /// worker that the handle was made on.
    pub fn push_shared(&mut self, target: ThreadPinned<T>, data: E) -> (res: Result<(), Fatal>)
        requires
            old(self).wf(),
        ensures
            final(self).wf(),
            final(self).shard_count() == old(self).shard_count(),
            !old(self).accepts(target.worker_spec(), target) ==> res is Err,
            res is Ok ==> final(self)@ == appended(
                old(self)@,
                target.worker_spec() as int,
                target.target(),
                data,
            ) && final(self).pins() == old(self).pins().update(
                target.worker_spec() as int,
                Some(target.worker_spec()),
            ),
            res is Err ==> final(self).shards() == old(self).shards(),
            exists|index: Option<usize>|
                res == #[trigger] old(self).shared_push_outcome(index, target),
    {
        let index = pool::current_thread_index();
        match self.resolve_worker(index) {
            Ok(worker) => {
                let res = self.push_shared_on(worker, target, data);
                proof {
                    match res {
                        Ok(done) => {
                            assert(done == ());
                        },
                        Err(fault) => {
                            assert(fault == Fatal::WrongWorker);
                        },
                    }
                    assert(res == old(self).shared_push_outcome(index, target));
                }
                res
            },
            Err(fault) => {
                assert(Err::<(), Fatal>(fault) == old(self).shared_push_outcome(index, target));
                Err(fault)
            },
        }
    }

    /// What a shared push with the handle `target` comes to, given what the
    /// pool says of the calling thread: `index` is the thread's index among
    /// the workers, or nothing for a thread that is no worker.
    ///
    /// A thread that is no worker is outside the pool. A worker whose index
    /// is beyond the shards belongs to a pool of another size. A worker that
    /// the store does not accept with this handle is the wrong worker. Any
    /// other worker succeeds.
    pub open spec fn shared_push_outcome(
        &self,
        index: Option<usize>,
        target: ThreadPinned<T>,
    ) -> Result<(), Fatal> {
        match index {
            None => Err(Fatal::OutsidePool),
            Some(worker) => if worker >= self.shard_count() {
                Err(Fatal::PoolMismatch)
            } else if self.accepts(worker, target) {
                Ok(())
            } else {
                Err(Fatal::WrongWorker)
            },
        }
    }

    /// Looks for a shard that has been claimed by a worker other than the one
    /// it belongs to.
    pub fn check_pins(&self) -> (b: bool)
        ensures
            b == self.has_foreign_pin(),
    {
        let count = self.locals.len();
        let mut idx: usize = 0;
        while idx < count
            invariant
                idx <= count,
                count == self.shards().len(),
                forall|i: int| 0 <= i < idx ==> (#[trigger] self.shards()[i]).admits(i as usize),
            decreases count - idx,
        {
            match self.locals[idx].pinned_worker() {
                None => {},
                Some(owner) => {
                    if owner != idx {
                        assert(!self.shards()[idx as int].admits(idx));
                        return true;
                    }
                },
            }
            idx = idx + 1;
        }
        false
    }

    /// Whether a drain may start, given what the pool says of the calling
    /// thread and of itself: `index` is the thread's index among the workers,
    /// or nothing for a thread that is no worker, and `pool_size` is the
    /// number of workers.
    ///
    /// A shard in the hands of a worker other than its own stops the drain
    /// whoever calls. Otherwise a caller that is no worker is outside the
    /// pool, and a pool that does not have one worker per shard is of the
    /// wrong size. The drain may start in every other case.
    pub open spec fn drain_gate(&self, index: Option<usize>, pool_size: usize) -> Result<(), Fatal> {
        if self.has_foreign_pin() {
            Err(Fatal::WrongWorker)
        } else if index is None {
            Err(Fatal::OutsidePool)
        } else if pool_size != self.shard_count() {
            Err(Fatal::PoolMismatch)
        } else {
            Ok(())
        }
    }

    /// Settles whether a drain may start, given what the pool says of the
    /// calling thread and of itself: the answer is `drain_gate`.
    pub fn admit_drain(&self, index: Option<usize>, pool_size: usize) -> (res: Result<(), Fatal>)
        ensures
            res == self.drain_gate(index, pool_size),
    {
        if self.check_pins() {
            return Err(Fatal::WrongWorker);
        }
        if index.is_none() {
            return Err(Fatal::OutsidePool);
        }
        if pool_size != self.locals.len() {
            return Err(Fatal::PoolMismatch);
        }
        Ok(())
    }

    /// Whether `process` may be called on every pair held, each on the worker
    /// that its shard belongs to.
    pub open spec fn deliverable_to<R, F: Fn(ThreadPinned<T>, E) -> R>(&self, process: F) -> bool {
        forall|i: int|
            0 <= i < self@.len() ==> deliverable(#[trigger] self@[i], i as usize, process)
    }

    /// Delivers every pair held to `process`, each shard on the worker of the
    /// pool that it belongs to and all shards at the same time, and waits for
    /// all of them. Only a worker of the pool may call this.
    ///
    /// Within a shard the pairs are delivered oldest first, each with a handle
    /// for its target made on the delivering worker. What `process` returns is
    /// handed back, shard by shard and in the order of delivery: every pair
    /// that was held has exactly one result, at the place that the pair had.
    /// Afterwards every shard is empty and free.
    ///
    /// The pool is asked which worker is calling and how many workers it
    /// has; `admit_drain` settles from the two answers whether the drain may
    /// start. Where it may not, nothing is delivered and the store is left as
    /// it is: when a shard has been claimed by a worker other than its own,
    /// when the caller is no worker, and when the pool does not have one
    /// worker per shard. A store without shards is never drained, since a
    /// pool has a worker.
    pub fn drain_par<R, F>(&mut self, process: F) -> (res: Result<Vec<Vec<R>>, Fatal>) where
        E: Send,
        T: Send,
        R: Send,
        F: Fn(ThreadPinned<T>, E) -> R + Sync,

        requires
            old(self).wf(),
            old(self).deliverable_to(process),
        ensures
            final(self).wf(),
            final(self).shard_count() == old(self).shard_count(),
            old(self).has_foreign_pin() ==> res == Err::<Vec<Vec<R>>, Fatal>(Fatal::WrongWorker)
                && final(self).shards() == old(self).shards(),
            res matches Ok(out) ==> {
                &&& final(self).is_fresh()
                &&& final(self)@ == no_events::<E, T>(old(self).shard_count())
                &&& drained_to(old(self)@, process, rows(out))
            },
            res is Err ==> forall|i: int|
                0 <= i < old(self).shard_count() ==> (#[trigger] final(self).shards()[i])
                    == old(self).shards()[i] || final(self).shards()[i].is_fresh(),
            res matches Err(fault) ==> (fault == Fatal::WrongWorker <==> old(self).has_foreign_pin()),
            res matches Err(fault) ==> fault == Fatal::PoolMismatch || final(self).shards() == old(
                self,
            ).shards(),
            old(self).shard_count() == 0 ==> res is Err,
            exists|index: Option<usize>, pool_size: usize|
                pool_size >= 1 && drain_follows(
                    #[trigger] old(self).drain_gate(index, pool_size),
                    res,
                    final(self).shards() == old(self).shards(),
                ),
    {
        let index = pool::current_thread_index();
        let pool_size = pool::current_num_threads();
        let count = self.locals.len();
        match self.admit_drain(index, pool_size) {
            Err(fault) => {
                assert(drain_follows(
                    old(self).drain_gate(index, pool_size),
                    Err::<Vec<Vec<R>>, Fatal>(fault),
                    true,
                ));
                return Err(fault);
            },
            Ok(()) => {},
        }
        proof {
            assert forall|i: int| 0 <= i < self.shards().len() implies (#[trigger] self.shards()[i]).wf()
                && deliverable(self.shards()[i]@, i as usize, process) by {
                assert(self@[i] == self.shards()[i]@);
            }
        }
        let answers = pool::broadcast_drain(&mut self.locals, &process);
        let res = gather(answers, count);
        proof {
            assert forall|i: int| 0 <= i < answers@.len() implies !(#[trigger] answers@[i] matches Some(
                Err(_),
            )) by {
                if i < old(self).shards().len() {
                    assert(old(self).shards()[i].admits(i as usize));
                }
            }
            no_fault_without_a_faulty_answer(answers@);
            assert forall|i: int| 0 <= i < old(self).shard_count() implies (
            #[trigger] self.shards()[i]) == old(self).shards()[i] || self.shards()[i].is_fresh() by {
                if i < answers@.len() {
                    assert(answers@[i] is Some);
                }
            }
            if res is Ok {
                let out = res->Ok_0;
                assert forall|i: int| 0 <= i < old(self)@.len() implies delivered(
                    #[trigger] old(self)@[i],
                    i as usize,
                    process,
                    rows(out)[i],
                ) by {
                    assert(answers@[i] == Some(Ok::<Vec<R>, Fatal>(out@[i])));
                    assert(old(self)@[i] == old(self).shards()[i]@);
                }
                assert forall|i: int| 0 <= i < self.shards().len() implies (
                #[trigger] self.shards()[i]).is_fresh() by {
                    assert(answers@[i] == Some(Ok::<Vec<R>, Fatal>(out@[i])));
                }
                assert(self@ =~= no_events::<E, T>(old(self).shard_count()));
            }
            assert(drain_follows(
                old(self).drain_gate(index, pool_size),
                res,
                self.shards() == old(self).shards(),
            ));
        }
        res
    }
}

/// The fault of the first answer, in the order of the workers, that is a
/// fault; nothing if no answer is one.
pub open spec fn first_fault<R>(answers: Seq<Option<Result<Vec<R>, Fatal>>>) -> Option<Fatal>
    decreases answers.len(),
{
    if answers.len() == 0 {
        None
    } else {
        match first_fault(answers.drop_last()) {
            Some(fault) => Some(fault),
            None => match answers.last() {
                Some(Err(fault)) => Some(fault),
                _ => None,
            },
        }
    }
}

/// Where no answer is a fault there is no first fault.
pub proof fn no_fault_without_a_faulty_answer<R>(answers: Seq<Option<Result<Vec<R>, Fatal>>>)
    requires
        forall|i: int| 0 <= i < answers.len() ==> !(#[trigger] answers[i] matches Some(Err(_))),
    ensures
        first_fault(answers) is None,
    decreases answers.len(),
{
    if answers.len() > 0 {
        no_fault_without_a_faulty_answer(answers.drop_last());
        assert(!(answers[answers.len() - 1] matches Some(Err(_))));
    }
}

/// Whether the pool's workers answered for every one of `shard_count`
/// shards, and each with results.
pub open spec fn all_answered<R>(
    answers: Seq<Option<Result<Vec<R>, Fatal>>>,
    shard_count: nat,
) -> bool {
    &&& answers.len() == shard_count
    &&& forall|i: int| 0 <= i < answers.len() ==> (#[trigger] answers[i] matches Some(Ok(_)))
}

/// Puts together what the workers of the pool answered to a drain, one answer
/// per worker and in the order of their indices, for a store of `shard_count`
/// shards.
///
/// Where there is one answer per shard and each holds results, these are the
/// results of the drain, shard by shard. Otherwise the drain has failed: with
/// the first fault that a worker met, or, where no worker met one, because the
/// pool does not have one worker per shard.
pub fn gather<R>(answers: Vec<Option<Result<Vec<R>, Fatal>>>, shard_count: usize) -> (res: Result<
    Vec<Vec<R>>,
    Fatal,
>)
    ensures
        res is Ok <==> all_answered(answers@, shard_count as nat),
        res matches Ok(out) ==> out@.len() == answers@.len() && forall|i: int|
            0 <= i < answers@.len() ==> #[trigger] answers@[i] == Some(
                Ok::<Vec<R>, Fatal>(out@[i]),
            ),
        res matches Err(fault) ==> fault == (match first_fault(answers@) {
            Some(first) => first,
            None => Fatal::PoolMismatch,
        }),
{
    let count = answers.len();
    let mut out: Vec<Vec<R>> = Vec::new();
    let mut failed: Option<Fatal> = None;
    let mut missing: bool = false;
    for answer in it: answers
        invariant
            failed == first_fault(answers@.take(it.index())),
            missing || failed is Some <==> exists|i: int|
                0 <= i < it.index() && !(#[trigger] answers@[i] matches Some(Ok(_))),
            !missing && failed is None ==> out@.len() == it.index() && forall|i: int|
                0 <= i < it.index() ==> #[trigger] answers@[i] == Some(
                    Ok::<Vec<R>, Fatal>(out@[i]),
                ),
    {
        proof {
            assert(answers@.take(it.index() + 1).drop_last() =~= answers@.take(it.index()));
        }
        match answer {
            Some(Ok(results)) => {
                if !missing && failed.is_none() {
                    out.push(results);
                }
            },
            Some(Err(fault)) => {
                if failed.is_none() {
                    failed = Some(fault);
                }
            },
            None => {
                missing = true;
            },
        }
    }
    proof {
        assert(answers@.take(answers@.len() as int) =~= answers@);
    }
    match failed {
        Some(fault) => Err(fault),
        None => {
            if missing || count != shard_count {
                Err(Fatal::PoolMismatch)
            } else {
                Ok(out)
            }
        },
    }
}

/// A store holds at least as many pairs as any one of its shards.
pub proof fn total_len_counts_every_shard<E, T>(shards: Seq<Seq<(T, E)>>, idx: int)
    requires
        0 <= idx < shards.len(),
    ensures
        shards[idx].len() <= total_len(shards),
    decreases shards.len(),
{
    if idx < shards.len() - 1 {
        total_len_counts_every_shard(shards.drop_last(), idx);
    }
}

/// A store whose shards are all empty holds no pair.
pub proof fn total_len_of_empty_shards<E, T>(shards: Seq<Seq<(T, E)>>)
    requires
        forall|i: int| 0 <= i < shards.len() ==> (#[trigger] shards[i]).len() == 0,
    ensures
        total_len(shards) == 0,
    decreases shards.len(),
{
    if shards.len() > 0 {
        total_len_of_empty_shards(shards.drop_last());
    }
}

impl<E, T> Default for TargetedEvents<E, T> {
    fn default() -> (store: Self)
        ensures
            store.wf(),
            store.is_fresh(),
            store.shard_count() >= 1,
            store@ == no_events::<E, T>(store.shard_count()),
    {
        Self::new()
    }
}

} // verus!
