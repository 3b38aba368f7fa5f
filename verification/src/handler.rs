use vstd::prelude::*;
use crate::entity::EntityId;
use crate::events::{appended, drain_follows, no_events, routed, TargetedEvents};
use crate::fatal::Fatal;
use crate::key::ConsistentKey;
use crate::pinned::ThreadPinned;

verus! {

/// Whether an event for the target of `target` may be joined: `query` may be
/// asked for the target, and `process` may be called with whatever item
/// `query` can answer.
pub open spec fn joinable<E, T, I, R, Q: Fn(&T) -> Option<I>, F: Fn(ThreadPinned<T>, E, I) -> R>(
    query: &Q,
    process: &F,
    target: ThreadPinned<T>,
    data: E,
) -> bool {
    &&& call_requires(*query, (&target.target(),))
    &&& forall|item: I|
        call_ensures(*query, (&target.target(),), Some(item)) ==> call_requires(
            *process,
            (target, data, item),
        )
}

/// Whether `result` is what joining one event gives: where `query` has an
/// item for the target, what `process` returns for the event and that item;
/// where `query` has none, nothing.
pub open spec fn joined<E, T, I, R, Q: Fn(&T) -> Option<I>, F: Fn(ThreadPinned<T>, E, I) -> R>(
    query: &Q,
    process: &F,
    target: ThreadPinned<T>,
    data: E,
    result: Option<R>,
) -> bool {
    match result {
        Some(value) => exists|item: I|
            call_ensures(*query, (&target.target(),), Some(item)) && call_ensures(
                *process,
                (target, data, item),
                value,
            ),
        None => call_ensures(*query, (&target.target(),), None::<I>),
    }
}

/// Joins one delivered event with the item that `query` holds for its
/// target, and hands both to `process`. An event whose target has no item is
/// dropped: `process` is not called, and there is no result.
pub fn join<E, T, I, R, Q: Fn(&T) -> Option<I>, F: Fn(ThreadPinned<T>, E, I) -> R>(
    query: &Q,
    process: &F,
    target: ThreadPinned<T>,
    data: E,
) -> (result: Option<R>)
    requires
        joinable(query, process, target, data),
    ensures
        joined(query, process, target, data, result),
{
    match query(target.inner()) {
        Some(item) => Some(process(target, data, item)),
        None => None,
    }
}

/// The right to drain a store that is owned elsewhere, together with a
/// source that holds at most one item for each target. Every event delivered
/// is joined with the item of its target.
pub struct TargetedReader<'a, E, Q, T = EntityId> {
    /// The store drained.
    pub events: &'a mut TargetedEvents<E, T>,
    /// The source of the items: asked for a target, it answers with the
    /// target's item or with nothing.
    pub query: Q,
}

impl<'a, E, Q, T> TargetedReader<'a, E, Q, T> {
    /// A reader that drains `events` and looks targets up in `query`.
    pub fn new(events: &'a mut TargetedEvents<E, T>, query: Q) -> (reader: Self)
        ensures
            *reader.events == *old(events),
            reader.query == query,
            *final(events) == *final(reader.events),
    {
        Self { events, query }
    }

    /// Whether every pair held may be joined, each on the worker that its
    /// shard belongs to.
    pub open spec fn joinable_with<I, R, F: Fn(ThreadPinned<T>, E, I) -> R>(&self, process: F) -> bool where
        Q: Fn(&T) -> Option<I>,
     {
        forall|i: int, j: int|
            0 <= i < self.events@.len() && 0 <= j < self.events@[i].len() ==> joinable(
                &self.query,
                &process,
                ThreadPinned::minted((#[trigger] self.events@[i][j]).0, i as usize),
                self.events@[i][j].1,
            )
    }

    /// Drains the store as `TargetedEvents::drain_par` does, and joins every
    /// event delivered with the item that the source holds for its target.
    ///
    /// Every pair that was held has one result, at the place that the pair
    /// had: what `process` returned for the event and the item, or nothing
    /// where the source had no item for the target and the event was dropped.
    /// A drain that may not start, as `TargetedEvents::drain_gate` says, asks
    /// the source nothing and leaves the store as it is. The reader goes on
    /// lending the store that it lent before.
    pub fn drain_par<I, R, F>(&mut self, process: F) -> (res: Result<Vec<Vec<Option<R>>>, Fatal>) where
        E: Send,
        T: Send,
        R: Send,
        Q: Fn(&T) -> Option<I> + Sync,
        F: Fn(ThreadPinned<T>, E, I) -> R + Sync,

        requires
            old(self).events.wf(),
            old(self).joinable_with(process),
        ensures
            final(self).events.wf(),
            final(self).events.shard_count() == old(self).events.shard_count(),
            final(self).query == old(self).query,
            *final(final(self).events) == *final(old(self).events),
            old(self).events.has_foreign_pin() ==> res == Err::<Vec<Vec<Option<R>>>, Fatal>(
                Fatal::WrongWorker,
            ) && final(self).events.shards() == old(self).events.shards(),
            res matches Ok(out) ==> {
                &&& final(self).events.is_fresh()
                &&& final(self).events@ == no_events::<E, T>(old(self).events.shard_count())
                &&& out@.len() == old(self).events.shard_count()
                &&& forall|i: int|
                    0 <= i < out@.len() ==> (#[trigger] out@[i])@.len() == old(self).events@[i].len()
                &&& forall|i: int, j: int|
                    0 <= i < out@.len() && 0 <= j < out@[i]@.len() ==> joined(
                        &old(self).query,
                        &process,
                        ThreadPinned::minted(old(self).events@[i][j].0, i as usize),
                        old(self).events@[i][j].1,
                        #[trigger] out@[i]@[j],
                    )
            },
            res is Err ==> forall|i: int|
                0 <= i < old(self).events.shard_count() ==> (#[trigger] final(self).events.shards()[i])
                    == old(self).events.shards()[i] || final(self).events.shards()[i].is_fresh(),
            res matches Err(fault) ==> (fault == Fatal::WrongWorker <==> old(self).events.has_foreign_pin()),
            res matches Err(fault) ==> fault == Fatal::PoolMismatch || final(self).events.shards()
                == old(self).events.shards(),
            old(self).events.shard_count() == 0 ==> res is Err,
            exists|index: Option<usize>, pool_size: usize|
                pool_size >= 1 && drain_follows(
                    #[trigger] old(self).events.drain_gate(index, pool_size),
                    res,
                    final(self).events.shards() == old(self).events.shards(),
                ),
    {
        let query = &self.query;
        let each = |target: ThreadPinned<T>, data: E| -> (result: Option<R>)
            requires
                joinable(query, &process, target, data),
            ensures
                joined(query, &process, target, data, result),
            { join(query, &process, target, data) };
        self.events.drain_par(each)
    }
}

/// The right to add events to a store that is owned elsewhere.
pub struct TargetedWriter<'a, E, T = EntityId> {
    /// The store written to.
    pub events: &'a mut TargetedEvents<E, T>,
}

impl<'a, E, T> TargetedWriter<'a, E, T> {
    /// A writer for `events`.
    pub fn new(events: &'a mut TargetedEvents<E, T>) -> (writer: Self)
        ensures
            *writer.events == *old(events),
            *final(events) == *final(writer.events),
    {
        Self { events }
    }

    /// Routes the pair `(target, data)` to the shard of the target's key, as
    /// `TargetedEvents::push_exclusive` does. The writer goes on lending the
    /// store that it lent before.
    pub fn push_exclusive(&mut self, target: T, data: E) -> (res: Result<(), Fatal>) where
        T: ConsistentKey,

        requires
            old(self).events.wf(),
        ensures
            final(self).events.wf(),
            final(self).events.shard_count() == old(self).events.shard_count(),
            final(self).events.pins() == old(self).events.pins(),
            *final(final(self).events) == *final(old(self).events),
            old(self).events.shard_count() == 0 ==> res is Err,
            res is Ok ==> final(self).events@ == routed(old(self).events@, target, data),
            res is Err ==> res == Err::<(), Fatal>(Fatal::PoolMismatch),
            res is Err ==> final(self).events.shards() == old(self).events.shards(),
    {
        self.events.push_exclusive(target, data)
    }

    /// Appends an event for the target of `target` to the calling worker's
    /// own shard, as `TargetedEvents::push_shared` does. The writer goes on
    /// lending the store that it lent before.
    pub fn push_shared(&mut self, target: ThreadPinned<T>, data: E) -> (res: Result<(), Fatal>)
        requires
            old(self).events.wf(),
        ensures
            final(self).events.wf(),
            final(self).events.shard_count() == old(self).events.shard_count(),
            *final(final(self).events) == *final(old(self).events),
            !old(self).events.accepts(target.worker_spec(), target) ==> res is Err,
            res is Ok ==> final(self).events@ == appended(
                old(self).events@,
                target.worker_spec() as int,
                target.target(),
                data,
            ) && final(self).events.pins() == old(self).events.pins().update(
                target.worker_spec() as int,
                Some(target.worker_spec()),
            ),
            res is Err ==> final(self).events.shards() == old(self).events.shards(),
            exists|index: Option<usize>|
                res == #[trigger] old(self).events.shared_push_outcome(index, target),
    {
        self.events.push_shared(target, data)
    }
}

} // verus!
