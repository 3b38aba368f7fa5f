use vstd::prelude::*;
use std::sync::Mutex;
use crate::fatal::Fatal;
use crate::local::{deliverable, drained, LocalEvents};
use crate::pinned::ThreadPinned;

verus! {

/// Calls `rayon::current_num_threads`: the number of workers in the pool that
/// the calling thread belongs to, or in the global pool for a thread that
/// belongs to none.
///
/// The contract claims that a pool has at least one worker. Rayon builds
/// every pool, the global one too, with the number of threads that its
/// builder settles on, and the builder settles on the number it was given if
/// that is above zero, and otherwise on what the environment or the machine
/// says, which is never zero. Nothing else is claimed of the number.
#[verifier::external_body]
pub(crate) fn current_num_threads() -> (count: usize)
    ensures
        count >= 1,
{
    rayon::current_num_threads()
}

/// Calls `rayon::current_thread_index`: the index of the calling thread among
/// the workers of its pool, or nothing for a thread that is no worker.
/// Nothing is claimed of the answer.
#[verifier::external_body]
pub(crate) fn current_thread_index() -> (index: Option<usize>) {
    rayon::current_thread_index()
}

/// Calls `rayon::broadcast`, which runs its closure once on every worker of
/// the current pool, waits for all of them, and returns what the closure gave,
/// in the order of the workers' indices. The closure here has worker `i` run
/// `LocalEvents::drain_with` on the shard at place `i`, and give nothing where
/// there is no such shard.
///
/// The contract claims this of `rayon::broadcast`: the answers are those of
/// the workers `0`, `1`, ... up to the size of the pool, whatever that is; each
/// shard whose place is below that size has been through exactly one drain, by
/// the worker of that index, and its answer is that drain's; every other shard
/// is untouched, and a worker without a shard answers with nothing.
#[verifier::external_body]
pub(crate) fn broadcast_drain<E, T, R, F>(locals: &mut Vec<LocalEvents<E, T>>, process: &F) -> (out:
    Vec<Option<Result<Vec<R>, Fatal>>>) where
    E: Send,
    T: Send,
    R: Send,
    F: Fn(ThreadPinned<T>, E) -> R + Sync,

    requires
        forall|i: int|
            0 <= i < old(locals)@.len() ==> (#[trigger] old(locals)@[i]).wf() && deliverable(
                old(locals)@[i]@,
                i as usize,
                *process,
            ),
    ensures
        final(locals)@.len() == old(locals)@.len(),
        forall|i: int|
            0 <= i < old(locals)@.len() && i < out@.len() ==> (#[trigger] out@[i] matches Some(res)
                && drained(old(locals)@[i], i as usize, *process, final(locals)@[i], res)),
        forall|i: int|
            out@.len() <= i < old(locals)@.len() ==> #[trigger] final(locals)@[i]
                == old(locals)@[i],
        forall|i: int| old(locals)@.len() <= i < out@.len() ==> #[trigger] out@[i] is None,
{
    let slots: Vec<Mutex<&mut LocalEvents<E, T>>> = locals.iter_mut().map(Mutex::new).collect();
    rayon::broadcast(
        |ctx|
            slots.get(ctx.index()).map(
                |slot| slot.lock().unwrap().drain_with(ctx.index(), process),
            ),
    )
}

} // verus!
