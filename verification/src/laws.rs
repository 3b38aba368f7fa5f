use vstd::prelude::*;
use vstd::multiset::Multiset;
use vstd::seq_lib::to_multiset_build;
use crate::events::{appended, drained_to, no_events, routed, total_len, TargetedEvents};
use crate::fatal::Fatal;
use crate::key::{shard_of, ConsistentKey};
use crate::local::delivered;
use crate::pinned::ThreadPinned;

verus! {

/// The shard that the key of `pair`'s target belongs to among `shard_count`
/// shards.
pub open spec fn key_shard<E, T: ConsistentKey>(pair: (T, E), shard_count: nat) -> nat {
    shard_of(pair.0.key_spec(), shard_count)
}

/// What `shards` hold once all of `items` have been routed by key, one after
/// another and the first one first.
pub open spec fn routed_all<E, T: ConsistentKey>(
    shards: Seq<Seq<(T, E)>>,
    items: Seq<(T, E)>,
) -> Seq<Seq<(T, E)>>
    decreases items.len(),
{
    if items.len() == 0 {
        shards
    } else {
        routed(routed_all(shards, items.drop_last()), items.last().0, items.last().1)
    }
}

/// How many of `items` have a key that belongs to shard `shard`.
pub open spec fn count_for_shard<E, T: ConsistentKey>(
    items: Seq<(T, E)>,
    shard_count: nat,
    shard: nat,
) -> nat
    decreases items.len(),
{
    if items.len() == 0 {
        0
    } else {
        count_for_shard(items.drop_last(), shard_count, shard) + if key_shard(
            items.last(),
            shard_count,
        ) == shard {
            1nat
        } else {
            0nat
        }
    }
}

/// The place that the pair at `at` takes within its shard: the number of
/// pairs before it in `items` that go to the same shard.
pub open spec fn place_of<E, T: ConsistentKey>(items: Seq<(T, E)>, shard_count: nat, at: int) -> nat {
    count_for_shard(items.take(at), shard_count, key_shard(items[at], shard_count))
}

/// Every pair that `shards` hold, as often as it is held, with no regard to
/// where.
pub open spec fn all_pairs<E, T>(shards: Seq<Seq<(T, E)>>) -> Multiset<(T, E)>
    decreases shards.len(),
{
    if shards.len() == 0 {
        Multiset::empty()
    } else {
        all_pairs(shards.drop_last()).add(shards.last().to_multiset())
    }
}

proof fn count_grows_with_items<E, T: ConsistentKey>(
    items: Seq<(T, E)>,
    shard_count: nat,
    shard: nat,
    shorter: int,
    longer: int,
)
    requires
        0 <= shorter <= longer <= items.len(),
    ensures
        count_for_shard(items.take(shorter), shard_count, shard) <= count_for_shard(
            items.take(longer),
            shard_count,
            shard,
        ),
    decreases longer - shorter,
{
    if shorter < longer {
        count_grows_with_items(items, shard_count, shard, shorter, longer - 1);
        assert(items.take(longer).drop_last() =~= items.take(longer - 1));
    }
}

proof fn place_is_below_later_counts<E, T: ConsistentKey>(
    items: Seq<(T, E)>,
    shard_count: nat,
    at: int,
    longer: int,
)
    requires
        0 <= at < longer <= items.len(),
    ensures
        place_of(items, shard_count, at) < count_for_shard(
            items.take(longer),
            shard_count,
            key_shard(items[at], shard_count),
        ),
{
    let shard = key_shard(items[at], shard_count);
    assert(items.take(at + 1).drop_last() =~= items.take(at));
    assert(items.take(at + 1).last() == items[at]);
    count_grows_with_items(items, shard_count, shard, at + 1, longer);
}

proof fn appended_adds_one_pair<E, T>(shards: Seq<Seq<(T, E)>>, idx: int, target: T, data: E)
    requires
        0 <= idx < shards.len(),
    ensures
        all_pairs(appended(shards, idx, target, data)) == all_pairs(shards).insert((target, data)),
    decreases shards.len(),
{
    let after = appended(shards, idx, target, data);
    if idx == shards.len() - 1 {
        assert(after.drop_last() =~= shards.drop_last());
        assert(after.last() == shards.last().push((target, data)));
        to_multiset_build(shards.last(), (target, data));
        assert(all_pairs(after) =~= all_pairs(shards).insert((target, data)));
    } else {
        appended_adds_one_pair(shards.drop_last(), idx, target, data);
        assert(after.drop_last() =~= appended(shards.drop_last(), idx, target, data));
        assert(after.last() == shards.last());
        assert(all_pairs(after) =~= all_pairs(shards).insert((target, data)));
    }
}

proof fn no_events_hold_no_pair<E, T>(shard_count: nat)
    ensures
        all_pairs(no_events::<E, T>(shard_count)) == Multiset::<(T, E)>::empty(),
        total_len(no_events::<E, T>(shard_count)) == 0,
    decreases shard_count,
{
    if shard_count > 0 {
        no_events_hold_no_pair::<E, T>((shard_count - 1) as nat);
        assert(no_events::<E, T>(shard_count).drop_last() =~= no_events::<E, T>(
            (shard_count - 1) as nat,
        ));
        assert(no_events::<E, T>(shard_count).last().to_multiset() =~= Multiset::<(T, E)>::empty())
            by {
            broadcast use vstd::seq_lib::group_to_multiset_ensures;
            assert(no_events::<E, T>(shard_count).last().to_multiset().len() == 0);
        }
        assert(all_pairs(no_events::<E, T>(shard_count)) =~= Multiset::<(T, E)>::empty());
    }
}

/// Partition: pushed into an empty store of `shard_count` shards, every pair
/// ends up in the shard that its target's key belongs to, and in no other.
///
/// The store keeps its number of shards. Shard `s` holds as many pairs as
/// were pushed with a key of shard `s`, and every pair it holds has such a
/// key. The pair pushed at `at` stands in the shard of its key, at the place
/// that counts the pairs pushed before it into that shard. Which shard that
/// is depends on the key and the number of shards alone, so two pushes of one
/// key always meet in one shard.
pub proof fn pushes_are_partitioned_by_key<E, T: ConsistentKey>(
    shard_count: nat,
    items: Seq<(T, E)>,
)
    requires
        shard_count > 0,
    ensures
        routed_all(no_events(shard_count), items).len() == shard_count,
        forall|s: int|
            0 <= s < shard_count ==> (#[trigger] routed_all(no_events(shard_count), items)[s]).len()
                == count_for_shard(items, shard_count, s as nat),
        forall|s: int, j: int|
            0 <= s < shard_count && 0 <= j < routed_all(no_events(shard_count), items)[s].len()
                ==> key_shard(#[trigger] routed_all(no_events(shard_count), items)[s][j], shard_count)
                == s,
        forall|at: int|
            0 <= at < items.len() ==> {
                &&& key_shard(#[trigger] items[at], shard_count) < shard_count
                &&& place_of(items, shard_count, at) < routed_all(
                    no_events(shard_count),
                    items,
                )[key_shard(items[at], shard_count) as int].len()
                &&& routed_all(no_events(shard_count), items)[key_shard(
                    items[at],
                    shard_count,
                ) as int][place_of(items, shard_count, at) as int] == items[at]
            },
        forall|a: int, b: int|
            0 <= a < items.len() && 0 <= b < items.len() && (#[trigger] items[a]).0.key_spec() == (
            #[trigger] items[b]).0.key_spec() ==> key_shard(items[a], shard_count) == key_shard(
                items[b],
                shard_count,
            ),
    decreases items.len(),
{
    let empty = no_events::<E, T>(shard_count);
    let after = routed_all(empty, items);
    if items.len() > 0 {
        let earlier = items.drop_last();
        let before = routed_all(empty, earlier);
        let last = items.last();
        let home = key_shard(last, shard_count);
        pushes_are_partitioned_by_key(shard_count, earlier);
        assert(home < shard_count) by (nonlinear_arith)
            requires
                home == (last.0.key_spec() as nat) % shard_count,
                shard_count > 0,
        ;
        assert(after == appended(before, home as int, last.0, last.1));
        assert forall|at: int| 0 <= at < items.len() implies {
            &&& key_shard(#[trigger] items[at], shard_count) < shard_count
            &&& place_of(items, shard_count, at) < after[key_shard(
                items[at],
                shard_count,
            ) as int].len()
            &&& after[key_shard(items[at], shard_count) as int][place_of(
                items,
                shard_count,
                at,
            ) as int] == items[at]
        } by {
            if at < items.len() - 1 {
                assert(items[at] == earlier[at]);
                assert(items.take(at) =~= earlier.take(at));
            } else {
                assert(items.take(at) =~= earlier);
            }
        }
    } else {
        assert(after == empty);
    }
}

/// Exactly once: pushed into an empty store of `shard_count` shards, the
/// pairs that the store then holds are, counted with their repeats, the pairs
/// that were pushed. A drain delivers each pair held once, so what it delivers
/// is what was pushed: none left out, none twice.
pub proof fn pushes_are_held_exactly_once<E, T: ConsistentKey>(
    shard_count: nat,
    items: Seq<(T, E)>,
)
    requires
        shard_count > 0,
    ensures
        all_pairs(routed_all(no_events(shard_count), items)) == items.to_multiset(),
        total_len(routed_all(no_events(shard_count), items)) == items.len(),
    decreases items.len(),
{
    let empty = no_events::<E, T>(shard_count);
    if items.len() > 0 {
        let earlier = items.drop_last();
        let before = routed_all(empty, earlier);
        let last = items.last();
        let home = key_shard(last, shard_count);
        pushes_are_held_exactly_once(shard_count, earlier);
        pushes_are_partitioned_by_key(shard_count, earlier);
        assert(home < shard_count) by (nonlinear_arith)
            requires
                home == (last.0.key_spec() as nat) % shard_count,
                shard_count > 0,
        ;
        appended_adds_one_pair(before, home as int, last.0, last.1);
        appended_adds_one_to_total(before, home as int, last.0, last.1);
        to_multiset_build(earlier, last);
        assert(earlier.push(last) =~= items);
    } else {
        no_events_hold_no_pair::<E, T>(shard_count);
        assert(items.to_multiset() =~= Multiset::<(T, E)>::empty()) by {
            broadcast use vstd::seq_lib::group_to_multiset_ensures;
            assert(items.to_multiset().len() == 0);
        }
    }
}

proof fn appended_adds_one_to_total<E, T>(shards: Seq<Seq<(T, E)>>, idx: int, target: T, data: E)
    requires
        0 <= idx < shards.len(),
    ensures
        total_len(appended(shards, idx, target, data)) == total_len(shards) + 1,
    decreases shards.len(),
{
    let after = appended(shards, idx, target, data);
    if idx == shards.len() - 1 {
        assert(after.drop_last() =~= shards.drop_last());
    } else {
        appended_adds_one_to_total(shards.drop_last(), idx, target, data);
        assert(after.drop_last() =~= appended(shards.drop_last(), idx, target, data));
    }
}

/// Whether `process` reports what it is called with: whatever it returns is
/// the target of the handle and the event that it was given.
pub open spec fn echoes<E, T, F: Fn(ThreadPinned<T>, E) -> (T, E)>(process: F) -> bool {
    forall|handle: ThreadPinned<T>, data: E, seen: (T, E)|
        #[trigger] call_ensures(process, (handle, data), seen) ==> seen == (handle.target(), data)
}

/// One more push: routing a run of pairs and then one more is routing the
/// run that ends with that one. A loop of exclusive pushes therefore leaves
/// the store with `routed_all` of what it pushed.
pub proof fn routing_goes_pair_by_pair<E, T: ConsistentKey>(
    shards: Seq<Seq<(T, E)>>,
    items: Seq<(T, E)>,
    target: T,
    data: E,
)
    ensures
        routed_all(shards, items.push((target, data))) == routed(
            routed_all(shards, items),
            target,
            data,
        ),
{
    assert(items.push((target, data)).drop_last() =~= items);
}

/// What a drain reports: delivered to a callback that reports what it is
/// called with, the results of a drain are the pairs that were held, shard by
/// shard and place by place. So the callback is called on every pair held, on
/// no other, on each once, and within a shard from the oldest to the newest.
pub proof fn an_echoing_drain_reports_what_was_held<E, T, F: Fn(ThreadPinned<T>, E) -> (T, E)>(
    shards: Seq<Seq<(T, E)>>,
    process: F,
    out: Seq<Seq<(T, E)>>,
)
    requires
        echoes(process),
        drained_to(shards, process, out),
    ensures
        out == shards,
{
    assert forall|i: int| 0 <= i < shards.len() implies out[i] == shards[i] by {
        assert(delivered(shards[i], i as usize, process, out[i]));
        assert forall|j: int| 0 <= j < shards[i].len() implies out[i][j] == shards[i][j] by {
            ThreadPinned::minted_is_the_pair(shards[i][j].0, i as usize);
            assert(call_ensures(
                process,
                (ThreadPinned::minted(shards[i][j].0, i as usize), shards[i][j].1),
                out[i][j],
            ));
        }
        assert(out[i] =~= shards[i]);
    }
    assert(out =~= shards);
}

/// Exactly once, seen from the callback: push any pairs into an empty store
/// and drain it to a callback that reports what it is called with. Counted
/// with their repeats, the pairs that the callback saw are the pairs that were
/// pushed: none left out, none twice.
pub proof fn pushes_are_delivered_exactly_once<E, T: ConsistentKey, F: Fn(ThreadPinned<T>, E) -> (
    T,
    E,
)>(shard_count: nat, items: Seq<(T, E)>, process: F, out: Seq<Seq<(T, E)>>)
    requires
        shard_count > 0,
        echoes(process),
        drained_to(routed_all(no_events(shard_count), items), process, out),
    ensures
        all_pairs(out) == items.to_multiset(),
        total_len(out) == items.len(),
{
    an_echoing_drain_reports_what_was_held(routed_all(no_events(shard_count), items), process, out);
    pushes_are_held_exactly_once(shard_count, items);
}

/// Order within a shard: of two pairs pushed for the same key, the one pushed
/// first stands before the other in their shard.
pub proof fn same_key_keeps_order<E, T: ConsistentKey>(
    shard_count: nat,
    items: Seq<(T, E)>,
    first: int,
    second: int,
)
    requires
        shard_count > 0,
        0 <= first < second < items.len(),
        items[first].0.key_spec() == items[second].0.key_spec(),
    ensures
        key_shard(items[first], shard_count) == key_shard(items[second], shard_count),
        key_shard(items[first], shard_count) < shard_count,
        place_of(items, shard_count, first) < place_of(items, shard_count, second),
        place_of(items, shard_count, second) < routed_all(
            no_events(shard_count),
            items,
        )[key_shard(items[first], shard_count) as int].len(),
        routed_all(no_events(shard_count), items)[key_shard(
            items[first],
            shard_count,
        ) as int][place_of(items, shard_count, first) as int] == items[first],
        routed_all(no_events(shard_count), items)[key_shard(
            items[first],
            shard_count,
        ) as int][place_of(items, shard_count, second) as int] == items[second],
{
    pushes_are_partitioned_by_key(shard_count, items);
    place_is_below_later_counts(items, shard_count, first, second);
    assert(items[first] == items[first] && items[second] == items[second]);
}

/// Order, seen from the callback: push any pairs into an empty store and
/// drain it to a callback that reports what it is called with. Two pairs that
/// were pushed for the same key are reported by the same worker, the one
/// pushed first at an earlier place of that worker's row than the other.
pub proof fn same_key_is_delivered_in_push_order<E, T: ConsistentKey, F: Fn(ThreadPinned<T>, E) -> (
    T,
    E,
)>(
    shard_count: nat,
    items: Seq<(T, E)>,
    first: int,
    second: int,
    process: F,
    out: Seq<Seq<(T, E)>>,
)
    requires
        shard_count > 0,
        0 <= first < second < items.len(),
        items[first].0.key_spec() == items[second].0.key_spec(),
        echoes(process),
        drained_to(routed_all(no_events(shard_count), items), process, out),
    ensures
        key_shard(items[first], shard_count) == key_shard(items[second], shard_count),
        key_shard(items[first], shard_count) < out.len(),
        place_of(items, shard_count, first) < place_of(items, shard_count, second),
        place_of(items, shard_count, second) < out[key_shard(
            items[first],
            shard_count,
        ) as int].len(),
        out[key_shard(items[first], shard_count) as int][place_of(
            items,
            shard_count,
            first,
        ) as int] == items[first],
        out[key_shard(items[first], shard_count) as int][place_of(
            items,
            shard_count,
            second,
        ) as int] == items[second],
{
    an_echoing_drain_reports_what_was_held(routed_all(no_events(shard_count), items), process, out);
    pushes_are_partitioned_by_key(shard_count, items);
    same_key_keeps_order(shard_count, items, first, second);
}

/// Round trip: a store that has just been drained holds nothing, so that a
/// drain of it calls nothing and hands back no result.
pub proof fn a_drained_store_delivers_nothing<E, T, R, F: Fn(ThreadPinned<T>, E) -> R>(
    shard_count: nat,
    process: F,
    out: Seq<Seq<R>>,
)
    requires
        drained_to(no_events::<E, T>(shard_count), process, out),
    ensures
        total_len(no_events::<E, T>(shard_count)) == 0,
        forall|i: int|
            0 <= i < shard_count ==> (#[trigger] no_events::<E, T>(shard_count)[i]).len() == 0,
        forall|i: int| 0 <= i < out.len() ==> (#[trigger] out[i]).len() == 0,
{
    no_events_hold_no_pair::<E, T>(shard_count);
    assert forall|i: int| 0 <= i < out.len() implies (#[trigger] out[i]).len() == 0 by {
        assert(delivered(no_events::<E, T>(shard_count)[i], i as usize, process, out[i]));
    }
}

/// Affinity: a handle that a drain made on worker `maker` lets worker
/// `caller` push into a store exactly when `caller` is `maker`, the store has
/// a shard for that worker, and no other worker has claimed that shard.
pub proof fn a_handle_serves_its_own_worker_only<E, T>(
    store: TargetedEvents<E, T>,
    target: T,
    maker: usize,
    caller: usize,
)
    ensures
        store.accepts(caller, ThreadPinned::minted(target, maker)) <==> {
            &&& caller == maker
            &&& caller < store.shard_count()
            &&& store.shards()[caller as int].admits(caller)
        },
{
    ThreadPinned::minted_is_the_pair(target, maker);
}

/// Affinity, the refusal: a worker that pushes into its shard while another
/// worker holds the claim on that shard is turned away as the wrong worker,
/// whatever handle it shows. The store does not accept the push, so that it
/// is left as it was.
pub proof fn a_shared_push_into_a_foreign_shard_is_refused<E, T>(
    store: TargetedEvents<E, T>,
    worker: usize,
    owner: usize,
    target: ThreadPinned<T>,
)
    requires
        worker < store.shard_count(),
        store.pins()[worker as int] == Some(owner),
        owner != worker,
    ensures
        !store.accepts(worker, target),
        store.shared_push_outcome(Some(worker), target) == Err::<(), Fatal>(Fatal::WrongWorker),
{
    assert(store.pins()[worker as int] == store.shards()[worker as int].pinned());
}

/// Affinity, the success: a worker whose shard is free, or claimed by
/// itself, succeeds with every handle that was made on it.
pub proof fn a_shared_push_into_the_own_shard_succeeds<E, T>(
    store: TargetedEvents<E, T>,
    worker: usize,
    target: ThreadPinned<T>,
)
    requires
        worker < store.shard_count(),
        target.worker_spec() == worker,
        store.pins()[worker as int] is None || store.pins()[worker as int] == Some(worker),
    ensures
        store.accepts(worker, target),
        store.shared_push_outcome(Some(worker), target) == Ok::<(), Fatal>(()),
{
    assert(store.pins()[worker as int] == store.shards()[worker as int].pinned());
}

/// Affinity, outside the pool: a thread that is no worker has no shard, and
/// its shared push is refused whatever the store holds and whatever handle
/// it shows.
pub proof fn a_shared_push_from_outside_the_pool_is_refused<E, T>(
    store: TargetedEvents<E, T>,
    target: ThreadPinned<T>,
)
    ensures
        store.shared_push_outcome(None, target) == Err::<(), Fatal>(Fatal::OutsidePool),
{
}

/// A drain is for the pool: a thread that is no worker may not start one,
/// whatever the size of the pool and whatever the store holds. A worker of a
/// pool that has one worker per shard may start one on a store in which no
/// shard is in foreign hands, and nobody else may.
pub proof fn a_drain_starts_on_the_pool_only<E, T>(
    store: TargetedEvents<E, T>,
    index: Option<usize>,
    pool_size: usize,
)
    ensures
        index is None ==> store.drain_gate(index, pool_size) is Err,
        store.drain_gate(index, pool_size) is Ok <==> {
            &&& index is Some
            &&& pool_size == store.shard_count()
            &&& !store.has_foreign_pin()
        },
{
}

} // verus!
