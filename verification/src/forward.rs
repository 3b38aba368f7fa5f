use vstd::prelude::*;
use vstd::multiset::Multiset;
use vstd::seq_lib::to_multiset_build;
use crate::events::{appended, drained_to, no_events, routed, total_len, TargetedEvents};
use crate::fatal::Fatal;
use crate::key::{shard_of, ConsistentKey};
use crate::laws::{
    all_pairs, an_echoing_drain_reports_what_was_held, echoes, key_shard,
    pushes_are_held_exactly_once, pushes_are_partitioned_by_key, routed_all,
};
use crate::pinned::ThreadPinned;

verus! {

/// The follow-ups of `items`: for every pair the same target, with the event
/// that `derive` makes of the pair.
pub open spec fn derived<E, D, T>(items: Seq<(T, E)>, derive: spec_fn((T, E)) -> D) -> Seq<(T, D)> {
    Seq::new(items.len(), |j: int| (items[j].0, derive(items[j])))
}

/// The targets of `items`, in their order.
pub open spec fn targets_of<E, T>(items: Seq<(T, E)>) -> Seq<T> {
    Seq::new(items.len(), |j: int| items[j].0)
}

/// Every target that `shards` hold a pair for, as often as they hold one,
/// with no regard to where.
pub open spec fn all_targets<E, T>(shards: Seq<Seq<(T, E)>>) -> Multiset<T>
    decreases shards.len(),
{
    if shards.len() == 0 {
        Multiset::empty()
    } else {
        all_targets(shards.drop_last()).add(targets_of(shards.last()).to_multiset())
    }
}

/// What `dest` holds once worker `worker` has forwarded `items`, the first
/// one first: for each pair a shared push of its follow-up, shown with the
/// handle that a drain on that worker makes for the pair's target.
pub open spec fn forwarded_by<E, D, T>(
    dest: Seq<Seq<(T, D)>>,
    worker: int,
    items: Seq<(T, E)>,
    derive: spec_fn((T, E)) -> D,
) -> Seq<Seq<(T, D)>>
    decreases items.len(),
{
    if items.len() == 0 {
        dest
    } else {
        appended(
            forwarded_by(dest, worker, items.drop_last(), derive),
            worker,
            ThreadPinned::minted(items.last().0, worker as usize).target(),
            derive(items.last()),
        )
    }
}

/// What `dest` holds once a drain of `source` has forwarded every pair that
/// `source` held: each worker its own shard, oldest pair first.
///
/// The workers run side by side. Each of them touches its own shard of
/// `dest` and no other, so it makes no difference in which order their pushes
/// are taken; here they are taken worker by worker.
pub open spec fn forwarded<E, D, T>(
    dest: Seq<Seq<(T, D)>>,
    source: Seq<Seq<(T, E)>>,
    derive: spec_fn((T, E)) -> D,
) -> Seq<Seq<(T, D)>>
    decreases source.len(),
{
    if source.len() == 0 {
        dest
    } else {
        forwarded_by(
            forwarded(dest, source.drop_last(), derive),
            source.len() - 1,
            source.last(),
            derive,
        )
    }
}

/// Forwarding never meets a fault: a store in which no shard is in foreign
/// hands takes the shared push of any of its workers that shows a handle made
/// on that worker, and the push leaves no shard in foreign hands. So the
/// store takes the next push as well, of this worker or another.
pub proof fn a_forwarded_push_is_accepted<D, T>(
    before: TargetedEvents<D, T>,
    after: TargetedEvents<D, T>,
    worker: usize,
    target: T,
)
    requires
        worker < before.shard_count(),
        !before.has_foreign_pin(),
        after.shard_count() == before.shard_count(),
        after.pins() == before.pins().update(worker as int, Some(worker)),
    ensures
        before.shared_push_outcome(Some(worker), ThreadPinned::minted(target, worker)) == Ok::<
            (),
            Fatal,
        >(()),
        !after.has_foreign_pin(),
{
    ThreadPinned::minted_is_the_pair(target, worker);
    assert(before.shards()[worker as int].admits(worker));
    assert forall|i: int| 0 <= i < after.shards().len() implies (#[trigger] after.shards()[i]).admits(
        i as usize,
    ) by {
        assert(after.pins()[i] == after.shards()[i].pinned());
        if i != worker {
            assert(before.pins()[i] == before.shards()[i].pinned());
            assert(before.shards()[i].admits(i as usize));
        }
    }
}

/// A forwarded push lands where routing would have put it: on the worker of
/// the shard that a target's key belongs to, the shared push of a follow-up
/// for that target leaves the store as the exclusive push of the same pair
/// does.
pub proof fn a_forwarded_push_lands_where_routing_would<D, T: ConsistentKey>(
    shards: Seq<Seq<(T, D)>>,
    target: T,
    data: D,
)
    requires
        0 < shards.len() <= usize::MAX,
    ensures
        shard_of(target.key_spec(), shards.len()) < shards.len(),
        appended(
            shards,
            shard_of(target.key_spec(), shards.len()) as int,
            ThreadPinned::minted(
                target,
                shard_of(target.key_spec(), shards.len()) as usize,
            ).target(),
            data,
        ) == routed(shards, target, data),
{
    let home = shard_of(target.key_spec(), shards.len());
    assert(home < shards.len()) by (nonlinear_arith)
        requires
            home == (target.key_spec() as nat) % shards.len(),
            shards.len() > 0,
    ;
    ThreadPinned::minted_is_the_pair(target, home as usize);
}

proof fn forwarded_by_extends_one_shard<E, D, T>(
    dest: Seq<Seq<(T, D)>>,
    worker: int,
    items: Seq<(T, E)>,
    derive: spec_fn((T, E)) -> D,
)
    requires
        0 <= worker < dest.len(),
    ensures
        forwarded_by(dest, worker, items, derive) == dest.update(
            worker,
            dest[worker] + derived(items, derive),
        ),
    decreases items.len(),
{
    if items.len() == 0 {
        assert(dest[worker] + derived(items, derive) =~= dest[worker]);
        assert(dest.update(worker, dest[worker]) =~= dest);
    } else {
        let earlier = items.drop_last();
        forwarded_by_extends_one_shard(dest, worker, earlier, derive);
        ThreadPinned::minted_is_the_pair(items.last().0, worker as usize);
        assert((dest[worker] + derived(earlier, derive)).push(
            (items.last().0, derive(items.last())),
        ) =~= dest[worker] + derived(items, derive));
        assert(forwarded_by(dest, worker, items, derive) =~= dest.update(
            worker,
            dest[worker] + derived(items, derive),
        ));
    }
}

/// Forwarding goes shard by shard: once a drain of `source` has forwarded
/// into `dest`, every shard of `dest` holds what it held before and, behind
/// that, the follow-ups of the same shard of `source`, in the order in which
/// that shard held its pairs. No shard of `dest` depends on another shard of
/// `source`.
pub proof fn forwarding_goes_shard_by_shard<E, D, T>(
    dest: Seq<Seq<(T, D)>>,
    source: Seq<Seq<(T, E)>>,
    derive: spec_fn((T, E)) -> D,
)
    requires
        source.len() <= dest.len(),
    ensures
        forwarded(dest, source, derive).len() == dest.len(),
        forall|i: int|
            0 <= i < source.len() ==> #[trigger] forwarded(dest, source, derive)[i] == dest[i]
                + derived(source[i], derive),
        forall|i: int|
            source.len() <= i < dest.len() ==> #[trigger] forwarded(dest, source, derive)[i]
                == dest[i],
    decreases source.len(),
{
    if source.len() > 0 {
        let earlier = source.drop_last();
        forwarding_goes_shard_by_shard(dest, earlier, derive);
        forwarded_by_extends_one_shard(
            forwarded(dest, earlier, derive),
            source.len() - 1,
            source.last(),
            derive,
        );
    }
}

/// Forwarding repeats the routing: pushed into an empty store, drained, and
/// forwarded pair by pair into a second empty store with as many shards, the
/// follow-ups stand in the second store as if they had been pushed there by
/// key themselves, in the order of the pairs they follow.
pub proof fn forwarding_repeats_the_routing<E, D, T: ConsistentKey>(
    shard_count: nat,
    items: Seq<(T, E)>,
    derive: spec_fn((T, E)) -> D,
)
    requires
        shard_count > 0,
    ensures
        forwarded(
            no_events::<D, T>(shard_count),
            routed_all(no_events::<E, T>(shard_count), items),
            derive,
        ) == routed_all(no_events::<D, T>(shard_count), derived(items, derive)),
    decreases items.len(),
{
    let source = routed_all(no_events::<E, T>(shard_count), items);
    let follow = derived(items, derive);
    let dest = routed_all(no_events::<D, T>(shard_count), follow);
    pushes_are_partitioned_by_key(shard_count, items);
    pushes_are_partitioned_by_key(shard_count, follow);
    forwarding_goes_shard_by_shard(no_events::<D, T>(shard_count), source, derive);
    if items.len() > 0 {
        let earlier = items.drop_last();
        let last = items.last();
        let home = key_shard(last, shard_count) as int;
        let before = routed_all(no_events::<E, T>(shard_count), earlier);
        forwarding_repeats_the_routing(shard_count, earlier, derive);
        pushes_are_partitioned_by_key(shard_count, earlier);
        forwarding_goes_shard_by_shard(no_events::<D, T>(shard_count), before, derive);
        assert(follow.drop_last() =~= derived(earlier, derive));
        assert(follow.last() == (last.0, derive(last)));
        assert(source == appended(before, home, last.0, last.1));
        assert forall|i: int| 0 <= i < shard_count implies forwarded(
            no_events::<D, T>(shard_count),
            source,
            derive,
        )[i] == dest[i] by {
            if i == home {
                assert(derived(before[i].push(last), derive) =~= derived(before[i], derive).push(
                    (last.0, derive(last)),
                ));
            }
            assert(forwarded(no_events::<D, T>(shard_count), source, derive)[i] =~= dest[i]);
        }
    } else {
        assert forall|i: int| 0 <= i < shard_count implies forwarded(
            no_events::<D, T>(shard_count),
            source,
            derive,
        )[i] == dest[i] by {
            assert(forwarded(no_events::<D, T>(shard_count), source, derive)[i] =~= dest[i]);
        }
    }
    assert(forwarded(no_events::<D, T>(shard_count), source, derive) =~= dest);
}

proof fn appended_adds_one_target<E, T>(shards: Seq<Seq<(T, E)>>, idx: int, target: T, data: E)
    requires
        0 <= idx < shards.len(),
    ensures
        all_targets(appended(shards, idx, target, data)) == all_targets(shards).insert(target),
    decreases shards.len(),
{
    let after = appended(shards, idx, target, data);
    if idx == shards.len() - 1 {
        assert(after.drop_last() =~= shards.drop_last());
        assert(targets_of(after.last()) =~= targets_of(shards.last()).push(target));
        to_multiset_build(targets_of(shards.last()), target);
        assert(all_targets(after) =~= all_targets(shards).insert(target));
    } else {
        appended_adds_one_target(shards.drop_last(), idx, target, data);
        assert(after.drop_last() =~= appended(shards.drop_last(), idx, target, data));
        assert(after.last() == shards.last());
        assert(all_targets(after) =~= all_targets(shards).insert(target));
    }
}

proof fn no_events_have_no_target<E, T>(shard_count: nat)
    ensures
        all_targets(no_events::<E, T>(shard_count)) == Multiset::<T>::empty(),
    decreases shard_count,
{
    if shard_count > 0 {
        no_events_have_no_target::<E, T>((shard_count - 1) as nat);
        assert(no_events::<E, T>(shard_count).drop_last() =~= no_events::<E, T>(
            (shard_count - 1) as nat,
        ));
        assert(targets_of(no_events::<E, T>(shard_count).last()).to_multiset() =~= Multiset::<
            T,
        >::empty()) by {
            broadcast use vstd::seq_lib::group_to_multiset_ensures;
            assert(targets_of(no_events::<E, T>(shard_count).last()).to_multiset().len() == 0);
        }
        assert(all_targets(no_events::<E, T>(shard_count)) =~= Multiset::<T>::empty());
    }
}

/// The targets of a store: pushed into an empty store of `shard_count`
/// shards, the targets that the store then holds a pair for are, counted with
/// their repeats, the targets of the pairs that were pushed.
pub proof fn pushes_keep_their_targets<E, T: ConsistentKey>(shard_count: nat, items: Seq<(T, E)>)
    requires
        shard_count > 0,
    ensures
        all_targets(routed_all(no_events(shard_count), items)) == targets_of(items).to_multiset(),
    decreases items.len(),
{
    let empty = no_events::<E, T>(shard_count);
    if items.len() > 0 {
        let earlier = items.drop_last();
        let last = items.last();
        let home = key_shard(last, shard_count);
        pushes_keep_their_targets(shard_count, earlier);
        pushes_are_partitioned_by_key(shard_count, earlier);
        assert(home < shard_count) by (nonlinear_arith)
            requires
                home == (last.0.key_spec() as nat) % shard_count,
                shard_count > 0,
        ;
        appended_adds_one_target(routed_all(empty, earlier), home as int, last.0, last.1);
        to_multiset_build(targets_of(earlier), last.0);
        assert(targets_of(earlier).push(last.0) =~= targets_of(items));
    } else {
        no_events_have_no_target::<E, T>(shard_count);
        assert(targets_of(items).to_multiset() =~= Multiset::<T>::empty()) by {
            broadcast use vstd::seq_lib::group_to_multiset_ensures;
            assert(targets_of(items).to_multiset().len() == 0);
        }
    }
}

/// From one store into another: push any pairs into an empty store, drain it,
/// and have every worker forward a follow-up of each pair it is handed into a
/// second empty store with as many shards. Then drain the second store to a
/// callback that reports what it is called with.
///
/// The callback sees one follow-up for every pair that was pushed and no
/// other pair. Counted with their repeats, the targets it sees are the
/// targets that the first store held, which are those that were pushed.
pub proof fn forwarded_events_reach_the_same_targets<
    E,
    D,
    T: ConsistentKey,
    F: Fn(ThreadPinned<T>, D) -> (T, D),
>(
    shard_count: nat,
    items: Seq<(T, E)>,
    derive: spec_fn((T, E)) -> D,
    process: F,
    out: Seq<Seq<(T, D)>>,
)
    requires
        shard_count > 0,
        echoes(process),
        drained_to(
            forwarded(
                no_events::<D, T>(shard_count),
                routed_all(no_events::<E, T>(shard_count), items),
                derive,
            ),
            process,
            out,
        ),
    ensures
        out == routed_all(no_events::<D, T>(shard_count), derived(items, derive)),
        all_pairs(out) == derived(items, derive).to_multiset(),
        total_len(out) == items.len(),
        all_targets(out) == all_targets(routed_all(no_events::<E, T>(shard_count), items)),
        all_targets(out) == targets_of(items).to_multiset(),
{
    let follow = derived(items, derive);
    forwarding_repeats_the_routing(shard_count, items, derive);
    an_echoing_drain_reports_what_was_held(
        routed_all(no_events::<D, T>(shard_count), follow),
        process,
        out,
    );
    pushes_are_held_exactly_once(shard_count, follow);
    pushes_keep_their_targets(shard_count, follow);
    pushes_keep_their_targets(shard_count, items);
    assert(targets_of(follow) =~= targets_of(items));
}

} // verus!
