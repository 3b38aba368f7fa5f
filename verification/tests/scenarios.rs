use std::collections::BTreeSet;
use std::sync::atomic::{AtomicUsize, Ordering};
use std::sync::Mutex;

use targeted_bulk::{Fatal, TargetedEvents};

fn pool_of(workers: usize) -> rayon::ThreadPool {
    rayon::ThreadPoolBuilder::new().num_threads(workers).build().unwrap()
}

#[test]
fn key_five_is_delivered_once_by_worker_one() {
    pool_of(4).install(|| {
        let mut store: TargetedEvents<u32, u64> = TargetedEvents::new();
        assert_eq!(store.get_mut_slice().len(), 4);
        assert_eq!(store.push_exclusive(5, 10), Ok(()));
        assert_eq!(store.get_mut_slice()[0].len(), 0);
        assert_eq!(store.get_mut_slice()[1].len(), 1);
        assert_eq!(store.get_mut_slice()[2].len(), 0);
        assert_eq!(store.get_mut_slice()[3].len(), 0);
        assert_eq!(store.len(), 1);
        let calls = AtomicUsize::new(0);
        let out = store
            .drain_par(|handle, event| {
                calls.fetch_add(1, Ordering::SeqCst);
                (*handle.inner(), event, handle.worker(), rayon::current_thread_index())
            })
            .unwrap();
        assert_eq!(calls.load(Ordering::SeqCst), 1);
        assert_eq!(out.len(), 4);
        assert_eq!(out[0], vec![]);
        assert_eq!(out[1], vec![(5, 10, 1, Some(1))]);
        assert_eq!(out[2], vec![]);
        assert_eq!(out[3], vec![]);
        assert!(store.is_empty());
        assert_eq!(store.len(), 0);
    });
}

#[test]
fn hundred_pairs_come_out_exactly_once() {
    pool_of(4).install(|| {
        let mut store: TargetedEvents<u64, u64> = TargetedEvents::new();
        for i in 0..100u64 {
            assert_eq!(store.push_exclusive(i, i * 2), Ok(()));
        }
        assert_eq!(store.len(), 100);
        for shard in store.get_mut_slice() {
            assert_eq!(shard.len(), 25);
        }
        let seen = Mutex::new(Vec::new());
        let out = store
            .drain_par(|handle, event| {
                seen.lock().unwrap().push((*handle.inner(), event));
                (*handle.inner(), event)
            })
            .unwrap();
        let seen = seen.into_inner().unwrap();
        assert_eq!(seen.len(), 100);
        let observed: BTreeSet<(u64, u64)> = seen.into_iter().collect();
        let expected: BTreeSet<(u64, u64)> = (0..100u64).map(|i| (i, i * 2)).collect();
        assert_eq!(observed, expected);
        let returned: Vec<(u64, u64)> = out.into_iter().flatten().collect();
        assert_eq!(returned.len(), 100);
        assert_eq!(returned.into_iter().collect::<BTreeSet<_>>(), expected);
        assert!(store.is_empty());
    });
}

#[test]
fn forwarded_events_keep_their_targets() {
    pool_of(4).install(|| {
        let mut a: TargetedEvents<u32, u64> = TargetedEvents::new();
        let b: Mutex<TargetedEvents<String, u64>> = Mutex::new(TargetedEvents::new());
        let keys: Vec<u64> = vec![0, 1, 2, 3, 4, 7, 8, 13, 21, 34, 55, 89];
        for (n, key) in keys.iter().enumerate() {
            a.push_exclusive(*key, n as u32).unwrap();
        }
        a.drain_par(|handle, event| {
            let derived = format!("{}:{}", handle.inner(), event);
            b.lock().unwrap().push_shared(handle, derived).unwrap();
        })
        .unwrap();
        assert!(a.is_empty());
        let mut b = b.into_inner().unwrap();
        assert_eq!(b.len(), keys.len());
        for (index, shard) in b.get_mut_slice().iter().enumerate() {
            assert_eq!(shard.pinned_worker(), if shard.is_empty() { None } else { Some(index) });
        }
        let out = b.drain_par(|handle, event| (*handle.inner(), handle.worker(), event)).unwrap();
        for (index, shard) in out.iter().enumerate() {
            for (key, worker, _) in shard {
                assert_eq!(*worker, index);
                assert_eq!((*key % 4) as usize, index);
            }
        }
        let observed: BTreeSet<u64> = out.iter().flatten().map(|(key, _, _)| *key).collect();
        let expected: BTreeSet<u64> = keys.iter().copied().collect();
        assert_eq!(observed, expected);
        assert_eq!(out.iter().flatten().count(), keys.len());
        assert!(out.iter().flatten().any(|(key, _, event)| *key == 13 && event == "13:7"));
    });
}

#[test]
fn new_makes_one_shard_per_worker() {
    pool_of(3).install(|| {
        let mut store: TargetedEvents<u8, u8> = TargetedEvents::new();
        assert_eq!(store.get_mut_slice().len(), 3);
        assert!(store.is_empty());
    });
    pool_of(5).install(|| {
        let mut store: TargetedEvents<u8, u8> = TargetedEvents::default();
        assert_eq!(store.get_mut_slice().len(), 5);
        assert_eq!(store.len(), 0);
    });
}

#[test]
fn drain_leaves_the_store_empty_and_an_empty_store_calls_nothing() {
    pool_of(4).install(|| {
        let mut store: TargetedEvents<u8, u16> = TargetedEvents::new();
        for key in 0..10u16 {
            store.push_exclusive(key, 1).unwrap();
        }
        assert!(!store.is_empty());
        let calls = AtomicUsize::new(0);
        store.drain_par(|_, _| { calls.fetch_add(1, Ordering::SeqCst); }).unwrap();
        assert_eq!(calls.load(Ordering::SeqCst), 10);
        assert!(store.is_empty());
        let out = store.drain_par(|_, _| { calls.fetch_add(1, Ordering::SeqCst); }).unwrap();
        assert_eq!(calls.load(Ordering::SeqCst), 10);
        assert_eq!(out, vec![vec![], vec![], vec![], vec![]]);
        assert!(store.is_empty());
    });
}

#[test]
fn events_of_one_key_are_delivered_in_push_order() {
    pool_of(4).install(|| {
        let mut store: TargetedEvents<&'static str, u32> = TargetedEvents::new();
        store.push_exclusive(6, "e1").unwrap();
        store.push_exclusive(2, "other key, same shard").unwrap();
        store.push_exclusive(7, "elsewhere").unwrap();
        store.push_exclusive(6, "e2").unwrap();
        store.push_exclusive(6, "e3").unwrap();
        let out = store.drain_par(|handle, event| (*handle.inner(), event)).unwrap();
        assert_eq!(out[0], vec![]);
        assert_eq!(out[1], vec![]);
        assert_eq!(out[2], vec![(6, "e1"), (2, "other key, same shard"), (6, "e2"), (6, "e3")]);
        assert_eq!(out[3], vec![(7, "elsewhere")]);
    });
}

#[test]
fn drain_outside_the_pool_is_refused() {
    let mut store: TargetedEvents<u32, u64> = TargetedEvents::with_shard_count(rayon::current_num_threads());
    store.push_exclusive(1, 1).unwrap();
    let res = store.drain_par(|_, event| event);
    assert_eq!(res, Err(Fatal::OutsidePool));
    assert_eq!(store.len(), 1);
}

#[test]
fn a_refused_drain_calls_nothing_and_touches_no_shard() {
    let mut store: TargetedEvents<u32, u64> = TargetedEvents::with_shard_count(3);
    for key in 0..7u64 {
        store.push_exclusive_among(3, key, 1).unwrap();
    }
    store.get_mut_slice()[2].pin(2).unwrap();
    let calls = AtomicUsize::new(0);
    let count = |_, _| {
        calls.fetch_add(1, Ordering::SeqCst);
    };
    assert_eq!(store.drain_par(count), Err(Fatal::OutsidePool));
    assert_eq!(pool_of(2).install(|| store.drain_par(count)), Err(Fatal::PoolMismatch));
    assert_eq!(pool_of(4).install(|| store.drain_par(count)), Err(Fatal::PoolMismatch));
    assert_eq!(calls.load(Ordering::SeqCst), 0);
    let lens: Vec<usize> = store.get_mut_slice().iter().map(|shard| shard.len()).collect();
    assert_eq!(lens, vec![3, 2, 2]);
    let pins: Vec<Option<usize>> =
        store.get_mut_slice().iter().map(|shard| shard.pinned_worker()).collect();
    assert_eq!(pins, vec![None, None, Some(2)]);
    assert_eq!(pool_of(3).install(|| store.drain_par(count)), Ok(vec![vec![(); 3], vec![(); 2], vec![(); 2]]));
    assert_eq!(calls.load(Ordering::SeqCst), 7);
}

#[test]
fn new_makes_a_store_with_a_shard_in_and_out_of_the_pool() {
    let mut outside: TargetedEvents<u8, u8> = TargetedEvents::new();
    assert_eq!(outside.get_mut_slice().len(), rayon::current_num_threads());
    assert!(outside.get_mut_slice().len() >= 1);
    pool_of(1).install(|| {
        let mut store: TargetedEvents<u8, u8> = TargetedEvents::new();
        assert_eq!(store.get_mut_slice().len(), 1);
        let mut other: TargetedEvents<u8, u8> = TargetedEvents::default();
        assert_eq!(other.get_mut_slice().len(), 1);
    });
}

#[test]
fn forwarding_leaves_the_second_store_as_routing_would() {
    pool_of(3).install(|| {
        let keys: Vec<u64> = vec![9, 4, 2, 7, 4, 0, 11, 5, 4, 3];
        let mut a: TargetedEvents<u32, u64> = TargetedEvents::new();
        let mut routed: TargetedEvents<u64, u64> = TargetedEvents::new();
        for (n, key) in keys.iter().enumerate() {
            a.push_exclusive(*key, n as u32).unwrap();
            routed.push_exclusive(*key, *key * 100 + n as u64).unwrap();
        }
        let b: Mutex<TargetedEvents<u64, u64>> = Mutex::new(TargetedEvents::new());
        a.drain_par(|handle, event| {
            let derived = *handle.inner() * 100 + u64::from(event);
            b.lock().unwrap().push_shared(handle, derived).unwrap();
        })
        .unwrap();
        let mut b = b.into_inner().unwrap();
        let seen = b.drain_par(|handle, event| (*handle.inner(), event)).unwrap();
        let wanted = routed.drain_par(|handle, event| (*handle.inner(), event)).unwrap();
        assert_eq!(seen, wanted);
        assert_eq!(
            seen,
            vec![
                vec![(9, 900), (0, 5), (3, 309)],
                vec![(4, 401), (7, 703), (4, 404), (4, 408)],
                vec![(2, 202), (11, 1106), (5, 507)],
            ]
        );
        let mut targets: Vec<u64> = seen.iter().flatten().map(|(key, _)| *key).collect();
        let mut pushed = keys.clone();
        targets.sort_unstable();
        pushed.sort_unstable();
        assert_eq!(targets, pushed);
    });
}

#[test]
fn drain_in_a_pool_of_another_size_is_refused() {
    let mut store: TargetedEvents<u32, u64> = TargetedEvents::with_shard_count(4);
    store.push_exclusive_among(4, 6, 60).unwrap();
    let res = pool_of(3).install(|| store.drain_par(|_, event| event));
    assert_eq!(res, Err(Fatal::PoolMismatch));
    assert_eq!(store.len(), 1);
    let res = pool_of(5).install(|| store.drain_par(|_, event| event));
    assert_eq!(res, Err(Fatal::PoolMismatch));
    assert_eq!(store.len(), 1);
    let res = pool_of(4).install(|| store.drain_par(|_, event| event));
    assert_eq!(res, Ok(vec![vec![], vec![], vec![60], vec![]]));
}

#[test]
fn push_exclusive_in_a_pool_of_another_size_is_refused() {
    let mut store: TargetedEvents<u32, u64> = pool_of(4).install(TargetedEvents::new);
    assert_eq!(pool_of(2).install(|| store.push_exclusive(1, 1)), Err(Fatal::PoolMismatch));
    assert_eq!(pool_of(8).install(|| store.push_exclusive(1, 1)), Err(Fatal::PoolMismatch));
    assert!(store.is_empty());
    assert_eq!(pool_of(4).install(|| store.push_exclusive(1, 1)), Ok(()));
    assert_eq!(store.len(), 1);
}

#[test]
fn push_shared_outside_the_pool_is_refused() {
    let (handle, mut store) = pool_of(2).install(|| {
        let mut source: TargetedEvents<u8, u64> = TargetedEvents::new();
        source.push_exclusive(1, 0).unwrap();
        let mut out = source.drain_par(|handle, _| handle).unwrap();
        let store: TargetedEvents<u8, u64> = TargetedEvents::new();
        (out[1].pop().unwrap(), store)
    });
    assert_eq!(handle.worker(), 1);
    assert_eq!(store.push_shared(handle, 9), Err(Fatal::OutsidePool));
    assert!(store.is_empty());
}

#[test]
fn push_shared_lands_in_the_shard_of_the_calling_worker() {
    pool_of(4).install(|| {
        let mut source: TargetedEvents<u8, u64> = TargetedEvents::new();
        // All four keys belong to shard 3; the targets' keys play no part in a shared push.
        for key in [3u64, 7, 11, 15] {
            source.push_exclusive(key, 0).unwrap();
        }
        let sink: Mutex<TargetedEvents<u64, u64>> = Mutex::new(TargetedEvents::new());
        source
            .drain_par(|handle, _| {
                let index = rayon::current_thread_index().unwrap() as u64;
                sink.lock().unwrap().push_shared(handle, index).unwrap();
            })
            .unwrap();
        let mut sink = sink.into_inner().unwrap();
        let lens: Vec<usize> = sink.get_mut_slice().iter().map(|shard| shard.len()).collect();
        assert_eq!(lens, vec![0, 0, 0, 4]);
        let out = sink.drain_par(|handle, event| (*handle.inner(), event)).unwrap();
        assert_eq!(out[3], vec![(3, 3), (7, 3), (11, 3), (15, 3)]);
    });
}

#[test]
fn push_shared_names_the_fault_that_the_calling_worker_meets() {
    let pool = pool_of(4);
    let handle = pool.install(|| {
        let mut source: TargetedEvents<u8, u64> = TargetedEvents::new();
        source.push_exclusive(1, 0).unwrap();
        let mut out = source.drain_par(|handle, _| handle).unwrap();
        out[1].pop().unwrap()
    });
    assert_eq!(handle.worker(), 1);

    // Two shards, four workers: workers 2 and 3 have no shard, worker 0 has the wrong handle.
    let small: Mutex<TargetedEvents<u8, u64>> = Mutex::new(TargetedEvents::with_shard_count(2));
    let seen = pool.broadcast(|_| small.lock().unwrap().push_shared(handle, 7));
    assert_eq!(
        seen,
        vec![Err(Fatal::WrongWorker), Ok(()), Err(Fatal::PoolMismatch), Err(Fatal::PoolMismatch)]
    );
    let mut small = small.into_inner().unwrap();
    let lens: Vec<usize> = small.get_mut_slice().iter().map(|shard| shard.len()).collect();
    assert_eq!(lens, vec![0, 1]);

    // A shard that another worker has claimed turns its own worker away.
    let mut claimed: TargetedEvents<u8, u64> = TargetedEvents::with_shard_count(4);
    claimed.get_mut_slice()[1].pin(3).unwrap();
    let claimed = Mutex::new(claimed);
    let seen = pool.broadcast(|_| claimed.lock().unwrap().push_shared(handle, 7));
    assert_eq!(seen, vec![Err(Fatal::WrongWorker); 4]);
    assert!(claimed.into_inner().unwrap().is_empty());
}
