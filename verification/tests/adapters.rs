use std::collections::BTreeMap;
use std::sync::Mutex;

use targeted_bulk::handler::{join, TargetedReader, TargetedWriter};
use targeted_bulk::{EntityId, Fatal, TargetedEvents, ThreadPinned};

fn pool_of(workers: usize) -> rayon::ThreadPool {
    rayon::ThreadPoolBuilder::new().num_threads(workers).build().unwrap()
}

/// A handle for `target` made on worker `worker` of a pool of `workers`.
fn handle_from(workers: usize, worker: usize, target: u64) -> ThreadPinned<u64> {
    let mut source: TargetedEvents<(), u64> = TargetedEvents::with_shard_count(workers);
    source.get_mut_slice()[worker].push(target, ());
    let mut out = pool_of(workers).install(|| source.drain_par(|handle, _| handle)).unwrap();
    out[worker].pop().unwrap()
}

#[test]
fn join_calls_the_callback_with_the_item_of_the_target() {
    let names: BTreeMap<u64, &str> = BTreeMap::from([(1, "Alice"), (2, "Bob")]);
    let query = |target: &u64| names.get(target).copied();
    let process = |handle: ThreadPinned<u64>, event: &str, name: &str| {
        format!("{} {} {}", handle.inner(), name, event)
    };
    let alice = handle_from(2, 1, 1);
    assert_eq!(join(&query, &process, alice, "in wonderland"), Some("1 Alice in wonderland".to_string()));
}

#[test]
fn join_drops_an_event_whose_target_has_no_item() {
    let names: BTreeMap<u64, &str> = BTreeMap::from([(1, "Alice")]);
    let query = |target: &u64| names.get(target).copied();
    let calls = Mutex::new(0);
    let process = |_: ThreadPinned<u64>, _: &str, _: &str| {
        *calls.lock().unwrap() += 1;
    };
    let stranger = handle_from(2, 0, 4);
    assert_eq!(join(&query, &process, stranger, "lost"), None);
    assert_eq!(*calls.lock().unwrap(), 0);
}

#[test]
fn a_writer_forwards_exclusive_pushes() {
    pool_of(4).install(|| {
        let mut store: TargetedEvents<u32, u64> = TargetedEvents::new();
        let mut writer = TargetedWriter::new(&mut store);
        assert_eq!(writer.push_exclusive(5, 10), Ok(()));
        assert_eq!(writer.push_exclusive(6, 20), Ok(()));
        let lens: Vec<usize> = store.get_mut_slice().iter().map(|shard| shard.len()).collect();
        assert_eq!(lens, vec![0, 1, 1, 0]);
    });
    let mut store: TargetedEvents<u32, u64> = TargetedEvents::with_shard_count(3);
    let mut writer = TargetedWriter::new(&mut store);
    assert_eq!(pool_of(2).install(|| writer.push_exclusive(5, 10)), Err(Fatal::PoolMismatch));
    assert!(store.is_empty());
}

#[test]
fn a_writer_forwards_shared_pushes() {
    let pool = pool_of(4);
    let mut source: TargetedEvents<u32, u64> = TargetedEvents::with_shard_count(4);
    source.push_exclusive_among(4, 6, 60).unwrap();
    source.push_exclusive_among(4, 3, 30).unwrap();
    let mut sink: TargetedEvents<u32, u64> = TargetedEvents::with_shard_count(4);
    {
        let writer = Mutex::new(TargetedWriter::new(&mut sink));
        pool.install(|| {
            source.drain_par(|handle, event| {
                writer.lock().unwrap().push_shared(handle, event + 1).unwrap();
            })
        })
        .unwrap();
    }
    let lens: Vec<usize> = sink.get_mut_slice().iter().map(|shard| shard.len()).collect();
    assert_eq!(lens, vec![0, 0, 1, 1]);
    let out = pool.install(|| sink.drain_par(|handle, event| (*handle.inner(), event)));
    assert_eq!(out, Ok(vec![vec![], vec![], vec![(6, 61)], vec![(3, 31)]]));

    let handle = handle_from(4, 2, 6);
    let mut writer = TargetedWriter::new(&mut sink);
    assert_eq!(writer.push_shared(handle, 1), Err(Fatal::OutsidePool));
    assert!(sink.is_empty());
}

#[test]
fn a_reader_joins_every_event_and_drops_those_without_an_item() {
    let id1 = EntityId::new(0, 1).unwrap();
    let id2 = EntityId::new(1, 1).unwrap();
    let id3 = EntityId::new(2, 1).unwrap();
    let id4 = EntityId::new(3, 1).unwrap();
    let gone = EntityId::new(5, 1).unwrap();
    let names: BTreeMap<u32, &str> =
        BTreeMap::from([(0, "Alice"), (1, "Bob"), (2, "Charlie"), (3, "David")]);

    let mut print_events: TargetedEvents<&str> = TargetedEvents::with_shard_count(4);
    print_events.push_exclusive_among(4, id1, "in wonderland").unwrap();
    print_events.push_exclusive_among(4, id2, "the builder").unwrap();
    print_events.push_exclusive_among(4, gone, "nowhere").unwrap();
    print_events.push_exclusive_among(4, id3, "and the chocolate factory").unwrap();
    print_events.push_exclusive_among(4, id4, "and goliath").unwrap();

    let mut reader =
        TargetedReader::new(&mut print_events, |id: &EntityId| names.get(&id.index()).copied());
    let out = pool_of(4)
        .install(|| {
            reader.drain_par(|handle, append, name| {
                (handle.inner().index(), handle.worker(), format!("{name} {append}"))
            })
        })
        .unwrap();
    assert_eq!(out[0], vec![Some((0, 0, "Alice in wonderland".to_string()))]);
    assert_eq!(out[1], vec![Some((1, 1, "Bob the builder".to_string())), None]);
    assert_eq!(out[2], vec![Some((2, 2, "Charlie and the chocolate factory".to_string()))]);
    assert_eq!(out[3], vec![Some((3, 3, "David and goliath".to_string()))]);
    assert!(print_events.is_empty());
}

#[test]
fn a_reader_is_refused_outside_the_pool() {
    let mut store: TargetedEvents<u8, u64> = TargetedEvents::with_shard_count(2);
    store.push_exclusive_among(2, 1, 1).unwrap();
    let mut reader = TargetedReader::new(&mut store, |key: &u64| Some(*key));
    let out = reader.drain_par(|_, event, item| (event, item));
    assert_eq!(out, Err(Fatal::OutsidePool));
    assert_eq!(store.len(), 1);
}
