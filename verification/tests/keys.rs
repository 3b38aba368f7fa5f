use targeted_bulk::key::shard_index;
use targeted_bulk::{ConsistentKey, EntityId};

#[test]
fn unsigned_keys_are_their_own_value() {
    assert_eq!(200u8.key(), 200);
    assert_eq!(65_535u16.key(), 65_535);
    assert_eq!(4_000_000_000u32.key(), 4_000_000_000);
    assert_eq!(5u64.key(), 5);
    assert_eq!(usize::MAX.key(), usize::MAX);
    assert_eq!(0usize.key(), 0);
}

#[test]
fn a_wide_key_keeps_the_bits_that_fit_the_word() {
    assert_eq!(u64::MAX.key(), u64::MAX as usize);
    assert_eq!(0x1_0000_0005u64.key(), 0x1_0000_0005u64 as usize);
}

#[test]
fn negative_keys_wrap_around_the_word() {
    assert_eq!((-1i8).key(), usize::MAX);
    assert_eq!((-2i16).key(), usize::MAX - 1);
    assert_eq!((-3i32).key(), usize::MAX - 2);
    assert_eq!(i64::MIN.key(), i64::MIN as usize);
    assert_eq!((-1isize).key(), usize::MAX);
    assert_eq!(i8::MIN.key(), usize::MAX - 127);
}

#[test]
fn positive_signed_keys_are_their_own_value() {
    assert_eq!(127i8.key(), 127);
    assert_eq!(1_000i16.key(), 1_000);
    assert_eq!(70_000i32.key(), 70_000);
    assert_eq!(9i64.key(), 9);
    assert_eq!(isize::MAX.key(), isize::MAX as usize);
}

#[test]
fn the_key_of_a_value_never_changes() {
    let id = EntityId::new(17, 3).unwrap();
    assert_eq!(id.key(), id.key());
    assert_eq!(42u32.key(), 42u32.key());
}

#[test]
fn the_shard_is_the_remainder_of_the_key() {
    assert_eq!(shard_index(&5u64, 4), 1);
    assert_eq!(shard_index(&8u8, 4), 0);
    assert_eq!(shard_index(&7u32, 1), 0);
    assert_eq!(shard_index(&99usize, 100), 99);
    assert_eq!(shard_index(&100usize, 100), 0);
    assert_eq!(shard_index(&(-1i8), 16), 15);
    assert_eq!(shard_index(&usize::MAX, usize::MAX), 0);
    for key in 0..64u16 {
        assert!(shard_index(&key, 7) < 7);
        assert_eq!(shard_index(&key, 7), shard_index(&key, 7));
        assert_eq!(shard_index(&key, 7), (key % 7) as usize);
    }
}

#[test]
fn an_entity_needs_an_odd_generation() {
    assert!(EntityId::new(0, 1).is_some());
    assert!(EntityId::new(31, 1).is_some());
    assert!(EntityId::new(5, 3).is_some());
    assert!(EntityId::new(5, u32::MAX).is_some());
    assert!(EntityId::new(5, 0).is_none());
    assert!(EntityId::new(5, 2).is_none());
    assert!(EntityId::new(u32::MAX, 4).is_none());
}

#[test]
fn an_entity_is_keyed_by_its_index() {
    let id = EntityId::new(12, 5).unwrap();
    assert_eq!(id.index(), 12);
    assert_eq!(id.generation(), 5);
    assert_eq!(id.key(), 12);
    let reborn = EntityId::new(12, 7).unwrap();
    assert_eq!(reborn.key(), 12);
    assert_ne!(id, reborn);
    assert_eq!(EntityId::new(u32::MAX, 1).unwrap().key(), u32::MAX as usize);
    assert_eq!(shard_index(&id, 5), 2);
}
