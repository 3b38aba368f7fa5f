use vstd::prelude::*;

verus! {

/// A target identity that stands for one fixed machine word.
///
/// The word decides which shard the target's events go to, so it has to be
/// the same every time it is asked for: `key` returns exactly `key_spec`,
/// which is a function of the value alone.
pub trait ConsistentKey {
    /// The word this value stands for.
    spec fn key_spec(&self) -> usize;

    /// Computes the word this value stands for.
    fn key(&self) -> (k: usize)
        ensures
            k == self.key_spec(),
    ;
}

/// The shard that a key word belongs to among `shard_count` shards: the
/// remainder of the word by the count. With no shards there is no answer, and
/// the function gives zero.
pub open spec fn shard_of(key: usize, shard_count: nat) -> nat {
    if shard_count == 0 {
        0
    } else {
        (key as nat) % shard_count
    }
}

/// Computes the shard of `target` among `shard_count` shards.
pub fn shard_index<K: ConsistentKey>(target: &K, shard_count: usize) -> (idx: usize)
    requires
        shard_count > 0,
    ensures
        idx == shard_of(target.key_spec(), shard_count as nat),
        idx < shard_count,
{
    target.key() % shard_count
}

impl ConsistentKey for u8 {
    open spec fn key_spec(&self) -> usize {
        *self as usize
    }

    fn key(&self) -> (k: usize) {
        *self as usize
    }
}

impl ConsistentKey for u16 {
    open spec fn key_spec(&self) -> usize {
        *self as usize
    }

    fn key(&self) -> (k: usize) {
        *self as usize
    }
}

impl ConsistentKey for u32 {
    open spec fn key_spec(&self) -> usize {
        *self as usize
    }

    fn key(&self) -> (k: usize) {
        *self as usize
    }
}

impl ConsistentKey for u64 {
    open spec fn key_spec(&self) -> usize {
        *self as usize
    }

    fn key(&self) -> (k: usize) {
        *self as usize
    }
}

impl ConsistentKey for usize {
    open spec fn key_spec(&self) -> usize {
        *self
    }

    fn key(&self) -> (k: usize) {
        *self
    }
}

impl ConsistentKey for i8 {
    open spec fn key_spec(&self) -> usize {
        *self as usize
    }

    fn key(&self) -> (k: usize) {
        *self as usize
    }
}

impl ConsistentKey for i16 {
    open spec fn key_spec(&self) -> usize {
        *self as usize
    }

    fn key(&self) -> (k: usize) {
        *self as usize
    }
}

impl ConsistentKey for i32 {
    open spec fn key_spec(&self) -> usize {
        *self as usize
    }

    fn key(&self) -> (k: usize) {
        *self as usize
    }
}

impl ConsistentKey for i64 {
    open spec fn key_spec(&self) -> usize {
        *self as usize
    }

    fn key(&self) -> (k: usize) {
        *self as usize
    }
}

impl ConsistentKey for isize {
    open spec fn key_spec(&self) -> usize {
        *self as usize
    }

    fn key(&self) -> (k: usize) {
        *self as usize
    }
}

} // verus!
