use vstd::prelude::*;
use crate::key::ConsistentKey;

verus! {

/// The identity of an entity: the index of the slot it lives in and a
/// generation count that tells apart the entities that have used that slot
/// one after another. Only identities with an odd generation exist.
#[derive(Clone, Copy, Debug, PartialEq, Eq, Hash)]
pub struct EntityId {
    index: u32,
    generation: u32,
}

impl EntityId {
    /// The slot index of this identity.
    pub closed spec fn index_spec(&self) -> u32 {
        self.index
    }

    /// The generation count of this identity.
    pub closed spec fn generation_spec(&self) -> u32 {
        self.generation
    }

    /// Whether the identity is one that `new` hands out: its generation is odd.
    pub open spec fn wf(&self) -> bool {
        self.generation_spec() % 2 == 1
    }

    /// Forms an identity from a slot index and a generation count. There is
    /// one exactly when the generation is odd.
    pub fn new(index: u32, generation: u32) -> (id: Option<Self>)
        ensures
            id is Some <==> generation % 2 == 1,
            id matches Some(e) ==> e.wf() && e.index_spec() == index && e.generation_spec()
                == generation,
    {
        if generation % 2 == 1 {
            Some(EntityId { index, generation })
        } else {
            None
        }
    }

    /// The slot index of this identity.
    pub fn index(&self) -> (i: u32)
        ensures
            i == self.index_spec(),
    {
        self.index
    }

    /// The generation count of this identity.
    pub fn generation(&self) -> (g: u32)
        ensures
            g == self.generation_spec(),
    {
        self.generation
    }
}

/// An entity is keyed by its slot index, whatever its generation.
impl ConsistentKey for EntityId {
    open spec fn key_spec(&self) -> usize {
        self.index_spec() as usize
    }

    fn key(&self) -> (k: usize) {
        self.index as usize
    }
}

} // verus!
