use std::collections::HashMap;
use vstd::prelude::*;

verus! {

broadcast use vstd::std_specs::hash::group_hash_axioms;

/// The value stored under `k` in `m`, or `d` if there is none.
pub open spec fn lookup_or(m: Map<u64, u64>, k: u64, d: u64) -> u64 {
    if m.contains_key(k) {
        m[k]
    } else {
        d
    }
}

/// Two-way mapping between stable character ids and the network object
/// ids that currently stand for them.
pub struct IdTracker {
    pub entity_by_character: HashMap<u64, u64>,
    pub character_by_entity: HashMap<u64, u64>,
}

impl IdTracker {
    pub fn new() -> (r: IdTracker)
        ensures
            r.entity_by_character@ == Map::<u64, u64>::empty(),
            r.character_by_entity@ == Map::<u64, u64>::empty(),
    {
        IdTracker { entity_by_character: HashMap::new(), character_by_entity: HashMap::new() }
    }

    /// Records that `character_id` is now represented by `entity_id`.
    pub fn add_mapping(&mut self, character_id: u64, entity_id: u64)
        ensures
            final(self).entity_by_character@ == old(self).entity_by_character@.insert(
                character_id,
                entity_id,
            ),
            final(self).character_by_entity@ == old(self).character_by_entity@.insert(
                entity_id,
                character_id,
            ),
    {
        self.entity_by_character.insert(character_id, entity_id);
        self.character_by_entity.insert(entity_id, character_id);
    }

    /// The object id that stands for `character_id`, if one is known.
    pub fn get_entity_id(&self, character_id: u64) -> (r: Option<u64>)
        ensures
            r == (if self.entity_by_character@.contains_key(character_id) {
                Some(self.entity_by_character@[character_id])
            } else {
                None
            }),
    {
        match self.entity_by_character.get(&character_id) {
            Some(e) => Some(*e),
            None => None,
        }
    }

    /// The character id behind the object `entity_id`, or 0 if unknown.
    pub fn get_local_character_id(&self, entity_id: u64) -> (r: u64)
        ensures
            r == lookup_or(self.character_by_entity@, entity_id, 0),
    {
        match self.character_by_entity.get(&entity_id) {
            Some(c) => *c,
            None => 0,
        }
    }
}

} // verus!
