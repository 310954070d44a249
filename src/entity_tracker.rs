use crate::id_tracker::IdTracker;
use crate::models::{Entity, EntityType};
use std::collections::HashMap;
use vstd::prelude::*;

verus! {

broadcast use vstd::std_specs::hash::group_hash_axioms;

/// `m` after a get-or-create of `id` whose fresh record would be `fresh`.
pub open spec fn after_get_or_create(m: Map<u64, Entity>, id: u64, fresh: Entity) -> Map<u64, Entity> {
    if m.contains_key(id) {
        m
    } else {
        m.insert(id, fresh)
    }
}

/// `m` with the record at `from` moved to `to`, its id rewritten.
pub open spec fn remap_one(m: Map<u64, Entity>, from: u64, to: u64) -> Map<u64, Entity> {
    if m.contains_key(from) {
        m.remove(from).insert(to, Entity { id: to, ..m[from] })
    } else {
        m
    }
}

/// `m` after applying the id remappings of `pairs` in order.
pub open spec fn remap_all(m: Map<u64, Entity>, pairs: Seq<(u64, u64)>) -> Map<u64, Entity>
    decreases pairs.len(),
{
    if pairs.len() == 0 {
        m
    } else {
        remap_one(remap_all(m, pairs.drop_last()), pairs.last().0, pairs.last().1)
    }
}

/// `id` after the remappings of `pairs`, applied in order.
pub open spec fn remap_id(id: u64, pairs: Seq<(u64, u64)>) -> u64
    decreases pairs.len(),
{
    if pairs.len() == 0 {
        id
    } else {
        let prev = remap_id(id, pairs.drop_last());
        if prev == pairs.last().0 {
            pairs.last().1
        } else {
            prev
        }
    }
}

/// The class of the first entry for `skill_id` in a player skill table of
/// (skill id, class id) pairs, or 0 if the skill is not a player skill.
pub open spec fn skill_class(table: Seq<(u32, u32)>, skill_id: u32) -> u32
    decreases table.len(),
{
    if table.len() == 0 {
        0
    } else if table[0].0 == skill_id {
        table[0].1
    } else {
        skill_class(table.skip(1), skill_id)
    }
}

/// Whether `e` is the placeholder record made for the unseen id `id`.
pub open spec fn is_placeholder(e: Entity, id: u64) -> bool {
    e.id == id && e.entity_type == EntityType::Unknown && e.name@.len() == 0 && e.character_id == 0
        && e.owner_id == 0
}

/// Whether an entity acts for an owner, whose source it then is.
pub open spec fn is_owned(e: Entity) -> bool {
    (e.entity_type == EntityType::Projectile || e.entity_type == EntityType::Summon) && e.owner_id != 0
}

/// The canonical map from live object ids to entities.
pub struct EntityTracker {
    pub entities: HashMap<u64, Entity>,
    pub local_player_id: u64,
}

impl EntityTracker {
    /// Every record is filed under its own id.
    pub open spec fn wf(&self) -> bool {
        forall|k: u64| #[trigger] self.entities@.contains_key(k) ==> self.entities@[k].id == k
    }

    pub fn new() -> (r: EntityTracker)
        ensures
            r.wf(),
            r.entities@ == Map::<u64, Entity>::empty(),
            r.local_player_id == 0,
    {
        EntityTracker { entities: HashMap::new(), local_player_id: 0 }
    }

    /// The entity filed under `id`, if any.
    pub fn get(&self, id: u64) -> (r: Option<Entity>)
        ensures
            r == (if self.entities@.contains_key(id) {
                Some(self.entities@[id])
            } else {
                None
            }),
    {
        match self.entities.get(&id) {
            Some(e) => Some(e.copy()),
            None => None,
        }
    }

    /// Files `e` under its id, replacing any earlier record there.
    pub fn insert(&mut self, e: Entity)
        requires
            old(self).wf(),
        ensures
            final(self).wf(),
            final(self).entities@ == old(self).entities@.insert(e.id, e),
            final(self).local_player_id == old(self).local_player_id,
    {
        self.entities.insert(e.id, e);
    }

    /// The entity filed under `id`; an unseen id gets a placeholder record
    /// of unknown type, so that two calls on one id leave one record.
    pub fn get_or_create_entity(&mut self, id: u64) -> (r: Entity)
        requires
            old(self).wf(),
        ensures
            final(self).wf(),
            final(self).entities@ == after_get_or_create(old(self).entities@, id, r),
            r == final(self).entities@[id],
            r.id == id,
            !old(self).entities@.contains_key(id) ==> r.entity_type == EntityType::Unknown
                && r.name@.len() == 0 && r.character_id == 0 && r.owner_id == 0,
            !old(self).entities@.contains_key(id) ==> is_placeholder(r, id),
            final(self).local_player_id == old(self).local_player_id,
    {
        match self.entities.get(&id) {
            Some(e) => e.copy(),
            None => {
                let e = Entity::placeholder(id);
                self.entities.insert(id, e.copy());
                e
            },
        }
    }

    /// The entity that a hit or cast from `id` is credited to: the owner of
    /// a projectile or summon, else the object itself.  Unseen ids get
    /// placeholders as in `get_or_create_entity`.
    pub fn get_source_entity(&mut self, id: u64) -> (r: Entity)
        requires
            old(self).wf(),
        ensures
            final(self).wf(),
            final(self).entities@.contains_key(id),
            is_owned(final(self).entities@[id]) ==> final(self).entities@.contains_key(final(self).entities@[id].owner_id),
            forall|k: u64| #[trigger] final(self).entities@.contains_key(k) && !old(self).entities@.contains_key(k)
                ==> is_placeholder(final(self).entities@[k], k),
            forall|k: u64| #[trigger] old(self).entities@.contains_key(k)
                ==> final(self).entities@.contains_key(k) && final(self).entities@[k] == old(self).entities@[k],
            r == (if is_owned(final(self).entities@[id]) {
                final(self).entities@[final(self).entities@[id].owner_id]
            } else {
                final(self).entities@[id]
            }),
            final(self).local_player_id == old(self).local_player_id,
    {
        let e = self.get_or_create_entity(id);
        if (e.entity_type == EntityType::Projectile || e.entity_type == EntityType::Summon) && e.owner_id != 0 {
            let owner = self.get_or_create_entity(e.owner_id);
            owner
        } else {
            e
        }
    }

    /// Best-effort guess: an entity of still unknown type that casts a skill
    /// of the player skill table is taken to be a player of that skill's
    /// class.  The table decides; nothing checks that the guess is right.
    pub fn guess_is_player(&mut self, e: Entity, skill_id: u32, skills: &Vec<(u32, u32)>) -> (r: Entity)
        requires
            old(self).wf(),
        ensures
            final(self).wf(),
            r == (if e.entity_type == EntityType::Unknown && skill_class(skills@, skill_id) != 0 {
                (Entity { entity_type: EntityType::Player, class_id: skill_class(skills@, skill_id), ..e })
            } else {
                e
            }),
            final(self).entities@ == (if e.entity_type == EntityType::Unknown && skill_class(skills@, skill_id) != 0 {
                old(self).entities@.insert(e.id, r)
            } else {
                old(self).entities@
            }),
            final(self).local_player_id == old(self).local_player_id,
    {
        let class_id = find_skill_class(skills, skill_id);
        if e.entity_type == EntityType::Unknown && class_id != 0 {
            let p = Entity { entity_type: EntityType::Player, class_id, ..e };
            self.entities.insert(p.id, p.copy());
            p
        } else {
            e
        }
    }

    /// Zone entry: every object id is void but the local player's, which
    /// the server reissues as `player_id`.  Returns the local player.
    pub fn init_env(&mut self, player_id: u64, ids: &mut IdTracker) -> (r: Entity)
        requires
            old(self).wf(),
        ensures
            final(self).wf(),
            final(self).entities@ == Map::<u64, Entity>::empty().insert(player_id, r),
            final(self).local_player_id == player_id,
            r.id == player_id,
            old(self).entities@.contains_key(old(self).local_player_id) ==> r == (Entity {
                id: player_id,
                ..old(self).entities@[old(self).local_player_id]
            }),
            !old(self).entities@.contains_key(old(self).local_player_id) ==> r.entity_type == EntityType::Unknown,
            final(ids).entity_by_character@ == (if r.character_id != 0 {
                old(ids).entity_by_character@.insert(r.character_id, player_id)
            } else {
                old(ids).entity_by_character@
            }),
            final(ids).character_by_entity@ == (if r.character_id != 0 {
                old(ids).character_by_entity@.insert(player_id, r.character_id)
            } else {
                old(ids).character_by_entity@
            }),
    {
        let local = match self.entities.get(&self.local_player_id) {
            Some(e) => Entity { id: player_id, ..e.copy() },
            None => Entity::placeholder(player_id),
        };
        let mut fresh: HashMap<u64, Entity> = HashMap::new();
        fresh.insert(player_id, local.copy());
        self.entities = fresh;
        self.local_player_id = player_id;
        if local.character_id != 0 {
            ids.add_mapping(local.character_id, player_id);
        }
        local
    }

    /// Files a player built from its packet fields and records its
    /// character id; `local` marks the observing player.
    pub fn add_player(
        &mut self,
        local: bool,
        id: u64,
        name: String,
        class_id: u32,
        gear_level: u32,
        character_id: u64,
        hp: i64,
        max_hp: i64,
        ids: &mut IdTracker,
    ) -> (r: Entity)
        requires
            old(self).wf(),
        ensures
            final(self).wf(),
            r == (Entity {
                id,
                entity_type: EntityType::Player,
                name,
                class_id,
                gear_level,
                character_id,
                owner_id: 0,
                npc_id: 0,
                current_hp: hp,
                max_hp,
            }),
            final(self).entities@ == old(self).entities@.insert(id, r),
            final(self).local_player_id == (if local { id } else { old(self).local_player_id }),
            final(ids).entity_by_character@ == old(ids).entity_by_character@.insert(character_id, id),
            final(ids).character_by_entity@ == old(ids).character_by_entity@.insert(id, character_id),
    {
        let e = Entity {
            id,
            entity_type: EntityType::Player,
            name,
            class_id,
            gear_level,
            character_id,
            owner_id: 0,
            npc_id: 0,
            current_hp: hp,
            max_hp,
        };
        self.entities.insert(id, e.copy());
        if local {
            self.local_player_id = id;
        }
        ids.add_mapping(character_id, id);
        e
    }

    /// Files a non-player object: an NPC, an esther, a summon or a
    /// projectile, with its owner for the last two.
    pub fn add_object(
        &mut self,
        entity_type: EntityType,
        id: u64,
        owner_id: u64,
        npc_id: u32,
        name: String,
        hp: i64,
        max_hp: i64,
    ) -> (r: Entity)
        requires
            old(self).wf(),
        ensures
            final(self).wf(),
            r == (Entity {
                id,
                entity_type,
                name,
                class_id: 0,
                gear_level: 0,
                character_id: 0,
                owner_id,
                npc_id,
                current_hp: hp,
                max_hp,
            }),
            final(self).entities@ == old(self).entities@.insert(id, r),
            final(self).local_player_id == old(self).local_player_id,
    {
        let e = Entity {
            id,
            entity_type,
            name,
            class_id: 0,
            gear_level: 0,
            character_id: 0,
            owner_id,
            npc_id,
            current_hp: hp,
            max_hp,
        };
        self.entities.insert(id, e.copy());
        e
    }

    /// Re-keys tracked entities after a zone transfer: each pair moves the
    /// record at its first id to its second, keeping everything but the id.
    /// A second id that is already tracked is taken over by the moved
    /// record; with fresh second ids the count is kept (see
    /// `lemma_remap_keeps_count`).
    pub fn migration_execute(&mut self, pairs: &Vec<(u64, u64)>)
        requires
            old(self).wf(),
        ensures
            final(self).wf(),
            final(self).entities@ == remap_all(old(self).entities@, pairs@),
            final(self).local_player_id == remap_id(old(self).local_player_id, pairs@),
    {
        let mut i: usize = 0;
        while i < pairs.len()
            invariant
                i <= pairs@.len(),
                self.wf(),
                self.entities@ == remap_all(old(self).entities@, pairs@.subrange(0, i as int)),
                self.local_player_id == remap_id(old(self).local_player_id, pairs@.subrange(0, i as int)),
            decreases pairs@.len() - i,
        {
            let (from, to) = pairs[i];
            proof {
                let sub1 = pairs@.subrange(0, i + 1);
                assert(sub1.drop_last() =~= pairs@.subrange(0, i as int));
                assert(sub1.last() == (from, to));
            }
            match self.entities.remove(&from) {
                Some(e) => {
                    let moved = Entity { id: to, ..e };
                    self.entities.insert(to, moved);
                },
                None => {},
            }
            if self.local_player_id == from {
                self.local_player_id = to;
            }
            proof {
                assert(self.entities@ =~= remap_all(old(self).entities@, pairs@.subrange(0, i + 1)));
            }
            i = i + 1;
        }
        proof {
            assert(pairs@.subrange(0, pairs@.len() as int) =~= pairs@);
        }
    }
}

/// The class of `skill_id` in the player skill table, or 0.
pub fn find_skill_class(skills: &Vec<(u32, u32)>, skill_id: u32) -> (r: u32)
    ensures
        r == skill_class(skills@, skill_id),
{
    let mut i: usize = 0;
    proof {
        assert(skills@.skip(0) =~= skills@);
    }
    while i < skills.len()
        invariant
            i <= skills@.len(),
            skill_class(skills@, skill_id) == skill_class(skills@.skip(i as int), skill_id),
        decreases skills@.len() - i,
    {
        proof {
            assert(skills@.skip(i as int).skip(1) =~= skills@.skip(i + 1));
        }
        if skills[i].0 == skill_id {
            return skills[i].1;
        }
        i = i + 1;
    }
    proof {
        assert(skills@.skip(i as int).len() == 0);
    }
    0
}

/// Two references to one object id before it is introduced leave the one
/// record that the first made: get-or-create is idempotent.
pub proof fn lemma_get_or_create_idempotent(m: Map<u64, Entity>, id: u64, first: Entity, second: Entity)
    ensures
        after_get_or_create(after_get_or_create(m, id, first), id, second)
            == after_get_or_create(m, id, first),
        after_get_or_create(m, id, first).dom() == m.dom().insert(id),
{
    assert(after_get_or_create(m, id, first).dom() =~= m.dom().insert(id));
}

/// A remapping moves a record to its new id and keeps its character id,
/// name, type and hit points; records at other ids stay as they were.
pub proof fn lemma_remap_preserves_identity(m: Map<u64, Entity>, from: u64, to: u64, k: u64)
    requires
        m.contains_key(from),
    ensures
        remap_one(m, from, to).contains_key(to),
        remap_one(m, from, to)[to].id == to,
        remap_one(m, from, to)[to].character_id == m[from].character_id,
        remap_one(m, from, to)[to].name == m[from].name,
        remap_one(m, from, to)[to].entity_type == m[from].entity_type,
        remap_one(m, from, to)[to].current_hp == m[from].current_hp,
        from != to ==> !remap_one(m, from, to).contains_key(from),
        k != from && k != to && m.contains_key(k) ==> remap_one(m, from, to).contains_key(k)
            && remap_one(m, from, to)[k] == m[k],
{
}

/// Moving a record to an id that no record has keeps the number of
/// tracked entities.
pub proof fn lemma_remap_keeps_count(m: Map<u64, Entity>, from: u64, to: u64)
    requires
        m.dom().finite(),
        m.contains_key(from),
        !m.contains_key(to),
    ensures
        remap_one(m, from, to).dom().finite(),
        remap_one(m, from, to).dom().len() == m.dom().len(),
{
    let r = m.remove(from);
    assert(r.dom() =~= m.dom().remove(from));
    assert(remap_one(m, from, to).dom() =~= m.dom().remove(from).insert(to));
    assert(!m.dom().remove(from).contains(to));
}

/// A migration whose every pair moves a tracked record to an id that is
/// free at that point keeps the number of tracked entities.
pub proof fn lemma_remap_all_keeps_count(m: Map<u64, Entity>, pairs: Seq<(u64, u64)>)
    requires
        m.dom().finite(),
        forall|i: int| 0 <= i < pairs.len() ==> {
            let before = #[trigger] remap_all(m, pairs.subrange(0, i));
            before.contains_key(pairs[i].0) && !before.contains_key(pairs[i].1)
        },
    ensures
        remap_all(m, pairs).dom().finite(),
        remap_all(m, pairs).dom().len() == m.dom().len(),
    decreases pairs.len(),
{
    if pairs.len() > 0 {
        let n = pairs.len() - 1;
        let rest = pairs.drop_last();
        assert forall|i: int| 0 <= i < rest.len() implies {
            let before = #[trigger] remap_all(m, rest.subrange(0, i));
            before.contains_key(rest[i].0) && !before.contains_key(rest[i].1)
        } by {
            assert(rest.subrange(0, i) =~= pairs.subrange(0, i));
            let _ = remap_all(m, pairs.subrange(0, i));
        }
        lemma_remap_all_keeps_count(m, rest);
        assert(pairs.subrange(0, n) =~= rest);
        let _ = remap_all(m, pairs.subrange(0, n));
        lemma_remap_keeps_count(remap_all(m, rest), pairs[n].0, pairs[n].1);
    }
}

} // verus!
