use vstd::prelude::*;

verus! {

/// Stat kind that carries the current hit points in a stat-pair list.
pub const STAT_HP: u8 = 1;

/// Stat kind that carries the maximum hit points in a stat-pair list.
pub const STAT_MAX_HP: u8 = 27;

/// What kind of object an entity is.  `Unknown` marks a placeholder made
/// for an object id that was referenced before it was introduced.
#[derive(Clone, Copy, Debug, PartialEq, Eq, Structural)]
pub enum EntityType {
    Unknown,
    Player,
    Npc,
    Esther,
    Summon,
    Projectile,
}

/// Visibility of a status effect: on the exact object only, or on every
/// member of the owning party.
#[derive(Clone, Copy, Debug, PartialEq, Eq, Structural)]
pub enum Scope {
    Local,
    Party,
}

/// A live game object as the entity tracker knows it.
#[derive(Debug)]
pub struct Entity {
    pub id: u64,
    pub entity_type: EntityType,
    pub name: String,
    pub class_id: u32,
    pub gear_level: u32,
    pub character_id: u64,
    pub owner_id: u64,
    pub npc_id: u32,
    pub current_hp: i64,
    pub max_hp: i64,
}

impl Entity {
    /// A field-for-field copy.
    pub fn copy(&self) -> (r: Entity)
        ensures
            r == *self,
    {
        Entity {
            id: self.id,
            entity_type: self.entity_type,
            name: self.name.clone(),
            class_id: self.class_id,
            gear_level: self.gear_level,
            character_id: self.character_id,
            owner_id: self.owner_id,
            npc_id: self.npc_id,
            current_hp: self.current_hp,
            max_hp: self.max_hp,
        }
    }

    /// The minimal record synthesised for an object id that no packet has
    /// introduced yet.
    pub fn placeholder(id: u64) -> (r: Entity)
        ensures
            r.id == id,
            r.entity_type == EntityType::Unknown,
            r.name@.len() == 0,
            r.character_id == 0,
            r.owner_id == 0,
            r.current_hp == 0,
            r.max_hp == 0,
    {
        Entity {
            id,
            entity_type: EntityType::Unknown,
            name: String::new(),
            class_id: 0,
            gear_level: 0,
            character_id: 0,
            owner_id: 0,
            npc_id: 0,
            current_hp: 0,
            max_hp: 0,
        }
    }
}

/// The value of the last pair of kind `kind` in `pairs`, or 0 if none.
pub open spec fn stat_value(pairs: Seq<(u8, i64)>, kind: u8) -> i64
    decreases pairs.len(),
{
    if pairs.len() == 0 {
        0
    } else if pairs.last().0 == kind {
        pairs.last().1
    } else {
        stat_value(pairs.drop_last(), kind)
    }
}

/// Current and maximum hit points out of a stat-pair list; a kind that
/// occurs several times counts by its last occurrence, a missing one as 0.
pub fn get_current_and_max_hp(pairs: &Vec<(u8, i64)>) -> (r: (i64, i64))
    ensures
        r.0 == stat_value(pairs@, STAT_HP),
        r.1 == stat_value(pairs@, STAT_MAX_HP),
{
    let mut hp: i64 = 0;
    let mut max_hp: i64 = 0;
    let mut i: usize = 0;
    while i < pairs.len()
        invariant
            i <= pairs.len(),
            hp == stat_value(pairs@.subrange(0, i as int), STAT_HP),
            max_hp == stat_value(pairs@.subrange(0, i as int), STAT_MAX_HP),
        decreases pairs.len() - i,
    {
        let (kind, value) = pairs[i];
        if kind == STAT_HP {
            hp = value;
        } else if kind == STAT_MAX_HP {
            max_hp = value;
        }
        proof {
            assert(pairs@.subrange(0, i + 1).drop_last() =~= pairs@.subrange(0, i as int));
        }
        i = i + 1;
    }
    proof {
        assert(pairs@.subrange(0, pairs.len() as int) =~= pairs@);
    }
    (hp, max_hp)
}

} // verus!
