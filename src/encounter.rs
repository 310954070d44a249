use crate::models::{Entity, EntityType};
use vstd::prelude::*;

verus! {

/// Encounter phase.
#[derive(Clone, Copy, Debug, PartialEq, Eq, Structural)]
pub enum Phase {
    Idle,
    Cleared,
    Ongoing,
    Starting,
}

/// Trigger signals that mark the raid as cleared.
pub open spec fn is_clear_signal(s: u32) -> bool {
    s == 57 || s == 59 || s == 61 || s == 63 || s == 74 || s == 76
}

/// Trigger signals that mark the raid as wiped.
pub open spec fn is_wipe_signal(s: u32) -> bool {
    s == 58 || s == 60 || s == 62 || s == 64 || s == 75 || s == 77
}

/// Combat record of one entity in the current encounter.
#[derive(Debug)]
pub struct EncounterEntity {
    pub id: u64,
    pub character_id: u64,
    pub name: String,
    pub entity_type: EntityType,
    pub class_id: u32,
    pub gear_level: u32,
    pub current_hp: i64,
    pub max_hp: i64,
    pub is_dead: bool,
    pub damage_dealt: u64,
    pub damage_taken: u64,
    pub hits: u64,
    pub buffed_hits: u64,
    pub debuffed_hits: u64,
    pub skill_casts: u64,
    pub last_skill_id: u32,
    pub last_skill_effect_id: u32,
    pub last_modifier: u32,
    pub counters: u64,
    pub identity_gauge: u32,
    pub stagger: u32,
}

impl EncounterEntity {
    pub fn copy(&self) -> (r: EncounterEntity)
        ensures
            r == *self,
    {
        EncounterEntity { name: self.name.clone(), ..*self }
    }
}

/// Whether `y` is a later state of the record `x`: same entity, no less
/// damage dealt, and still dead if it was.
pub open spec fn kept_record(x: EncounterEntity, y: EncounterEntity) -> bool {
    y.name@ == x.name@ && y.damage_dealt >= x.damage_dealt && (x.is_dead ==> y.is_dead)
}

/// Records keep their places and only ever move forward: nothing is
/// removed, damage dealt never drops, and the dead stay dead.
pub open spec fn grows(a: Seq<EncounterEntity>, b: Seq<EncounterEntity>) -> bool {
    a.len() <= b.len() && forall|i: int| 0 <= i < a.len() ==> #[trigger] kept_record(a[i], b[i])
}

/// Whether a record may appear in a published snapshot.
pub open spec fn publishable(e: EncounterEntity) -> bool {
    (e.entity_type == EntityType::Player || e.entity_type == EntityType::Esther) && e.damage_dealt > 0
}

/// The index of the record called `name`, if any.
pub open spec fn index_of(s: Seq<EncounterEntity>, name: Seq<char>) -> Option<int> {
    if exists|i: int| 0 <= i < s.len() && (#[trigger] s[i]).name@ == name {
        Some(choose|i: int| 0 <= i < s.len() && (#[trigger] s[i]).name@ == name)
    } else {
        None
    }
}

/// The record called `name`, if any.
pub open spec fn record_of(s: Seq<EncounterEntity>, name: Seq<char>) -> Option<EncounterEntity> {
    match index_of(s, name) {
        Some(i) => Some(s[i]),
        None => None,
    }
}

/// Damage dealt so far by the entity called `name` (0 if unrecorded).
pub open spec fn dealt_of(s: Seq<EncounterEntity>, name: Seq<char>) -> u64 {
    match record_of(s, name) {
        Some(r) => r.damage_dealt,
        None => 0,
    }
}

/// `a + b`, capped at the largest `u64`.
pub open spec fn sat_add(a: u64, b: u64) -> u64 {
    if a + b > u64::MAX {
        u64::MAX
    } else {
        (a + b) as u64
    }
}

/// With unique names, the record at `i` is the one that `record_of` finds.
pub proof fn lemma_record_at(s: Seq<EncounterEntity>, i: int)
    requires
        0 <= i < s.len(),
        forall|x: int, y: int| 0 <= x < y < s.len() ==> (#[trigger] s[x]).name@ != (#[trigger] s[y]).name@,
    ensures
        index_of(s, s[i].name@) == Some(i),
        record_of(s, s[i].name@) == Some(s[i]),
{
    let j = choose|j: int| 0 <= j < s.len() && (#[trigger] s[j]).name@ == s[i].name@;
    if j < i {
        assert(s[j].name@ != s[i].name@);
    } else if i < j {
        assert(s[i].name@ != s[j].name@);
    }
}

/// Replacing a record leaves the records of every other name as they were.
pub proof fn lemma_update_other(a: Seq<EncounterEntity>, i: int, rec: EncounterEntity, n: Seq<char>)
    requires
        0 <= i < a.len(),
        rec.name@ == a[i].name@,
        n != a[i].name@,
        forall|x: int, y: int| 0 <= x < y < a.len() ==> (#[trigger] a[x]).name@ != (#[trigger] a[y]).name@,
    ensures
        record_of(a.update(i, rec), n) == record_of(a, n),
{
    let b = a.update(i, rec);
    assert forall|x: int, y: int| 0 <= x < y < b.len() implies (#[trigger] b[x]).name@ != (#[trigger] b[y]).name@ by {
        assert(a[x].name@ != a[y].name@);
    }
    match index_of(a, n) {
        Some(k) => {
            lemma_record_at(a, k);
            lemma_record_at(b, k);
        },
        None => {
            assert forall|x: int| 0 <= x < b.len() implies (#[trigger] b[x]).name@ != n by {
                if x != i {
                    assert(b[x] == a[x]);
                }
            }
            lemma_record_absent(b, n);
        },
    }
}

/// Appending a record leaves the records of every other name as they were.
pub proof fn lemma_push_other(a: Seq<EncounterEntity>, rec: EncounterEntity, n: Seq<char>)
    requires
        n != rec.name@,
        forall|x: int| 0 <= x < a.len() ==> (#[trigger] a[x]).name@ != rec.name@,
        forall|x: int, y: int| 0 <= x < y < a.len() ==> (#[trigger] a[x]).name@ != (#[trigger] a[y]).name@,
    ensures
        record_of(a.push(rec), n) == record_of(a, n),
{
    let b = a.push(rec);
    assert forall|x: int, y: int| 0 <= x < y < b.len() implies (#[trigger] b[x]).name@ != (#[trigger] b[y]).name@ by {
        if y < a.len() {
            assert(a[x].name@ != a[y].name@);
        } else {
            assert(b[y] == rec);
        }
    }
    match index_of(a, n) {
        Some(k) => {
            lemma_record_at(a, k);
            assert(b[k] == a[k]);
            lemma_record_at(b, k);
        },
        None => {
            assert forall|x: int| 0 <= x < b.len() implies (#[trigger] b[x]).name@ != n by {
                if x < a.len() {
                    assert(b[x] == a[x]);
                }
            }
            lemma_record_absent(b, n);
        },
    }
}

/// `grows` is transitive.
pub proof fn lemma_grows_trans(a: Seq<EncounterEntity>, b: Seq<EncounterEntity>, c: Seq<EncounterEntity>)
    requires
        grows(a, b),
        grows(b, c),
    ensures
        grows(a, c),
{
    assert forall|i: int| 0 <= i < a.len() implies #[trigger] kept_record(a[i], c[i]) by {
        assert(kept_record(a[i], b[i]));
        assert(kept_record(b[i], c[i]));
    }
}

/// Without a record called `name`, `record_of` finds none.
pub proof fn lemma_record_absent(s: Seq<EncounterEntity>, name: Seq<char>)
    requires
        forall|i: int| 0 <= i < s.len() ==> (#[trigger] s[i]).name@ != name,
    ensures
        record_of(s, name).is_none(),
{
}

/// What `prepare_snapshot` returns for encounter `e`: `r` is the copy of
/// `e` keeping only the publishable records, with the boss resolved by
/// name, or `None` when no record is publishable.
pub open spec fn snapshot_of(e: Encounter, boss_dead: bool, r: Option<Encounter>) -> bool {
    &&& r.is_some() == (e.entities@.filter(|x: EncounterEntity| publishable(x)).len() > 0)
    &&& match r {
        Some(c) => {
            &&& c.entities@ == e.entities@.filter(|x: EncounterEntity| publishable(x))
            &&& c.entities@.len() > 0
            &&& forall|i: int| 0 <= i < c.entities@.len() ==> publishable(#[trigger] c.entities@[i])
            &&& c.fight_start == e.fight_start
            &&& c.phase == e.phase
            &&& c.raid_clear == e.raid_clear
            &&& c.raid_end == e.raid_end
            &&& c.local_player == e.local_player
            &&& if e.current_boss_name@.len() == 0 {
                c.current_boss_name == e.current_boss_name && c.current_boss == e.current_boss
            } else {
                match record_of(e.entities@, e.current_boss_name@) {
                    Some(b) => c.current_boss_name == e.current_boss_name && c.current_boss == Some(
                        if boss_dead { (EncounterEntity { is_dead: true, current_hp: 0, ..b }) } else { b }),
                    None => c.current_boss_name@.len() == 0 && c.current_boss.is_none(),
                }
            }
        },
        None => true,
    }
}

/// The combat state of the current encounter; a copy of it, filtered, is
/// what gets published.
#[derive(Debug)]
pub struct Encounter {
    pub fight_start: i64,
    pub last_combat_packet: i64,
    pub local_player: String,
    pub current_boss_name: String,
    pub current_boss: Option<EncounterEntity>,
    pub entities: Vec<EncounterEntity>,
    pub phase: Phase,
    pub raid_clear: bool,
    pub raid_end: bool,
    pub boss_dead_update: bool,
    pub saved: bool,
}

impl Encounter {
    /// Names are unique, and a dead entity has no hit points.
    pub open spec fn wf(&self) -> bool {
        &&& forall|i: int, j: int|
            0 <= i < j < self.entities@.len() ==> (#[trigger] self.entities@[i]).name@
                != (#[trigger] self.entities@[j]).name@
        &&& forall|i: int|
            0 <= i < self.entities@.len() ==> (#[trigger] self.entities@[i]).is_dead
                ==> self.entities@[i].current_hp == 0
    }

    /// Whether the encounter is as a soft reset leaves it.
    pub open spec fn is_reset(&self) -> bool {
        &&& self.entities@.len() == 0
        &&& self.fight_start == 0
        &&& self.last_combat_packet == 0
        &&& self.current_boss_name@.len() == 0
        &&& self.current_boss.is_none()
        &&& !self.raid_clear
        &&& !self.raid_end
        &&& !self.boss_dead_update
        &&& !self.saved
    }

    pub fn new() -> (r: Encounter)
        ensures
            r.wf(),
            r.is_reset(),
            r.phase == Phase::Idle,
            r.local_player@.len() == 0,
    {
        Encounter {
            fight_start: 0,
            last_combat_packet: 0,
            local_player: String::new(),
            current_boss_name: String::new(),
            current_boss: None,
            entities: Vec::new(),
            phase: Phase::Idle,
            raid_clear: false,
            raid_end: false,
            boss_dead_update: false,
            saved: false,
        }
    }

    /// Whether `o` holds the same state as `self`.
    pub open spec fn same_state(&self, o: &Encounter) -> bool {
        &&& o.fight_start == self.fight_start
        &&& o.last_combat_packet == self.last_combat_packet
        &&& o.local_player == self.local_player
        &&& o.current_boss_name == self.current_boss_name
        &&& o.current_boss == self.current_boss
        &&& o.entities@ == self.entities@
        &&& o.phase == self.phase
        &&& o.raid_clear == self.raid_clear
        &&& o.raid_end == self.raid_end
        &&& o.boss_dead_update == self.boss_dead_update
        &&& o.saved == self.saved
    }

    /// Whether `o` differs from `self` in its records at most.
    pub open spec fn same_but_records(&self, o: &Encounter) -> bool {
        &&& o.fight_start == self.fight_start
        &&& o.last_combat_packet == self.last_combat_packet
        &&& o.local_player == self.local_player
        &&& o.current_boss_name == self.current_boss_name
        &&& o.current_boss == self.current_boss
        &&& o.phase == self.phase
        &&& o.raid_clear == self.raid_clear
        &&& o.raid_end == self.raid_end
        &&& o.boss_dead_update == self.boss_dead_update
        &&& o.saved == self.saved
    }

    /// A deep copy, sharing nothing with `self`.
    pub fn copy(&self) -> (r: Encounter)
        ensures
            self.same_state(&r),
    {
        let mut entities: Vec<EncounterEntity> = Vec::new();
        let mut i: usize = 0;
        while i < self.entities.len()
            invariant
                i <= self.entities@.len(),
                entities@ == self.entities@.subrange(0, i as int),
            decreases self.entities@.len() - i,
        {
            entities.push(self.entities[i].copy());
            proof {
                assert(entities@ =~= self.entities@.subrange(0, i + 1));
            }
            i = i + 1;
        }
        proof {
            assert(entities@ =~= self.entities@);
        }
        let current_boss = match &self.current_boss {
            Some(b) => Some(b.copy()),
            None => None,
        };
        Encounter {
            local_player: self.local_player.clone(),
            current_boss_name: self.current_boss_name.clone(),
            current_boss,
            entities,
            ..*self
        }
    }

    /// Clears the combat state for the next encounter: every record, the
    /// boss, the fight start and all flags.  The phase and the local
    /// player's name are kept.
    pub fn soft_reset(&mut self)
        ensures
            final(self).wf(),
            final(self).is_reset(),
            final(self).phase == old(self).phase,
            final(self).local_player == old(self).local_player,
    {
        self.entities = Vec::new();
        self.current_boss_name = String::new();
        self.current_boss = None;
        self.fight_start = 0;
        self.last_combat_packet = 0;
        self.raid_clear = false;
        self.raid_end = false;
        self.boss_dead_update = false;
        self.saved = false;
    }

    /// The index of the record called `name`.
    pub fn find(&self, name: &String) -> (r: Option<usize>)
        ensures
            match r {
                Some(i) => i < self.entities@.len() && self.entities@[i as int].name@ == name@,
                None => forall|i: int| 0 <= i < self.entities@.len() ==> (#[trigger] self.entities@[i]).name@ != name@,
            },
    {
        let mut i: usize = 0;
        while i < self.entities.len()
            invariant
                i <= self.entities@.len(),
                forall|k: int| 0 <= k < i ==> (#[trigger] self.entities@[k]).name@ != name@,
            decreases self.entities@.len() - i,
        {
            if self.entities[i].name == *name {
                return Some(i);
            }
            i = i + 1;
        }
        None
    }

    /// Replaces record `i` by a later state of it.
    fn replace(&mut self, i: usize, rec: EncounterEntity)
        requires
            old(self).wf(),
            i < old(self).entities@.len(),
            kept_record(old(self).entities@[i as int], rec),
            rec.is_dead ==> rec.current_hp == 0,
        ensures
            final(self).wf(),
            final(self).entities@ == old(self).entities@.update(i as int, rec),
            grows(old(self).entities@, final(self).entities@),
            record_of(final(self).entities@, rec.name@) == Some(rec),
            forall|n: Seq<char>| n != rec.name@ ==> #[trigger] record_of(final(self).entities@, n) == record_of(old(self).entities@, n),
            old(self).same_but_records(&*final(self)),
    {
        self.entities.set(i, rec);
        proof {
            let a = old(self).entities@;
            assert forall|x: int, y: int| 0 <= x < y < self.entities@.len() implies (#[trigger] self.entities@[x]).name@
                != (#[trigger] self.entities@[y]).name@ by {
                assert(a[x].name@ != a[y].name@);
            }
            assert forall|x: int| 0 <= x < a.len() implies #[trigger] kept_record(a[x], self.entities@[x]) by {}
            lemma_record_at(self.entities@, i as int);
            assert forall|n: Seq<char>| n != rec.name@ implies #[trigger] record_of(self.entities@, n) == record_of(a, n) by {
                lemma_update_other(a, i as int, rec, n);
            }
        }
    }

    /// The index of the record of `e`, made fresh with no combat history if
    /// there is none.  Entities without a name are not recorded.
    fn record_index(&mut self, e: &Entity) -> (r: Option<usize>)
        requires
            old(self).wf(),
        ensures
            final(self).wf(),
            grows(old(self).entities@, final(self).entities@),
            final(self).entities@.len() <= old(self).entities@.len() + 1,
            match r {
                Some(i) => i < final(self).entities@.len() && final(self).entities@[i as int].name@ == e.name@,
                None => e.name@.len() == 0 && final(self).entities@ == old(self).entities@,
            },
            e.name@.len() != 0 <==> r.is_some(),
            forall|n: Seq<char>| n != e.name@ ==> #[trigger] record_of(final(self).entities@, n) == record_of(old(self).entities@, n),
            old(self).same_but_records(&*final(self)),
            match r {
                Some(i) => if i < old(self).entities@.len() {
                    final(self).entities@ == old(self).entities@
                } else {
                    &&& i == old(self).entities@.len()
                    &&& final(self).entities@.drop_last() == old(self).entities@
                    &&& final(self).entities@[i as int].damage_dealt == 0
                    &&& !final(self).entities@[i as int].is_dead
                    &&& forall|k: int| 0 <= k < old(self).entities@.len() ==> (#[trigger] old(self).entities@[k]).name@ != e.name@
                    &&& final(self).entities@[i as int].counters == 0
                    &&& final(self).entities@[i as int].skill_casts == 0
                    &&& final(self).entities@[i as int].hits == 0
                    &&& final(self).entities@[i as int].buffed_hits == 0
                    &&& final(self).entities@[i as int].debuffed_hits == 0
                    &&& final(self).entities@[i as int].damage_taken == 0
                },
                None => true,
            },
            match r {
                Some(i) => record_of(old(self).entities@, e.name@) == (if i < old(self).entities@.len() {
                    Some(final(self).entities@[i as int])
                } else {
                    None
                }),
                None => true,
            },
    {
        if e.name.as_str().is_empty() {
            return None;
        }
        match self.find(&e.name) {
            Some(i) => {
                proof {
                    lemma_record_at(self.entities@, i as int);
                }
                Some(i)
            },
            None => {
                proof {
                    lemma_record_absent(self.entities@, e.name@);
                }
                let rec = EncounterEntity {
                    id: e.id,
                    character_id: e.character_id,
                    name: e.name.clone(),
                    entity_type: e.entity_type,
                    class_id: e.class_id,
                    gear_level: e.gear_level,
                    current_hp: e.current_hp,
                    max_hp: e.max_hp,
                    is_dead: false,
                    damage_dealt: 0,
                    damage_taken: 0,
                    hits: 0,
                    buffed_hits: 0,
                    debuffed_hits: 0,
                    skill_casts: 0,
                    last_skill_id: 0,
                    last_skill_effect_id: 0,
                    last_modifier: 0,
                    counters: 0,
                    identity_gauge: 0,
                    stagger: 0,
                };
                let ghost a = self.entities@;
                let ghost rec_ghost = rec;
                self.entities.push(rec);
                proof {
                    assert forall|x: int, y: int| 0 <= x < y < self.entities@.len() implies (#[trigger] self.entities@[x]).name@
                        != (#[trigger] self.entities@[y]).name@ by {
                        if y < a.len() {
                            assert(a[x].name@ != a[y].name@);
                        } else {
                            assert(a[x].name@ != e.name@);
                        }
                    }
                    assert forall|x: int| 0 <= x < a.len() implies #[trigger] kept_record(a[x], self.entities@[x]) by {}
                    assert(self.entities@.drop_last() =~= a);
                    assert forall|n: Seq<char>| n != e.name@ implies #[trigger] record_of(self.entities@, n) == record_of(a, n) by {
                        lemma_push_other(a, rec_ghost, n);
                    }
                }
                Some(self.entities.len() - 1)
            },
        }
    }

    /// Updates the record of `e`, made if missing, from a spawn or init
    /// packet: identity, type and hit points.  A dead record stays at 0 HP.
    pub fn on_spawn(&mut self, e: &Entity, hp: i64, max_hp: i64)
        requires
            old(self).wf(),
        ensures
            final(self).wf(),
            grows(old(self).entities@, final(self).entities@),
            old(self).same_but_records(&*final(self)),
            forall|n: Seq<char>| n != e.name@ ==> #[trigger] record_of(final(self).entities@, n) == record_of(old(self).entities@, n),
            e.name@.len() == 0 ==> final(self).entities@ == old(self).entities@,
            e.name@.len() != 0 ==> match record_of(final(self).entities@, e.name@) {
                Some(r) => r.id == e.id && r.entity_type == e.entity_type && r.max_hp == max_hp
                    && r.current_hp == (if r.is_dead { 0 } else { hp })
                    && r.damage_dealt == dealt_of(old(self).entities@, e.name@)
                    && r.is_dead == match record_of(old(self).entities@, e.name@) {
                        Some(o) => o.is_dead,
                        None => false,
                    },
                None => false,
            },
    {
        let ghost a = self.entities@;
        match self.record_index(e) {
            Some(i) => {
                let ghost b = self.entities@;
                let old_rec = self.entities[i].copy();
                let dead = old_rec.is_dead;
                let rec = EncounterEntity {
                    id: e.id,
                    character_id: e.character_id,
                    entity_type: e.entity_type,
                    class_id: e.class_id,
                    gear_level: e.gear_level,
                    current_hp: if dead { 0 } else { hp },
                    max_hp,
                    ..old_rec
                };
                self.replace(i, rec);
                proof {
                    lemma_record_at(self.entities@, i as int);
                    if (i as int) < a.len() {
                        lemma_record_at(a, i as int);
                    } else {
                        lemma_record_absent(a, e.name@);
                    }
                    assert forall|k: int| 0 <= k < a.len() implies #[trigger] kept_record(a[k], self.entities@[k]) by {
                        if (i as int) >= a.len() {
                            assert(b[k] == a[k]);
                        }
                        assert(kept_record(b[k], self.entities@[k]));
                    }
                }
            },
            None => {},
        }
    }

    /// Refreshes the local player's identity from the entity tracker.
    pub fn update_local_player(&mut self, e: &Entity)
        requires
            old(self).wf(),
        ensures
            final(self).wf(),
            grows(old(self).entities@, final(self).entities@),
            final(self).local_player == e.name,
            final(self).current_boss_name == old(self).current_boss_name,
            final(self).fight_start == old(self).fight_start,
            final(self).phase == old(self).phase,
            final(self).raid_clear == old(self).raid_clear,
            final(self).raid_end == old(self).raid_end,
            final(self).boss_dead_update == old(self).boss_dead_update,
            match record_of(old(self).entities@, e.name@) {
                Some(r) => record_of(final(self).entities@, e.name@) == Some(
                    (EncounterEntity {
                        id: e.id,
                        character_id: e.character_id,
                        entity_type: e.entity_type,
                        class_id: e.class_id,
                        gear_level: e.gear_level,
                        ..r
                    })),
                None => final(self).entities@ == old(self).entities@,
            },
            forall|n: Seq<char>| n != e.name@ ==> #[trigger] record_of(final(self).entities@, n) == record_of(old(self).entities@, n),
    {
        self.local_player = e.name.clone();
        match self.find(&e.name) {
            Some(i) => {
                proof {
                    lemma_record_at(self.entities@, i as int);
                }
                let old_rec = self.entities[i].copy();
                let rec = EncounterEntity {
                    id: e.id,
                    character_id: e.character_id,
                    entity_type: e.entity_type,
                    class_id: e.class_id,
                    gear_level: e.gear_level,
                    ..old_rec
                };
                self.replace(i, rec);
            },
            None => {
                proof {
                    lemma_record_absent(self.entities@, e.name@);
                }
            },
        }
    }

    /// Marks the entity dead with no hit points; it stays in the records.
    /// The boss's death raises the boss-death edge.
    pub fn on_death(&mut self, e: &Entity)
        requires
            old(self).wf(),
        ensures
            final(self).wf(),
            grows(old(self).entities@, final(self).entities@),
            forall|n: Seq<char>| n != e.name@ ==> #[trigger] record_of(final(self).entities@, n) == record_of(old(self).entities@, n),
            final(self).entities@.len() == old(self).entities@.len(),
            match record_of(old(self).entities@, e.name@) {
                Some(r) => record_of(final(self).entities@, e.name@) == Some(
                    (EncounterEntity { is_dead: true, current_hp: 0, ..r })),
                None => final(self).entities@ == old(self).entities@,
            },
            final(self).boss_dead_update == (old(self).boss_dead_update || (
                record_of(old(self).entities@, e.name@).is_some() && e.name@ == old(self).current_boss_name@)),
            final(self).current_boss_name == old(self).current_boss_name,
            final(self).fight_start == old(self).fight_start,
            final(self).phase == old(self).phase,
            final(self).raid_clear == old(self).raid_clear,
            final(self).raid_end == old(self).raid_end,
            final(self).local_player == old(self).local_player,
    {
        match self.find(&e.name) {
            Some(i) => {
                proof {
                    lemma_record_at(self.entities@, i as int);
                }
                let old_rec = self.entities[i].copy();
                let rec = EncounterEntity { is_dead: true, current_hp: 0, ..old_rec };
                self.replace(i, rec);
                proof {
                    lemma_record_at(self.entities@, i as int);
                }
                if e.name == self.current_boss_name {
                    self.boss_dead_update = true;
                }
            },
            None => {
                proof {
                    lemma_record_absent(self.entities@, e.name@);
                }
            },
        }
    }

    /// Counts a counterattack by `e`.
    pub fn on_counterattack(&mut self, e: &Entity)
        requires
            old(self).wf(),
        ensures
            final(self).wf(),
            grows(old(self).entities@, final(self).entities@),
            e.name@.len() == 0 ==> final(self).entities@ == old(self).entities@,
            e.name@.len() != 0 ==> match record_of(final(self).entities@, e.name@) {
                Some(r) => r.counters == sat_add(match record_of(old(self).entities@, e.name@) { Some(o) => o.counters, None => 0 }, 1),
                None => false,
            },
            old(self).same_but_records(&*final(self)),
    {
        let ghost a = self.entities@;
        match self.record_index(e) {
            Some(i) => {
                let ghost b = self.entities@;
                let old_rec = self.entities[i].copy();
                let rec = EncounterEntity { counters: if old_rec.counters < u64::MAX { old_rec.counters + 1 } else { old_rec.counters }, ..old_rec };
                self.replace(i, rec);
                proof {
                    lemma_grows_trans(a, b, self.entities@);
                }
            },
            None => {},
        }
    }

    /// Records `e`'s new identity gauge value.
    pub fn on_identity_gain(&mut self, e: &Entity, gauge: u32)
        requires
            old(self).wf(),
        ensures
            final(self).wf(),
            grows(old(self).entities@, final(self).entities@),
            e.name@.len() == 0 ==> final(self).entities@ == old(self).entities@,
            e.name@.len() != 0 ==> match record_of(final(self).entities@, e.name@) {
                Some(r) => r.identity_gauge == gauge,
                None => false,
            },
            old(self).same_but_records(&*final(self)),
    {
        let ghost a = self.entities@;
        match self.record_index(e) {
            Some(i) => {
                let ghost b = self.entities@;
                let old_rec = self.entities[i].copy();
                let rec = EncounterEntity { identity_gauge: gauge, ..old_rec };
                self.replace(i, rec);
                proof {
                    lemma_grows_trans(a, b, self.entities@);
                }
            },
            None => {},
        }
    }

    /// Records `e`'s new stagger (paralysis) value.
    pub fn on_stagger_change(&mut self, e: &Entity, value: u32)
        requires
            old(self).wf(),
        ensures
            final(self).wf(),
            grows(old(self).entities@, final(self).entities@),
            e.name@.len() == 0 ==> final(self).entities@ == old(self).entities@,
            e.name@.len() != 0 ==> match record_of(final(self).entities@, e.name@) {
                Some(r) => r.stagger == value,
                None => false,
            },
            old(self).same_but_records(&*final(self)),
    {
        let ghost a = self.entities@;
        match self.record_index(e) {
            Some(i) => {
                let ghost b = self.entities@;
                let old_rec = self.entities[i].copy();
                let rec = EncounterEntity { stagger: value, ..old_rec };
                self.replace(i, rec);
                proof {
                    lemma_grows_trans(a, b, self.entities@);
                }
            },
            None => {},
        }
    }

    /// Counts a skill cast by `e` at `timestamp`.
    pub fn on_skill_start(&mut self, e: &Entity, skill_id: u32, timestamp: i64)
        requires
            old(self).wf(),
        ensures
            final(self).wf(),
            grows(old(self).entities@, final(self).entities@),
            e.name@.len() == 0 ==> final(self).entities@ == old(self).entities@,
            e.name@.len() != 0 ==> match record_of(final(self).entities@, e.name@) {
                Some(r) => r.skill_casts == sat_add(match record_of(old(self).entities@, e.name@) { Some(o) => o.skill_casts, None => 0 }, 1) && r.last_skill_id == skill_id,
                None => false,
            },
            final(self).last_combat_packet == timestamp,
            final(self).fight_start == old(self).fight_start,
            final(self).current_boss_name == old(self).current_boss_name,
            final(self).phase == old(self).phase,
            final(self).raid_clear == old(self).raid_clear,
            final(self).raid_end == old(self).raid_end,
            final(self).boss_dead_update == old(self).boss_dead_update,
            final(self).local_player == old(self).local_player,
    {
        let ghost a = self.entities@;
        match self.record_index(e) {
            Some(i) => {
                let ghost b = self.entities@;
                let old_rec = self.entities[i].copy();
                let rec = EncounterEntity { skill_casts: if old_rec.skill_casts < u64::MAX { old_rec.skill_casts + 1 } else { old_rec.skill_casts }, last_skill_id: skill_id, ..old_rec };
                self.replace(i, rec);
                proof {
                    lemma_grows_trans(a, b, self.entities@);
                }
            },
            None => {},
        }
        self.last_combat_packet = timestamp;
    }

    /// Moves to phase `phase`.  Clearing the raid and the raid result end
    /// the encounter; an ended encounter with a known boss is ready to be
    /// saved.
    pub fn on_phase_transition(&mut self, phase: Phase)
        ensures
            final(self).phase == phase,
            final(self).raid_end == (old(self).raid_end || phase == Phase::Cleared || phase == Phase::Idle),
            final(self).saved == (old(self).saved || ((phase == Phase::Cleared || phase == Phase::Idle)
                && old(self).current_boss_name@.len() != 0)),
            final(self).entities == old(self).entities,
            final(self).wf() == old(self).wf(),
            final(self).current_boss_name == old(self).current_boss_name,
            final(self).fight_start == old(self).fight_start,
            final(self).raid_clear == old(self).raid_clear,
            final(self).boss_dead_update == old(self).boss_dead_update,
            final(self).local_player == old(self).local_player,
            *final(self) == (Encounter {
                phase,
                raid_end: old(self).raid_end || phase == Phase::Cleared || phase == Phase::Idle,
                saved: old(self).saved || ((phase == Phase::Cleared || phase == Phase::Idle)
                    && old(self).current_boss_name@.len() != 0),
                ..*old(self)
            }),
    {
        self.phase = phase;
        if phase == Phase::Cleared || phase == Phase::Idle {
            self.raid_end = true;
            if !self.current_boss_name.as_str().is_empty() {
                self.saved = true;
            }
        }
    }

    /// A boss battle status trigger: the fight is starting if it has no
    /// start time and no boss yet, and goes on otherwise.
    pub fn on_boss_battle_status(&mut self)
        ensures
            final(self).phase == (if old(self).fight_start == 0 && old(self).current_boss_name@.len() == 0 {
                Phase::Starting
            } else {
                Phase::Ongoing
            }),
            final(self).entities == old(self).entities,
            final(self).wf() == old(self).wf(),
            final(self).raid_end == old(self).raid_end,
            final(self).saved == old(self).saved,
            final(self).current_boss_name == old(self).current_boss_name,
            final(self).fight_start == old(self).fight_start,
            final(self).raid_clear == old(self).raid_clear,
            final(self).boss_dead_update == old(self).boss_dead_update,
            final(self).local_player == old(self).local_player,
            *final(self) == (Encounter {
                phase: if old(self).fight_start == 0 && old(self).current_boss_name@.len() == 0 {
                    Phase::Starting
                } else {
                    Phase::Ongoing
                },
                ..*old(self)
            }),
    {
        if self.fight_start == 0 && self.current_boss_name.as_str().is_empty() {
            self.on_phase_transition(Phase::Starting);
        } else {
            self.on_phase_transition(Phase::Ongoing);
        }
    }

    /// A trigger signal: one of the clear signals sets the raid-clear flag,
    /// one of the wipe signals unsets it, any other leaves it.
    pub fn on_trigger_start(&mut self, signal: u32)
        ensures
            final(self).raid_clear == (if is_clear_signal(signal) {
                true
            } else if is_wipe_signal(signal) {
                false
            } else {
                old(self).raid_clear
            }),
            final(self).entities == old(self).entities,
            final(self).wf() == old(self).wf(),
            final(self).phase == old(self).phase,
            final(self).raid_end == old(self).raid_end,
            final(self).saved == old(self).saved,
            final(self).current_boss_name == old(self).current_boss_name,
            final(self).fight_start == old(self).fight_start,
            final(self).boss_dead_update == old(self).boss_dead_update,
            final(self).local_player == old(self).local_player,
            *final(self) == (Encounter {
                raid_clear: if is_clear_signal(signal) {
                    true
                } else if is_wipe_signal(signal) {
                    false
                } else {
                    old(self).raid_clear
                },
                ..*old(self)
            }),
    {
        if signal == 57 || signal == 59 || signal == 61 || signal == 63 || signal == 74 || signal == 76 {
            self.raid_clear = true;
        } else if signal == 58 || signal == 60 || signal == 62 || signal == 64 || signal == 75 || signal == 77 {
            self.raid_clear = false;
        }
    }

    /// Credits one hit of `damage` to `owner`'s record.
    fn credit_owner(
        &mut self,
        owner: &Entity,
        damage: u64,
        skill_id: u32,
        skill_effect_id: u32,
        modifier: u32,
        buffed: bool,
        debuffed: bool,
    )
        requires
            old(self).wf(),
        ensures
            final(self).wf(),
            grows(old(self).entities@, final(self).entities@),
            old(self).same_but_records(&*final(self)),
            owner.name@.len() != 0 ==> record_of(final(self).entities@, owner.name@).is_some()
                && dealt_of(final(self).entities@, owner.name@) == sat_add(dealt_of(old(self).entities@, owner.name@), damage),
            owner.name@.len() != 0 ==> match record_of(final(self).entities@, owner.name@) {
                Some(r) => r.last_skill_id == skill_id && r.last_skill_effect_id == skill_effect_id
                    && r.last_modifier == modifier,
                None => false,
            },
    {
        let ghost a = self.entities@;
        match self.record_index(owner) {
            Some(i) => {
                let ghost b = self.entities@;
                let o = self.entities[i].copy();
                let dealt = if damage > u64::MAX - o.damage_dealt { u64::MAX } else { o.damage_dealt + damage };
                let rec = EncounterEntity {
                    damage_dealt: dealt,
                    hits: if o.hits < u64::MAX { o.hits + 1 } else { o.hits },
                    buffed_hits: if buffed && o.buffed_hits < u64::MAX { o.buffed_hits + 1 } else { o.buffed_hits },
                    debuffed_hits: if debuffed && o.debuffed_hits < u64::MAX { o.debuffed_hits + 1 } else { o.debuffed_hits },
                    last_skill_id: skill_id,
                    last_skill_effect_id: skill_effect_id,
                    last_modifier: modifier,
                    ..o
                };
                self.replace(i, rec);
                proof {
                    lemma_grows_trans(a, b, self.entities@);
                }
            },
            None => {},
        }
    }

    /// Applies one hit of `damage` to `target`'s record, leaving it at
    /// `cur_hp` of `max_hp`; damage dealt stays as it was for everyone.
    fn hit_target(&mut self, target: &Entity, damage: u64, cur_hp: i64, max_hp: i64, keep: Ghost<Seq<char>>)
        requires
            old(self).wf(),
        ensures
            final(self).wf(),
            grows(old(self).entities@, final(self).entities@),
            old(self).same_but_records(&*final(self)),
            dealt_of(final(self).entities@, keep@) == dealt_of(old(self).entities@, keep@),
            record_of(old(self).entities@, keep@).is_some() ==> record_of(final(self).entities@, keep@).is_some(),
            target.name@.len() != 0 ==> match record_of(final(self).entities@, target.name@) {
                Some(r) => r.max_hp == max_hp && r.current_hp == (if r.is_dead { 0 } else { cur_hp }),
                None => false,
            },
    {
        let ghost a = self.entities@;
        match self.record_index(target) {
            Some(j) => {
                let ghost b = self.entities@;
                let t = self.entities[j].copy();
                let taken = if damage > u64::MAX - t.damage_taken { u64::MAX } else { t.damage_taken + damage };
                let dead = t.is_dead;
                let rec = EncounterEntity {
                    damage_taken: taken,
                    current_hp: if dead { 0 } else { cur_hp },
                    max_hp,
                    ..t
                };
                self.replace(j, rec);
                proof {
                    lemma_grows_trans(a, b, self.entities@);
                    let c = self.entities@;
                    if keep@ == target.name@ {
                        lemma_record_at(c, j as int);
                        if (j as int) < a.len() {
                            lemma_record_at(a, j as int);
                        } else {
                            lemma_record_absent(a, keep@);
                        }
                    } else {
                        match index_of(a, keep@) {
                            Some(k) => {
                                lemma_record_at(a, k);
                                lemma_record_at(c, k);
                            },
                            None => {
                                assert forall|x: int| 0 <= x < c.len() implies (#[trigger] c[x]).name@ != keep@ by {
                                    if x < a.len() {
                                        assert(kept_record(a[x], c[x]));
                                    } else {
                                        assert(c[x].name@ == target.name@);
                                    }
                                }
                                lemma_record_absent(c, keep@);
                            },
                        }
                    }
                }
            },
            None => {},
        }
    }

    /// Makes `target` the boss if it is a named NPC and no boss is known,
    /// the boss has no record, or `max_hp` exceeds the boss's.
    fn identify_boss(&mut self, target: &Entity, max_hp: i64)
        requires
            old(self).wf(),
        ensures
            final(self).current_boss_name == (if target.entity_type == EntityType::Npc && target.name@.len() != 0 && (
                old(self).current_boss_name@.len() == 0 || match record_of(final(self).entities@, old(self).current_boss_name@) {
                    Some(b) => max_hp > b.max_hp,
                    None => true,
                }) {
                target.name
            } else {
                old(self).current_boss_name
            }),
            final(self).entities == old(self).entities,
            final(self).current_boss_name == old(self).current_boss_name
                || (final(self).current_boss_name == target.name && target.entity_type == EntityType::Npc),
            old(self).current_boss_name@.len() == 0 && target.name@.len() != 0 && target.entity_type == EntityType::Npc
                ==> final(self).current_boss_name == target.name,
            final(self).fight_start == old(self).fight_start,
            final(self).last_combat_packet == old(self).last_combat_packet,
            final(self).phase == old(self).phase,
            final(self).raid_clear == old(self).raid_clear,
            final(self).raid_end == old(self).raid_end,
            final(self).saved == old(self).saved,
            final(self).boss_dead_update == old(self).boss_dead_update,
            final(self).local_player == old(self).local_player,
    {
        if target.entity_type == EntityType::Npc && !target.name.as_str().is_empty() {
            if self.current_boss_name.as_str().is_empty() {
                self.current_boss_name = target.name.clone();
            } else {
                match self.find(&self.current_boss_name) {
                    Some(k) => {
                        proof {
                            lemma_record_at(self.entities@, k as int);
                        }
                        if max_hp > self.entities[k].max_hp {
                            self.current_boss_name = target.name.clone();
                        }
                    },
                    None => {
                        proof {
                            lemma_record_absent(self.entities@, self.current_boss_name@);
                        }
                        self.current_boss_name = target.name.clone();
                    },
                }
            }
        }
    }

    /// One hit of `damage` from `owner` on `target` with skill `skill_id`,
    /// skill effect `skill_effect_id` and modifier code `modifier`, which
    /// the owner's record keeps as its last hit; the target is left at
    /// `cur_hp` of `max_hp` (0 if it is dead).  The first hit starts the
    /// fight.  The boss is the NPC with the largest maximum HP hit so far.
    /// `buffed` and `debuffed` tell whether effects were active on the
    /// owner and on the target.
    pub fn on_damage(
        &mut self,
        owner: &Entity,
        target: &Entity,
        damage: u64,
        skill_id: u32,
        skill_effect_id: u32,
        modifier: u32,
        cur_hp: i64,
        max_hp: i64,
        buffed: bool,
        debuffed: bool,
        timestamp: i64,
    )
        requires
            old(self).wf(),
        ensures
            final(self).wf(),
            grows(old(self).entities@, final(self).entities@),
            final(self).fight_start == (if old(self).fight_start == 0 { timestamp } else { old(self).fight_start }),
            final(self).last_combat_packet == timestamp,
            owner.name@.len() != 0 ==> record_of(final(self).entities@, owner.name@).is_some()
                && dealt_of(final(self).entities@, owner.name@) == sat_add(dealt_of(old(self).entities@, owner.name@), damage),
            target.name@.len() != 0 ==> match record_of(final(self).entities@, target.name@) {
                Some(r) => r.max_hp == max_hp && r.current_hp == (if r.is_dead { 0 } else { cur_hp }),
                None => false,
            },
            final(self).current_boss_name == old(self).current_boss_name
                || (final(self).current_boss_name == target.name && target.entity_type == EntityType::Npc),
            old(self).current_boss_name@.len() == 0 && target.name@.len() != 0 && target.entity_type == EntityType::Npc
                ==> final(self).current_boss_name == target.name,
            final(self).current_boss_name == (if target.entity_type == EntityType::Npc && target.name@.len() != 0 && (
                old(self).current_boss_name@.len() == 0 || match record_of(final(self).entities@, old(self).current_boss_name@) {
                    Some(b) => max_hp > b.max_hp,
                    None => true,
                }) {
                target.name
            } else {
                old(self).current_boss_name
            }),
            final(self).phase == old(self).phase,
            final(self).raid_clear == old(self).raid_clear,
            final(self).raid_end == old(self).raid_end,
            final(self).saved == old(self).saved,
            final(self).boss_dead_update == old(self).boss_dead_update,
            final(self).local_player == old(self).local_player,
    {
        if self.fight_start == 0 {
            self.fight_start = timestamp;
        }
        self.last_combat_packet = timestamp;
        let ghost a = self.entities@;
        self.credit_owner(owner, damage, skill_id, skill_effect_id, modifier, buffed, debuffed);
        let ghost b = self.entities@;
        self.hit_target(target, damage, cur_hp, max_hp, Ghost(owner.name@));
        proof {
            lemma_grows_trans(a, b, self.entities@);
        }
        self.identify_boss(target, max_hp);
    }

    /// What gets published of this encounter, taken as an independent
    /// copy: the boss record resolved by name (marked dead with no HP when
    /// `boss_dead`), or the boss name cleared when no record has it; and
    /// only the players and esthers that dealt damage.  `None` when no such
    /// record remains.
    pub fn prepare_snapshot(&self, boss_dead: bool) -> (r: Option<Encounter>)
        requires
            self.wf(),
        ensures
            snapshot_of(*self, boss_dead, r),
    {
        let mut c = self.copy();
        if !c.current_boss_name.as_str().is_empty() {
            match self.find(&self.current_boss_name) {
                Some(k) => {
                    proof {
                        lemma_record_at(self.entities@, k as int);
                    }
                    let b = self.entities[k].copy();
                    if boss_dead {
                        c.current_boss = Some(EncounterEntity { is_dead: true, current_hp: 0, ..b });
                    } else {
                        c.current_boss = Some(b);
                    }
                },
                None => {
                    proof {
                        lemma_record_absent(self.entities@, self.current_boss_name@);
                    }
                    c.current_boss_name = String::new();
                    c.current_boss = None;
                },
            }
        }
        let ghost keep = |x: EncounterEntity| publishable(x);
        let mut kept: Vec<EncounterEntity> = Vec::new();
        let mut i: usize = 0;
        while i < self.entities.len()
            invariant
                i <= self.entities@.len(),
                keep == (|x: EncounterEntity| publishable(x)),
                kept@ == self.entities@.subrange(0, i as int).filter(keep),
            decreases self.entities@.len() - i,
        {
            let x = self.entities[i].copy();
            let ghost kb = kept@;
            let ok = (x.entity_type == EntityType::Player || x.entity_type == EntityType::Esther) && x.damage_dealt > 0;
            proof {
                let sub1 = self.entities@.subrange(0, i + 1);
                reveal_with_fuel(Seq::filter, 1);
                assert(sub1.drop_last() =~= self.entities@.subrange(0, i as int));
                assert(sub1.last() == x);
                assert(sub1.filter(keep) == (if keep(x) { kb.push(x) } else { kb }));
            }
            if ok {
                kept.push(x);
            }
            i = i + 1;
        }
        proof {
            assert(self.entities@.subrange(0, self.entities@.len() as int) =~= self.entities@);
            assert(kept@ == self.entities@.filter(keep));
            let f = self.entities@.filter(keep);
            assert(kept@.len() == f.len());
            assert forall|i: int| 0 <= i < kept@.len() implies publishable(#[trigger] kept@[i]) by {
                assert(0 <= i < f.len());
                self.entities@.lemma_filter_pred(keep, i);
                assert(keep(f[i]));
            }
        }
        if kept.len() == 0 {
            return None;
        }
        c.entities = kept;
        Some(c)
    }
}

/// Between resets a dead entity stays dead with no hit points: across any
/// run of steps whose records grow, a record that was dead is still dead
/// and at 0 HP.
pub proof fn lemma_dead_stays_dead(before: Encounter, after: Encounter, i: int)
    requires
        before.wf(),
        after.wf(),
        grows(before.entities@, after.entities@),
        0 <= i < before.entities@.len(),
        before.entities@[i].is_dead,
    ensures
        after.entities@[i].name@ == before.entities@[i].name@,
        after.entities@[i].is_dead,
        after.entities@[i].current_hp == 0,
{
    assert(kept_record(before.entities@[i], after.entities@[i]));
}

/// Damage dealt never drops between resets: across any run of steps whose
/// records grow, each entity's damage dealt is at least what it was.
pub proof fn lemma_damage_monotone(before: Seq<EncounterEntity>, after: Seq<EncounterEntity>, name: Seq<char>)
    requires
        grows(before, after),
        forall|x: int, y: int| 0 <= x < y < before.len() ==> (#[trigger] before[x]).name@ != (#[trigger] before[y]).name@,
        forall|x: int, y: int| 0 <= x < y < after.len() ==> (#[trigger] after[x]).name@ != (#[trigger] after[y]).name@,
    ensures
        dealt_of(after, name) >= dealt_of(before, name),
{
    match index_of(before, name) {
        Some(k) => {
            lemma_record_at(before, k);
            assert(kept_record(before[k], after[k]));
            lemma_record_at(after, k);
        },
        None => {},
    }
}

/// A reset zeroes every entity's damage dealt.
pub proof fn lemma_reset_zeroes_damage(e: Encounter, name: Seq<char>)
    requires
        e.is_reset(),
    ensures
        dealt_of(e.entities@, name) == 0,
{
    lemma_record_absent(e.entities@, name);
}

} // verus!
