use crate::encounter::{kept_record, dealt_of, snapshot_of, grows, is_clear_signal, is_wipe_signal, publishable, record_of, sat_add, Encounter, EncounterEntity, Phase};
use crate::entity_tracker::{is_owned, is_placeholder, remap_all, remap_id, skill_class, EntityTracker};
use crate::id_tracker::IdTracker;
use crate::models::{get_current_and_max_hp, stat_value, Entity, EntityType, Scope, STAT_HP, STAT_MAX_HP};
use crate::packet::{DamageEvent, EffectData, MemberData, Packet};
use crate::party_tracker::{is_member, lemma_add_keeps_member, PartyMember, PartyTracker};
use crate::status_tracker::{removed_by_ids, same_instance, tied_to_object, StatusEffect, StatusTracker};
use vstd::prelude::*;

verus! {

/// Least time between two throttled publications, in milliseconds.
pub const PUBLISH_INTERVAL_MS: u64 = 100;

/// Whether the dispatch step publishes: the throttle interval has passed,
/// the encounter has just ended, or the boss has just died.
pub open spec fn should_publish(since_publish_ms: u64, raid_end: bool, boss_dead_update: bool) -> bool {
    since_publish_ms >= PUBLISH_INTERVAL_MS || raid_end || boss_dead_update
}

/// `start` plus the damage of each hit of `events` in turn, each sum
/// capped at the largest `u64`.
pub open spec fn sat_sum(start: u64, events: Seq<DamageEvent>) -> u64
    decreases events.len(),
{
    if events.len() == 0 {
        start
    } else {
        sat_add(sat_sum(start, events.drop_last()), events.last().damage)
    }
}

/// The record a packet's effect `d` on `target` in `scope` becomes.
pub open spec fn effect_of(d: EffectData, target: u64, scope: Scope) -> StatusEffect {
    StatusEffect {
        instance_id: d.instance_id,
        status_effect_id: d.status_effect_id,
        source_id: d.source_id,
        target_id: target,
        expiration_tick: d.expiration_tick,
        scope,
    }
}

/// Whether some record of `s` is the same instance as `e`.
pub open spec fn has_instance(s: Seq<StatusEffect>, e: StatusEffect) -> bool {
    exists|j: int| 0 <= j < s.len() && same_instance(#[trigger] s[j], e)
}

/// The id of the entity that hits and casts from `source_id` are credited
/// to, in the entity map `m`.
pub open spec fn credited_id(m: Map<u64, Entity>, source_id: u64) -> u64 {
    if is_owned(m[source_id]) {
        m[source_id].owner_id
    } else {
        source_id
    }
}

/// The name of the entity that hits from `source_id` are credited to,
/// in the entity map `m`.
pub open spec fn credited_name(m: Map<u64, Entity>, source_id: u64) -> Seq<char> {
    if is_owned(m[source_id]) {
        m[m[source_id].owner_id].name@
    } else {
        m[source_id].name@
    }
}

/// `n` is `o` after a requested reset.
pub open spec fn reset_post(o: Parser, n: Parser) -> bool {
    &&& n.state.is_reset()
    &&& n.state.wf()
    &&& n.state.phase == o.state.phase
    &&& n.state.local_player == o.state.local_player
    &&& n.status.effects@.len() == 0
    &&& n.entities.entities@ == Map::<u64, Entity>::empty()
    &&& n.ids.entity_by_character@ == Map::<u64, u64>::empty()
    &&& n.ids.character_by_entity@ == Map::<u64, u64>::empty()
    &&& n.parties == o.parties
    &&& n.skills == o.skills
    &&& n.paused == o.paused
    &&& !n.reset_requested
}

/// The trackers, the skill table and the control signals of `n` are those of `o`.
pub open spec fn same_trackers(o: Parser, n: Parser) -> bool {
    &&& n.ids == o.ids
    &&& n.parties == o.parties
    &&& n.status == o.status
    &&& n.entities == o.entities
    &&& n.skills == o.skills
    &&& n.paused == o.paused
    &&& n.reset_requested == o.reset_requested
}

/// After a damage packet, the last hit's target, if named, has a record at
/// the hit's hit points.
pub open spec fn last_hit_applied(n: Parser, ev: DamageEvent) -> bool {
    let name = n.entities.entities@[ev.target_id].name@;
    &&& n.entities.entities@.contains_key(ev.target_id)
    &&& name.len() != 0 ==> match record_of(n.state.entities@, name) {
        Some(r) => r.max_hp == ev.max_hp && r.current_hp == (if r.is_dead { 0 } else { ev.cur_hp }),
        None => false,
    }
}

/// `n` is `o` after entity `id` named `name` of type `ty` was filed and
/// its record set to the hit points of `stat_pairs`; every other entity
/// and every other record is as it was.
pub open spec fn spawned(o: Parser, n: Parser, id: u64, name: Seq<char>, ty: EntityType, stat_pairs: Seq<(u8, i64)>) -> bool {
    &&& n.entities.entities@.contains_key(id)
    &&& n.entities.entities@[id].id == id
    &&& n.entities.entities@[id].name@ == name
    &&& n.entities.entities@[id].entity_type == ty
    &&& forall|k: u64| k != id && #[trigger] o.entities.entities@.contains_key(k)
        ==> n.entities.entities@.contains_key(k) && n.entities.entities@[k] == o.entities.entities@[k]
    &&& name.len() != 0 ==> match record_of(n.state.entities@, name) {
        Some(r) => r.id == id && r.entity_type == ty && r.max_hp == stat_value(stat_pairs, STAT_MAX_HP)
            && r.current_hp == (if r.is_dead { 0 } else { stat_value(stat_pairs, STAT_HP) })
            && r.damage_dealt == dealt_of(o.state.entities@, name)
            && r.is_dead == match record_of(o.state.entities@, name) {
                Some(x) => x.is_dead,
                None => false,
            },
        None => false,
    }
    &&& forall|x: Seq<char>| x != name ==> #[trigger] record_of(n.state.entities@, x) == record_of(o.state.entities@, x)
    &&& n.status == o.status
    &&& n.parties == o.parties
}

/// The phase, raid-clear and raid-end flags of `n` are those of `o`.
pub open spec fn same_phase_flags(o: Parser, n: Parser) -> bool {
    &&& n.state.phase == o.state.phase
    &&& n.state.raid_clear == o.state.raid_clear
    &&& n.state.raid_end == o.state.raid_end
}

/// Only the status tracker changed from `o` to `n`.
pub open spec fn only_status(o: Parser, n: Parser) -> bool {
    &&& n.state == o.state
    &&& n.ids == o.ids
    &&& n.parties == o.parties
    &&& n.entities == o.entities
}

/// `n` is `o` after routing packet `p` at time `now`.
pub open spec fn route_post(o: Parser, n: Parser, p: Packet, now: i64) -> bool {
    &&& n.tracks_wf()
    &&& grows(o.state.entities@, n.state.entities@)
    &&& n.paused == o.paused
    &&& n.reset_requested == o.reset_requested
    &&& n.skills == o.skills
    &&& match p {
        Packet::CounterAttack { source_id } => {
            &&& same_phase_flags(o, n)
            &&& n.ids == o.ids && n.parties == o.parties && n.status == o.status && n.entities == o.entities
            &&& o.entities.entities@.contains_key(source_id) && o.entities.entities@[source_id].name@.len() != 0
                ==> match record_of(n.state.entities@, o.entities.entities@[source_id].name@) {
                    Some(r) => r.counters == sat_add(
                        match record_of(o.state.entities@, o.entities.entities@[source_id].name@) {
                            Some(x) => x.counters,
                            None => 0,
                        },
                        1,
                    ),
                    None => false,
                }
        },
        Packet::Death { target_id } => {
            &&& same_phase_flags(o, n)
            &&& n.ids == o.ids && n.parties == o.parties && n.status == o.status && n.entities == o.entities
            &&& o.entities.entities@.contains_key(target_id) ==> {
                let name = o.entities.entities@[target_id].name@;
                &&& match record_of(o.state.entities@, name) {
                    Some(r) => record_of(n.state.entities@, name) == Some(
                        (EncounterEntity { is_dead: true, current_hp: 0, ..r })),
                    None => n.state.entities@ == o.state.entities@,
                }
                &&& forall|x: Seq<char>| x != name ==> #[trigger] record_of(n.state.entities@, x) == record_of(o.state.entities@, x)
            }
            &&& !o.entities.entities@.contains_key(target_id) ==> n.state == o.state
        },
        Packet::IdentityGaugeChange { player_id, gauge } => {
            &&& same_phase_flags(o, n)
            &&& n.ids == o.ids && n.parties == o.parties && n.status == o.status && n.entities == o.entities
            &&& o.entities.entities@.contains_key(player_id) && o.entities.entities@[player_id].name@.len() != 0
                ==> match record_of(n.state.entities@, o.entities.entities@[player_id].name@) {
                    Some(r) => r.identity_gauge == gauge,
                    None => false,
                }
        },
        Packet::InitEnv { player_id } => {
            &&& same_phase_flags(o, n)
            &&& n.entities.entities@.dom() == set![player_id]
            &&& n.entities.local_player_id == player_id
            &&& n.status.effects@.len() == 0
            &&& n.parties == o.parties
        },
        Packet::InitPc { player_id, character_id, name, class_id, gear_level, stat_pairs } => {
            &&& same_phase_flags(o, n)
            &&& spawned(o, n, player_id, name@, EntityType::Player, stat_pairs@)
            &&& n.entities.entities@[player_id].character_id == character_id
            &&& n.entities.local_player_id == player_id
            &&& n.ids.entity_by_character@ == o.ids.entity_by_character@.insert(character_id, player_id)
        },
        Packet::NewPc { player_id, character_id, name, class_id, gear_level, stat_pairs } => {
            &&& same_phase_flags(o, n)
            &&& spawned(o, n, player_id, name@, EntityType::Player, stat_pairs@)
            &&& n.entities.entities@[player_id].character_id == character_id
            &&& n.entities.local_player_id == o.entities.local_player_id
            &&& n.ids.entity_by_character@ == o.ids.entity_by_character@.insert(character_id, player_id)
        },
        Packet::NewNpc { object_id, npc_id, name, esther, stat_pairs } => {
            &&& same_phase_flags(o, n)
            &&& spawned(o, n, object_id, name@, if esther { EntityType::Esther } else { EntityType::Npc }, stat_pairs@)
            &&& n.ids == o.ids
        },
        Packet::NewNpcSummon { object_id, owner_id, npc_id, name, stat_pairs } => {
            &&& same_phase_flags(o, n)
            &&& spawned(o, n, object_id, name@, EntityType::Summon, stat_pairs@)
            &&& n.entities.entities@[object_id].owner_id == owner_id
            &&& n.ids == o.ids
        },
        Packet::NewProjectile { projectile_id, owner_id } => {
            &&& n.state == o.state
            &&& n.entities.entities@.contains_key(projectile_id)
            &&& n.entities.entities@[projectile_id].entity_type == EntityType::Projectile
            &&& n.entities.entities@[projectile_id].owner_id == owner_id
            &&& forall|k: u64| k != projectile_id && #[trigger] o.entities.entities@.contains_key(k)
                ==> n.entities.entities@.contains_key(k) && n.entities.entities@[k] == o.entities.entities@[k]
        },
        Packet::ParalyzationState { object_id, value } => {
            &&& same_phase_flags(o, n)
            &&& n.ids == o.ids && n.parties == o.parties && n.status == o.status && n.entities == o.entities
            &&& o.entities.entities@.contains_key(object_id) && o.entities.entities@[object_id].name@.len() != 0
                ==> match record_of(n.state.entities@, o.entities.entities@[object_id].name@) {
                    Some(r) => r.stagger == value,
                    None => false,
                }
        },
        Packet::PartyInfo { raid_instance_id, party_instance_id, members } => {
            &&& same_phase_flags(o, n)
            &&& n.ids == o.ids && n.status == o.status && n.entities == o.entities
            &&& forall|k: int| 0 <= k < members@.len() ==> is_member(n.parties.members@, party_instance_id, #[trigger] members@[k].character_id)
            &&& o.entities.entities@.contains_key(o.entities.local_player_id)
                ==> n.state.local_player == o.entities.entities@[o.entities.local_player_id].name
        },
        Packet::PartyLeaveResult { party_instance_id, name } => {
            &&& n.state == o.state && n.ids == o.ids && n.status == o.status && n.entities == o.entities
            &&& n.parties.members@ == o.parties.members@.filter(
                |m: PartyMember| !(m.party_instance_id == party_instance_id && m.name@ == name@),
            )
        },
        Packet::PartyStatusEffectAdd { character_id, effects } => {
            &&& n.state == o.state && n.ids == o.ids && n.parties == o.parties && n.entities == o.entities
            &&& forall|k: int| 0 <= k < effects@.len() ==> has_instance(n.status.effects@, effect_of(#[trigger] effects@[k], character_id, Scope::Party))
        },
        Packet::PartyStatusEffectRemove { character_id, effect_ids } => {
            &&& only_status(o, n)
            &&& n.status.effects@ == o.status.effects@.filter(
                |x: StatusEffect| !removed_by_ids(x, character_id, effect_ids@, Scope::Party),
            )
        },
        Packet::PartyStatusEffectResult { raid_instance_id, party_instance_id, character_id } => {
            &&& n.state == o.state && n.ids == o.ids && n.status == o.status && n.entities == o.entities
            &&& is_member(n.parties.members@, party_instance_id, character_id)
            &&& n.parties.members@.drop_last() == o.parties.members@.filter(|m: PartyMember| m.character_id != character_id)
            &&& n.parties.members@.last().character_id == character_id
            &&& n.parties.members@.last().party_instance_id == party_instance_id
            &&& forall|i: int| 0 <= i < o.parties.members@.len() && #[trigger] o.parties.members@[i].character_id == character_id
                ==> n.parties.members@.last().name@ == o.parties.members@[i].name@
        },
        Packet::RaidBossKill => {
            &&& n.state.phase == Phase::Cleared
            &&& n.state.raid_clear
            &&& n.state.raid_end
            &&& n.state.entities == o.state.entities
            &&& same_trackers(o, n)
        },
        Packet::RaidResult => {
            &&& n.state.phase == Phase::Idle
            &&& n.state.raid_end
            &&& n.state.raid_clear == o.state.raid_clear
            &&& n.state.entities == o.state.entities
            &&& same_trackers(o, n)
        },
        Packet::RemoveObject { object_ids } => {
            &&& n.state == o.state && n.ids == o.ids && n.parties == o.parties && n.entities == o.entities
            &&& forall|x: StatusEffect| #[trigger] n.status.effects@.contains(x) <==> (o.status.effects@.contains(x)
                && forall|k: int| 0 <= k < object_ids@.len() ==> !tied_to_object(x, object_ids@[k]))
        },
        Packet::SkillStart { source_id, skill_id } => {
            let m = n.entities.entities@;
            let cid = credited_id(m, source_id);
            &&& same_phase_flags(o, n)
            &&& m.contains_key(source_id)
            &&& m.contains_key(cid)
            &&& n.state.last_combat_packet == now
            &&& n.ids == o.ids && n.parties == o.parties && n.status == o.status
            &&& skill_class(o.skills@, skill_id) != 0 && (!o.entities.entities@.contains_key(cid)
                || o.entities.entities@[cid].entity_type == EntityType::Unknown)
                ==> m[cid].entity_type == EntityType::Player && m[cid].class_id == skill_class(o.skills@, skill_id)
            &&& m[cid].name@.len() != 0 ==> match record_of(n.state.entities@, m[cid].name@) {
                Some(r) => r.last_skill_id == skill_id && r.skill_casts == sat_add(
                    match record_of(o.state.entities@, m[cid].name@) {
                        Some(x) => x.skill_casts,
                        None => 0,
                    },
                    1,
                ),
                None => false,
            }
        },
        Packet::SkillDamage { source_id, skill_id, skill_effect_id, events } => damage_post(o, n, source_id, events@),
        Packet::SkillDamageAbnormalMove { source_id, skill_id, skill_effect_id, events } => damage_post(o, n, source_id, events@),
        Packet::StatusEffectAdd { object_id, effect } => {
            &&& n.state == o.state && n.ids == o.ids && n.parties == o.parties && n.entities == o.entities
            &&& n.status.effects@.contains(
                StatusEffect {
                    instance_id: effect.instance_id,
                    status_effect_id: effect.status_effect_id,
                    source_id: effect.source_id,
                    target_id: object_id,
                    expiration_tick: effect.expiration_tick,
                    scope: Scope::Local,
                },
            )
        },
        Packet::StatusEffectDuration { effect_instance_id, target_id, expiration_tick } => {
            &&& only_status(o, n)
            &&& n.status.effects@.len() == o.status.effects@.len()
            &&& forall|k: int| 0 <= k < o.status.effects@.len() ==> #[trigger] n.status.effects@[k] == {
                let x = o.status.effects@[k];
                if x.instance_id == effect_instance_id && x.target_id == target_id && x.scope == Scope::Local {
                    StatusEffect { expiration_tick, ..x }
                } else {
                    x
                }
            }
        },
        Packet::StatusEffectRemove { object_id, effect_ids } => {
            &&& only_status(o, n)
            &&& n.status.effects@ == o.status.effects@.filter(
                |x: StatusEffect| !removed_by_ids(x, object_id, effect_ids@, Scope::Local),
            )
        },
        Packet::TriggerBossBattleStatus => {
            &&& same_trackers(o, n)
            &&& n.state == (Encounter {
                phase: if o.state.fight_start == 0 && o.state.current_boss_name@.len() == 0 {
                    Phase::Starting
                } else {
                    Phase::Ongoing
                },
                ..o.state
            })
        },
        Packet::TriggerStart { signal } => {
            &&& same_trackers(o, n)
            &&& n.state == (Encounter {
                raid_clear: if is_clear_signal(signal) {
                    true
                } else if is_wipe_signal(signal) {
                    false
                } else {
                    o.state.raid_clear
                },
                ..o.state
            })
        },
        Packet::MigrationExecute { remap } => {
            &&& n.entities.entities@ == remap_all(o.entities.entities@, remap@)
            &&& n.entities.local_player_id == remap_id(o.entities.local_player_id, remap@)
            &&& n.state == o.state && n.ids == o.ids && n.parties == o.parties && n.status == o.status
        },
        Packet::ZoneObjectUnpublish { object_id } => {
            &&& only_status(o, n)
            &&& n.status.effects@ == o.status.effects@.filter(|x: StatusEffect| !tied_to_object(x, object_id))
        },
        Packet::Ignored => n == o,
        Packet::Unhandled => n == o,
    }
}

/// `n` is `o` after the hits `events` from `source_id`.
pub open spec fn damage_post(o: Parser, n: Parser, source_id: u64, events: Seq<DamageEvent>) -> bool {
    let m = n.entities.entities@;
    &&& same_phase_flags(o, n)
    &&& n.ids == o.ids && n.parties == o.parties && n.status == o.status
    &&& n.state.boss_dead_update == o.state.boss_dead_update
    &&& m.contains_key(source_id)
    &&& credited_name(m, source_id).len() != 0 ==> dealt_of(n.state.entities@, credited_name(m, source_id))
        == sat_sum(dealt_of(o.state.entities@, credited_name(m, source_id)), events)
    &&& forall|k: u64| #[trigger] o.entities.entities@.contains_key(k) ==> m.contains_key(k)
        && m[k] == o.entities.entities@[k]
    &&& forall|k: u64| #[trigger] m.contains_key(k) && !o.entities.entities@.contains_key(k) ==> is_placeholder(m[k], k)
    &&& forall|k: int| 0 <= k < events.len() ==> m.contains_key(#[trigger] events[k].target_id)
    &&& events.len() > 0 ==> last_hit_applied(n, events.last())
}

/// The shared context of the dispatch loop: every tracker, the encounter,
/// the player skill table, and the two control signals.
pub struct Parser {
    pub ids: IdTracker,
    pub parties: PartyTracker,
    pub status: StatusTracker,
    pub entities: EntityTracker,
    pub state: Encounter,
    pub skills: Vec<(u32, u32)>,
    pub paused: bool,
    pub reset_requested: bool,
}

impl Parser {
    /// Every tracker and the encounter are well formed.
    pub open spec fn tracks_wf(&self) -> bool {
        &&& self.parties.wf()
        &&& self.status.wf()
        &&& self.entities.wf()
        &&& self.state.wf()
    }

    /// Well formed between packets: no ended encounter is left over.
    pub open spec fn wf(&self) -> bool {
        &&& self.tracks_wf()
        &&& !self.state.raid_end
        &&& !self.state.boss_dead_update
    }

    /// What every handler keeps: well-formedness, the records' progress,
    /// the control signals, the skill table, and the phase flags.
    pub open spec fn advances(&self, o: &Parser) -> bool {
        &&& o.tracks_wf()
        &&& grows(self.state.entities@, o.state.entities@)
        &&& o.paused == self.paused
        &&& o.reset_requested == self.reset_requested
        &&& o.skills == self.skills
        &&& o.state.phase == self.state.phase
        &&& o.state.raid_clear == self.state.raid_clear
        &&& o.state.raid_end == self.state.raid_end
    }

    /// A parser with empty trackers, using the player skill table `skills`
    /// of (skill id, class id) pairs.
    pub fn new(skills: Vec<(u32, u32)>) -> (r: Parser)
        ensures
            r.wf(),
            r.state.is_reset(),
            r.entities.entities@.len() == 0,
            r.status.effects@.len() == 0,
            r.parties.members@.len() == 0,
            r.skills@ == skills@,
            !r.paused,
            !r.reset_requested,
    {
        Parser {
            ids: IdTracker::new(),
            parties: PartyTracker::new(),
            status: StatusTracker::new(),
            entities: EntityTracker::new(),
            state: Encounter::new(),
            skills,
            paused: false,
            reset_requested: false,
        }
    }

    /// Asks for a reset, carried out before the next packet is looked at.
    pub fn request_reset(&mut self)
        ensures
            final(self).reset_requested,
            final(self).paused == old(self).paused,
            final(self).wf() == old(self).wf(),
            final(self).state == old(self).state,
    {
        self.reset_requested = true;
    }

    /// Flips pausing; returns whether the parser was paused before.
    pub fn toggle_pause(&mut self) -> (r: bool)
        ensures
            r == old(self).paused,
            final(self).paused == !old(self).paused,
            final(self).reset_requested == old(self).reset_requested,
            final(self).wf() == old(self).wf(),
            final(self).state == old(self).state,
    {
        let prev = self.paused;
        self.paused = !prev;
        prev
    }

    /// The reset that the control plane asks for: the encounter, the
    /// status effects, the entities and the identities are cleared.  Party
    /// membership is kept: it outlives encounters, and nothing but party
    /// packets would restore it.  The phase and the local player's name are
    /// kept as `Encounter::soft_reset` keeps them.
    pub fn reset(&mut self)
        requires
            old(self).wf(),
        ensures
            final(self).wf(),
            reset_post(*old(self), *final(self)),
    {
        self.state.soft_reset();
        self.status.clear();
        self.entities = EntityTracker::new();
        self.ids = IdTracker::new();
        self.reset_requested = false;
    }

    /// The damage pipeline: each hit of a damage packet from `source_id`
    /// goes to the encounter, credited to the source's owner, with the
    /// status effects active on owner and target.
    fn damage_packet(&mut self, source_id: u64, skill_id: u32, skill_effect_id: u32, events: &Vec<DamageEvent>, now: i64)
        requires
            old(self).tracks_wf(),
        ensures
            old(self).advances(&*final(self)),
            final(self).state.boss_dead_update == old(self).state.boss_dead_update,
            final(self).entities.entities@.contains_key(source_id),
            credited_name(final(self).entities.entities@, source_id).len() != 0 ==> dealt_of(
                final(self).state.entities@,
                credited_name(final(self).entities.entities@, source_id),
            ) == sat_sum(
                dealt_of(old(self).state.entities@, credited_name(final(self).entities.entities@, source_id)),
                events@,
            ),
            forall|k: u64| #[trigger] old(self).entities.entities@.contains_key(k)
                ==> final(self).entities.entities@.contains_key(k)
                && final(self).entities.entities@[k] == old(self).entities.entities@[k],
            forall|k: u64| #[trigger] final(self).entities.entities@.contains_key(k) && !old(self).entities.entities@.contains_key(k)
                ==> is_placeholder(final(self).entities.entities@[k], k),
            forall|k: int| 0 <= k < events@.len() ==> final(self).entities.entities@.contains_key(#[trigger] events@[k].target_id),
            events@.len() > 0 ==> last_hit_applied(*final(self), events@.last()),
            final(self).entities.local_player_id == old(self).entities.local_player_id,
            final(self).ids == old(self).ids,
            final(self).parties == old(self).parties,
            final(self).status == old(self).status,
    {
        let ghost m_start = self.entities.entities@;
        let owner = self.entities.get_source_entity(source_id);
        let local_character_id = self.ids.get_local_character_id(self.entities.local_player_id);
        let ghost s0 = *self;
        let ghost m0 = self.entities.entities@;
        proof {
            assert(owner.name@ == credited_name(m0, source_id));
            assert(events@.subrange(0, 0) =~= Seq::<DamageEvent>::empty());
        }
        let mut i: usize = 0;
        while i < events.len()
            invariant
                i <= events@.len(),
                s0.advances(&*self),
                self.state.boss_dead_update == s0.state.boss_dead_update,
                m0.contains_key(source_id),
                owner.name@ == credited_name(m0, source_id),
                is_owned(m0[source_id]) ==> m0.contains_key(m0[source_id].owner_id),
                forall|k: u64| #[trigger] m0.contains_key(k) ==> self.entities.entities@.contains_key(k)
                    && self.entities.entities@[k] == m0[k],
                owner.name@.len() != 0 ==> dealt_of(self.state.entities@, owner.name@) == sat_sum(
                    dealt_of(s0.state.entities@, owner.name@),
                    events@.subrange(0, i as int),
                ),
                forall|k: u64| #[trigger] m_start.contains_key(k) ==> m0.contains_key(k) && m0[k] == m_start[k],
                forall|k: u64| #[trigger] m0.contains_key(k) && !m_start.contains_key(k) ==> is_placeholder(m0[k], k),
                forall|k: u64| #[trigger] self.entities.entities@.contains_key(k) && !m0.contains_key(k)
                    ==> is_placeholder(self.entities.entities@[k], k),
                forall|k: int| 0 <= k < i ==> self.entities.entities@.contains_key(#[trigger] events@[k].target_id),
                i > 0 ==> last_hit_applied(*self, events@[i - 1]),
                self.entities.local_player_id == s0.entities.local_player_id,
                self.ids == s0.ids,
                self.parties == s0.parties,
                self.status == s0.status,
            decreases events@.len() - i,
        {
            proof {
                assert(events@.subrange(0, i + 1).drop_last() =~= events@.subrange(0, i as int));
            }
            let ev = events[i];
            let ghost before = self.state.entities@;
            let ghost mb = self.entities.entities@;
            let target = self.entities.get_or_create_entity(ev.target_id);
            let ghost mt = self.entities.entities@;
            let _source = self.entities.get_or_create_entity(source_id);
            proof {
                assert(self.entities.entities@.contains_key(ev.target_id));
                assert(self.entities.entities@[ev.target_id] == target);
                assert forall|k: u64| #[trigger] self.entities.entities@.contains_key(k) && !m0.contains_key(k)
                    implies is_placeholder(self.entities.entities@[k], k) by {
                    if mb.contains_key(k) {
                    } else if mt.contains_key(k) {
                        assert(k == ev.target_id);
                    } else {
                        assert(k == source_id);
                    }
                }
            }
            let (on_source, on_target) = self.status.get_status_effects(&owner, &target, local_character_id, &self.parties);
            self.state.on_damage(
                &owner,
                &target,
                ev.damage,
                skill_id,
                skill_effect_id,
                ev.modifier,
                ev.cur_hp,
                ev.max_hp,
                on_source.len() > 0,
                on_target.len() > 0,
                now,
            );
            proof {
                crate::encounter::lemma_grows_trans(s0.state.entities@, before, self.state.entities@);
                assert(events@[i as int] == ev);
                assert(last_hit_applied(*self, ev));
            }
            i = i + 1;
        }
        proof {
            assert forall|k: u64| #[trigger] self.entities.entities@.contains_key(k) && !m_start.contains_key(k)
                implies is_placeholder(self.entities.entities@[k], k) by {
                if m0.contains_key(k) {
                    assert(is_placeholder(m0[k], k));
                }
            }
            assert(events@.subrange(0, events@.len() as int) =~= events@);
            assert(credited_name(self.entities.entities@, source_id) == credited_name(m0, source_id));
        }
    }

    /// A player enters: the entity tracker files it, the encounter records
    /// it with the hit points of its stat pairs.
    fn player_packet(
        &mut self,
        local: bool,
        player_id: u64,
        character_id: u64,
        name: &String,
        class_id: u32,
        gear_level: u32,
        stat_pairs: &Vec<(u8, i64)>,
    )
        requires
            old(self).tracks_wf(),
        ensures
            old(self).advances(&*final(self)),
            final(self).state.boss_dead_update == old(self).state.boss_dead_update,
            final(self).entities.entities@.contains_key(player_id),
            spawned(*old(self), *final(self), player_id, name@, EntityType::Player, stat_pairs@),
            final(self).entities.entities@[player_id].character_id == character_id,
            final(self).entities.local_player_id == (if local { player_id } else { old(self).entities.local_player_id }),
            final(self).ids.entity_by_character@ == old(self).ids.entity_by_character@.insert(character_id, player_id),
    {
        let (hp, max_hp) = get_current_and_max_hp(stat_pairs);
        let e = self.entities.add_player(local, player_id, name.clone(), class_id, gear_level, character_id, hp, max_hp, &mut self.ids);
        if local {
            self.state.local_player = e.name.clone();
        }
        self.state.on_spawn(&e, hp, max_hp);
    }

    /// A non-player object enters, with the hit points of its stat pairs.
    fn object_packet(
        &mut self,
        entity_type: EntityType,
        object_id: u64,
        owner_id: u64,
        npc_id: u32,
        name: &String,
        stat_pairs: &Vec<(u8, i64)>,
    )
        requires
            old(self).tracks_wf(),
        ensures
            old(self).advances(&*final(self)),
            final(self).state.boss_dead_update == old(self).state.boss_dead_update,
            final(self).entities.entities@.contains_key(object_id),
            spawned(*old(self), *final(self), object_id, name@, entity_type, stat_pairs@),
            final(self).entities.entities@[object_id].owner_id == owner_id,
            final(self).entities.local_player_id == old(self).entities.local_player_id,
            final(self).ids == old(self).ids,
    {
        let (hp, max_hp) = get_current_and_max_hp(stat_pairs);
        let e = self.entities.add_object(entity_type, object_id, owner_id, npc_id, name.clone(), hp, max_hp);
        self.state.on_spawn(&e, hp, max_hp);
    }

    /// Party info: every listed member joins the party; the local player's
    /// record is refreshed.
    fn party_info_packet(&mut self, raid_instance_id: u32, party_instance_id: u32, members: &Vec<MemberData>)
        requires
            old(self).tracks_wf(),
        ensures
            old(self).advances(&*final(self)),
            final(self).state.boss_dead_update == old(self).state.boss_dead_update,
            final(self).ids == old(self).ids,
            final(self).status == old(self).status,
            final(self).entities == old(self).entities,
            forall|k: int| 0 <= k < members@.len() ==> is_member(final(self).parties.members@, party_instance_id, #[trigger] members@[k].character_id),
            old(self).entities.entities@.contains_key(old(self).entities.local_player_id)
                ==> final(self).state.local_player == old(self).entities.entities@[old(self).entities.local_player_id].name,
    {
        let ghost s0 = *self;
        let mut i: usize = 0;
        while i < members.len()
            invariant
                i <= members@.len(),
                s0.advances(&*self),
                self.state == s0.state,
                self.ids == s0.ids,
                self.status == s0.status,
                self.entities == s0.entities,
                forall|k: int| 0 <= k < i ==> is_member(self.parties.members@, party_instance_id, #[trigger] members@[k].character_id),
            decreases members@.len() - i,
        {
            let ghost before = self.parties.members@;
            let c = members[i].character_id;
            self.parties.add(raid_instance_id, party_instance_id, c, members[i].name.clone());
            proof {
                assert forall|k: int| 0 <= k < i + 1 implies is_member(self.parties.members@, party_instance_id, #[trigger] members@[k].character_id) by {
                    if members@[k].character_id != c {
                        let newm = self.parties.members@.last();
                        assert(self.parties.members@ == before.filter(|m: PartyMember| m.character_id != c).push(newm));
                        lemma_add_keeps_member(before, newm, party_instance_id, members@[k].character_id);
                    }
                }
            }
            i = i + 1;
        }
        match self.entities.get(self.entities.local_player_id) {
            Some(e) => {
                self.state.update_local_player(&e);
            },
            None => {},
        }
    }

    /// Registers effects on `target` in `scope`.
    fn add_effects(&mut self, target: u64, effects: &Vec<EffectData>, scope: Scope)
        requires
            old(self).tracks_wf(),
        ensures
            old(self).advances(&*final(self)),
            final(self).state == old(self).state,
            final(self).ids == old(self).ids,
            final(self).parties == old(self).parties,
            final(self).entities == old(self).entities,
            forall|k: int| 0 <= k < effects@.len() ==> has_instance(final(self).status.effects@, effect_of(#[trigger] effects@[k], target, scope)),
    {
        let ghost s0 = *self;
        let mut i: usize = 0;
        while i < effects.len()
            invariant
                i <= effects@.len(),
                s0.advances(&*self),
                self.state == s0.state,
                self.ids == s0.ids,
                self.parties == s0.parties,
                self.entities == s0.entities,
                forall|k: int| 0 <= k < i ==> has_instance(self.status.effects@, effect_of(#[trigger] effects@[k], target, scope)),
            decreases effects@.len() - i,
        {
            let d = effects[i];
            let ghost before = self.status.effects@;
            self.status.register_status_effect(StatusEffect {
                instance_id: d.instance_id,
                status_effect_id: d.status_effect_id,
                source_id: d.source_id,
                target_id: target,
                expiration_tick: d.expiration_tick,
                scope,
            });
            proof {
                assert(d == effects@[i as int]);
                let e = effect_of(d, target, scope);
                let jn = choose|j: int| 0 <= j < self.status.effects@.len() && self.status.effects@[j] == e;
                assert(same_instance(self.status.effects@[jn], e));
                assert forall|k: int| 0 <= k < i + 1 implies has_instance(self.status.effects@, effect_of(#[trigger] effects@[k], target, scope)) by {
                    if k < i {
                        let ek = effect_of(effects@[k], target, scope);
                        let j = choose|j: int| 0 <= j < before.len() && same_instance(#[trigger] before[j], ek);
                        assert(same_instance(before[j], self.status.effects@[j]));
                        assert(same_instance(self.status.effects@[j], ek));
                    }
                }
            }
            i = i + 1;
        }
    }

    /// Drops the local effects of every unpublished object.
    fn remove_objects(&mut self, object_ids: &Vec<u64>)
        requires
            old(self).tracks_wf(),
        ensures
            old(self).advances(&*final(self)),
            final(self).state == old(self).state,
            final(self).ids == old(self).ids,
            final(self).parties == old(self).parties,
            final(self).entities == old(self).entities,
            forall|x: StatusEffect| #[trigger] final(self).status.effects@.contains(x) <==> (old(self).status.effects@.contains(x)
                && forall|k: int| 0 <= k < object_ids@.len() ==> !tied_to_object(x, object_ids@[k])),
    {
        let ghost s0 = *self;
        let mut i: usize = 0;
        while i < object_ids.len()
            invariant
                i <= object_ids@.len(),
                s0.advances(&*self),
                self.state == s0.state,
                self.ids == s0.ids,
                self.parties == s0.parties,
                self.entities == s0.entities,
                forall|x: StatusEffect| #[trigger] self.status.effects@.contains(x) <==> (s0.status.effects@.contains(x)
                && forall|k: int| 0 <= k < i ==> !tied_to_object(x, object_ids@[k])),
            decreases object_ids@.len() - i,
        {
            let ghost before = self.status.effects@;
            let id = object_ids[i];
            self.status.remove_local_object(id);
            proof {
                let pred = |x: StatusEffect| !tied_to_object(x, id);
                let f = self.status.effects@;
                assert(f == before.filter(pred));
                assert forall|x: StatusEffect| #[trigger] f.contains(x) <==> (s0.status.effects@.contains(x)
                    && forall|k: int| 0 <= k < i + 1 ==> !tied_to_object(x, object_ids@[k])) by {
                    if f.contains(x) {
                        before.lemma_filter_contains_rev(pred, x);
                        let j = choose|j: int| 0 <= j < f.len() && f[j] == x;
                        before.lemma_filter_pred(pred, j);
                        assert(before.contains(x));
                        assert forall|k: int| 0 <= k < i + 1 implies !tied_to_object(x, object_ids@[k]) by {
                            if k == i as int {
                                assert(object_ids@[k] == id);
                            }
                        }
                    }
                    if s0.status.effects@.contains(x) && forall|k: int| 0 <= k < i + 1 ==> !tied_to_object(x, object_ids@[k]) {
                        assert(!tied_to_object(x, object_ids@[i as int]));
                        assert forall|k: int| 0 <= k < i implies !tied_to_object(x, object_ids@[k]) by {}
                        assert(before.contains(x));
                        let j = choose|j: int| 0 <= j < before.len() && before[j] == x;
                        before.lemma_filter_contains(pred, j);
                    }
                }
            }
            i = i + 1;
        }
    }

    /// Routes one decoded packet to the trackers and the encounter.
    #[verifier::rlimit(80)]
    #[verifier::spinoff_prover]
    pub fn route(&mut self, p: &Packet, now: i64)
        requires
            old(self).tracks_wf(),
        ensures
            route_post(*old(self), *final(self), *p, now),
    {
        match p {
            Packet::CounterAttack { source_id } => {
                match self.entities.get(*source_id) {
                    Some(e) => self.state.on_counterattack(&e),
                    None => {},
                }
            },
            Packet::Death { target_id } => {
                match self.entities.get(*target_id) {
                    Some(e) => self.state.on_death(&e),
                    None => {},
                }
            },
            Packet::IdentityGaugeChange { player_id, gauge } => {
                match self.entities.get(*player_id) {
                    Some(e) => self.state.on_identity_gain(&e, *gauge),
                    None => {},
                }
            },
            Packet::InitEnv { player_id } => {
                let e = self.entities.init_env(*player_id, &mut self.ids);
                self.status.clear();
                if !e.name.as_str().is_empty() {
                    self.state.local_player = e.name.clone();
                }
                self.state.on_spawn(&e, e.current_hp, e.max_hp);
            },
            Packet::InitPc { player_id, character_id, name, class_id, gear_level, stat_pairs } => {
                self.player_packet(true, *player_id, *character_id, name, *class_id, *gear_level, stat_pairs);
            },
            Packet::MigrationExecute { remap } => {
                self.entities.migration_execute(remap);
            },
            Packet::NewPc { player_id, character_id, name, class_id, gear_level, stat_pairs } => {
                self.player_packet(false, *player_id, *character_id, name, *class_id, *gear_level, stat_pairs);
            },
            Packet::NewNpc { object_id, npc_id, name, esther, stat_pairs } => {
                let kind = if *esther { EntityType::Esther } else { EntityType::Npc };
                self.object_packet(kind, *object_id, 0, *npc_id, name, stat_pairs);
            },
            Packet::NewNpcSummon { object_id, owner_id, npc_id, name, stat_pairs } => {
                self.object_packet(EntityType::Summon, *object_id, *owner_id, *npc_id, name, stat_pairs);
            },
            Packet::NewProjectile { projectile_id, owner_id } => {
                let _e = self.entities.add_object(EntityType::Projectile, *projectile_id, *owner_id, 0, String::new(), 0, 0);
            },
            Packet::ParalyzationState { object_id, value } => {
                match self.entities.get(*object_id) {
                    Some(e) => self.state.on_stagger_change(&e, *value),
                    None => {},
                }
            },
            Packet::PartyInfo { raid_instance_id, party_instance_id, members } => {
                self.party_info_packet(*raid_instance_id, *party_instance_id, members);
            },
            Packet::PartyLeaveResult { party_instance_id, name } => {
                self.parties.remove(*party_instance_id, name);
            },
            Packet::PartyStatusEffectAdd { character_id, effects } => {
                self.add_effects(*character_id, effects, Scope::Party);
            },
            Packet::PartyStatusEffectRemove { character_id, effect_ids } => {
                self.status.remove_status_effects(*character_id, effect_ids, Scope::Party);
            },
            Packet::PartyStatusEffectResult { raid_instance_id, party_instance_id, character_id } => {
                let ghost before = self.parties.members@;
                let name = self.parties.name_of(*character_id);
                let ghost name_view = name@;
                self.parties.add(*raid_instance_id, *party_instance_id, *character_id, name);
                proof {
                    let after = self.parties.members@;
                    assert(after.last().name@ == name_view);
                    assert(after.drop_last() =~= before.filter(|m: PartyMember| m.character_id != *character_id));
                }
            },
            Packet::RaidBossKill => {
                self.state.on_phase_transition(Phase::Cleared);
                self.state.raid_clear = true;
            },
            Packet::RaidResult => {
                self.state.on_phase_transition(Phase::Idle);
            },
            Packet::RemoveObject { object_ids } => {
                self.remove_objects(object_ids);
            },
            Packet::SkillStart { source_id, skill_id } => {
                let e = self.entities.get_source_entity(*source_id);
                let e = self.entities.guess_is_player(e, *skill_id, &self.skills);
                self.state.on_skill_start(&e, *skill_id, now);
            },
            Packet::SkillDamage { source_id, skill_id, skill_effect_id, events } => {
                self.damage_packet(*source_id, *skill_id, *skill_effect_id, events, now);
            },
            Packet::SkillDamageAbnormalMove { source_id, skill_id, skill_effect_id, events } => {
                self.damage_packet(*source_id, *skill_id, *skill_effect_id, events, now);
            },
            Packet::StatusEffectAdd { object_id, effect } => {
                self.status.register_status_effect(StatusEffect {
                    instance_id: effect.instance_id,
                    status_effect_id: effect.status_effect_id,
                    source_id: effect.source_id,
                    target_id: *object_id,
                    expiration_tick: effect.expiration_tick,
                    scope: Scope::Local,
                });
            },
            Packet::StatusEffectDuration { effect_instance_id, target_id, expiration_tick } => {
                self.status.update_status_duration(*effect_instance_id, *target_id, *expiration_tick, Scope::Local);
            },
            Packet::StatusEffectRemove { object_id, effect_ids } => {
                self.status.remove_status_effects(*object_id, effect_ids, Scope::Local);
            },
            Packet::TriggerBossBattleStatus => {
                self.state.on_boss_battle_status();
            },
            Packet::TriggerStart { signal } => {
                self.state.on_trigger_start(*signal);
            },
            Packet::ZoneObjectUnpublish { object_id } => {
                self.status.remove_local_object(*object_id);
            },
            Packet::Ignored => {},
            Packet::Unhandled => {},
        }
    }

    /// One iteration of the dispatch loop, at time `now` and
    /// `since_publish_ms` after the last publication.  A pending reset is
    /// carried out first; a paused parser then drops the packet.  `None`
    /// stands for a packet that failed to decode: it is dropped, but the
    /// publication decision is still made.  An unhandled opcode ends the
    /// iteration at once.  Returns whether this iteration publishes, and
    /// the snapshot to publish, if the filtered snapshot is not empty.
    /// An encounter that ended is published and then reset.
    pub fn handle_at(&mut self, p: Option<Packet>, now: i64, since_publish_ms: u64) -> (r: (bool, Option<Encounter>))
        requires
            old(self).wf(),
        ensures
            final(self).wf(),
            step_spec(*old(self), *final(self), p, now, since_publish_ms, r),
            !final(self).reset_requested,
            final(self).paused == old(self).paused,
            final(self).skills == old(self).skills,
            old(self).paused && !old(self).reset_requested ==> *final(self) == *old(self) && r == (false, None::<Encounter>),
            !old(self).reset_requested ==> final(self).state.entities@.len() == 0
                || grows(old(self).state.entities@, final(self).state.entities@),
            r.1.is_some() ==> r.0,
            match r.1 {
                Some(c) => c.entities@.len() > 0 && forall|i: int| 0 <= i < c.entities@.len() ==> publishable(#[trigger] c.entities@[i]),
                None => true,
            },
            p.is_none() && !old(self).paused && !old(self).reset_requested ==> {
                &&& r.0 == should_publish(since_publish_ms, false, old(self).state.boss_dead_update)
                &&& same_trackers(*old(self), *final(self))
                &&& final(self).state == (Encounter {
                    boss_dead_update: old(self).state.boss_dead_update && !r.0,
                    ..old(self).state
                })
            },
    {
        if self.reset_requested {
            self.reset();
        }
        let ghost pre = *self;
        if self.paused {
            proof {
                assert(step_inner(pre, pre, *self, p, now, since_publish_ms, (false, None)));
            }
            return (false, None);
        }
        match &p {
            Some(Packet::Unhandled) => {
                proof {
                    assert(step_inner(pre, pre, *self, p, now, since_publish_ms, (false, None)));
                }
                return (false, None);
            },
            Some(pkt) => {
                self.route(pkt, now);
            },
            None => {},
        }
        let ghost mid = *self;
        let mut snapshot: Option<Encounter> = None;
        let publish = since_publish_ms >= PUBLISH_INTERVAL_MS || self.state.raid_end || self.state.boss_dead_update;
        if publish {
            let boss_dead = self.state.boss_dead_update;
            self.state.boss_dead_update = false;
            snapshot = self.state.prepare_snapshot(boss_dead);
        }
        if self.state.raid_end {
            self.state.soft_reset();
        }
        proof {
            assert(step_post(mid, *self, since_publish_ms, (publish, snapshot)));
            assert(step_inner(pre, mid, *self, p, now, since_publish_ms, (publish, snapshot)));
        }
        (publish, snapshot)
    }
}

/// `fin` and `r` come from the state `mid` reached after routing: the
/// publication decision, the snapshot of the routed encounter when
/// publishing, and the soft reset of an encounter that ended.  The
/// trackers are those of `mid`.
pub open spec fn step_post(mid: Parser, fin: Parser, since_publish_ms: u64, r: (bool, Option<Encounter>)) -> bool {
    let publish = should_publish(since_publish_ms, mid.state.raid_end, mid.state.boss_dead_update);
    &&& r.0 == publish
    &&& publish ==> snapshot_of(
        Encounter { boss_dead_update: false, ..mid.state },
        mid.state.boss_dead_update,
        r.1,
    )
    &&& !publish ==> r.1.is_none()
    &&& same_trackers(mid, fin)
    &&& if mid.state.raid_end {
        &&& fin.state.is_reset()
        &&& fin.state.phase == mid.state.phase
        &&& fin.state.local_player == mid.state.local_player
    } else {
        fin.state == (Encounter { boss_dead_update: mid.state.boss_dead_update && !publish, ..mid.state })
    }
}

/// One dispatch step from `pre`, the state after any pending reset: a
/// paused parser or an unhandled opcode changes nothing and publishes
/// nothing; otherwise the packet is routed to `mid` (a packet that failed
/// to decode leaves `mid` equal to `pre`) and `step_post` follows.
pub open spec fn step_inner(
    pre: Parser,
    mid: Parser,
    fin: Parser,
    p: Option<Packet>,
    now: i64,
    since_publish_ms: u64,
    r: (bool, Option<Encounter>),
) -> bool {
    if pre.paused {
        fin == pre && r == (false, None::<Encounter>)
    } else {
        match p {
            Some(Packet::Unhandled) => fin == pre && r == (false, None::<Encounter>),
            Some(pkt) => route_post(pre, mid, pkt, now) && step_post(mid, fin, since_publish_ms, r),
            None => mid == pre && step_post(mid, fin, since_publish_ms, r),
        }
    }
}

/// What one call of `handle_at` does, from `old` to `fin`: a pending reset
/// first, then the step of `step_inner`.
pub open spec fn step_spec(
    old: Parser,
    fin: Parser,
    p: Option<Packet>,
    now: i64,
    since_publish_ms: u64,
    r: (bool, Option<Encounter>),
) -> bool {
    exists|pre: Parser, mid: Parser|
        (if old.reset_requested { reset_post(old, pre) } else { pre == old })
            && #[trigger] step_inner(pre, mid, fin, p, now, since_publish_ms, r)
}

/// While paused, a run of dispatch steps with no reset pending changes
/// nothing and publishes nothing, however many packets arrive.
pub proof fn lemma_paused_run(
    states: Seq<Parser>,
    packets: Seq<Option<Packet>>,
    nows: Seq<i64>,
    since: Seq<u64>,
    results: Seq<(bool, Option<Encounter>)>,
)
    requires
        states.len() == packets.len() + 1,
        nows.len() == packets.len(),
        since.len() == packets.len(),
        results.len() == packets.len(),
        states[0].paused,
        !states[0].reset_requested,
        forall|i: int| 0 <= i < packets.len() ==> #[trigger] step_spec(states[i], states[i + 1], packets[i], nows[i], since[i], results[i]),
    ensures
        forall|i: int| 0 <= i < states.len() ==> #[trigger] states[i] == states[0],
        forall|i: int| 0 <= i < results.len() ==> #[trigger] results[i] == (false, None::<Encounter>),
    decreases packets.len(),
{
    if packets.len() > 0 {
        let n = packets.len() - 1;
        lemma_paused_run(states.drop_last(), packets.drop_last(), nows.drop_last(), since.drop_last(), results.drop_last());
        assert(states.drop_last()[n] == states[n]);
        assert(states[n] == states[0]);
        assert(step_spec(states[n], states[n + 1], packets[n], nows[n], since[n], results[n]));
        let (pre, mid) = choose|pre: Parser, mid: Parser|
            (if states[n].reset_requested { reset_post(states[n], pre) } else { pre == states[n] })
                && #[trigger] step_inner(pre, mid, states[n + 1], packets[n], nows[n], since[n], results[n]);
        assert(pre == states[n]);
        assert forall|i: int| 0 <= i < states.len() implies #[trigger] states[i] == states[0] by {
            if i < n + 1 {
                assert(states.drop_last()[i] == states[i]);
            }
        }
        assert forall|i: int| 0 <= i < results.len() implies #[trigger] results[i] == (false, None::<Encounter>) by {
            if i < n {
                assert(results.drop_last()[i] == results[i]);
            }
        }
    }
}

/// One dispatch step with no reset pending either keeps every record in
/// place, with no less damage dealt and the dead still dead, or ends the
/// encounter and leaves it reset.
pub proof fn lemma_step_grows(
    old: Parser,
    fin: Parser,
    p: Option<Packet>,
    now: i64,
    since_publish_ms: u64,
    r: (bool, Option<Encounter>),
)
    requires
        step_spec(old, fin, p, now, since_publish_ms, r),
        !old.reset_requested,
    ensures
        fin.state.is_reset() || grows(old.state.entities@, fin.state.entities@),
{
    let (pre, mid) = choose|pre: Parser, mid: Parser|
        (if old.reset_requested { reset_post(old, pre) } else { pre == old })
            && #[trigger] step_inner(pre, mid, fin, p, now, since_publish_ms, r);
    let a = old.state.entities@;
    assert forall|i: int| 0 <= i < a.len() implies #[trigger] kept_record(a[i], a[i]) by {}
    if !pre.paused {
        match p {
            Some(Packet::Unhandled) => {},
            _ => {
                if !mid.state.raid_end {
                    assert(fin.state.entities == mid.state.entities);
                }
            },
        }
    }
}

/// Over a run of dispatch steps with no reset requested and no encounter
/// ending (no state of the run after the first is a reset one), every
/// record of the first state keeps its place, its damage dealt never
/// drops, and a dead record stays dead.
pub proof fn lemma_run_grows(
    states: Seq<Parser>,
    packets: Seq<Option<Packet>>,
    nows: Seq<i64>,
    since: Seq<u64>,
    results: Seq<(bool, Option<Encounter>)>,
)
    requires
        states.len() == packets.len() + 1,
        nows.len() == packets.len(),
        since.len() == packets.len(),
        results.len() == packets.len(),
        forall|i: int| 0 <= i < packets.len() ==> #[trigger] step_spec(states[i], states[i + 1], packets[i], nows[i], since[i], results[i]),
        forall|i: int| 0 <= i < packets.len() ==> !(#[trigger] states[i]).reset_requested,
        forall|i: int| 0 < i < states.len() ==> !(#[trigger] states[i]).state.is_reset(),
    ensures
        forall|i: int| 0 <= i < states.len() ==> grows(states[0].state.entities@, (#[trigger] states[i]).state.entities@),
    decreases packets.len(),
{
    let a = states[0].state.entities@;
    assert forall|i: int| 0 <= i < a.len() implies #[trigger] kept_record(a[i], a[i]) by {}
    if packets.len() > 0 {
        let n = packets.len() - 1;
        let sd = states.drop_last();
        assert forall|i: int| 0 <= i < n implies #[trigger] step_spec(sd[i], sd[i + 1], packets.drop_last()[i], nows.drop_last()[i], since.drop_last()[i], results.drop_last()[i]) by {
            assert(step_spec(states[i], states[i + 1], packets[i], nows[i], since[i], results[i]));
        }
        assert forall|i: int| 0 <= i < n implies !(#[trigger] sd[i]).reset_requested by {
            assert(!states[i].reset_requested);
        }
        assert forall|i: int| 0 < i < sd.len() implies !(#[trigger] sd[i]).state.is_reset() by {
            assert(!states[i].state.is_reset());
        }
        lemma_run_grows(sd, packets.drop_last(), nows.drop_last(), since.drop_last(), results.drop_last());
        assert(step_spec(states[n], states[n + 1], packets[n], nows[n], since[n], results[n]));
        assert(!states[n].reset_requested);
        lemma_step_grows(states[n], states[n + 1], packets[n], nows[n], since[n], results[n]);
        assert(!states[n + 1].state.is_reset());
        assert(sd[n] == states[n]);
        assert(grows(a, states[n].state.entities@));
        crate::encounter::lemma_grows_trans(a, states[n].state.entities@, states[n + 1].state.entities@);
        assert forall|i: int| 0 <= i < states.len() implies grows(a, (#[trigger] states[i]).state.entities@) by {
            if i <= n {
                assert(sd[i] == states[i]);
            }
        }
    }
}

} // verus!
