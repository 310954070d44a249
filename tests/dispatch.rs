use loa_parser::encounter::{Encounter, EncounterEntity, Phase};
use loa_parser::models::{get_current_and_max_hp, EntityType, Scope};
use loa_parser::packet::{DamageEvent, EffectData, MemberData, Packet};
use loa_parser::parser::Parser;

fn record<'a>(e: &'a Encounter, name: &str) -> Option<&'a EncounterEntity> {
    e.entities.iter().find(|r| r.name == name)
}

fn init_pc(id: u64, character_id: u64, name: &str, hp: i64, max_hp: i64) -> Packet {
    Packet::InitPc {
        player_id: id,
        character_id,
        name: name.to_string(),
        class_id: 102,
        gear_level: 1600,
        stat_pairs: vec![(1, hp), (27, max_hp)],
    }
}

fn new_npc(id: u64, name: &str, hp: i64, max_hp: i64) -> Packet {
    Packet::NewNpc {
        object_id: id,
        npc_id: 7,
        name: name.to_string(),
        esther: false,
        stat_pairs: vec![(1, hp), (27, max_hp)],
    }
}

fn hit(source_id: u64, target_id: u64, damage: u64, cur_hp: i64, max_hp: i64) -> Packet {
    Packet::SkillDamage {
        source_id,
        skill_id: 16010,
        skill_effect_id: 3,
        events: vec![DamageEvent { target_id, damage, modifier: 1, cur_hp, max_hp }],
    }
}

fn opening(p: &mut Parser) {
    p.handle_at(Some(init_pc(1, 100, "playerA", 100, 100)), 1000, 0);
    p.handle_at(Some(new_npc(2, "bossX", 1000, 1000)), 1001, 0);
}

#[test]
fn damage_is_credited_and_target_hp_follows() {
    let mut p = Parser::new(vec![]);
    opening(&mut p);
    let (published, snap) = p.handle_at(Some(hit(1, 2, 100, 900, 1000)), 1002, 0);
    assert!(!published);
    assert!(snap.is_none());
    assert_eq!(record(&p.state, "playerA").unwrap().damage_dealt, 100);
    assert_eq!(record(&p.state, "bossX").unwrap().current_hp, 900);
    assert_eq!(record(&p.state, "bossX").unwrap().damage_taken, 100);
    assert_eq!(p.state.fight_start, 1002);
    assert_eq!(p.state.current_boss_name, "bossX");
    let a = record(&p.state, "playerA").unwrap();
    assert_eq!(a.last_skill_id, 16010);
    assert_eq!(a.last_skill_effect_id, 3);
    assert_eq!(a.last_modifier, 1);
}

#[test]
fn death_marks_dead_and_keeps_damage() {
    let mut p = Parser::new(vec![]);
    opening(&mut p);
    p.handle_at(Some(hit(1, 2, 100, 900, 1000)), 1002, 0);
    let (published, snap) = p.handle_at(Some(Packet::Death { target_id: 2 }), 1003, 0);
    let boss = record(&p.state, "bossX").unwrap();
    assert!(boss.is_dead);
    assert_eq!(boss.current_hp, 0);
    assert_eq!(record(&p.state, "playerA").unwrap().damage_dealt, 100);
    // the boss's death is an edge that publishes at once
    assert!(published);
    let snap = snap.unwrap();
    let b = snap.current_boss.unwrap();
    assert!(b.is_dead);
    assert_eq!(b.current_hp, 0);
    assert!(!p.state.boss_dead_update);
}

#[test]
fn dead_entity_stays_at_zero_hp() {
    let mut p = Parser::new(vec![]);
    opening(&mut p);
    p.handle_at(Some(hit(1, 2, 100, 900, 1000)), 1002, 0);
    p.handle_at(Some(Packet::Death { target_id: 2 }), 1003, 0);
    p.handle_at(Some(hit(1, 2, 50, 850, 1000)), 1004, 0);
    p.handle_at(Some(new_npc(2, "bossX", 1000, 1000)), 1005, 0);
    let boss = record(&p.state, "bossX").unwrap();
    assert!(boss.is_dead);
    assert_eq!(boss.current_hp, 0);
    assert_eq!(record(&p.state, "playerA").unwrap().damage_dealt, 150);
}

#[test]
fn reset_request_clears_encounter() {
    let mut p = Parser::new(vec![]);
    opening(&mut p);
    p.handle_at(Some(hit(1, 2, 100, 900, 1000)), 1002, 0);
    p.handle_at(Some(Packet::TriggerStart { signal: 57 }), 1003, 0);
    assert!(p.state.raid_clear);
    p.request_reset();
    assert!(p.reset_requested);
    let (published, snap) = p.handle_at(Some(Packet::Ignored), 1004, 500);
    assert!(published);
    assert!(snap.is_none());
    assert!(p.state.entities.is_empty());
    assert!(!p.state.raid_clear);
    assert!(!p.state.raid_end);
    assert!(!p.state.saved);
    assert!(!p.state.boss_dead_update);
    assert_eq!(p.state.fight_start, 0);
    assert_eq!(p.state.current_boss_name, "");
    assert!(!p.reset_requested);
}

#[test]
fn migration_rekeys_and_keeps_identity() {
    let mut p = Parser::new(vec![]);
    opening(&mut p);
    p.handle_at(Some(hit(1, 2, 100, 900, 1000)), 1002, 0);
    p.handle_at(Some(Packet::MigrationExecute { remap: vec![(1, 11), (2, 12)] }), 1003, 0);
    assert!(p.entities.entities.get(&1).is_none());
    assert!(p.entities.entities.get(&2).is_none());
    let a = p.entities.entities.get(&11).unwrap();
    assert_eq!(a.id, 11);
    assert_eq!(a.character_id, 100);
    assert_eq!(a.name, "playerA");
    assert_eq!(p.entities.entities.get(&12).unwrap().name, "bossX");
    assert_eq!(p.entities.local_player_id, 11);
    assert_eq!(p.entities.entities.len(), 2);
    assert_eq!(record(&p.state, "playerA").unwrap().damage_dealt, 100);
    p.handle_at(Some(hit(11, 12, 10, 890, 1000)), 1004, 0);
    assert_eq!(record(&p.state, "playerA").unwrap().damage_dealt, 110);
}

#[test]
fn paused_parser_ignores_packets_but_honours_reset() {
    let mut p = Parser::new(vec![]);
    opening(&mut p);
    assert!(!p.toggle_pause());
    for i in 0..5u64 {
        let (published, snap) = p.handle_at(Some(hit(1, 2, 100, 900, 1000)), 2000 + i as i64, 1000);
        assert!(!published);
        assert!(snap.is_none());
    }
    assert_eq!(record(&p.state, "playerA").unwrap().damage_dealt, 0);
    assert_eq!(p.entities.entities.len(), 2);
    p.request_reset();
    p.handle_at(Some(hit(1, 2, 100, 900, 1000)), 3000, 1000);
    assert!(p.state.entities.is_empty());
    assert!(p.entities.entities.is_empty());
    assert!(p.toggle_pause());
    opening(&mut p);
    p.handle_at(Some(hit(1, 2, 100, 900, 1000)), 3001, 0);
    assert_eq!(record(&p.state, "playerA").unwrap().damage_dealt, 100);
}

#[test]
fn boss_battle_status_starts_before_fight() {
    let mut p = Parser::new(vec![]);
    p.handle_at(Some(Packet::TriggerBossBattleStatus), 1000, 0);
    assert_eq!(p.state.phase, Phase::Starting);
}

#[test]
fn boss_battle_status_continues_fight() {
    let mut p = Parser::new(vec![]);
    opening(&mut p);
    p.handle_at(Some(hit(1, 2, 100, 900, 1000)), 1002, 0);
    p.handle_at(Some(Packet::TriggerBossBattleStatus), 1003, 0);
    assert_eq!(p.state.phase, Phase::Ongoing);
}

#[test]
fn boss_battle_status_with_start_but_no_boss_continues() {
    let mut p = Parser::new(vec![]);
    opening(&mut p);
    // a hit on a player starts the fight without naming a boss
    p.handle_at(Some(hit(2, 1, 10, 90, 100)), 1002, 0);
    assert_eq!(p.state.current_boss_name, "");
    assert_ne!(p.state.fight_start, 0);
    p.handle_at(Some(Packet::TriggerBossBattleStatus), 1003, 0);
    assert_eq!(p.state.phase, Phase::Ongoing);
}

#[test]
fn trigger_signals_set_and_clear_raid_clear() {
    for s in [57u32, 59, 61, 63, 74, 76] {
        let mut p = Parser::new(vec![]);
        p.handle_at(Some(Packet::TriggerStart { signal: s }), 1000, 0);
        assert!(p.state.raid_clear, "signal {}", s);
    }
    for s in [58u32, 60, 62, 64, 75, 77] {
        let mut p = Parser::new(vec![]);
        p.handle_at(Some(Packet::TriggerStart { signal: 57 }), 1000, 0);
        p.handle_at(Some(Packet::TriggerStart { signal: s }), 1001, 0);
        assert!(!p.state.raid_clear, "signal {}", s);
    }
    for s in [0u32, 56, 65, 73, 78, 1000] {
        let mut p = Parser::new(vec![]);
        p.handle_at(Some(Packet::TriggerStart { signal: s }), 1000, 0);
        assert!(!p.state.raid_clear);
        p.handle_at(Some(Packet::TriggerStart { signal: 59 }), 1001, 0);
        p.handle_at(Some(Packet::TriggerStart { signal: s }), 1002, 0);
        assert!(p.state.raid_clear);
    }
}

#[test]
fn unseen_ids_get_one_placeholder() {
    let mut p = Parser::new(vec![]);
    let a = p.entities.get_or_create_entity(42);
    let b = p.entities.get_or_create_entity(42);
    assert_eq!(p.entities.entities.len(), 1);
    assert_eq!(a.id, 42);
    assert_eq!(b.id, 42);
    assert_eq!(a.entity_type, EntityType::Unknown);
    assert_eq!(b.entity_type, EntityType::Unknown);
}

#[test]
fn snapshot_keeps_only_damaging_players_and_esthers() {
    let mut p = Parser::new(vec![]);
    opening(&mut p);
    p.handle_at(
        Some(Packet::NewPc {
            player_id: 3,
            character_id: 300,
            name: "idle".to_string(),
            class_id: 103,
            gear_level: 1500,
            stat_pairs: vec![(1, 50), (27, 50)],
        }),
        1002,
        0,
    );
    p.handle_at(
        Some(Packet::NewNpc {
            object_id: 4,
            npc_id: 9,
            name: "esther".to_string(),
            esther: true,
            stat_pairs: vec![],
        }),
        1003,
        0,
    );
    p.handle_at(Some(hit(1, 2, 100, 900, 1000)), 1004, 0);
    p.handle_at(Some(hit(4, 2, 30, 870, 1000)), 1005, 0);
    p.handle_at(Some(hit(2, 1, 10, 90, 100)), 1006, 0);
    let (published, snap) = p.handle_at(None, 1007, 150);
    assert!(published);
    let snap = snap.unwrap();
    let mut names: Vec<String> = snap.entities.iter().map(|e| e.name.clone()).collect();
    names.sort();
    assert_eq!(names, vec!["esther".to_string(), "playerA".to_string()]);
    assert_eq!(snap.current_boss_name, "bossX");
    assert_eq!(snap.current_boss.unwrap().current_hp, 870);
}

#[test]
fn empty_snapshot_is_dropped() {
    let mut p = Parser::new(vec![]);
    opening(&mut p);
    let (published, snap) = p.handle_at(None, 1002, 150);
    assert!(published);
    assert!(snap.is_none());
}

#[test]
fn throttle_holds_back_early_publication() {
    let mut p = Parser::new(vec![]);
    opening(&mut p);
    let (published, _) = p.handle_at(Some(hit(1, 2, 100, 900, 1000)), 1002, 99);
    assert!(!published);
    let (published, snap) = p.handle_at(Some(hit(1, 2, 100, 800, 1000)), 1003, 100);
    assert!(published);
    assert_eq!(snap.unwrap().entities[0].damage_dealt, 200);
}

#[test]
fn unhandled_opcode_skips_publication() {
    let mut p = Parser::new(vec![]);
    opening(&mut p);
    p.handle_at(Some(hit(1, 2, 100, 900, 1000)), 1002, 0);
    let (published, snap) = p.handle_at(Some(Packet::Unhandled), 1003, 1000);
    assert!(!published);
    assert!(snap.is_none());
}

#[test]
fn boss_kill_ends_and_resets_encounter() {
    let mut p = Parser::new(vec![]);
    opening(&mut p);
    p.handle_at(Some(hit(1, 2, 100, 900, 1000)), 1002, 0);
    let (published, snap) = p.handle_at(Some(Packet::RaidBossKill), 1003, 0);
    assert!(published);
    let snap = snap.unwrap();
    assert!(snap.raid_clear);
    assert!(snap.raid_end);
    assert!(snap.saved);
    assert_eq!(snap.phase, Phase::Cleared);
    assert_eq!(p.state.phase, Phase::Cleared);
    assert!(p.state.entities.is_empty());
    assert!(!p.state.raid_end);
    assert!(!p.state.saved);
    assert!(!p.state.raid_clear);
}

#[test]
fn raid_result_goes_idle() {
    let mut p = Parser::new(vec![]);
    opening(&mut p);
    p.handle_at(Some(Packet::TriggerBossBattleStatus), 1002, 0);
    assert_eq!(p.state.phase, Phase::Starting);
    let (published, _) = p.handle_at(Some(Packet::RaidResult), 1003, 0);
    assert!(published);
    assert_eq!(p.state.phase, Phase::Idle);
    assert!(p.state.entities.is_empty());
}

#[test]
fn projectile_damage_goes_to_owner() {
    let mut p = Parser::new(vec![]);
    opening(&mut p);
    p.handle_at(Some(Packet::NewProjectile { projectile_id: 9, owner_id: 1 }), 1002, 0);
    p.handle_at(Some(hit(9, 2, 70, 930, 1000)), 1003, 0);
    assert_eq!(record(&p.state, "playerA").unwrap().damage_dealt, 70);
}

#[test]
fn skill_from_player_table_promotes_unknown_entity() {
    let mut p = Parser::new(vec![(16010, 102)]);
    let e = p.entities.get_or_create_entity(5);
    assert_eq!(e.entity_type, EntityType::Unknown);
    p.handle_at(Some(Packet::SkillStart { source_id: 5, skill_id: 16010 }), 1000, 0);
    let e = p.entities.entities.get(&5).unwrap();
    assert_eq!(e.entity_type, EntityType::Player);
    assert_eq!(e.class_id, 102);
    p.handle_at(Some(Packet::SkillStart { source_id: 6, skill_id: 99 }), 1001, 0);
    assert_eq!(p.entities.entities.get(&6).unwrap().entity_type, EntityType::Unknown);
}

#[test]
fn skill_start_counts_casts() {
    let mut p = Parser::new(vec![]);
    opening(&mut p);
    p.handle_at(Some(Packet::SkillStart { source_id: 1, skill_id: 16010 }), 1500, 0);
    p.handle_at(Some(Packet::SkillStart { source_id: 1, skill_id: 16020 }), 1600, 0);
    let a = record(&p.state, "playerA").unwrap();
    assert_eq!(a.skill_casts, 2);
    assert_eq!(a.last_skill_id, 16020);
    assert_eq!(p.state.last_combat_packet, 1600);
}

#[test]
fn stat_pairs_give_hp() {
    assert_eq!(get_current_and_max_hp(&vec![(1, 5), (27, 9)]), (5, 9));
    assert_eq!(get_current_and_max_hp(&vec![(27, 9), (3, 4), (1, 5), (1, 6)]), (6, 9));
    assert_eq!(get_current_and_max_hp(&vec![]), (0, 0));
}

#[test]
fn party_membership_has_no_duplicates() {
    let mut p = Parser::new(vec![]);
    let members = vec![
        MemberData { character_id: 100, name: "a".to_string() },
        MemberData { character_id: 200, name: "b".to_string() },
        MemberData { character_id: 100, name: "a".to_string() },
    ];
    p.handle_at(Some(Packet::PartyInfo { raid_instance_id: 1, party_instance_id: 10, members }), 1000, 0);
    assert_eq!(p.parties.members.len(), 2);
    assert!(p.parties.same_party(100, 200));
    p.handle_at(Some(Packet::PartyStatusEffectResult { raid_instance_id: 1, party_instance_id: 11, character_id: 200 }), 1001, 0);
    assert_eq!(p.parties.members.len(), 2);
    assert!(!p.parties.same_party(100, 200));
    p.handle_at(Some(Packet::PartyLeaveResult { party_instance_id: 10, name: "a".to_string() }), 1002, 0);
    assert_eq!(p.parties.members.len(), 1);
    assert_eq!(p.parties.members[0].character_id, 200);
}

#[test]
fn status_effects_are_scoped() {
    let mut p = Parser::new(vec![]);
    opening(&mut p);
    let eff = |instance_id: u32, status_effect_id: u32| EffectData { instance_id, status_effect_id, source_id: 1, expiration_tick: 10 };
    p.handle_at(Some(Packet::StatusEffectAdd { object_id: 1, effect: eff(1, 501) }), 1002, 0);
    p.handle_at(Some(Packet::StatusEffectAdd { object_id: 2, effect: eff(2, 502) }), 1003, 0);
    p.handle_at(Some(Packet::PartyStatusEffectAdd { character_id: 100, effects: vec![eff(3, 503)] }), 1004, 0);
    let a = p.entities.entities.get(&1).unwrap().copy();
    let b = p.entities.entities.get(&2).unwrap().copy();
    // the local player is not in a party yet: its party effect is not visible
    let (on_a, on_b) = p.status.get_status_effects(&a, &b, 100, &p.parties);
    assert_eq!(on_a, vec![501]);
    assert_eq!(on_b, vec![502]);
    p.parties.add(1, 10, 100, "playerA".to_string());
    let (on_a, _) = p.status.get_status_effects(&a, &b, 100, &p.parties);
    assert_eq!(on_a, vec![501, 503]);
    p.handle_at(Some(Packet::StatusEffectDuration { effect_instance_id: 1, target_id: 1, expiration_tick: 99 }), 1005, 0);
    assert!(p.status.effects.iter().any(|e| e.instance_id == 1 && e.expiration_tick == 99));
    p.handle_at(Some(Packet::StatusEffectRemove { object_id: 1, effect_ids: vec![1] }), 1006, 0);
    let (on_a, _) = p.status.get_status_effects(&a, &b, 100, &p.parties);
    assert_eq!(on_a, vec![503]);
    p.handle_at(Some(Packet::ZoneObjectUnpublish { object_id: 2 }), 1007, 0);
    let (_, on_b) = p.status.get_status_effects(&a, &b, 100, &p.parties);
    assert!(on_b.is_empty());
    assert_eq!(p.status.effects.len(), 1);
    assert_eq!(p.status.effects[0].scope, Scope::Party);
}

#[test]
fn init_env_keeps_only_local_player() {
    let mut p = Parser::new(vec![]);
    opening(&mut p);
    p.handle_at(Some(Packet::InitEnv { player_id: 77 }), 1002, 0);
    assert_eq!(p.entities.entities.len(), 1);
    let e = p.entities.entities.get(&77).unwrap();
    assert_eq!(e.name, "playerA");
    assert_eq!(e.character_id, 100);
    assert_eq!(p.entities.local_player_id, 77);
    assert_eq!(p.ids.get_entity_id(100), Some(77));
    assert_eq!(p.state.local_player, "playerA");
}

#[test]
fn counters_identity_and_stagger_are_recorded() {
    let mut p = Parser::new(vec![]);
    opening(&mut p);
    p.handle_at(Some(Packet::CounterAttack { source_id: 1 }), 1002, 0);
    p.handle_at(Some(Packet::IdentityGaugeChange { player_id: 1, gauge: 33 }), 1003, 0);
    p.handle_at(Some(Packet::ParalyzationState { object_id: 2, value: 7 }), 1004, 0);
    assert_eq!(record(&p.state, "playerA").unwrap().counters, 1);
    assert_eq!(record(&p.state, "playerA").unwrap().identity_gauge, 33);
    assert_eq!(record(&p.state, "bossX").unwrap().stagger, 7);
}

#[test]
fn reset_clears_entities_and_identities_but_keeps_parties() {
    let mut p = Parser::new(vec![]);
    opening(&mut p);
    p.handle_at(
        Some(Packet::PartyInfo {
            raid_instance_id: 1,
            party_instance_id: 10,
            members: vec![MemberData { character_id: 100, name: "playerA".to_string() }],
        }),
        1002,
        0,
    );
    p.handle_at(Some(Packet::StatusEffectAdd {
        object_id: 1,
        effect: EffectData { instance_id: 1, status_effect_id: 501, source_id: 1, expiration_tick: 10 },
    }), 1003, 0);
    p.request_reset();
    p.handle_at(None, 1004, 0);
    assert!(p.entities.entities.is_empty());
    assert_eq!(p.ids.get_entity_id(100), None);
    assert!(p.status.effects.is_empty());
    assert_eq!(p.parties.members.len(), 1);
    assert!(p.state.entities.is_empty());
}

#[test]
fn undecodable_packet_changes_nothing() {
    let mut p = Parser::new(vec![]);
    opening(&mut p);
    p.handle_at(Some(hit(1, 2, 100, 900, 1000)), 1002, 0);
    let (published, snap) = p.handle_at(None, 1003, 10);
    assert!(!published);
    assert!(snap.is_none());
    assert_eq!(p.entities.entities.len(), 2);
    assert_eq!(p.state.entities.len(), 2);
    assert_eq!(record(&p.state, "playerA").unwrap().damage_dealt, 100);
    assert_eq!(record(&p.state, "bossX").unwrap().current_hp, 900);
}

#[test]
fn unseen_damage_target_gets_one_placeholder() {
    let mut p = Parser::new(vec![]);
    opening(&mut p);
    p.handle_at(Some(hit(1, 50, 10, 90, 100)), 1002, 0);
    p.handle_at(Some(hit(1, 50, 10, 80, 100)), 1003, 0);
    assert_eq!(p.entities.entities.len(), 3);
    let e = p.entities.entities.get(&50).unwrap();
    assert_eq!(e.entity_type, EntityType::Unknown);
    assert_eq!(e.name, "");
    assert_eq!(record(&p.state, "playerA").unwrap().damage_dealt, 20);
}

#[test]
fn larger_npc_becomes_boss() {
    let mut p = Parser::new(vec![]);
    opening(&mut p);
    p.handle_at(Some(new_npc(3, "adds", 500, 500)), 1002, 0);
    p.handle_at(Some(new_npc(4, "bigger", 5000, 5000)), 1003, 0);
    p.handle_at(Some(hit(1, 2, 10, 990, 1000)), 1004, 0);
    assert_eq!(p.state.current_boss_name, "bossX");
    p.handle_at(Some(hit(1, 3, 10, 490, 500)), 1005, 0);
    assert_eq!(p.state.current_boss_name, "bossX");
    p.handle_at(Some(hit(1, 4, 10, 4990, 5000)), 1006, 0);
    assert_eq!(p.state.current_boss_name, "bigger");
}

#[test]
fn party_status_result_keeps_known_name() {
    let mut p = Parser::new(vec![]);
    let members = vec![MemberData { character_id: 200, name: "b".to_string() }];
    p.handle_at(Some(Packet::PartyInfo { raid_instance_id: 1, party_instance_id: 10, members }), 1000, 0);
    p.handle_at(Some(Packet::PartyStatusEffectResult { raid_instance_id: 1, party_instance_id: 11, character_id: 200 }), 1001, 0);
    assert_eq!(p.parties.members[0].name, "b");
    p.handle_at(Some(Packet::PartyLeaveResult { party_instance_id: 11, name: "b".to_string() }), 1002, 0);
    assert!(p.parties.members.is_empty());
}

#[test]
fn spawned_records_start_alive() {
    let mut p = Parser::new(vec![]);
    opening(&mut p);
    assert!(!record(&p.state, "playerA").unwrap().is_dead);
    assert!(!record(&p.state, "bossX").unwrap().is_dead);
    assert_eq!(record(&p.state, "bossX").unwrap().current_hp, 1000);
    assert_eq!(record(&p.state, "playerA").unwrap().current_hp, 100);
}
