use vstd::prelude::*;

verus! {

/// One hit inside a damage packet.
#[derive(Clone, Copy, Debug, PartialEq, Eq, Structural)]
pub struct DamageEvent {
    pub target_id: u64,
    pub damage: u64,
    pub modifier: u32,
    pub cur_hp: i64,
    pub max_hp: i64,
}

/// A status effect as a packet carries it.
#[derive(Clone, Copy, Debug, PartialEq, Eq, Structural)]
pub struct EffectData {
    pub instance_id: u32,
    pub status_effect_id: u32,
    pub source_id: u64,
    pub expiration_tick: u64,
}

/// A party member as a party-info packet lists it.
#[derive(Debug)]
pub struct MemberData {
    pub character_id: u64,
    pub name: String,
}

/// A decoded packet: one variant per handled opcode.  `Ignored` stands for
/// the opcodes that are known and deliberately left alone, `Unhandled` for
/// every other opcode.
#[derive(Debug)]
pub enum Packet {
    CounterAttack { source_id: u64 },
    Death { target_id: u64 },
    IdentityGaugeChange { player_id: u64, gauge: u32 },
    InitEnv { player_id: u64 },
    InitPc {
        player_id: u64,
        character_id: u64,
        name: String,
        class_id: u32,
        gear_level: u32,
        stat_pairs: Vec<(u8, i64)>,
    },
    MigrationExecute { remap: Vec<(u64, u64)> },
    NewPc {
        player_id: u64,
        character_id: u64,
        name: String,
        class_id: u32,
        gear_level: u32,
        stat_pairs: Vec<(u8, i64)>,
    },
    NewNpc { object_id: u64, npc_id: u32, name: String, esther: bool, stat_pairs: Vec<(u8, i64)> },
    NewNpcSummon {
        object_id: u64,
        owner_id: u64,
        npc_id: u32,
        name: String,
        stat_pairs: Vec<(u8, i64)>,
    },
    NewProjectile { projectile_id: u64, owner_id: u64 },
    ParalyzationState { object_id: u64, value: u32 },
    PartyInfo { raid_instance_id: u32, party_instance_id: u32, members: Vec<MemberData> },
    PartyLeaveResult { party_instance_id: u32, name: String },
    PartyStatusEffectAdd { character_id: u64, effects: Vec<EffectData> },
    PartyStatusEffectRemove { character_id: u64, effect_ids: Vec<u32> },
    PartyStatusEffectResult { raid_instance_id: u32, party_instance_id: u32, character_id: u64 },
    RaidBossKill,
    RaidResult,
    RemoveObject { object_ids: Vec<u64> },
    SkillStart { source_id: u64, skill_id: u32 },
    SkillDamage { source_id: u64, skill_id: u32, skill_effect_id: u32, events: Vec<DamageEvent> },
    SkillDamageAbnormalMove { source_id: u64, skill_id: u32, skill_effect_id: u32, events: Vec<DamageEvent> },
    StatusEffectAdd { object_id: u64, effect: EffectData },
    StatusEffectDuration { effect_instance_id: u32, target_id: u64, expiration_tick: u64 },
    StatusEffectRemove { object_id: u64, effect_ids: Vec<u32> },
    TriggerBossBattleStatus,
    TriggerStart { signal: u32 },
    ZoneObjectUnpublish { object_id: u64 },
    Ignored,
    Unhandled,
}

} // verus!
