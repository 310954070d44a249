use crate::models::{Entity, Scope};
use crate::party_tracker::{in_same_party, PartyTracker};
use vstd::prelude::*;

verus! {

/// One active status effect.  A `Local` effect's target is an object id;
/// a `Party` effect's target is the character id of a party member.
#[derive(Clone, Copy, Debug, PartialEq, Eq, Structural)]
pub struct StatusEffect {
    pub instance_id: u32,
    pub status_effect_id: u32,
    pub source_id: u64,
    pub target_id: u64,
    pub expiration_tick: u64,
    pub scope: Scope,
}

/// Whether `a` and `b` are the same effect instance on the same target.
pub open spec fn same_instance(a: StatusEffect, b: StatusEffect) -> bool {
    a.instance_id == b.instance_id && a.target_id == b.target_id && a.scope == b.scope
}

/// Whether effect `x` applies to entity `e`, seen by the local character
/// `local_character_id` with party memberships `parties`.
pub open spec fn visible_on(
    x: StatusEffect,
    e: Entity,
    local_character_id: u64,
    parties: Seq<crate::party_tracker::PartyMember>,
) -> bool {
    ||| x.scope == Scope::Local && x.target_id == e.id
    ||| x.scope == Scope::Party && e.character_id != 0 && x.target_id == e.character_id
        && in_same_party(parties, e.character_id, local_character_id)
}

/// The ids of the effects among `s` that apply to `e`, in order.
pub open spec fn visible_ids(
    s: Seq<StatusEffect>,
    e: Entity,
    local_character_id: u64,
    parties: Seq<crate::party_tracker::PartyMember>,
) -> Seq<u32> {
    s.filter_map(
        |x: StatusEffect|
            if visible_on(x, e, local_character_id, parties) {
                Some(x.status_effect_id)
            } else {
                None
            },
    )
}

/// Active status effects, at most one record per instance, target and scope.
pub struct StatusTracker {
    pub effects: Vec<StatusEffect>,
}

impl StatusTracker {
    pub open spec fn wf(&self) -> bool {
        forall|i: int, j: int|
            0 <= i < j < self.effects@.len() ==> !same_instance(
                #[trigger] self.effects@[i],
                #[trigger] self.effects@[j],
            )
    }

    pub fn new() -> (r: StatusTracker)
        ensures
            r.wf(),
            r.effects@.len() == 0,
    {
        StatusTracker { effects: Vec::new() }
    }

    /// Drops every effect.
    pub fn clear(&mut self)
        ensures
            final(self).wf(),
            final(self).effects@.len() == 0,
    {
        self.effects = Vec::new();
    }

    /// Registers `e`, replacing the record of the same instance if one exists.
    pub fn register_status_effect(&mut self, e: StatusEffect)
        requires
            old(self).wf(),
        ensures
            final(self).wf(),
            (exists|i: int|
                0 <= i < old(self).effects@.len() && same_instance(old(self).effects@[i], e)
                    && final(self).effects@ == old(self).effects@.update(i, e))
                || ((forall|i: int| 0 <= i < old(self).effects@.len() ==> !same_instance(#[trigger] old(self).effects@[i], e))
                    && final(self).effects@ == old(self).effects@.push(e)),
            final(self).effects@.contains(e),
            final(self).effects@.len() >= old(self).effects@.len(),
            forall|j: int| 0 <= j < old(self).effects@.len() ==> same_instance(#[trigger] old(self).effects@[j], final(self).effects@[j]),
    {
        let mut i: usize = 0;
        while i < self.effects.len()
            invariant
                i <= self.effects@.len(),
                self.wf(),
                self.effects@ == old(self).effects@,
                forall|k: int| 0 <= k < i ==> !same_instance(#[trigger] self.effects@[k], e),
            decreases self.effects@.len() - i,
        {
            let x = self.effects[i];
            if x.instance_id == e.instance_id && x.target_id == e.target_id && x.scope == e.scope {
                let ghost before = self.effects@;
                self.effects.set(i, e);
                proof {
                    assert forall|a: int, b: int| 0 <= a < b < self.effects@.len() implies !same_instance(#[trigger] self.effects@[a], #[trigger] self.effects@[b]) by {
                        if a == i as int {
                            assert(!same_instance(before[a], before[b]));
                        } else if b == i as int {
                            assert(!same_instance(before[a], before[b]));
                        }
                    }
                    assert(same_instance(before[i as int], e));
                    assert(self.effects@ == before.update(i as int, e));
                    assert(self.effects@[i as int] == e);
                }
                return;
            }
            i = i + 1;
        }
        let ghost before = self.effects@;
        self.effects.push(e);
        proof {
            assert(self.effects@[before.len() as int] == e);
            assert forall|a: int, b: int| 0 <= a < b < self.effects@.len() implies !same_instance(#[trigger] self.effects@[a], #[trigger] self.effects@[b]) by {
                if b == before.len() {
                    assert(!same_instance(before[a], e));
                } else {
                    assert(!same_instance(before[a], before[b]));
                }
            }
        }
    }

    /// Sets the expiration of instance `instance_id` on `target_id` in `scope`.
    pub fn update_status_duration(&mut self, instance_id: u32, target_id: u64, expiration_tick: u64, scope: Scope)
        requires
            old(self).wf(),
        ensures
            final(self).wf(),
            final(self).effects@.len() == old(self).effects@.len(),
            forall|k: int| 0 <= k < old(self).effects@.len() ==> #[trigger] final(self).effects@[k] == {
                let x = old(self).effects@[k];
                if x.instance_id == instance_id && x.target_id == target_id && x.scope == scope {
                    StatusEffect { expiration_tick, ..x }
                } else {
                    x
                }
            },
    {
        let ghost start = self.effects@;
        let mut i: usize = 0;
        while i < self.effects.len()
            invariant
                i <= self.effects@.len(),
                self.effects@.len() == start.len(),
                forall|a: int, b: int| 0 <= a < b < start.len() ==> !same_instance(#[trigger] start[a], #[trigger] start[b]),
                forall|k: int| 0 <= k < start.len() ==> same_instance(#[trigger] self.effects@[k], start[k]),
                forall|k: int| 0 <= k < i ==> #[trigger] self.effects@[k] == {
                    let x = start[k];
                    if x.instance_id == instance_id && x.target_id == target_id && x.scope == scope {
                        StatusEffect { expiration_tick, ..x }
                    } else {
                        x
                    }
                },
                forall|k: int| i <= k < start.len() ==> #[trigger] self.effects@[k] == start[k],
            decreases self.effects@.len() - i,
        {
            let x = self.effects[i];
            if x.instance_id == instance_id && x.target_id == target_id && x.scope == scope {
                self.effects.set(i, StatusEffect { expiration_tick, ..x });
            }
            i = i + 1;
        }
        proof {
            assert forall|a: int, b: int| 0 <= a < b < self.effects@.len() implies !same_instance(#[trigger] self.effects@[a], #[trigger] self.effects@[b]) by {
                assert(!same_instance(start[a], start[b]));
                assert(same_instance(self.effects@[a], start[a]));
                assert(same_instance(self.effects@[b], start[b]));
            }
        }
    }

    /// The ids of the effects that apply to `e`.
    fn effects_on(&self, e: &Entity, local_character_id: u64, parties: &PartyTracker) -> (r: Vec<u32>)
        requires
            parties.wf(),
        ensures
            r@ == visible_ids(self.effects@, *e, local_character_id, parties.members@),
    {
        let ghost f = |x: StatusEffect|
            if visible_on(x, *e, local_character_id, parties.members@) {
                Some(x.status_effect_id)
            } else {
                None
            };
        let mut r: Vec<u32> = Vec::new();
        let mut i: usize = 0;
        while i < self.effects.len()
            invariant
                i <= self.effects@.len(),
                parties.wf(),
                f == (|x: StatusEffect|
                    if visible_on(x, *e, local_character_id, parties.members@) {
                        Some(x.status_effect_id)
                    } else {
                        None
                    }),
                r@ == self.effects@.subrange(0, i as int).filter_map(f),
            decreases self.effects@.len() - i,
        {
            let x = self.effects[i];
            let ghost rb = r@;
            let vis = match x.scope {
                Scope::Local => x.target_id == e.id,
                Scope::Party => e.character_id != 0 && x.target_id == e.character_id
                    && parties.same_party(e.character_id, local_character_id),
            };
            if vis {
                r.push(x.status_effect_id);
            }
            proof {
                let sub1 = self.effects@.subrange(0, i + 1);
                assert(sub1.drop_last() =~= self.effects@.subrange(0, i as int));
                assert(sub1.last() == x);
                assert(vis == visible_on(x, *e, local_character_id, parties.members@));
                reveal_with_fuel(Seq::filter_map, 1);
                assert(sub1.filter_map(f) == (if vis { rb + seq![x.status_effect_id] } else { rb }));
                if vis {
                    assert(r@ =~= rb + seq![x.status_effect_id]);
                }
            }
            i = i + 1;
        }
        proof {
            assert(self.effects@.subrange(0, self.effects@.len() as int) =~= self.effects@);
        }
        r
    }

    /// The ids of the effects active on `source` and on `target`, as seen by
    /// the local character `local_character_id`: a local effect only on its
    /// exact object, a party effect on a member who shares a party with the
    /// local character.
    pub fn get_status_effects(
        &self,
        source: &Entity,
        target: &Entity,
        local_character_id: u64,
        parties: &PartyTracker,
    ) -> (r: (Vec<u32>, Vec<u32>))
        requires
            parties.wf(),
        ensures
            r.0@ == visible_ids(self.effects@, *source, local_character_id, parties.members@),
            r.1@ == visible_ids(self.effects@, *target, local_character_id, parties.members@),
    {
        (
            self.effects_on(source, local_character_id, parties),
            self.effects_on(target, local_character_id, parties),
        )
    }

    /// Keeps the effects that `dropped` does not select, in order.
    fn retain_where(&mut self, target: u64, ids: &Vec<u32>, scope: Scope, object: bool)
        requires
            old(self).wf(),
        ensures
            final(self).wf(),
            final(self).effects@ == old(self).effects@.filter(
                |x: StatusEffect| !dropped(x, target, ids@, scope, object),
            ),
    {
        let ghost keep = |y: StatusEffect| !dropped(y, target, ids@, scope, object);
        let mut kept: Vec<StatusEffect> = Vec::new();
        let mut i: usize = 0;
        while i < self.effects.len()
            invariant
                i <= self.effects@.len(),
                self.wf(),
                kept@ == self.effects@.subrange(0, i as int).filter(keep),
                keep == (|y: StatusEffect| !dropped(y, target, ids@, scope, object)),
                forall|k: int| 0 <= k < kept@.len() ==> exists|w: int| 0 <= w < i && self.effects@[w] == #[trigger] kept@[k],
                forall|a: int, b: int| 0 <= a < b < kept@.len() ==> !same_instance(#[trigger] kept@[a], #[trigger] kept@[b]),
            decreases self.effects@.len() - i,
        {
            let x = self.effects[i];
            let ghost kb = kept@;
            proof {
                assert(self.effects@.subrange(0, i + 1).drop_last() =~= self.effects@.subrange(0, i as int));
                assert(self.effects@.subrange(0, i + 1).last() == x);
            }
            let drop = if object {
                x.scope == Scope::Local && (x.target_id == target || x.source_id == target)
            } else {
                x.target_id == target && x.scope == scope && contains_id(ids, x.instance_id)
            };
            proof {
                let sub1 = self.effects@.subrange(0, i + 1);
                reveal_with_fuel(Seq::filter, 1);
                assert(sub1.drop_last() =~= self.effects@.subrange(0, i as int));
                assert(dropped(x, target, ids@, scope, object) == drop);
                assert(sub1.filter(keep) == (if keep(x) { kb.push(x) } else { kb }));
                assert(keep(x) == !dropped(x, target, ids@, scope, object));
            }
            if !drop {
                proof {
                    assert forall|k: int| 0 <= k < kb.len() implies !same_instance(#[trigger] kb[k], x) by {
                        let w = choose|w: int| 0 <= w < i && self.effects@[w] == kb[k];
                        assert(!same_instance(self.effects@[w], self.effects@[i as int]));
                    }
                }
                kept.push(x);
                proof {
                    assert forall|k: int| 0 <= k < kept@.len() implies exists|w: int| 0 <= w < i + 1 && self.effects@[w] == #[trigger] kept@[k] by {
                        if k < kb.len() {
                            let w = choose|w: int| 0 <= w < i && self.effects@[w] == kb[k];
                            assert(self.effects@[w] == kept@[k]);
                        } else {
                            assert(self.effects@[i as int] == kept@[k]);
                        }
                    }
                }
            } else {
                proof {
                    assert forall|k: int| 0 <= k < kept@.len() implies exists|w: int| 0 <= w < i + 1 && self.effects@[w] == #[trigger] kept@[k] by {
                        let w = choose|w: int| 0 <= w < i && self.effects@[w] == kb[k];
                        assert(self.effects@[w] == kept@[k]);
                    }
                }
            }
            i = i + 1;
        }
        proof {
            assert(self.effects@.subrange(0, self.effects@.len() as int) =~= self.effects@);
        }
        self.effects = kept;
    }

    /// Removes the effects of `ids` from `target` in scope `scope`.
    pub fn remove_status_effects(&mut self, target: u64, ids: &Vec<u32>, scope: Scope)
        requires
            old(self).wf(),
        ensures
            final(self).wf(),
            final(self).effects@ == old(self).effects@.filter(
                |x: StatusEffect| !removed_by_ids(x, target, ids@, scope),
            ),
    {
        self.retain_where(target, ids, scope, false);
        proof {
            assert((|x: StatusEffect| !dropped(x, target, ids@, scope, false)) =~= (|x: StatusEffect| !removed_by_ids(x, target, ids@, scope)));
        }
    }

    /// Drops every local effect that the unpublished object `object_id`
    /// carries or cast.
    pub fn remove_local_object(&mut self, object_id: u64)
        requires
            old(self).wf(),
        ensures
            final(self).wf(),
            final(self).effects@ == old(self).effects@.filter(
                |x: StatusEffect| !tied_to_object(x, object_id),
            ),
    {
        let none: Vec<u32> = Vec::new();
        self.retain_where(object_id, &none, Scope::Local, true);
        proof {
            assert((|x: StatusEffect| !dropped(x, object_id, none@, Scope::Local, true)) =~= (|x: StatusEffect| !tied_to_object(x, object_id)));
        }
    }
}

/// Whether an explicit removal of `ids` from `target` in `scope` takes `x`.
pub open spec fn removed_by_ids(x: StatusEffect, target: u64, ids: Seq<u32>, scope: Scope) -> bool {
    x.target_id == target && x.scope == scope && ids.contains(x.instance_id)
}

/// Whether `x` is a local effect carried or cast by object `object_id`.
pub open spec fn tied_to_object(x: StatusEffect, object_id: u64) -> bool {
    x.scope == Scope::Local && (x.target_id == object_id || x.source_id == object_id)
}

spec fn dropped(x: StatusEffect, target: u64, ids: Seq<u32>, scope: Scope, object: bool) -> bool {
    if object {
        tied_to_object(x, target)
    } else {
        removed_by_ids(x, target, ids, scope)
    }
}

/// Whether `id` occurs in `ids`.
pub fn contains_id(ids: &Vec<u32>, id: u32) -> (r: bool)
    ensures
        r == ids@.contains(id),
{
    let mut i: usize = 0;
    while i < ids.len()
        invariant
            i <= ids@.len(),
            forall|k: int| 0 <= k < i ==> ids@[k] != id,
        decreases ids@.len() - i,
    {
        if ids[i] == id {
            proof {
                assert(ids@[i as int] == id);
            }
            return true;
        }
        i = i + 1;
    }
    false
}

} // verus!
