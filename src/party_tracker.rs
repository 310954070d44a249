use vstd::prelude::*;

verus! {

/// One character's membership in one party.
#[derive(Debug)]
pub struct PartyMember {
    pub raid_instance_id: u32,
    pub party_instance_id: u32,
    pub character_id: u64,
    pub name: String,
}

impl PartyMember {
    pub fn copy(&self) -> (r: PartyMember)
        ensures
            r == *self,
    {
        PartyMember {
            raid_instance_id: self.raid_instance_id,
            party_instance_id: self.party_instance_id,
            character_id: self.character_id,
            name: self.name.clone(),
        }
    }
}

/// No character id occurs twice: every character is in at most one party.
pub open spec fn unique_characters(ms: Seq<PartyMember>) -> bool {
    forall|i: int, j: int|
        0 <= i < j < ms.len() ==> #[trigger] ms[i].character_id != #[trigger] ms[j].character_id
}

/// Whether `x` occurs among the first `n` items of `s`.
pub open spec fn seen_before(s: Seq<PartyMember>, n: int, x: PartyMember) -> bool {
    exists|w: int| 0 <= w < n && s[w] == x
}

/// Whether characters `a` and `b` are members of one party.
pub open spec fn in_same_party(ms: Seq<PartyMember>, a: u64, b: u64) -> bool {
    exists|i: int, j: int|
        0 <= i < ms.len() && 0 <= j < ms.len() && #[trigger] ms[i].character_id == a
            && #[trigger] ms[j].character_id == b && ms[i].party_instance_id
            == ms[j].party_instance_id
}

/// Whether `c` is a member of party `party_id`.
pub open spec fn is_member(ms: Seq<PartyMember>, party_id: u32, c: u64) -> bool {
    exists|i: int|
        0 <= i < ms.len() && #[trigger] ms[i].character_id == c && ms[i].party_instance_id
            == party_id
}

/// Raid and party membership, held as one flat list of memberships.
pub struct PartyTracker {
    pub members: Vec<PartyMember>,
}

impl PartyTracker {
    pub open spec fn wf(&self) -> bool {
        unique_characters(self.members@)
    }

    pub fn new() -> (r: PartyTracker)
        ensures
            r.wf(),
            r.members@.len() == 0,
    {
        PartyTracker { members: Vec::new() }
    }

    fn find(&self, character_id: u64) -> (r: Option<usize>)
        ensures
            match r {
                Some(i) => i < self.members@.len() && self.members@[i as int].character_id
                    == character_id,
                None => forall|i: int|
                    0 <= i < self.members@.len() ==> #[trigger] self.members@[i].character_id
                        != character_id,
            },
    {
        let mut i: usize = 0;
        while i < self.members.len()
            invariant
                i <= self.members@.len(),
                forall|k: int| 0 <= k < i ==> #[trigger] self.members@[k].character_id != character_id,
            decreases self.members@.len() - i,
        {
            if self.members[i].character_id == character_id {
                return Some(i);
            }
            i = i + 1;
        }
        None
    }

    /// The name known for `character_id`, or an empty one.
    pub fn name_of(&self, character_id: u64) -> (r: String)
        requires
            self.wf(),
        ensures
            forall|i: int| 0 <= i < self.members@.len() && #[trigger] self.members@[i].character_id == character_id
                ==> r@ == self.members@[i].name@,
            (forall|i: int| 0 <= i < self.members@.len() ==> #[trigger] self.members@[i].character_id != character_id)
                ==> r@.len() == 0,
    {
        match self.find(character_id) {
            Some(i) => {
                proof {
                    assert forall|k: int| 0 <= k < self.members@.len() && #[trigger] self.members@[k].character_id == character_id
                        implies k == i as int by {
                        if k < i as int {
                            assert(self.members@[k].character_id != self.members@[i as int].character_id);
                        } else if k > i as int {
                            assert(self.members@[i as int].character_id != self.members@[k].character_id);
                        }
                    }
                }
                self.members[i].name.clone()
            },
            None => String::new(),
        }
    }

    /// Puts `character_id` into the given party; a character is in at most
    /// one party, so an earlier membership of it is replaced.
    pub fn add(
        &mut self,
        raid_instance_id: u32,
        party_instance_id: u32,
        character_id: u64,
        name: String,
    )
        requires
            old(self).wf(),
        ensures
            final(self).wf(),
            final(self).members@ == old(self).members@.filter(
                |m: PartyMember| m.character_id != character_id,
            ).push(
                PartyMember { raid_instance_id, party_instance_id, character_id, name },
            ),
            is_member(final(self).members@, party_instance_id, character_id),
    {
        let mut kept: Vec<PartyMember> = Vec::new();
        let ghost pred = |m: PartyMember| m.character_id != character_id;
        let mut i: usize = 0;
        while i < self.members.len()
            invariant
                i <= self.members@.len(),
                kept@ == self.members@.subrange(0, i as int).filter(pred),
                pred == (|m: PartyMember| m.character_id != character_id),
                forall|k: int| 0 <= k < kept@.len() ==> #[trigger] kept@[k].character_id != character_id,
                unique_characters(self.members@),
                unique_characters(kept@),
                forall|k: int| 0 <= k < kept@.len() ==> seen_before(self.members@, i as int, #[trigger] kept@[k]),
            decreases self.members@.len() - i,
        {
            let ghost kb = kept@;
            let ghost cur = self.members@[i as int];
            proof {
                assert(self.members@.subrange(0, i + 1).drop_last() =~= self.members@.subrange(0, i as int));
                assert(self.members@.subrange(0, i + 1).last() == self.members@[i as int]);
                reveal_with_fuel(Seq::filter, 1);
            }
            if self.members[i].character_id != character_id {
                let m = self.members[i].copy();
                proof {
                    assert forall|k: int| 0 <= k < kept@.len() implies #[trigger] kept@[k].character_id != m.character_id by {
                        let w = choose|w: int| 0 <= w < i && self.members@[w] == kept@[k];
                        assert(self.members@[w].character_id != self.members@[i as int].character_id);
                    }
                }
                kept.push(m);
            }
            proof {
                let sub1 = self.members@.subrange(0, i + 1);
                assert(sub1.filter(pred) == (if pred(cur) { kb.push(cur) } else { kb }));
                assert forall|k: int| 0 <= k < kept@.len() implies seen_before(self.members@, i + 1, #[trigger] kept@[k]) by {
                    if k < kb.len() {
                        assert(kept@[k] == kb[k]);
                        let w = choose|w: int| 0 <= w < i && self.members@[w] == kb[k];
                        assert(self.members@[w] == kept@[k]);
                    } else {
                        assert(self.members@[i as int] == kept@[k]);
                    }
                }
            }
            i = i + 1;
        }
        proof {
            assert(self.members@.subrange(0, self.members@.len() as int) =~= self.members@);
        }
        let ghost kept_before = kept@;
        kept.push(PartyMember { raid_instance_id, party_instance_id, character_id, name });
        proof {
            assert(kept@[kept_before.len() as int].character_id == character_id);
        }
        self.members = kept;
    }

    /// Evicts the member called `name` from party `party_instance_id`.
    pub fn remove(&mut self, party_instance_id: u32, name: &String)
        requires
            old(self).wf(),
        ensures
            final(self).wf(),
            final(self).members@ == old(self).members@.filter(
                |m: PartyMember| !(m.party_instance_id == party_instance_id && m.name@ == name@),
            ),
    {
        let mut kept: Vec<PartyMember> = Vec::new();
        let ghost pred = |m: PartyMember| !(m.party_instance_id == party_instance_id && m.name@ == name@);
        let mut i: usize = 0;
        while i < self.members.len()
            invariant
                i <= self.members@.len(),
                kept@ == self.members@.subrange(0, i as int).filter(pred),
                pred == (|m: PartyMember| !(m.party_instance_id == party_instance_id && m.name@ == name@)),
                unique_characters(self.members@),
                unique_characters(kept@),
                forall|k: int| 0 <= k < kept@.len() ==> seen_before(self.members@, i as int, #[trigger] kept@[k]),
            decreases self.members@.len() - i,
        {
            let ghost kb = kept@;
            let ghost cur = self.members@[i as int];
            proof {
                assert(self.members@.subrange(0, i + 1).drop_last() =~= self.members@.subrange(0, i as int));
                assert(self.members@.subrange(0, i + 1).last() == self.members@[i as int]);
                reveal_with_fuel(Seq::filter, 1);
            }
            if !(self.members[i].party_instance_id == party_instance_id && self.members[i].name == *name) {
                let m = self.members[i].copy();
                proof {
                    assert forall|k: int| 0 <= k < kept@.len() implies #[trigger] kept@[k].character_id != m.character_id by {
                        let w = choose|w: int| 0 <= w < i && self.members@[w] == kept@[k];
                        assert(self.members@[w].character_id != self.members@[i as int].character_id);
                    }
                }
                kept.push(m);
            }
            proof {
                let sub1 = self.members@.subrange(0, i + 1);
                assert(sub1.filter(pred) == (if pred(cur) { kb.push(cur) } else { kb }));
                assert forall|k: int| 0 <= k < kept@.len() implies seen_before(self.members@, i + 1, #[trigger] kept@[k]) by {
                    if k < kb.len() {
                        assert(kept@[k] == kb[k]);
                        let w = choose|w: int| 0 <= w < i && self.members@[w] == kb[k];
                        assert(self.members@[w] == kept@[k]);
                    } else {
                        assert(self.members@[i as int] == kept@[k]);
                    }
                }
            }
            i = i + 1;
        }
        proof {
            assert(self.members@.subrange(0, self.members@.len() as int) =~= self.members@);
        }
        self.members = kept;
    }

    /// Whether characters `a` and `b` share a party.
    pub fn same_party(&self, a: u64, b: u64) -> (r: bool)
        requires
            self.wf(),
        ensures
            r == in_same_party(self.members@, a, b),
    {
        match (self.find(a), self.find(b)) {
            (Some(i), Some(j)) => {
                let r = self.members[i].party_instance_id == self.members[j].party_instance_id;
                proof {
                    if !r {
                        assert forall|x: int, y: int|
                            0 <= x < self.members@.len() && 0 <= y < self.members@.len()
                                && #[trigger] self.members@[x].character_id == a
                                && #[trigger] self.members@[y].character_id == b
                            implies self.members@[x].party_instance_id != self.members@[y].party_instance_id by {
                            if x != i as int {
                                if x < i { assert(self.members@[x].character_id != self.members@[i as int].character_id); }
                                else { assert(self.members@[i as int].character_id != self.members@[x].character_id); }
                            }
                            if y != j as int {
                                if y < j { assert(self.members@[y].character_id != self.members@[j as int].character_id); }
                                else { assert(self.members@[j as int].character_id != self.members@[y].character_id); }
                            }
                        }
                    }
                }
                r
            },
            _ => false,
        }
    }
}

/// Adding another character keeps every membership of `c`.
pub proof fn lemma_add_keeps_member(ms: Seq<PartyMember>, newm: PartyMember, party_id: u32, c: u64)
    requires
        is_member(ms, party_id, c),
        newm.character_id != c,
    ensures
        is_member(ms.filter(|m: PartyMember| m.character_id != newm.character_id).push(newm), party_id, c),
{
    let pred = |m: PartyMember| m.character_id != newm.character_id;
    let i = choose|i: int| 0 <= i < ms.len() && #[trigger] ms[i].character_id == c && ms[i].party_instance_id == party_id;
    ms.lemma_filter_contains(pred, i);
    let f = ms.filter(pred);
    let j = choose|j: int| 0 <= j < f.len() && f[j] == ms[i];
    assert(f.push(newm)[j] == ms[i]);
}

} // verus!
