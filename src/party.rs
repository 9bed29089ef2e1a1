//! The party tracker: who is in the main player's party.

use vstd::prelude::*;

use crate::events;
use crate::messages;

verus! {

/// The composite id of a party structure: the sum of its parts, modulo 2^32.
pub open spec fn composite(s: Seq<u32>) -> u32
    decreases s.len(),
{
    if s.len() == 0 {
        0
    } else {
        ((composite(s.drop_last()) as nat + s.last() as nat) % 0x1_0000_0000) as u32
    }
}

pub fn into_id(party_structure: &Vec<u32>) -> (r: u32)
    ensures
        r == composite(party_structure@),
{
    let mut acc: u32 = 0;
    let mut i: usize = 0;
    while i < party_structure.len()
        invariant
            0 <= i <= party_structure@.len(),
            acc == composite(party_structure@.subrange(0, i as int)),
        decreases party_structure@.len() - i,
    {
        proof {
            assert(party_structure@.subrange(0, i + 1).drop_last() =~= party_structure@.subrange(
                0,
                i as int,
            ));
        }
        acc = ((acc as u64 + party_structure[i] as u64) % 0x1_0000_0000) as u32;
        i = i + 1;
    }
    assert(party_structure@.subrange(0, i as int) =~= party_structure@);
    acc
}

#[derive(Debug, Default)]
struct Item {
    name: String,
    id: u32,
}

/// Members as (name, composite id) pairs, in order.
pub open spec fn pairs_of(names: Seq<Seq<char>>, ids: Seq<u32>) -> Seq<(Seq<char>, u32)> {
    Seq::new(
        if names.len() < ids.len() {
            names.len()
        } else {
            ids.len()
        },
        |i: int| (names[i], ids[i]),
    )
}

/// The first position at which a member has the composite id `id`.
pub open spec fn first_with(m: Seq<(Seq<char>, u32)>, id: u32) -> int {
    choose|i: int|
        0 <= i < m.len() && m[i].1 == id && forall|j: int| 0 <= j < i ==> #[trigger] m[j].1 != id
}

#[derive(Debug, Default)]
pub struct Party {
    main_player_name: Option<String>,
    items: Vec<Item>,
}

impl Party {
    /// The members, as (name, composite id) pairs.
    pub closed spec fn members(&self) -> Seq<(Seq<char>, u32)> {
        self.items@.map_values(|i: Item| (i.name@, i.id))
    }

    pub closed spec fn main_name(&self) -> Option<Seq<char>> {
        match self.main_player_name {
            Some(n) => Some(n@),
            None => None,
        }
    }

    /// The event that announces `members`.
    pub open spec fn announces(e: Option<events::Event>, members: Seq<(Seq<char>, u32)>) -> bool {
        &&& e is Some
        &&& e->0 is UpdateParty
        &&& e->0->UpdateParty_0.player_names@.len() == members.len()
        &&& forall|i: int|
            0 <= i < members.len() ==> #[trigger] e->0->UpdateParty_0.player_names@[i]@
                == members[i].0
    }

    pub fn new() -> (r: Party)
        ensures
            r.members().len() == 0,
            r.main_name() is None,
    {
        let r = Party { main_player_name: None, items: Vec::new() };
        assert(r.members() =~= Seq::<(Seq<char>, u32)>::empty());
        r
    }

    pub fn set_main_player_name(&mut self, name: &str)
        ensures
            final(self).main_name() == Some(name@),
            final(self).members() == old(self).members(),
    {
        self.main_player_name = Some(name.to_owned());
    }

    /// A member left. Where it was the main player, the party is gone for
    /// the main player too; otherwise the first member with that composite
    /// id leaves. Nothing happens before the main player is known, or for a
    /// composite id that no member has.
    pub fn player_left(&mut self, left: &messages::PartyPlayerLeft) -> (r: Option<events::Event>)
        ensures
            ({
                let id = composite(left.party_structure@);
                let m = old(self).members();
                let found = exists|i: int| 0 <= i < m.len() && #[trigger] m[i].1 == id;
                if old(self).main_name() is None || !found {
                    r is None && final(self).members() == m
                } else if m[first_with(m, id)].0 == old(self).main_name()->0 {
                    final(self).members().len() == 0 && Party::announces(r, final(self).members())
                } else {
                    final(self).members() == m.remove(first_with(m, id)) && Party::announces(
                        r,
                        final(self).members(),
                    )
                }
            }),
            final(self).main_name() == old(self).main_name(),
    {
        let id = into_id(&left.party_structure);
        let main = match &self.main_player_name {
            Some(n) => n.clone(),
            None => return None,
        };
        let mut i: usize = 0;
        while i < self.items.len() && self.items[i].id != id
            invariant
                0 <= i <= self.items@.len(),
                forall|j: int| 0 <= j < i ==> #[trigger] self.members()[j].1 != id,
                self.members().len() == self.items@.len(),
            decreases self.items@.len() - i,
        {
            assert(self.members()[i as int] == (self.items@[i as int].name@, self.items@[i as int].id));
            i = i + 1;
        }
        if i == self.items.len() {
            return None;
        }
        proof {
            let m = self.members();
            assert(m[i as int] == (self.items@[i as int].name@, self.items@[i as int].id));
            assert(0 <= i < m.len() && m[i as int].1 == id && forall|j: int|
                0 <= j < i ==> #[trigger] m[j].1 != id);
            let k = first_with(m, id);
            if k < i {
                assert(m[k].1 != id);
            }
            if k > i {
                assert(m[i as int].1 != id);
            }
            assert(k == i);
        }
        if self.items[i].name == main {
            return self.disbanded();
        }
        self.items.remove(i);
        proof {
            assert(self.members() =~= old(self).members().remove(i as int));
        }
        self.game_event()
    }

    pub fn single_player_joined(&mut self, joined: &messages::PartyPlayerJoined) -> (r: Option<events::Event>)
        ensures
            final(self).members() == old(self).members().push(
                (joined.name@, composite(joined.party_structure@)),
            ),
            final(self).main_name() == old(self).main_name(),
            Party::announces(r, final(self).members()),
    {
        let id = into_id(&joined.party_structure);
        self.add_member(joined.name.as_str(), id);
        self.game_event()
    }

    /// Adds a member after the others.
    pub fn add_member(&mut self, member_name: &str, id: u32)
        ensures
            final(self).members() == old(self).members().push((member_name@, id)),
            final(self).main_name() == old(self).main_name(),
    {
        self.items.push(Item { name: member_name.to_owned(), id });
        proof {
            assert(self.members() =~= old(self).members().push((member_name@, id)));
        }
    }

    /// The party as the main player joined it: names paired with the
    /// composite ids of the structures, as far as both lists go.
    pub fn joined(&mut self, joined: &messages::PartyJoined) -> (r: Option<events::Event>)
        ensures
            final(self).members() == pairs_of(
                joined.character_names@.map_values(|s: String| s@),
                joined.party_structures@.map_values(|x: Vec<u32>| composite(x@)),
            ),
            final(self).main_name() == old(self).main_name(),
            Party::announces(r, final(self).members()),
    {
        let ghost names = joined.character_names@.map_values(|s: String| s@);
        let ghost ids = joined.party_structures@.map_values(|x: Vec<u32>| composite(x@));
        let n = if joined.party_structures.len() < joined.character_names.len() {
            joined.party_structures.len()
        } else {
            joined.character_names.len()
        };
        let mut items: Vec<Item> = Vec::new();
        let mut i: usize = 0;
        while i < n
            invariant
                0 <= i <= n,
                n <= joined.party_structures@.len(),
                n <= joined.character_names@.len(),
                names == joined.character_names@.map_values(|s: String| s@),
                ids == joined.party_structures@.map_values(|x: Vec<u32>| composite(x@)),
                items@.len() == i,
                forall|j: int|
                    0 <= j < i ==> #[trigger] items@[j].name@ == names[j] && items@[j].id == ids[j],
            decreases n - i,
        {
            let id = into_id(&joined.party_structures[i]);
            let name = joined.character_names[i].clone();
            items.push(Item { name, id });
            i = i + 1;
        }
        self.items = items;
        assert(self.members() =~= pairs_of(names, ids));
        self.game_event()
    }

    pub fn disbanded(&mut self) -> (r: Option<events::Event>)
        ensures
            final(self).members().len() == 0,
            final(self).main_name() == old(self).main_name(),
            Party::announces(r, final(self).members()),
    {
        self.items = Vec::new();
        self.game_event()
    }

    /// Whether a member of the party has the name `other`.
    pub fn includes(&self, other: &str) -> (r: bool)
        ensures
            r == exists|i: int| 0 <= i < self.members().len() && #[trigger] self.members()[i].0 == other@,
    {
        let wanted = other.to_owned();
        let mut i: usize = 0;
        while i < self.items.len()
            invariant
                0 <= i <= self.items@.len(),
                wanted@ == other@,
                self.members().len() == self.items@.len(),
                forall|j: int| 0 <= j < i ==> #[trigger] self.members()[j].0 != other@,
            decreases self.items@.len() - i,
        {
            assert(self.members()[i as int] == (self.items@[i as int].name@, self.items@[i as int].id));
            if self.items[i].name == wanted {
                assert(self.members()[i as int].0 == other@);
                return true;
            }
            i = i + 1;
        }
        false
    }

    pub fn game_event(&self) -> (r: Option<events::Event>)
        ensures
            Party::announces(r, self.members()),
    {
        let mut names: Vec<String> = Vec::new();
        let mut i: usize = 0;
        while i < self.items.len()
            invariant
                0 <= i <= self.items@.len(),
                names@.len() == i,
                forall|j: int| 0 <= j < i ==> #[trigger] names@[j]@ == self.members()[j].0,
            decreases self.items@.len() - i,
        {
            let name = self.items[i].name.clone();
            assert(self.members()[i as int] == (self.items@[i as int].name@, self.items@[i as int].id));
            names.push(name);
            i = i + 1;
        }
        Some(events::Event::UpdateParty(events::Party { player_names: names }))
    }
}

} // verus!
