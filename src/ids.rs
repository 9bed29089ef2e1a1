//! Player identities. The game names an actor by a dynamic id that holds
//! only within one zone; the cache gives each distinct player name a static
//! id, once, and keeps it for the life of the process.

use std::collections::HashMap;
use vstd::prelude::*;

verus! {

/// The id that the game sends on the wire; stable only within one zone.
#[derive(Clone, Copy, Debug, PartialEq, Eq, Structural, Hash, Default)]
pub struct DynamicId(pub u32);

/// The id that the cache gives a player name; stable for the process.
#[derive(Clone, Copy, Debug, PartialEq, Eq, Structural, Hash)]
pub struct StaticId(pub u32);

/// The durable identity of a player.
#[derive(Clone, Debug, Eq, Hash, Default)]
pub struct PlayerName(pub String);

impl From<u32> for DynamicId {
    fn from(v: u32) -> DynamicId {
        DynamicId(v)
    }
}

impl vstd::std_specs::convert::FromSpecImpl<u32> for DynamicId {
    open spec fn obeys_from_spec() -> bool {
        true
    }

    open spec fn from_spec(v: u32) -> DynamicId {
        DynamicId(v)
    }
}

impl From<u32> for StaticId {
    fn from(v: u32) -> StaticId {
        StaticId(v)
    }
}

impl vstd::std_specs::convert::FromSpecImpl<u32> for StaticId {
    open spec fn obeys_from_spec() -> bool {
        true
    }

    open spec fn from_spec(v: u32) -> StaticId {
        StaticId(v)
    }
}

impl From<String> for PlayerName {
    fn from(v: String) -> PlayerName {
        PlayerName(v)
    }
}

impl vstd::std_specs::convert::FromSpecImpl<String> for PlayerName {
    open spec fn obeys_from_spec() -> bool {
        true
    }

    open spec fn from_spec(v: String) -> PlayerName {
        PlayerName(v)
    }
}

impl PartialEq for PlayerName {
    fn eq(&self, o: &PlayerName) -> (r: bool) {
        self.0 == o.0
    }
}

impl vstd::std_specs::cmp::PartialEqSpecImpl for PlayerName {
    open spec fn obeys_eq_spec() -> bool {
        true
    }

    open spec fn eq_spec(&self, o: &PlayerName) -> bool {
        self.0@ == o.0@
    }
}

impl StaticId {
    pub fn inner(&self) -> (r: u32)
        ensures
            r == self.0,
    {
        self.0
    }
}

impl PlayerName {
    pub fn to_string(&self) -> (r: String)
        ensures
            r@ == self.0@,
    {
        self.0.clone()
    }
}

/// Whether no two of `names` are equal.
pub open spec fn distinct(names: Seq<Seq<char>>) -> bool {
    forall|i: int, j: int|
        0 <= i < names.len() && 0 <= j < names.len() && i != j ==> names[i] != names[j]
}

/// The binding that a save of `name` under the dynamic id `d` gives, when
/// the name already holds the static id `s`: any other dynamic id of `s` is
/// dropped, and `d` points at `s`.
pub open spec fn rebind(m: Map<u32, u32>, d: u32, s: u32) -> Map<u32, u32> {
    Map::new(|k: u32| k == d || (m.contains_key(k) && m[k] != s), |k: u32| if k == d { s } else { m[k] })
}

/// Maps dynamic ids to static ids, and static ids to player names.
#[derive(Debug)]
pub struct IdCache {
    dyn_id_to_static_id: HashMap<u32, u32>,
    static_id_to_name: Vec<String>,
    dyn_id_of: Vec<Option<u32>>,
    last_id: u32,
}

impl IdCache {
    /// The static id that each known dynamic id stands for.
    pub closed spec fn dyn_map(&self) -> Map<u32, u32> {
        self.dyn_id_to_static_id@
    }

    /// The names in the order of their static ids.
    pub closed spec fn names(&self) -> Seq<Seq<char>> {
        self.static_id_to_name@.map_values(|s: String| s@)
    }

    /// The static id that the next new name will get.
    pub closed spec fn next_static_id(&self) -> nat {
        self.last_id as nat
    }

    pub closed spec fn wf(&self) -> bool {
        &&& self.static_id_to_name@.len() == self.last_id
        &&& self.dyn_id_of@.len() == self.last_id
        &&& distinct(self.names())
        &&& forall|d: u32| #[trigger]
            self.dyn_id_to_static_id@.contains_key(d) ==> self.dyn_id_to_static_id@[d]
                < self.last_id && self.dyn_id_of@[self.dyn_id_to_static_id@[d] as int] == Some(d)
        &&& forall|s: int|
            0 <= s < self.last_id && #[trigger] self.dyn_id_of@[s] is Some ==> {
                let d = self.dyn_id_of@[s]->0;
                self.dyn_id_to_static_id@.contains_key(d) && self.dyn_id_to_static_id@[d] == s
            }
    }

    pub proof fn lemma_wf(&self)
        requires
            self.wf(),
        ensures
            self.names().len() == self.next_static_id(),
            self.next_static_id() <= u32::MAX,
            distinct(self.names()),
            forall|d: u32| #[trigger]
                self.dyn_map().contains_key(d) ==> self.dyn_map()[d] < self.next_static_id(),
    {
    }

    pub fn new() -> (r: IdCache)
        ensures
            r.wf(),
            r.dyn_map() == Map::<u32, u32>::empty(),
            r.names().len() == 0,
            r.next_static_id() == 0,
    {
        let r = IdCache {
            dyn_id_to_static_id: HashMap::new(),
            static_id_to_name: Vec::new(),
            dyn_id_of: Vec::new(),
            last_id: 0,
        };
        assert(r.names() =~= Seq::<Seq<char>>::empty());
        r
    }

    /// Binds `dynamic_id` to the player `name`. A name seen before keeps its
    /// static id, and its earlier dynamic id is forgotten; a new name gets
    /// the next static id (once all static ids are spent, nothing changes).
    pub fn save(&mut self, dynamic_id: DynamicId, name: &str)
        requires
            old(self).wf(),
        ensures
            final(self).wf(),
            final(self).next_static_id() >= old(self).next_static_id(),
            final(self).names().len() >= old(self).names().len(),
            forall|s: int|
                0 <= s < old(self).names().len() ==> #[trigger] final(self).names()[s] == old(
                    self,
                ).names()[s],
            ({
                let d = dynamic_id.0;
                let known = exists|s: int|
                    0 <= s < old(self).names().len() && #[trigger] old(self).names()[s] == name@;
                if known {
                    let s = choose|s: int|
                        0 <= s < old(self).names().len() && #[trigger] old(self).names()[s]
                            == name@;
                    &&& final(self).names() == old(self).names()
                    &&& final(self).dyn_map() == rebind(old(self).dyn_map(), d, s as u32)
                } else if old(self).next_static_id() < u32::MAX {
                    &&& final(self).names() == old(self).names().push(name@)
                    &&& final(self).next_static_id() == old(self).next_static_id() + 1
                    &&& final(self).dyn_map() == old(self).dyn_map().insert(
                        d,
                        old(self).next_static_id() as u32,
                    )
                } else {
                    &&& final(self).names() == old(self).names()
                    &&& final(self).dyn_map() == old(self).dyn_map()
                }
            }),
    {
        broadcast use vstd::std_specs::hash::group_hash_axioms;

        let player_name = name.to_owned();
        let d = dynamic_id.0;
        match self.find_static_id(&player_name) {
            Some(s) => {
                if let Some(old_d) = self.find_dynamic_id(s) {
                    self.dyn_id_to_static_id.remove(&old_d);
                    self.dyn_id_of.set(s as usize, None);
                }
                self.unbind(d);
                self.dyn_id_to_static_id.insert(d, s);
                self.dyn_id_of.set(s as usize, Some(d));
                proof {
                    assert(self.dyn_id_to_static_id@ =~= rebind(old(self).dyn_map(), d, s));
                }
            },
            None => {
                if self.last_id == u32::MAX {
                    return ;
                }
                let s = self.last_id;
                self.unbind(d);
                self.dyn_id_to_static_id.insert(d, s);
                self.static_id_to_name.push(player_name);
                self.dyn_id_of.push(Some(d));
                self.last_id = self.last_id + 1;
                proof {
                    assert(self.names() =~= old(self).names().push(name@));
                    assert(self.dyn_id_to_static_id@ =~= old(self).dyn_map().insert(d, s));
                }
            },
        }
    }

    /// Clears the record of whichever static id `d` currently points at;
    /// `d` itself is rebound right after.
    fn unbind(&mut self, d: u32)
        requires
            old(self).wf(),
        ensures
            final(self).dyn_id_to_static_id == old(self).dyn_id_to_static_id,
            final(self).static_id_to_name == old(self).static_id_to_name,
            final(self).last_id == old(self).last_id,
            final(self).dyn_id_of@.len() == old(self).dyn_id_of@.len(),
            forall|s: int|
                0 <= s < old(self).last_id ==> #[trigger] final(self).dyn_id_of@[s] == if old(
                    self,
                ).dyn_id_to_static_id@.contains_key(d) && s == old(self).dyn_id_to_static_id@[d] {
                    None
                } else {
                    old(self).dyn_id_of@[s]
                },
    {
        broadcast use vstd::std_specs::hash::group_hash_axioms;

        if let Some(t) = self.dyn_id_to_static_id.get(&d) {
            let t = *t;
            self.dyn_id_of.set(t as usize, None);
        }
    }

    /// The static id of `name`, if the cache has seen it.
    fn find_static_id(&self, name: &String) -> (r: Option<u32>)
        requires
            self.wf(),
        ensures
            match r {
                Some(s) => s < self.next_static_id() && self.names()[s as int] == name@,
                None => forall|s: int|
                    0 <= s < self.names().len() ==> #[trigger] self.names()[s] != name@,
            },
    {
        let mut i: usize = 0;
        while i < self.static_id_to_name.len()
            invariant
                self.wf(),
                0 <= i <= self.static_id_to_name@.len(),
                forall|s: int| 0 <= s < i ==> #[trigger] self.names()[s] != name@,
            decreases self.static_id_to_name@.len() - i,
        {
            if self.static_id_to_name[i] == *name {
                return Some(i as u32);
            }
            i = i + 1;
        }
        None
    }

    /// The dynamic id that currently points at `s`, if any.
    fn find_dynamic_id(&self, s: u32) -> (r: Option<u32>)
        requires
            self.wf(),
            s < self.next_static_id(),
        ensures
            match r {
                Some(d) => self.dyn_map().contains_key(d) && self.dyn_map()[d] == s,
                None => forall|d: u32| #[trigger]
                    self.dyn_map().contains_key(d) ==> self.dyn_map()[d] != s,
            },
    {
        self.dyn_id_of[s as usize]
    }

    pub fn get_dyn_id_to_static_id_map(&self) -> (r: HashMap<u32, u32>)
        ensures
            r@ == self.dyn_map(),
    {
        self.dyn_id_to_static_id.clone()
    }

    pub fn get_static_id_to_name_map(&self) -> (r: Vec<String>)
        ensures
            r@.len() == self.names().len(),
            forall|i: int| 0 <= i < r@.len() ==> #[trigger] r@[i]@ == self.names()[i],
    {
        let mut out: Vec<String> = Vec::new();
        let mut i: usize = 0;
        while i < self.static_id_to_name.len()
            invariant
                0 <= i <= self.static_id_to_name@.len(),
                out@.len() == i,
                forall|j: int| 0 <= j < i ==> #[trigger] out@[j]@ == self.names()[j],
            decreases self.static_id_to_name@.len() - i,
        {
            let name = self.static_id_to_name[i].clone();
            assert(name@ == self.names()[i as int]);
            out.push(name);
            i = i + 1;
        }
        out
    }

    pub fn get_static_id(&self, dynamic_id: DynamicId) -> (r: Option<StaticId>)
        ensures
            match r {
                Some(s) => self.dyn_map().contains_key(dynamic_id.0) && self.dyn_map()[dynamic_id.0]
                    == s.0,
                None => !self.dyn_map().contains_key(dynamic_id.0),
            },
    {
        broadcast use vstd::std_specs::hash::group_hash_axioms;

        match self.dyn_id_to_static_id.get(&dynamic_id.0) {
            Some(s) => Some(StaticId(*s)),
            None => None,
        }
    }

    pub fn get_name(&self, static_id: StaticId) -> (r: Option<PlayerName>)
        requires
            self.wf(),
        ensures
            match r {
                Some(n) => static_id.0 < self.next_static_id() && n.0@ == self.names()[static_id.0 as int],
                None => static_id.0 >= self.next_static_id(),
            },
    {
        if (static_id.0 as usize) < self.static_id_to_name.len() {
            Some(PlayerName(self.static_id_to_name[static_id.0 as usize].clone()))
        } else {
            None
        }
    }
}

/// Once a name holds a static id, it keeps it: in any later state of the
/// cache (one whose names extend the earlier ones, as every `save` leaves
/// them) the name stands at that static id and at no other.
pub proof fn lemma_static_id_stable(before: &IdCache, after: &IdCache, name: Seq<char>, s: int)
    requires
        before.wf(),
        after.wf(),
        0 <= s < before.names().len(),
        before.names()[s] == name,
        after.names().len() >= before.names().len(),
        forall|i: int| 0 <= i < before.names().len() ==> #[trigger] after.names()[i] == before.names()[i],
    ensures
        after.names()[s] == name,
        forall|t: int| 0 <= t < after.names().len() && #[trigger] after.names()[t] == name ==> t == s,
{
    after.lemma_wf();
}

} // verus!
