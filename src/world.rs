//! The world: resolves the per-zone dynamic ids of game messages into stable
//! identities and turns each message into the game events it stands for.

use std::collections::HashMap;
use vstd::prelude::*;

use crate::events::{
    f32_abs, f32_below_zero, f32_not_below_zero, is_below_zero, magnitude, Damage, Event, Fame,
    Items, Player,
};
use crate::ids::{rebind, DynamicId, IdCache, StaticId};
use crate::messages;
use crate::party::Party;

verus! {

/// Equipment messages whose player is not known yet, by dynamic id.
#[derive(Debug)]
pub struct UnconsumedMessages {
    messages: HashMap<u32, Vec<messages::CharacterEquipmentChanged>>,
}

impl UnconsumedMessages {
    pub closed spec fn waiting(&self) -> Map<u32, Vec<messages::CharacterEquipmentChanged>> {
        self.messages@
    }

    /// Every waiting message sits under its own source id.
    pub open spec fn wf(&self) -> bool {
        forall|d: u32, k: int|
            #![trigger self.waiting()[d]@[k]]
            self.waiting().contains_key(d) && 0 <= k < self.waiting()[d]@.len()
                ==> self.waiting()[d]@[k].source == d
    }

    pub fn new() -> (r: UnconsumedMessages)
        ensures
            r.waiting() == Map::<u32, Vec<messages::CharacterEquipmentChanged>>::empty(),
            r.wf(),
    {
        UnconsumedMessages { messages: HashMap::new() }
    }

    pub fn add(&mut self, msg: messages::CharacterEquipmentChanged, id: DynamicId)
        requires
            old(self).wf(),
            msg.source == id.0,
        ensures
            final(self).wf(),
            final(self).waiting().dom() == old(self).waiting().dom().insert(id.0),
            final(self).waiting()[id.0]@ == (if old(self).waiting().contains_key(id.0) {
                old(self).waiting()[id.0]@
            } else {
                Seq::empty()
            }).push(msg),
            forall|d: u32|
                d != id.0 && #[trigger] old(self).waiting().contains_key(d) ==> final(self).waiting()[d] == old(self).waiting()[d],
    {
        broadcast use vstd::std_specs::hash::group_hash_axioms;

        let mut list = match self.messages.remove(&id.0) {
            Some(l) => l,
            None => Vec::new(),
        };
        list.push(msg);
        self.messages.insert(id.0, list);
    }

    /// Hands out, and forgets, the messages waiting for `id`.
    pub fn get_for_id(&mut self, id: DynamicId) -> (r: Option<Vec<messages::CharacterEquipmentChanged>>)
        requires
            old(self).wf(),
        ensures
            final(self).wf(),
            final(self).waiting() == old(self).waiting().remove(id.0),
            match r {
                Some(l) => old(self).waiting().contains_key(id.0) && l == old(self).waiting()[id.0],
                None => !old(self).waiting().contains_key(id.0),
            },
    {
        broadcast use vstd::std_specs::hash::group_hash_axioms;

        self.messages.remove(&id.0)
    }
}

pub struct World {
    cache: IdCache,
    unconsumed_messages: UnconsumedMessages,
    main_player_id: Option<StaticId>,
    party: Party,
}

/// `e` announces the player with static id `s`, whose name is `names[s]`.
pub open spec fn names_player(p: Player, s: u32, names: Seq<Seq<char>>) -> bool {
    p.id == StaticId(s) && s < names.len() && p.name@ == names[s as int]
}

impl World {
    pub closed spec fn id_map(&self) -> Map<u32, u32> {
        self.cache.dyn_map()
    }

    pub closed spec fn names(&self) -> Seq<Seq<char>> {
        self.cache.names()
    }

    pub closed spec fn next_static_id(&self) -> nat {
        self.cache.next_static_id()
    }

    pub closed spec fn main_player(&self) -> Option<StaticId> {
        self.main_player_id
    }

    pub closed spec fn party(&self) -> Party {
        self.party
    }

    pub closed spec fn deferred(&self) -> Map<u32, Vec<messages::CharacterEquipmentChanged>> {
        self.unconsumed_messages.waiting()
    }

    pub closed spec fn wf(&self) -> bool {
        self.cache.wf() && self.unconsumed_messages.wf()
    }

    /// A well-formed world names each player once, and hands out static ids
    /// in the order of its names.
    pub proof fn lemma_wf(&self)
        requires
            self.wf(),
        ensures
            crate::ids::distinct(self.names()),
            self.names().len() == self.next_static_id(),
            forall|d: u32| #[trigger] self.id_map().contains_key(d) ==> self.id_map()[d] < self.next_static_id(),
    {
        self.cache.lemma_wf();
    }

    /// The static id that the dynamic id `d` stands for.
    pub open spec fn resolve(&self, d: u32) -> Option<u32> {
        if self.id_map().contains_key(d) {
            Some(self.id_map()[d])
        } else {
            None
        }
    }

    pub open spec fn resolve_id(&self, d: u32) -> Option<StaticId> {
        match self.resolve(d) {
            Some(s) => Some(StaticId(s)),
            None => None,
        }
    }

    /// Identities only grow: the next static id never goes back, and every
    /// name keeps the static id it had.
    pub open spec fn keeps_identities(&self, next: &World) -> bool {
        &&& next.next_static_id() >= self.next_static_id()
        &&& next.names().len() >= self.names().len()
        &&& forall|s: int| 0 <= s < self.names().len() ==> #[trigger] next.names()[s] == self.names()[s]
    }

    pub fn new() -> (r: World)
        ensures
            r.wf(),
            r.id_map() == Map::<u32, u32>::empty(),
            r.names().len() == 0,
            r.next_static_id() == 0,
            r.main_player() is None,
            r.deferred() == Map::<u32, Vec<messages::CharacterEquipmentChanged>>::empty(),
    {
        World {
            cache: IdCache::new(),
            unconsumed_messages: UnconsumedMessages::new(),
            main_player_id: None,
            party: Party::new(),
        }
    }

    fn player(&self, d: u32) -> (r: Option<Player>)
        requires
            self.wf(),
        ensures
            match self.resolve(d) {
                Some(s) => r is Some && names_player(r->0, s, self.names()),
                None => r is None,
            },
    {
        let id = self.cache.get_static_id(DynamicId(d))?;
        proof {
            self.cache.lemma_wf();
        }
        let name = self.cache.get_name(id)?;
        Some(Player { id, name: name.0 })
    }

    /// What `transform` does: `new_w` and `r` follow from `old_w` and `message`.
    pub open spec fn transform_outcome(old_w: World, new_w: World, message: messages::Message, r: Option<Vec<Event>>) -> bool {
        &&& new_w.wf()
        &&& old_w.keeps_identities(&new_w)
        &&& r is Some ==> forall|i: int|
                0 <= i < r->0@.len() && #[trigger] r->0@[i] is DamageDone ==> f32_not_below_zero(
                    r->0@[i]->DamageDone_0.value,
                )
        &&& match message {
                messages::Message::Leave(m) => World::leave_outcome(&old_w, &new_w, m, r),
                messages::Message::HealthUpdate(m) => World::health_outcome(&old_w, &new_w, m, r),
                messages::Message::RegenerationHealthChanged(m) => World::combat_outcome(&old_w, &new_w,
                    m.source,
                    m.regeneration_rate is None,
                    r,
                ),
                messages::Message::KnockedDown(m) => World::combat_outcome(&old_w, &new_w,
                    m.source,
                    false,
                    r,
                ),
                messages::Message::UpdateFame(m) => World::fame_outcome(&old_w, &new_w, m, r),
                messages::Message::CharacterEquipmentChanged(m) => World::equipment_outcome(&old_w, &new_w,
                    m,
                    r,
                ),
                messages::Message::NewCharacter(m) => World::appear_outcome(&old_w, &new_w,
                    m.source,
                    m.character_name@,
                    false,
                    Some(m.items),
                    r,
                ),
                messages::Message::Join(m) => World::appear_outcome(&old_w, &new_w,
                    m.source,
                    m.character_name@,
                    true,
                    None,
                    r,
                ),
                messages::Message::PartyJoined(_) | messages::Message::PartyDisbanded(_)
                | messages::Message::PartyPlayerJoined(_) => r is Some && r->0@.len() == 1
                    && Party::announces(Some(r->0@[0]), new_w.party().members()),
                messages::Message::PartyPlayerLeft(_) => r is Some ==> r->0@.len() == 1
                    && Party::announces(Some(r->0@[0]), new_w.party().members()),
                _ => r is None && old_w.unchanged(&new_w),
            }
    }

    /// Transforms a game message into the game events it stands for.
    pub fn transform(&mut self, message: messages::Message) -> (r: Option<Vec<Event>>)
        requires
            old(self).wf(),
        ensures
            World::transform_outcome(*old(self), *final(self), message, r),
    {
        match message {
            messages::Message::Leave(m) => self.on_leave(m),
            messages::Message::HealthUpdate(m) => self.on_health_update(m),
            messages::Message::RegenerationHealthChanged(m) => {
                let enter = m.regeneration_rate.is_none();
                self.on_combat(m.source, enter)
            },
            messages::Message::KnockedDown(m) => self.on_combat(m.source, false),
            messages::Message::UpdateFame(m) => self.on_fame(m),
            messages::Message::CharacterEquipmentChanged(m) => self.on_equipment(m),
            messages::Message::NewCharacter(m) => self.on_appear(
                m.source,
                m.character_name,
                false,
                Some(m.items),
            ),
            messages::Message::Join(m) => self.on_appear(m.source, m.character_name, true, None),
            messages::Message::PartyJoined(m) => Some(one(self.party.joined(&m).unwrap())),
            messages::Message::PartyDisbanded(_) => Some(one(self.party.disbanded().unwrap())),
            messages::Message::PartyPlayerJoined(m) => Some(
                one(self.party.single_player_joined(&m).unwrap()),
            ),
            messages::Message::PartyPlayerLeft(m) => {
                let e = self.party.player_left(&m)?;
                Some(one(e))
            },
            _ => None,
        }
    }

    pub open spec fn unchanged(&self, next: &World) -> bool {
        &&& next.id_map() == self.id_map()
        &&& next.names() == self.names()
        &&& next.next_static_id() == self.next_static_id()
        &&& next.main_player() == self.main_player()
        &&& next.deferred() == self.deferred()
        &&& next.party() == self.party()
    }

    /// A leave by the main player is a zone change; any other leave says
    /// nothing. Bindings stay: the player may come back.
    pub open spec fn leave_outcome(
        old: &World,
        new: &World,
        m: messages::Leave,
        r: Option<Vec<Event>>,
    ) -> bool {
        &&& old.unchanged(new)
        &&& if old.resolve_id(m.source) is Some && old.main_player() == old.resolve_id(m.source) {
            r is Some && r->0@ == seq![Event::ZoneChange]
        } else {
            r is None
        }
    }

    /// A health change of a known target: damage when it is below zero
    /// (with the magnitude as amount), health received otherwise.
    pub open spec fn health_outcome(
        old: &World,
        new: &World,
        m: messages::HealthUpdate,
        r: Option<Vec<Event>>,
    ) -> bool {
        &&& old.unchanged(new)
        &&& match old.resolve_id(m.target) {
            None => r is None,
            Some(t) => r is Some && r->0@ == seq![
                if f32_below_zero(m.value) {
                    Event::DamageDone(
                        Damage { source: t, target: old.resolve_id(m.source), value: f32_abs(m.value) },
                    )
                } else {
                    Event::HealthReceived(
                        Damage { source: t, target: old.resolve_id(m.source), value: m.value },
                    )
                },
            ],
        }
    }

    /// Entering or leaving combat, for a known player.
    pub open spec fn combat_outcome(
        old: &World,
        new: &World,
        source: u32,
        enter: bool,
        r: Option<Vec<Event>>,
    ) -> bool {
        &&& old.unchanged(new)
        &&& match old.resolve(source) {
            None => r is None,
            Some(s) => r is Some && r->0@.len() == 1 && if enter {
                r->0@[0] is EnterCombat && names_player(r->0@[0]->EnterCombat_0, s, old.names())
            } else {
                r->0@[0] is LeaveCombat && names_player(r->0@[0]->LeaveCombat_0, s, old.names())
            },
        }
    }

    pub open spec fn fame_outcome(
        old: &World,
        new: &World,
        m: messages::UpdateFame,
        r: Option<Vec<Event>>,
    ) -> bool {
        &&& old.unchanged(new)
        &&& match old.resolve_id(m.source) {
            None => r is None,
            Some(s) => r is Some && r->0@ == seq![
                Event::UpdateFame(Fame { source: s, value: m.fame }),
            ],
        }
    }

    /// New equipment of a known player is announced; that of an unknown one
    /// waits for the player to appear.
    pub open spec fn equipment_outcome(
        old: &World,
        new: &World,
        m: messages::CharacterEquipmentChanged,
        r: Option<Vec<Event>>,
    ) -> bool {
        match old.resolve_id(m.source) {
            Some(s) => old.unchanged(new) && r is Some && r->0@ == seq![
                Event::UpdateItems(Items { source: s, value: m.items }),
            ],
            None => {
                &&& r is None
                &&& new.id_map() == old.id_map()
                &&& new.names() == old.names()
                &&& new.next_static_id() == old.next_static_id()
                &&& new.main_player() == old.main_player()
                &&& new.party() == old.party()
                &&& new.deferred().dom() == old.deferred().dom().insert(m.source)
                &&& new.deferred()[m.source]@ == (if old.deferred().contains_key(m.source) {
                    old.deferred()[m.source]@
                } else {
                    Seq::empty()
                }).push(m)
            },
        }
    }

    /// A player appears under the dynamic id `source`: the name is bound to
    /// it, the player is announced (the main player after a zone change
    /// where none was known), then the equipment the announcement carried,
    /// then the equipment that waited for this id.
    pub open spec fn appear_outcome(
        old: &World,
        new: &World,
        source: u32,
        name: Seq<char>,
        main: bool,
        carried: Option<messages::Items>,
        r: Option<Vec<Event>>,
    ) -> bool {
        let first: int = if main && old.main_player() is None {
            1
        } else {
            0
        };
        let lead: int = first + 1 + if carried is Some {
            1int
        } else {
            0int
        };
        let waiting = if old.deferred().contains_key(source) {
            old.deferred()[source]@
        } else {
            Seq::empty()
        };
        let known = exists|i: int| 0 <= i < old.names().len() && #[trigger] old.names()[i] == name;
        &&& known ==> {
            let i = choose|i: int| 0 <= i < old.names().len() && #[trigger] old.names()[i] == name;
            &&& r is Some
            &&& new.names() == old.names()
            &&& new.next_static_id() == old.next_static_id()
            &&& new.id_map() == rebind(old.id_map(), source, i as u32)
        }
        &&& !known && old.next_static_id() < u32::MAX ==> {
            &&& r is Some
            &&& new.names() == old.names().push(name)
            &&& new.next_static_id() == old.next_static_id() + 1
            &&& new.id_map() == old.id_map().insert(source, old.next_static_id() as u32)
        }
        &&& r is Some ==> {
            let s = new.resolve(source)->0;
            let ev = r->0@;
            &&& new.resolve(source) is Some
            &&& new.names()[s as int] == name
            &&& !new.deferred().contains_key(source)
            &&& ev.len() >= first + 1
            &&& first == 1 ==> ev[0] == Event::ZoneChange
            &&& main ==> ev[first] is MainPlayerAppeared && names_player(
                ev[first]->MainPlayerAppeared_0,
                s,
                new.names(),
            ) && new.main_player() == Some(StaticId(s))
            &&& !main ==> ev[first] is PlayerAppeared && names_player(
                ev[first]->PlayerAppeared_0,
                s,
                new.names(),
            )
            &&& carried is Some ==> ev[first + 1] == Event::UpdateItems(
                Items { source: StaticId(s), value: carried->0 },
            )
            &&& ev.len() == lead + waiting.len()
            &&& forall|k: int|
                0 <= k < waiting.len() ==> #[trigger] ev[lead + k] == Event::UpdateItems(
                    Items { source: StaticId(s), value: waiting[k].items },
                )
        }
    }

    fn on_leave(&mut self, m: messages::Leave) -> (r: Option<Vec<Event>>)
        requires
            old(self).wf(),
        ensures
            final(self).wf(),
            World::leave_outcome(old(self), final(self), m, r),
    {
        let id = self.cache.get_static_id(DynamicId(m.source))?;
        match self.main_player_id {
            Some(main) => {
                if main == id {
                    Some(one(Event::ZoneChange))
                } else {
                    None
                }
            },
            None => None,
        }
    }

    fn on_health_update(&mut self, m: messages::HealthUpdate) -> (r: Option<Vec<Event>>)
        requires
            old(self).wf(),
        ensures
            final(self).wf(),
            World::health_outcome(old(self), final(self), m, r),
    {
        let target = self.cache.get_static_id(DynamicId(m.target))?;
        let source = self.cache.get_static_id(DynamicId(m.source));
        if is_below_zero(m.value) {
            Some(
                one(
                    Event::DamageDone(
                        Damage { source: target, target: source, value: magnitude(m.value) },
                    ),
                ),
            )
        } else {
            Some(one(Event::HealthReceived(Damage { source: target, target: source, value: m.value })))
        }
    }

    fn on_combat(&mut self, source: u32, enter: bool) -> (r: Option<Vec<Event>>)
        requires
            old(self).wf(),
        ensures
            final(self).wf(),
            World::combat_outcome(old(self), final(self), source, enter, r),
    {
        let p = self.player(source)?;
        if enter {
            Some(one(Event::EnterCombat(p)))
        } else {
            Some(one(Event::LeaveCombat(p)))
        }
    }

    fn on_fame(&mut self, m: messages::UpdateFame) -> (r: Option<Vec<Event>>)
        requires
            old(self).wf(),
        ensures
            final(self).wf(),
            World::fame_outcome(old(self), final(self), m, r),
    {
        let id = self.cache.get_static_id(DynamicId(m.source))?;
        Some(one(Event::UpdateFame(Fame { source: id, value: m.fame })))
    }

    fn on_equipment(&mut self, m: messages::CharacterEquipmentChanged) -> (r: Option<Vec<Event>>)
        requires
            old(self).wf(),
        ensures
            final(self).wf(),
            old(self).keeps_identities(final(self)),
            World::equipment_outcome(old(self), final(self), m, r),
    {
        match self.cache.get_static_id(DynamicId(m.source)) {
            Some(id) => Some(one(Event::UpdateItems(Items { source: id, value: m.items }))),
            None => {
                let d = DynamicId(m.source);
                self.unconsumed_messages.add(m, d);
                None
            },
        }
    }

    fn on_appear(
        &mut self,
        source: u32,
        name: String,
        main: bool,
        carried: Option<messages::Items>,
    ) -> (r: Option<Vec<Event>>)
        requires
            old(self).wf(),
        ensures
            final(self).wf(),
            old(self).keeps_identities(final(self)),
            World::appear_outcome(old(self), final(self), source, name@, main, carried, r),
            r is Some ==> forall|i: int| 0 <= i < r->0@.len() ==> !(#[trigger] r->0@[i] is DamageDone),
            final(self).party() == old(self).party() || main,
            !main ==> final(self).main_player() == old(self).main_player(),
    {
        let d = DynamicId(source);
        let ghost old_names = self.cache.names();
        let ghost old_map = self.cache.dyn_map();
        proof {
            self.cache.lemma_wf();
        }
        self.cache.save(d, name.as_str());
        proof {
            self.cache.lemma_wf();
            assert((exists|k: int| 0 <= k < old_names.len() && #[trigger] old_names[k] == name@) ==> (
            self.cache.dyn_map().contains_key(source) && self.cache.dyn_map()[source] < self.cache.names().len()
                && self.cache.names()[self.cache.dyn_map()[source] as int] == name@)) by {
            if exists|s: int| 0 <= s < old_names.len() && #[trigger] old_names[s] == name@ {
                let s = choose|s: int| 0 <= s < old_names.len() && #[trigger] old_names[s] == name@;
                assert(rebind(old_map, source, s as u32)[source] == s as u32);
                assert(self.cache.names()[s] == name@);
                let i = choose|k: int| 0 <= k < old(self).names().len() && #[trigger] old(self).names()[k] == name@;
                assert(old(self).names() == old_names);
                assert(crate::ids::distinct(old_names));
                assert(old_names[i] == name@);
                if i != s {
                    assert(old_names[i] != old_names[s]);
                }
                assert(self.cache.dyn_map()[source] == i as u32);
                assert(i == s);
                assert(self.cache.names()[i] == name@);
                assert((i as u32) as int == i);
            }
            }
        }
        let id = self.cache.get_static_id(d)?;
        // Once static ids are spent, a new name stays unbound: do not
        // announce it under the player that still holds this dynamic id.
        let bound = self.cache.get_name(id)?;
        if !(bound.0 == name) {
            return None;
        }
        let mut result: Vec<Event> = Vec::new();
        if main {
            if self.main_player_id.is_none() {
                result.push(Event::ZoneChange);
            }
            self.party.set_main_player_name(name.as_str());
            self.main_player_id = Some(id);
            result.push(Event::MainPlayerAppeared(Player { id, name }));
        } else {
            result.push(Event::PlayerAppeared(Player { id, name }));
        }
        if let Some(items) = carried {
            result.push(Event::UpdateItems(Items { source: id, value: items }));
        }
        let ghost head = result@;
        assert(forall|j: int| 0 <= j < result@.len() ==> !(#[trigger] result@[j] is DamageDone));
        let ghost waiting = if self.unconsumed_messages.waiting().contains_key(source) {
            self.unconsumed_messages.waiting()[source]@
        } else {
            Seq::empty()
        };
        if let Some(list) = self.unconsumed_messages.get_for_id(d) {
            let mut list = list;
            let ghost n = waiting.len();
            assert(list@ =~= waiting.subrange(0, n as int));
            while list.len() > 0
                invariant
                    list@.len() <= n,
                    list@ == waiting.subrange(n - list@.len(), n as int),
                    n == waiting.len(),
                    result@.len() == head.len() + (n - list@.len()),
                    forall|j: int| 0 <= j < head.len() ==> #[trigger] result@[j] == head[j],
                    forall|j: int| 0 <= j < result@.len() ==> !(#[trigger] result@[j] is DamageDone),
                    forall|j: int|
                        0 <= j < n - list@.len() ==> #[trigger] result@[head.len() + j]
                            == Event::UpdateItems(Items { source: id, value: waiting[j].items }),
                decreases list@.len(),
            {
                let ghost k = n - list@.len();
                let ghost before = list@;
                let next = list.remove(0);
                assert(before[0] == waiting[k]);
                assert(next == waiting[k]);
                result.push(Event::UpdateItems(Items { source: id, value: next.items }));
                assert(list@ =~= waiting.subrange(n - list@.len(), n as int));
                assert(result@[head.len() + k] == Event::UpdateItems(
                    Items { source: id, value: waiting[k].items },
                ));
            }
        }
        Some(result)
    }
}

fn one(e: Event) -> (r: Vec<Event>)
    ensures
        r@ == seq![e],
{
    let mut v: Vec<Event> = Vec::new();
    v.push(e);
    assert(v@ =~= seq![e]);
    v
}

} // verus!
