//! The statistics engine's sessions: who is in the zone and in the last
//! fight, and the exact inputs of each player's statistics. A session keeps
//! each counted hit as the IEEE-754 bits it came with and fame in the wire's
//! own integer units; the caller sums and divides.

use std::collections::HashMap;
use vstd::prelude::*;

use crate::combat::{add_capped, CombatState, CombatTime};
use crate::events::{f32_abs, magnitude, Event};
use crate::messages::Items;

verus! {

/// The scopes that statistics are drawn from.
#[derive(Clone, Copy, Debug, PartialEq, Eq, Structural)]
pub enum StatType {
    LastFight,
    Zone,
    Overall,
}

/// One player's record in a session.
#[derive(Debug)]
pub struct Tally {
    pub id: u32,
    pub name: String,
    pub main: bool,
    /// No damage, fame, equipment or fight has been seen yet.
    pub idle: bool,
    pub combat: CombatTime,
    /// When the player entered the session's zone, in milliseconds.
    pub started_at: u64,
    /// Fame as the wire counts it (ten thousand per point), summed.
    pub fame: u64,
    /// The bits of every damage amount counted, in order.
    pub hits: Vec<u32>,
    pub items: Items,
}

impl Tally {
    /// Whether statistics show this player: the main player always, others
    /// once they did something or gained fame.
    pub open spec fn shown(&self) -> bool {
        self.main || !(self.idle && self.fame == 0)
    }

    pub fn is_shown(&self) -> (r: bool)
        ensures
            r == self.shown(),
    {
        self.main || !(self.idle && self.fame == 0)
    }
}

/// What an event does to one player's record. Damage is counted as given:
/// the caller decides whether the player is in a fight.
pub enum Change {
    Damage(u32),
    EnterCombat,
    LeaveCombat,
    Fame(u32),
    Equip(Items),
}

/// `b` is `a` after `c` at `now`.
pub open spec fn changed(a: Tally, b: Tally, c: Change, now: u64) -> bool {
    &&& b.id == a.id
    &&& b.name == a.name
    &&& b.main == a.main
    &&& b.started_at == a.started_at
    &&& match c {
        Change::Damage(v) => {
            &&& b.hits@ == a.hits@.push(v)
            &&& !b.idle
            &&& b.combat == a.combat && b.fame == a.fame && b.items == a.items
        },
        Change::EnterCombat => {
            &&& b.combat.entered_combat == if a.combat.entered_combat is Some {
                a.combat.entered_combat
            } else {
                Some(now)
            }
            &&& b.combat.time_in_combat == a.combat.time_in_combat
            &&& !b.idle
            &&& b.hits@ == a.hits@ && b.fame == a.fame && b.items == a.items
        },
        Change::LeaveCombat => {
            &&& b.combat.entered_combat is None
            &&& b.combat.time_in_combat == match a.combat.entered_combat {
                Some(t) => add_capped(
                    a.combat.time_in_combat,
                    if now >= t {
                        now - t
                    } else {
                        0
                    },
                ),
                None => a.combat.time_in_combat,
            }
            &&& b.idle == a.idle && b.hits@ == a.hits@ && b.fame == a.fame && b.items == a.items
        },
        Change::Fame(v) => {
            &&& b.fame == (if a.fame + v > u64::MAX {
                u64::MAX
            } else {
                (a.fame + v) as u64
            })
            &&& !b.idle
            &&& b.hits@ == a.hits@ && b.combat == a.combat && b.items == a.items
        },
        Change::Equip(items) => {
            &&& b.items == items
            &&& !b.idle
            &&& b.hits@ == a.hits@ && b.combat == a.combat && b.fame == a.fame
        },
    }
}

/// `b` is `a` at the start of a new session at `now`: identity, items and
/// start time stay, the counts start over, and a fight in progress goes on
/// from `now`.
pub open spec fn rolled(a: Tally, b: Tally, now: u64) -> bool {
    &&& b.id == a.id && b.name == a.name && b.main == a.main && b.started_at == a.started_at
    &&& b.items == a.items
    &&& b.idle && b.fame == 0 && b.hits@.len() == 0
    &&& b.combat.time_in_combat == 0
    &&& b.combat.entered_combat == if a.combat.entered_combat is Some {
        Some(now)
    } else {
        None
    }
}

/// The first position of a player with static id `id`, or -1.
pub open spec fn index_of(ps: Seq<Tally>, id: u32) -> int
    decreases ps.len(),
{
    if ps.len() == 0 {
        -1
    } else if ps[0].id == id {
        0
    } else {
        let r = index_of(ps.drop_first(), id);
        if r < 0 {
            -1
        } else {
            r + 1
        }
    }
}

proof fn lemma_index_of(ps: Seq<Tally>, id: u32)
    ensures
        -1 <= index_of(ps, id) < ps.len(),
        index_of(ps, id) >= 0 ==> ps[index_of(ps, id)].id == id,
        index_of(ps, id) < 0 ==> forall|i: int| 0 <= i < ps.len() ==> #[trigger] ps[i].id != id,
        index_of(ps, id) >= 0 ==> forall|i: int| 0 <= i < index_of(ps, id) ==> #[trigger] ps[i].id != id,
    decreases ps.len(),
{
    if ps.len() > 0 {
        lemma_index_of(ps.drop_first(), id);
        if ps[0].id != id {
            assert forall|i: int| 1 <= i < ps.len() implies ps[i].id == ps.drop_first()[i - 1].id by {}
        }
    }
}

/// No two records of `ps` share a name.
pub open spec fn names_unique(ps: Seq<Tally>) -> bool {
    forall|i: int, j: int|
        0 <= i < ps.len() && 0 <= j < ps.len() && i != j ==> #[trigger] ps[i].name@ != #[trigger] ps[j].name@
}

/// Players of a zone or of the last fight, in the order they came in.
#[derive(Debug)]
pub struct Session {
    pub players: Vec<Tally>,
}

impl Session {
    /// A session maps player names to records: one record per name.
    pub open spec fn wf(&self) -> bool {
        names_unique(self.players@)
    }

    pub fn new() -> (r: Session)
        ensures
            r.players@.len() == 0,
            r.wf(),
    {
        Session { players: Vec::new() }
    }

    /// Whether a player of the session is in a fight.
    pub open spec fn fighting(&self) -> bool {
        exists|i: int| 0 <= i < self.players@.len() && #[trigger] self.players@[i].combat.entered_combat is Some
    }

    pub fn in_combat(&self) -> (r: bool)
        ensures
            r == self.fighting(),
    {
        let mut i: usize = 0;
        while i < self.players.len()
            invariant
                0 <= i <= self.players@.len(),
                forall|j: int| 0 <= j < i ==> #[trigger] self.players@[j].combat.entered_combat is None,
            decreases self.players@.len() - i,
        {
            if self.players[i].combat.state() == CombatState::InCombat {
                return true;
            }
            i = i + 1;
        }
        false
    }

    pub fn position(&self, id: u32) -> (r: Option<usize>)
        ensures
            match r {
                Some(i) => i == index_of(self.players@, id),
                None => index_of(self.players@, id) < 0,
            },
    {
        proof {
            lemma_index_of(self.players@, id);
        }
        let mut i: usize = 0;
        while i < self.players.len()
            invariant
                0 <= i <= self.players@.len(),
                forall|j: int| 0 <= j < i ==> #[trigger] self.players@[j].id != id,
                -1 <= index_of(self.players@, id) < self.players@.len(),
                index_of(self.players@, id) >= 0 ==> self.players@[index_of(self.players@, id)].id == id,
                index_of(self.players@, id) < 0 ==> forall|j: int|
                    0 <= j < self.players@.len() ==> #[trigger] self.players@[j].id != id,
                index_of(self.players@, id) >= 0 ==> forall|j: int|
                    0 <= j < index_of(self.players@, id) ==> #[trigger] self.players@[j].id != id,
            decreases self.players@.len() - i,
        {
            if self.players[i].id == id {
                return Some(i);
            }
            i = i + 1;
        }
        None
    }

    /// Enters the player `name` under the static id `id`: a record of that
    /// name keeps its counts and takes the new id and main flag; otherwise a
    /// fresh record is added.
    pub fn add_player(&mut self, name: &str, id: u32, main: bool, now: u64)
        requires
            old(self).wf(),
        ensures
            final(self).wf(),
            index_of(final(self).players@, id) >= 0,
            match same_name(old(self).players@, name@) {
                Some(i) => final(self).players@.len() == old(self).players@.len() && moved_to(
                    old(self).players@[i],
                    final(self).players@[i],
                    id,
                    main,
                ) && forall|j: int|
                    0 <= j < old(self).players@.len() && j != i ==> #[trigger] final(self).players@[j]
                        == old(self).players@[j],
                None => final(self).players@.len() == old(self).players@.len() + 1 && is_fresh(
                    final(self).players@[old(self).players@.len() as int],
                    name@,
                    id,
                    main,
                    now,
                ) && forall|j: int|
                    0 <= j < old(self).players@.len() ==> #[trigger] final(self).players@[j]
                        == old(self).players@[j],
            },
    {
        let t = Tally {
            id,
            name: name.to_owned(),
            main,
            idle: true,
            combat: CombatTime::new(),
            started_at: now,
            fame: 0,
            hits: Vec::new(),
            items: Items::empty(),
        };
        assert(is_fresh(t, name@, id, main, now));
        let wanted = name.to_owned();
        let mut i: usize = 0;
        while i < self.players.len()
            invariant
                0 <= i <= self.players@.len(),
                self.players@ == old(self).players@,
                wanted@ == name@,
                is_fresh(t, name@, id, main, now),
                names_unique(self.players@),
                forall|j: int| 0 <= j < i ==> #[trigger] self.players@[j].name@ != name@,
            decreases self.players@.len() - i,
        {
            if self.players[i].name == wanted {
                proof {
                    lemma_same_name_first(self.players@, name@, i as int);
                }
                let ghost before = self.players@;
                let mut kept = self.players.remove(i);
                kept.id = id;
                kept.main = main;
                self.players.insert(i, kept);
                proof {
                    assert(self.players@ == before.update(i as int, self.players@[i as int]));
                    lemma_index_of(self.players@, id);
                    assert(self.players@[i as int].id == id);
                    let ps = self.players@;
                    assert forall|x: int, y: int| 0 <= x < ps.len() && 0 <= y < ps.len() && x != y implies #[trigger] ps[x].name@
                        != #[trigger] ps[y].name@ by {
                        if x == i {
                            assert(before[y].name@ != before[i as int].name@);
                        } else if y == i {
                            assert(before[x].name@ != before[i as int].name@);
                        } else {
                            assert(before[x].name@ != before[y].name@);
                        }
                    }
                }
                return;
            }
            i = i + 1;
        }
        proof {
            lemma_same_name_none(self.players@, name@);
        }
        let ghost before = self.players@;
        self.players.push(t);
        proof {
            lemma_index_of(self.players@, id);
            assert(self.players@[self.players@.len() - 1].id == id);
            let ps = self.players@;
            let n = before.len() as int;
            assert forall|x: int, y: int| 0 <= x < ps.len() && 0 <= y < ps.len() && x != y implies #[trigger] ps[x].name@
                != #[trigger] ps[y].name@ by {
                if x == n {
                    assert(before[y].name@ != name@);
                } else if y == n {
                    assert(before[x].name@ != name@);
                } else {
                    assert(before[x].name@ != before[y].name@);
                }
            }
        }
    }

    /// The same players at the start of a new session at `now`.
    pub fn rolled_over(&self, now: u64) -> (r: Session)
        ensures
            self.wf() ==> r.wf(),
            r.players@.len() == self.players@.len(),
            forall|i: int| 0 <= i < self.players@.len() ==> rolled(self.players@[i], #[trigger] r.players@[i], now),
    {
        let mut out: Vec<Tally> = Vec::new();
        let mut i: usize = 0;
        while i < self.players.len()
            invariant
                0 <= i <= self.players@.len(),
                out@.len() == i,
                forall|j: int| 0 <= j < i ==> rolled(self.players@[j], #[trigger] out@[j], now),
            decreases self.players@.len() - i,
        {
            let a = &self.players[i];
            let mut combat = CombatTime::new();
            if a.combat.state() == CombatState::InCombat {
                combat.enter(now);
            }
            out.push(
                Tally {
                    id: a.id,
                    name: a.name.clone(),
                    main: a.main,
                    idle: true,
                    combat,
                    started_at: a.started_at,
                    fame: 0,
                    hits: Vec::new(),
                    items: a.items.duplicate(),
                },
            );
            i = i + 1;
        }
        Session { players: out }
    }
}

/// A record just added for `name`, with nothing counted yet.
pub open spec fn is_fresh(t: Tally, name: Seq<char>, id: u32, main: bool, now: u64) -> bool {
    &&& t.id == id && t.name@ == name && t.main == main && t.idle
    &&& t.combat == CombatTime { entered_combat: None, time_in_combat: 0 }
    &&& t.started_at == now && t.fame == 0 && t.hits@.len() == 0
    &&& forall|k: int| 0 <= k < 10 ==> #[trigger] t.items.slots()[k] is None
}

/// `b` is the record `a`, now under the static id `id` and the main flag
/// `main`: everything it has counted stays.
pub open spec fn moved_to(a: Tally, b: Tally, id: u32, main: bool) -> bool {
    &&& b.id == id && b.main == main
    &&& b.name == a.name && b.idle == a.idle && b.combat == a.combat && b.started_at == a.started_at
    &&& b.fame == a.fame && b.hits@ == a.hits@ && b.items == a.items
}

/// `ps1` is `ps0` with the player `name` under the static id `id`: the record
/// of that name keeps its counts and takes the id and main flag; where there
/// is none, a fresh record is added after the others. Every other record is
/// kept.
pub open spec fn added(ps0: Seq<Tally>, ps1: Seq<Tally>, name: Seq<char>, id: u32, main: bool, now: u64) -> bool {
    match same_name(ps0, name) {
        Some(i) => ps1.len() == ps0.len() && moved_to(ps0[i], ps1[i], id, main) && forall|j: int|
            0 <= j < ps0.len() && j != i ==> #[trigger] ps1[j] == ps0[j],
        None => ps1.len() == ps0.len() + 1 && is_fresh(ps1[ps0.len() as int], name, id, main, now)
            && forall|j: int| 0 <= j < ps0.len() ==> #[trigger] ps1[j] == ps0[j],
    }
}

/// The first position of a player named `name`.
pub open spec fn same_name(ps: Seq<Tally>, name: Seq<char>) -> Option<int> {
    if exists|i: int| 0 <= i < ps.len() && ps[i].name@ == name {
        Some(
            choose|i: int|
                0 <= i < ps.len() && ps[i].name@ == name && forall|j: int|
                    0 <= j < i ==> #[trigger] ps[j].name@ != name,
        )
    } else {
        None
    }
}

proof fn lemma_same_name_first(ps: Seq<Tally>, name: Seq<char>, i: int)
    requires
        0 <= i < ps.len(),
        ps[i].name@ == name,
        forall|j: int| 0 <= j < i ==> #[trigger] ps[j].name@ != name,
    ensures
        same_name(ps, name) == Some(i),
{
    let k = choose|k: int|
        0 <= k < ps.len() && ps[k].name@ == name && forall|j: int| 0 <= j < k ==> #[trigger] ps[j].name@ != name;
    if k < i {
        assert(ps[k].name@ != name);
    }
    if k > i {
        assert(ps[i].name@ != name);
    }
}

proof fn lemma_same_name_none(ps: Seq<Tally>, name: Seq<char>)
    requires
        forall|j: int| 0 <= j < ps.len() ==> #[trigger] ps[j].name@ != name,
    ensures
        same_name(ps, name) is None,
{
}

/// Sequences whose records carry the same ids hold each id at the same place.
proof fn lemma_index_of_same_ids(p: Seq<Tally>, q: Seq<Tally>, id: u32)
    requires
        p.len() == q.len(),
        forall|i: int| 0 <= i < p.len() ==> #[trigger] p[i].id == q[i].id,
    ensures
        index_of(p, id) == index_of(q, id),
    decreases p.len(),
{
    if p.len() > 0 {
        assert forall|i: int| 0 <= i < p.drop_first().len() implies #[trigger] p.drop_first()[i].id == q.drop_first()[i].id by {
            assert(p[i + 1].id == q[i + 1].id);
        }
        lemma_index_of_same_ids(p.drop_first(), q.drop_first(), id);
    }
}

fn apply(t: &mut Tally, c: &Change, now: u64)
    ensures
        changed(*old(t), *final(t), *c, now),
{
    match c {
        Change::Damage(v) => {
            t.idle = false;
            t.hits.push(*v);
        },
        Change::EnterCombat => {
            t.idle = false;
            t.combat.enter(now);
        },
        Change::LeaveCombat => {
            t.combat.leave(now);
        },
        Change::Fame(v) => {
            t.fame = t.fame.saturating_add(*v as u64);
            t.idle = false;
        },
        Change::Equip(items) => {
            t.items = items.duplicate();
            t.idle = false;
        },
    }
}

/// Applies `c` to the player at `i`, leaving the others as they were.
fn apply_at(s: &mut Session, i: usize, c: &Change, now: u64)
    requires
        i < old(s).players@.len(),
    ensures
        final(s).players@.len() == old(s).players@.len(),
        changed(old(s).players@[i as int], final(s).players@[i as int], *c, now),
        forall|j: int| 0 <= j < old(s).players@.len() && j != i ==> #[trigger] final(s).players@[j] == old(s).players@[j],
        old(s).wf() ==> final(s).wf(),
{
    let ghost before = s.players@;
    let mut t = s.players.remove(i);
    apply(&mut t, c, now);
    s.players.insert(i, t);
    proof {
        let ps = s.players@;
        if names_unique(before) {
            assert forall|x: int, y: int| 0 <= x < ps.len() && 0 <= y < ps.len() && x != y implies #[trigger] ps[x].name@
                != #[trigger] ps[y].name@ by {
                assert(ps[x].name == before[x].name);
                assert(ps[y].name == before[y].name);
                assert(before[x].name@ != before[y].name@);
            }
        }
    }
}

/// The zone session, the last-fight session, and equipment that came
/// before its player.
pub struct Meter {
    zone_session: Option<Session>,
    last_fight_session: Session,
    unconsumed_items: HashMap<u32, Items>,
}

impl Meter {
    pub closed spec fn zone(&self) -> Option<Session> {
        self.zone_session
    }

    pub closed spec fn last_fight(&self) -> Session {
        self.last_fight_session
    }

    pub closed spec fn waiting_items(&self) -> Map<u32, Items> {
        self.unconsumed_items@
    }

    /// Each session holds one record per player name.
    pub open spec fn wf(&self) -> bool {
        (self.zone() is Some ==> self.zone()->0.wf()) && self.last_fight().wf()
    }

    /// Both sessions know the player `id`.
    pub open spec fn knows(&self, id: u32) -> bool {
        &&& self.zone() is Some
        &&& index_of(self.zone()->0.players@, id) >= 0
        &&& index_of(self.last_fight().players@, id) >= 0
    }

    /// `next` is `self` with `c` applied to both records of the player `id`.
    pub open spec fn changes_both(&self, next: &Meter, id: u32, c: Change, now: u64) -> bool {
        let a = index_of(self.zone()->0.players@, id);
        let b = index_of(self.last_fight().players@, id);
        let z = self.zone()->0.players@;
        let l = self.last_fight().players@;
        &&& next.zone() is Some
        &&& next.zone()->0.players@.len() == z.len()
        &&& next.last_fight().players@.len() == l.len()
        &&& changed(z[a], next.zone()->0.players@[a], c, now)
        &&& changed(l[b], next.last_fight().players@[b], c, now)
        &&& forall|j: int| 0 <= j < z.len() && j != a ==> #[trigger] next.zone()->0.players@[j] == z[j]
        &&& forall|j: int| 0 <= j < l.len() && j != b ==> #[trigger] next.last_fight().players@[j] == l[j]
    }

    pub fn new() -> (r: Meter)
        ensures
            r.wf(),
            r.zone() is None,
            r.last_fight().players@.len() == 0,
            r.waiting_items() == Map::<u32, Items>::empty(),
    {
        Meter {
            zone_session: None,
            last_fight_session: Session::new(),
            unconsumed_items: HashMap::new(),
        }
    }

    pub fn zone_session(&self) -> (r: Option<&Session>)
        ensures
            match r {
                Some(s) => self.zone() == Some(*s),
                None => self.zone() is None,
            },
    {
        match &self.zone_session {
            Some(s) => Some(s),
            None => None,
        }
    }

    pub fn last_fight_session(&self) -> (r: &Session)
        ensures
            *r == self.last_fight(),
    {
        &self.last_fight_session
    }

    /// Applies `c` to both records of the player `id`; false, with nothing
    /// changed, where a session does not know the player.
    fn change_both(&mut self, id: u32, c: Change, now: u64) -> (r: bool)
        requires
            old(self).wf(),
        ensures
            final(self).wf(),
            r == old(self).knows(id),
            r ==> old(self).changes_both(final(self), id, c, now),
            !r ==> final(self).zone() == old(self).zone() && final(self).last_fight() == old(self).last_fight(),
            final(self).waiting_items() == old(self).waiting_items(),
    {
        proof {
            lemma_index_of(self.last_fight_session.players@, id);
        }
        let b = match self.last_fight_session.position(id) {
            Some(b) => b,
            None => return false,
        };
        match &mut self.zone_session {
            Some(z) => {
                proof {
                    lemma_index_of(z.players@, id);
                }
                match z.position(id) {
                    Some(a) => {
                        apply_at(z, a, &c, now);
                    },
                    None => return false,
                }
            },
            None => return false,
        }
        apply_at(&mut self.last_fight_session, b, &c, now);
        true
    }

    /// Starts a new zone: the zone that ends is handed back, and both
    /// sessions start empty.
    fn new_session(&mut self) -> (r: Option<Session>)
        requires
            old(self).wf(),
        ensures
            final(self).wf(),
            r == old(self).zone(),
            final(self).zone() is Some && final(self).zone()->0.players@.len() == 0,
            final(self).last_fight().players@.len() == 0,
            final(self).waiting_items() == old(self).waiting_items(),
    {
        let closed = self.zone_session.take();
        self.zone_session = Some(Session::new());
        self.last_fight_session = Session::new();
        closed
    }

    /// Applies equipment to a known player, or keeps it until the player
    /// appears.
    fn register_items(&mut self, id: u32, items: Items, now: u64)
        requires
            old(self).wf(),
        ensures
            final(self).wf(),
            old(self).knows(id) ==> old(self).changes_both(final(self), id, Change::Equip(items), now)
                && final(self).waiting_items() == old(self).waiting_items(),
            !old(self).knows(id) ==> final(self).zone() == old(self).zone() && final(self).last_fight()
                == old(self).last_fight() && final(self).waiting_items() == old(self).waiting_items().insert(
                id,
                items,
            ),
    {
        broadcast use vstd::std_specs::hash::group_hash_axioms;

        let copy = items.duplicate();
        if !self.change_both(id, Change::Equip(copy), now) {
            self.unconsumed_items.insert(id, items);
        }
    }

    /// A player appears: a zone starts where none has, the player is added
    /// to both sessions unless both know it, and equipment that waited for
    /// it is applied.
    fn register_player(&mut self, name: &str, id: u32, main: bool, now: u64)
        requires
            old(self).wf(),
        ensures
            final(self).wf(),
            old(self).appears(final(self), name@, id, main, now),
            final(self).knows(id),
            !final(self).waiting_items().contains_key(id),
            forall|k: u32| k != id ==> (#[trigger] final(self).waiting_items().contains_key(k) <==> old(self).waiting_items().contains_key(k)),
    {
        broadcast use vstd::std_specs::hash::group_hash_axioms;

        if self.zone_session.is_none() {
            self.new_session();
        }
        let known = self.knows_player(id);
        if !known {
            match &mut self.zone_session {
                Some(z) => z.add_player(name, id, main, now),
                None => {},
            }
            self.last_fight_session.add_player(name, id, main, now);
        }
        assert(self.knows(id));
        let ghost before = *self;
        if let Some(items) = self.unconsumed_items.remove(&id) {
            self.register_items(id, items, now);
            proof {
                lemma_change_keeps_knowledge(&before, self, id, id, Change::Equip(items), now);
                assert(before.changes_both(self, id, Change::Equip(items), now));
            }
        }
        proof {
            assert(before.knows(id));
        }
    }

    /// `next` is `self` after the player `id` named `name` appeared at `now`:
    /// a zone begins where none has; where a session lacks the player, the
    /// record of that name takes the new id and main flag and keeps all it
    /// has counted, or, where there is none, a fresh record is added (every
    /// other record kept); equipment that waited for it is then applied.
    pub open spec fn appears(&self, next: &Meter, name: Seq<char>, id: u32, main: bool, now: u64) -> bool {
        let z0 = self.zone_players();
        let l0 = if self.zone() is Some {
            self.last_fight().players@
        } else {
            Seq::empty()
        };
        let known = index_of(z0, id) >= 0 && index_of(l0, id) >= 0;
        &&& next.waiting_items() == self.waiting_items().remove(id)
        &&& next.knows(id)
        &&& exists|mid: Meter|
            #[trigger] mid.knows(id) && mid.zone() is Some && (known ==> mid.zone()->0.players@ == z0
                && mid.last_fight().players@ == l0) && (!known ==> added(
                z0,
                mid.zone()->0.players@,
                name,
                id,
                main,
                now,
            ) && added(l0, mid.last_fight().players@, name, id, main, now)) && if self.waiting_items().contains_key(
                id,
            ) {
                mid.changes_both(next, id, Change::Equip(self.waiting_items()[id]), now)
            } else {
                next.zone() == mid.zone() && next.last_fight() == mid.last_fight()
            }
    }

    /// `next` is `self` after `c` reached the player `id`: both records
    /// change where both sessions know the player, and nothing does
    /// otherwise.
    pub open spec fn applies(&self, next: &Meter, id: u32, c: Change, now: u64) -> bool {
        &&& next.waiting_items() == self.waiting_items()
        &&& self.knows(id) ==> self.changes_both(next, id, c, now)
        &&& !self.knows(id) ==> next.zone() == self.zone() && next.last_fight() == self.last_fight()
    }

    /// `next` is `self` after the player `id` entered a fight at `now`. Where
    /// nobody in the last fight was fighting, a new last fight starts first.
    pub open spec fn enters(&self, next: &Meter, id: u32, now: u64) -> bool {
        let l = self.last_fight().players@;
        let nl = next.last_fight().players@;
        let b = index_of(l, id);
        &&& next.waiting_items() == self.waiting_items()
        &&& nl.len() == l.len()
        &&& forall|j: int|
            0 <= j < l.len() && !(self.knows(id) && j == b) ==> if self.last_fight().fighting() {
                #[trigger] nl[j] == l[j]
            } else {
                rolled(l[j], nl[j], now)
            }
        &&& self.knows(id) ==> {
            let z = self.zone()->0.players@;
            let nz = next.zone()->0.players@;
            let a = index_of(z, id);
            &&& next.knows(id)
            &&& next.zone() is Some && nz.len() == z.len()
            &&& changed(z[a], nz[a], Change::EnterCombat, now)
            &&& forall|j: int| 0 <= j < z.len() && j != a ==> #[trigger] nz[j] == z[j]
            &&& nl[b].id == id && nl[b].combat.entered_combat is Some && !nl[b].idle
            &&& nl[b].name == l[b].name && nl[b].main == l[b].main && nl[b].items == l[b].items
            &&& if self.last_fight().fighting() {
                nl[b].hits@ == l[b].hits@ && nl[b].fame == l[b].fame
            } else {
                nl[b].hits@.len() == 0 && nl[b].fame == 0
            }
        }
        &&& !self.knows(id) ==> next.zone() == self.zone()
    }

    /// Takes one game event at `now` (milliseconds on the caller's monotonic
    /// clock). A zone change hands back the zone session that ends.
    /// What `consume` does: `new_m` and `r` follow from `old_m`, `event` and
    /// `now`.
    pub open spec fn consumes(old_m: Meter, new_m: Meter, event: Event, now: u64, r: Option<Session>) -> bool {
            match event {
                Event::ZoneChange => r == old_m.zone() && new_m.zone() is Some
                    && new_m.zone()->0.players@.len() == 0
                    && new_m.last_fight().players@.len() == 0
                    && new_m.waiting_items() == old_m.waiting_items(),
                Event::MainPlayerAppeared(p) => r is None && old_m.appears(&new_m,
                    p.name@,
                    p.id.0,
                    true,
                    now,
                ),
                Event::PlayerAppeared(p) => r is None && old_m.appears(&new_m,
                    p.name@,
                    p.id.0,
                    false,
                    now,
                ),
                Event::UpdateItems(e) => r is None && if old_m.knows(e.source.0) {
                    old_m.changes_both(&new_m, e.source.0, Change::Equip(e.value), now)
                        && new_m.waiting_items() == old_m.waiting_items()
                } else {
                    new_m.zone() == old_m.zone() && new_m.last_fight()
                        == old_m.last_fight() && new_m.waiting_items()
                        == old_m.waiting_items().insert(e.source.0, e.value)
                },
                Event::DamageDone(d) => r is None && if old_m.fights_in_zone(d.source.0) {
                    old_m.applies(&new_m, d.source.0, Change::Damage(f32_abs(d.value)), now)
                } else {
                    new_m.zone() == old_m.zone() && new_m.last_fight()
                        == old_m.last_fight() && new_m.waiting_items()
                        == old_m.waiting_items()
                },
                Event::LeaveCombat(p) => r is None && old_m.applies(&new_m,
                    p.id.0,
                    Change::LeaveCombat,
                    now,
                ),
                Event::UpdateFame(f) => r is None && old_m.applies(&new_m,
                    f.source.0,
                    Change::Fame(f.value),
                    now,
                ),
                Event::EnterCombat(p) => r is None && old_m.enters(&new_m, p.id.0, now),
                _ => r is None && new_m.zone() == old_m.zone() && new_m.last_fight()
                    == old_m.last_fight() && new_m.waiting_items()
                    == old_m.waiting_items(),
            }
    }

    pub fn consume(&mut self, event: Event, now: u64) -> (r: Option<Session>)
        requires
            old(self).wf(),
        ensures
            final(self).wf(),
            Meter::consumes(*old(self), *final(self), event, now, r),
    {
        match event {
            Event::ZoneChange => self.new_session(),
            Event::MainPlayerAppeared(p) => {
                self.register_player(p.name.as_str(), p.id.0, true, now);
                None
            },
            Event::PlayerAppeared(p) => {
                self.register_player(p.name.as_str(), p.id.0, false, now);
                None
            },
            Event::UpdateItems(e) => {
                self.register_items(e.source.0, e.value, now);
                None
            },
            Event::DamageDone(d) => {
                if self.zone_fighter(d.source.0) {
                    self.change_both(d.source.0, Change::Damage(magnitude(d.value)), now);
                }
                None
            },
            Event::LeaveCombat(p) => {
                self.change_both(p.id.0, Change::LeaveCombat, now);
                None
            },
            Event::UpdateFame(f) => {
                self.change_both(f.source.0, Change::Fame(f.value), now);
                None
            },
            Event::EnterCombat(p) => {
                self.enter_combat(p.id.0, now);
                None
            },
            _ => None,
        }
    }

    fn enter_combat(&mut self, id: u32, now: u64)
        requires
            old(self).wf(),
        ensures
            final(self).wf(),
            old(self).enters(final(self), id, now),
    {
        let ghost start = *self;
        if !self.last_fight_session.in_combat() {
            self.last_fight_session = self.last_fight_session.rolled_over(now);
            proof {
                let l = start.last_fight().players@;
                let m = self.last_fight_session.players@;
                assert forall|i: int| 0 <= i < l.len() implies #[trigger] l[i].id == m[i].id by {
                    assert(rolled(l[i], m[i], now));
                }
                lemma_index_of_same_ids(l, m, id);
            }
        }
        let ghost mid = *self;
        assert(mid.knows(id) == start.knows(id));
        self.change_both(id, Change::EnterCombat, now);
        proof {
            if start.knows(id) {
                lemma_index_of(mid.last_fight().players@, id);
                lemma_change_keeps_knowledge(&mid, self, id, id, Change::EnterCombat, now);
            }
        }
    }

    /// Starts the last fight over at `now`.
    pub fn reset_last_fight(&mut self, now: u64)
        requires
            old(self).wf(),
        ensures
            final(self).wf(),
            final(self).zone() == old(self).zone(),
            final(self).waiting_items() == old(self).waiting_items(),
            final(self).last_fight().players@.len() == old(self).last_fight().players@.len(),
            forall|i: int|
                0 <= i < old(self).last_fight().players@.len() ==> rolled(
                    old(self).last_fight().players@[i],
                    #[trigger] final(self).last_fight().players@[i],
                    now,
                ),
    {
        self.last_fight_session = self.last_fight_session.rolled_over(now);
    }

    /// Starts the zone's statistics over at `now`, where a zone has begun.
    pub fn reset_zone(&mut self, now: u64)
        requires
            old(self).wf(),
        ensures
            final(self).wf(),
            final(self).last_fight() == old(self).last_fight(),
            final(self).waiting_items() == old(self).waiting_items(),
            match old(self).zone() {
                None => final(self).zone() is None,
                Some(z) => final(self).zone() is Some && final(self).zone()->0.players@.len()
                    == z.players@.len() && forall|i: int|
                    0 <= i < z.players@.len() ==> rolled(
                        z.players@[i],
                        #[trigger] final(self).zone()->0.players@[i],
                        now,
                    ),
            },
    {
        let next = match &self.zone_session {
            Some(z) => Some(z.rolled_over(now)),
            None => None,
        };
        self.zone_session = next;
    }

    /// The players of the zone, none where no zone has begun.
    pub open spec fn zone_players(&self) -> Seq<Tally> {
        match self.zone() {
            Some(z) => z.players@,
            None => Seq::empty(),
        }
    }

    /// Takes one game event at `now`; where it ends the zone, the ended zone
    /// is folded into `history` by player name and handed back.
    pub fn record(&mut self, event: Event, now: u64, history: &mut History) -> (r: Option<Session>)
        requires
            old(self).wf(),
            old(history).wf(),
        ensures
            final(self).wf(),
            final(history).wf(),
            event is ZoneChange ==> {
                &&& final(self).zone() is Some && final(self).zone()->0.players@.len() == 0
                &&& final(self).last_fight().players@.len() == 0
                &&& r == old(self).zone()
                &&& forall|n: Seq<char>|
                    #![trigger final(history).fame(n)]
                    final(history).fame(n) == capped(
                        old(history).fame(n) + fame_of(old(self).zone_players(), n),
                    )
                &&& forall|n: Seq<char>|
                    #![trigger final(history).combat(n)]
                    final(history).combat(n) == capped(
                        old(history).combat(n) + combat_of(old(self).zone_players(), n, now),
                    )
                &&& forall|n: Seq<char>|
                    #![trigger final(history).seconds(n)]
                    final(history).seconds(n) == capped(
                        old(history).seconds(n) + seconds_of(old(self).zone_players(), n, now),
                    )
                &&& forall|n: Seq<char>|
                    #![trigger final(history).main_of(n)]
                    final(history).main_of(n) == match last_main(old(self).zone_players(), n) {
                        Some(m) => Some(m),
                        None => old(history).main_of(n),
                    }
            },
            !(event is ZoneChange) ==> r is None && final(history).records@ == old(history).records@,
    {
        let is_zone_change = match &event {
            Event::ZoneChange => true,
            _ => false,
        };
        let closed = self.consume(event, now);
        if is_zone_change {
            match &closed {
                Some(z) => history.add_zone(z, now),
                None => {
                    let empty = Session::new();
                    history.add_zone(&empty, now);
                    proof {
                        assert(old(self).zone_players() =~= empty.players@);
                    }
                },
            }
        }
        closed
    }

    /// Both sessions know the player `id`, and its zone record is in a
    /// fight: only then does damage count.
    pub open spec fn fights_in_zone(&self, id: u32) -> bool {
        self.knows(id) && self.zone()->0.players@[index_of(self.zone()->0.players@, id)].combat.entered_combat is Some
    }

    fn zone_fighter(&self, id: u32) -> (r: bool)
        ensures
            r == self.fights_in_zone(id),
    {
        if !self.knows_player(id) {
            return false;
        }
        match &self.zone_session {
            Some(z) => match z.position(id) {
                Some(a) => {
                    proof {
                        lemma_index_of(z.players@, id);
                    }
                    z.players[a].combat.state() == CombatState::InCombat
                },
                None => false,
            },
            None => false,
        }
    }

    fn knows_player(&self, id: u32) -> (r: bool)
        ensures
            r == self.knows(id),
    {
        match &self.zone_session {
            Some(z) => z.position(id).is_some() && self.last_fight_session.position(id).is_some(),
            None => false,
        }
    }
}

/// A change to both records of `changed_id` keeps every player that both
/// sessions knew.
pub proof fn lemma_change_keeps_knowledge(a: &Meter, b: &Meter, changed_id: u32, id: u32, c: Change, now: u64)
    requires
        a.knows(changed_id),
        a.changes_both(b, changed_id, c, now),
        a.knows(id),
    ensures
        b.knows(id),
        index_of(b.zone()->0.players@, id) == index_of(a.zone()->0.players@, id),
        index_of(b.last_fight().players@, id) == index_of(a.last_fight().players@, id),
{
    let z = a.zone()->0.players@;
    let l = a.last_fight().players@;
    let x = index_of(z, changed_id);
    let y = index_of(l, changed_id);
    lemma_index_of(z, changed_id);
    lemma_index_of(l, changed_id);
    assert forall|i: int| 0 <= i < z.len() implies #[trigger] z[i].id == b.zone()->0.players@[i].id by {
        if i == x {
        } else {
            assert(b.zone()->0.players@[i] == z[i]);
        }
    }
    assert forall|i: int| 0 <= i < l.len() implies #[trigger] l[i].id == b.last_fight().players@[i].id by {
        if i == y {
        } else {
            assert(b.last_fight().players@[i] == l[i]);
        }
    }
    lemma_index_of_same_ids(z, b.zone()->0.players@, id);
    lemma_index_of_same_ids(l, b.last_fight().players@, id);
}

/// No event takes combat time away: whatever change reaches a player's
/// record, the time spent in combat stays or grows.
pub proof fn lemma_combat_time_never_decreases(a: Tally, b: Tally, c: Change, now: u64)
    requires
        changed(a, b, c, now),
    ensures
        b.combat.time_in_combat >= a.combat.time_in_combat,
{
}

/// The seconds a record has been in its zone at `now`.
pub open spec fn seconds_at(t: Tally, now: u64) -> nat {
    if now >= t.started_at {
        ((now - t.started_at) / 1000) as nat
    } else {
        0
    }
}

/// The combat time of a record at `now`, the current fight included.
pub open spec fn combat_at(t: Tally, now: u64) -> nat {
    match t.combat.entered_combat {
        Some(e) => add_capped(
            t.combat.time_in_combat,
            if now >= e {
                now - e
            } else {
                0
            },
        ) as nat,
        None => t.combat.time_in_combat as nat,
    }
}

/// Sums over the records of `ps` named `name`.
pub open spec fn fame_of(ps: Seq<Tally>, name: Seq<char>) -> nat
    decreases ps.len(),
{
    if ps.len() == 0 {
        0
    } else {
        fame_of(ps.drop_last(), name) + if ps.last().name@ == name {
            ps.last().fame as nat
        } else {
            0
        }
    }
}

pub open spec fn combat_of(ps: Seq<Tally>, name: Seq<char>, now: u64) -> nat
    decreases ps.len(),
{
    if ps.len() == 0 {
        0
    } else {
        combat_of(ps.drop_last(), name, now) + if ps.last().name@ == name {
            combat_at(ps.last(), now)
        } else {
            0
        }
    }
}

pub open spec fn seconds_of(ps: Seq<Tally>, name: Seq<char>, now: u64) -> nat
    decreases ps.len(),
{
    if ps.len() == 0 {
        0
    } else {
        seconds_of(ps.drop_last(), name, now) + if ps.last().name@ == name {
            seconds_at(ps.last(), now)
        } else {
            0
        }
    }
}

/// The main-player flag of the last record of `ps` named `name`, if any.
pub open spec fn last_main(ps: Seq<Tally>, name: Seq<char>) -> Option<bool>
    decreases ps.len(),
{
    if ps.len() == 0 {
        None
    } else if ps.last().name@ == name {
        Some(ps.last().main)
    } else {
        last_main(ps.drop_last(), name)
    }
}

/// `x`, or the largest `u64` where it does not fit.
pub open spec fn capped(x: int) -> u64 {
    if x > u64::MAX {
        u64::MAX
    } else {
        x as u64
    }
}

/// A player's totals over the zones that have ended.
#[derive(Debug)]
pub struct Totals {
    pub name: String,
    pub time_in_combat: u64,
    pub seconds_in_game: u64,
    /// Fame as the wire counts it.
    pub fame: u64,
    pub main: bool,
}

/// Totals by player name, one record per name.
#[derive(Debug)]
pub struct History {
    pub records: Vec<Totals>,
}

/// No two of `rs` share a name.
pub open spec fn distinct_names(rs: Seq<Totals>) -> bool {
    forall|i: int, j: int|
        0 <= i < rs.len() && 0 <= j < rs.len() && i != j ==> #[trigger] rs[i].name@ != #[trigger] rs[j].name@
}

/// The record of `name` among `rs`, if any.
pub open spec fn record_of(rs: Seq<Totals>, name: Seq<char>) -> Option<Totals> {
    if exists|i: int| 0 <= i < rs.len() && rs[i].name@ == name {
        Some(rs[choose|i: int| 0 <= i < rs.len() && rs[i].name@ == name])
    } else {
        None
    }
}

impl History {
    /// No two records share a name.
    pub open spec fn wf(&self) -> bool {
        distinct_names(self.records@)
    }

    /// A total of `name`, zero where the history has no record of it.
    pub open spec fn fame(&self, name: Seq<char>) -> int {
        match record_of(self.records@, name) {
            Some(r) => r.fame as int,
            None => 0,
        }
    }

    /// The main-player flag of the newest record of `name`, if any.
    pub open spec fn main_of(&self, name: Seq<char>) -> Option<bool> {
        match record_of(self.records@, name) {
            Some(r) => Some(r.main),
            None => None,
        }
    }

    pub open spec fn combat(&self, name: Seq<char>) -> int {
        match record_of(self.records@, name) {
            Some(r) => r.time_in_combat as int,
            None => 0,
        }
    }

    pub open spec fn seconds(&self, name: Seq<char>) -> int {
        match record_of(self.records@, name) {
            Some(r) => r.seconds_in_game as int,
            None => 0,
        }
    }

    pub fn new() -> (r: History)
        ensures
            r.wf(),
            r.records@.len() == 0,
    {
        History { records: Vec::new() }
    }

    /// Adds one zone record to the totals of its name.
    fn add(&mut self, t: &Tally, now: u64)
        requires
            old(self).wf(),
        ensures
            final(self).wf(),
            final(self).fame(t.name@) == capped(old(self).fame(t.name@) + t.fame),
            final(self).combat(t.name@) == capped(old(self).combat(t.name@) + combat_at(*t, now)),
            final(self).seconds(t.name@) == capped(old(self).seconds(t.name@) + seconds_at(*t, now)),
            final(self).main_of(t.name@) == Some(t.main),
            forall|n: Seq<char>|
                n != t.name@ ==> final(self).fame(n) == old(self).fame(n) && final(self).combat(n)
                    == old(self).combat(n) && final(self).seconds(n) == old(self).seconds(n)
                    && final(self).main_of(n) == old(self).main_of(n),
    {
        let combat = t.combat.time_in_combat_at(now);
        let seconds = if now >= t.started_at {
            (now - t.started_at) / 1000
        } else {
            0
        };
        let mut i: usize = 0;
        while i < self.records.len()
            invariant
                0 <= i <= self.records@.len(),
                self.records@ == old(self).records@,
                distinct_names(self.records@),
                combat == combat_at(*t, now),
                seconds == seconds_at(*t, now),
                forall|j: int| 0 <= j < i ==> #[trigger] self.records@[j].name@ != t.name@,
            decreases self.records@.len() - i,
        {
            if self.records[i].name == t.name {
                let r = &self.records[i];
                let next = Totals {
                    name: r.name.clone(),
                    time_in_combat: r.time_in_combat.saturating_add(combat),
                    seconds_in_game: r.seconds_in_game.saturating_add(seconds),
                    fame: r.fame.saturating_add(t.fame),
                    main: t.main,
                };
                proof {
                    lemma_record_at(self.records@, i as int);
                }
                self.records.set(i, next);
                proof {
                    assert(distinct_names(self.records@)) by {
                        assert forall|x: int, y: int|
                            0 <= x < self.records@.len() && 0 <= y < self.records@.len() && x != y
                                implies #[trigger] self.records@[x].name@ != #[trigger] self.records@[y].name@ by {
                            assert(self.records@[x].name@ == old(self).records@[x].name@);
                            assert(self.records@[y].name@ == old(self).records@[y].name@);
                        }
                    }
                    lemma_record_at(self.records@, i as int);
                    lemma_records_elsewhere(old(self).records@, self.records@, i as int);
                }
                return;
            }
            i = i + 1;
        }
        let fresh = Totals {
            name: t.name.clone(),
            time_in_combat: combat,
            seconds_in_game: seconds,
            fame: t.fame,
            main: t.main,
        };
        proof {
            assert(record_of(self.records@, t.name@) is None);
        }
        self.records.push(fresh);
        proof {
            assert(distinct_names(self.records@)) by {
                assert forall|x: int, y: int|
                    0 <= x < self.records@.len() && 0 <= y < self.records@.len() && x != y
                        implies #[trigger] self.records@[x].name@ != #[trigger] self.records@[y].name@ by {
                    if x < old(self).records@.len() && y < old(self).records@.len() {
                        assert(self.records@[x] == old(self).records@[x]);
                        assert(self.records@[y] == old(self).records@[y]);
                    } else if x < old(self).records@.len() {
                        assert(self.records@[x] == old(self).records@[x]);
                    } else if y < old(self).records@.len() {
                        assert(self.records@[y] == old(self).records@[y]);
                    }
                }
            }
            let n = self.records@.len() - 1;
            lemma_record_at(self.records@, n);
            lemma_records_pushed(old(self).records@, self.records@);
        }
    }

    /// Folds the records of an ended zone into the totals, by name: each
    /// total becomes the old total plus the zone's records of that name
    /// (capped at the largest `u64`).
    pub fn add_zone(&mut self, zone: &Session, now: u64)
        requires
            old(self).wf(),
        ensures
            final(self).wf(),
            zone.players@.len() == 0 ==> final(self).records@ == old(self).records@,
            forall|n: Seq<char>|
                #![trigger final(self).fame(n)]
                final(self).fame(n) == capped(old(self).fame(n) + fame_of(zone.players@, n)),
            forall|n: Seq<char>|
                #![trigger final(self).combat(n)]
                final(self).combat(n) == capped(old(self).combat(n) + combat_of(zone.players@, n, now)),
            forall|n: Seq<char>|
                #![trigger final(self).seconds(n)]
                final(self).seconds(n) == capped(old(self).seconds(n) + seconds_of(zone.players@, n, now)),
            forall|n: Seq<char>|
                #![trigger final(self).main_of(n)]
                final(self).main_of(n) == match last_main(zone.players@, n) {
                    Some(m) => Some(m),
                    None => old(self).main_of(n),
                },
    {
        let mut i: usize = 0;
        while i < zone.players.len()
            invariant
                0 <= i <= zone.players@.len(),
                self.wf(),
                zone.players@.len() == 0 ==> self.records@ == old(self).records@,
                forall|n: Seq<char>|
                    #![trigger self.fame(n)]
                    self.fame(n) == capped(old(self).fame(n) + fame_of(zone.players@.subrange(0, i as int), n)),
                forall|n: Seq<char>|
                    #![trigger self.combat(n)]
                    self.combat(n) == capped(
                        old(self).combat(n) + combat_of(zone.players@.subrange(0, i as int), n, now),
                    ),
                forall|n: Seq<char>|
                    #![trigger self.seconds(n)]
                    self.seconds(n) == capped(
                        old(self).seconds(n) + seconds_of(zone.players@.subrange(0, i as int), n, now),
                    ),
                forall|n: Seq<char>|
                    #![trigger self.main_of(n)]
                    self.main_of(n) == match last_main(zone.players@.subrange(0, i as int), n) {
                        Some(m) => Some(m),
                        None => old(self).main_of(n),
                    },
            decreases zone.players@.len() - i,
        {
            let ghost before = *self;
            let t = &zone.players[i];
            self.add(t, now);
            proof {
                let pre = zone.players@.subrange(0, i as int);
                let post = zone.players@.subrange(0, i + 1);
                assert(post.drop_last() =~= pre);
                assert(post.last() == *t);
                assert forall|n: Seq<char>| #[trigger] self.fame(n) == capped(
                    old(self).fame(n) + fame_of(post, n),
                ) by {
                    assert(before.fame(n) == capped(old(self).fame(n) + fame_of(pre, n)));
                    lemma_capped_twice(old(self).fame(n) + fame_of(pre, n), t.fame as int);
                }
                assert forall|n: Seq<char>| #[trigger] self.combat(n) == capped(
                    old(self).combat(n) + combat_of(post, n, now),
                ) by {
                    assert(before.combat(n) == capped(old(self).combat(n) + combat_of(pre, n, now)));
                    lemma_capped_twice(old(self).combat(n) + combat_of(pre, n, now), combat_at(*t, now) as int);
                }
                assert forall|n: Seq<char>| #[trigger] self.seconds(n) == capped(
                    old(self).seconds(n) + seconds_of(post, n, now),
                ) by {
                    assert(before.seconds(n) == capped(old(self).seconds(n) + seconds_of(pre, n, now)));
                    lemma_capped_twice(old(self).seconds(n) + seconds_of(pre, n, now), seconds_at(*t, now) as int);
                }
                assert forall|n: Seq<char>| #[trigger] self.main_of(n) == match last_main(post, n) {
                    Some(m) => Some(m),
                    None => old(self).main_of(n),
                } by {
                    assert(before.main_of(n) == match last_main(pre, n) {
                        Some(m) => Some(m),
                        None => old(self).main_of(n),
                    });
                }
            }
            i = i + 1;
        }
        assert(zone.players@.subrange(0, i as int) =~= zone.players@);
    }
}

proof fn lemma_capped_twice(x: int, y: int)
    requires
        x >= 0,
        y >= 0,
    ensures
        capped(capped(x) + y) == capped(x + y),
{
}

proof fn lemma_record_at(rs: Seq<Totals>, i: int)
    requires
        0 <= i < rs.len(),
        distinct_names(rs),
    ensures
        record_of(rs, rs[i].name@) == Some(rs[i]),
{
    let k = choose|k: int| 0 <= k < rs.len() && rs[k].name@ == rs[i].name@;
    assert(k == i);
}

proof fn lemma_records_elsewhere(a: Seq<Totals>, b: Seq<Totals>, i: int)
    requires
        distinct_names(a),
        distinct_names(b),
        a.len() == b.len(),
        0 <= i < a.len(),
        a[i].name@ == b[i].name@,
        forall|j: int| 0 <= j < a.len() && j != i ==> #[trigger] b[j] == a[j],
    ensures
        forall|n: Seq<char>| n != a[i].name@ ==> #[trigger] record_of(b, n) == record_of(a, n),
{
    assert forall|n: Seq<char>| n != a[i].name@ implies #[trigger] record_of(b, n) == record_of(a, n) by {
        if exists|j: int| 0 <= j < a.len() && a[j].name@ == n {
            let ja = choose|j: int| 0 <= j < a.len() && a[j].name@ == n;
            assert(b[ja].name@ == n);
            let jb = choose|j: int| 0 <= j < b.len() && b[j].name@ == n;
            if jb != ja {
                assert(b[jb].name@ != b[ja].name@);
            }
        } else if exists|j: int| 0 <= j < b.len() && b[j].name@ == n {
            let j = choose|j: int| 0 <= j < b.len() && b[j].name@ == n;
            assert(a[j].name@ == n);
        }
    }
}

proof fn lemma_records_pushed(a: Seq<Totals>, b: Seq<Totals>)
    requires
        distinct_names(a),
        distinct_names(b),
        b.len() == a.len() + 1,
        forall|j: int| 0 <= j < a.len() ==> #[trigger] b[j] == a[j],
    ensures
        forall|n: Seq<char>| n != b[a.len() as int].name@ ==> #[trigger] record_of(b, n) == record_of(a, n),
{
    assert forall|n: Seq<char>| n != b[a.len() as int].name@ implies #[trigger] record_of(b, n) == record_of(a, n) by {
        if exists|j: int| 0 <= j < a.len() && a[j].name@ == n {
            let ja = choose|j: int| 0 <= j < a.len() && a[j].name@ == n;
            assert(b[ja].name@ == n);
            let jb = choose|j: int| 0 <= j < b.len() && b[j].name@ == n;
            if jb != ja {
                assert(b[jb].name@ != b[ja].name@);
            }
        } else if exists|j: int| 0 <= j < b.len() && b[j].name@ == n {
            let j = choose|j: int| 0 <= j < b.len() && b[j].name@ == n;
            assert(j < a.len());
            assert(a[j].name@ == n);
        }
    }
}

/// Outside a zone change, no event drops a zone record or takes combat time
/// from it: every record keeps its place and its name, and its time in
/// combat stays or grows.
pub proof fn lemma_consume_keeps_combat_time(a: Meter, b: Meter, event: Event, now: u64, r: Option<Session>)
    requires
        a.wf(),
        Meter::consumes(a, b, event, now, r),
        !(event is ZoneChange),
        a.zone() is Some,
    ensures
        b.zone() is Some,
        b.zone()->0.players@.len() >= a.zone()->0.players@.len(),
        forall|j: int|
            0 <= j < a.zone()->0.players@.len() ==> (#[trigger] b.zone()->0.players@[j]).name
                == a.zone()->0.players@[j].name && b.zone()->0.players@[j].combat.time_in_combat
                >= a.zone()->0.players@[j].combat.time_in_combat,
{
    let z = a.zone()->0.players@;
    match event {
        Event::MainPlayerAppeared(p) => lemma_appearance_keeps(a, b, p.name@, p.id.0, true, now),
        Event::PlayerAppeared(p) => lemma_appearance_keeps(a, b, p.name@, p.id.0, false, now),
        Event::UpdateItems(e) => {
            if a.knows(e.source.0) {
                lemma_changes_keep(a, b, e.source.0, Change::Equip(e.value), now);
            }
        },
        Event::DamageDone(d) => {
            if a.fights_in_zone(d.source.0) {
                lemma_changes_keep(a, b, d.source.0, Change::Damage(f32_abs(d.value)), now);
            }
        },
        Event::LeaveCombat(p) => {
            if a.knows(p.id.0) {
                lemma_changes_keep(a, b, p.id.0, Change::LeaveCombat, now);
            }
        },
        Event::UpdateFame(f) => {
            if a.knows(f.source.0) {
                lemma_changes_keep(a, b, f.source.0, Change::Fame(f.value), now);
            }
        },
        Event::EnterCombat(p) => {
            if a.knows(p.id.0) {
                let x = index_of(z, p.id.0);
                assert forall|j: int| 0 <= j < z.len() implies (#[trigger] b.zone()->0.players@[j]).name
                    == z[j].name && b.zone()->0.players@[j].combat.time_in_combat >= z[j].combat.time_in_combat by {
                    if j != x {
                        assert(b.zone()->0.players@[j] == z[j]);
                    }
                }
            }
        },
        _ => {},
    }
}

/// A change that reaches both records of `id` keeps every zone record's
/// place and name, and no combat time goes back.
proof fn lemma_changes_keep(a: Meter, b: Meter, id: u32, c: Change, now: u64)
    requires
        a.knows(id),
        a.changes_both(&b, id, c, now),
    ensures
        b.zone() is Some,
        b.zone()->0.players@.len() == a.zone()->0.players@.len(),
        forall|j: int|
            0 <= j < a.zone()->0.players@.len() ==> (#[trigger] b.zone()->0.players@[j]).name
                == a.zone()->0.players@[j].name && b.zone()->0.players@[j].combat.time_in_combat
                >= a.zone()->0.players@[j].combat.time_in_combat,
{
    let z = a.zone()->0.players@;
    let x = index_of(z, id);
    assert forall|j: int| 0 <= j < z.len() implies (#[trigger] b.zone()->0.players@[j]).name == z[j].name
        && b.zone()->0.players@[j].combat.time_in_combat >= z[j].combat.time_in_combat by {
        if j == x {
            lemma_combat_time_never_decreases(z[j], b.zone()->0.players@[j], c, now);
        } else {
            assert(b.zone()->0.players@[j] == z[j]);
        }
    }
}

/// An appearance keeps every zone record's place and name, and no combat
/// time goes back.
proof fn lemma_appearance_keeps(a: Meter, b: Meter, name: Seq<char>, id: u32, main: bool, now: u64)
    requires
        a.zone() is Some,
        a.appears(&b, name, id, main, now),
    ensures
        b.zone() is Some,
        b.zone()->0.players@.len() >= a.zone()->0.players@.len(),
        forall|j: int|
            0 <= j < a.zone()->0.players@.len() ==> (#[trigger] b.zone()->0.players@[j]).name
                == a.zone()->0.players@[j].name && b.zone()->0.players@[j].combat.time_in_combat
                >= a.zone()->0.players@[j].combat.time_in_combat,
{
    let z = a.zone()->0.players@;
    let l = a.last_fight().players@;
    let known = index_of(z, id) >= 0 && index_of(l, id) >= 0;
    let mid = choose|mid: Meter|
        #[trigger] mid.knows(id) && mid.zone() is Some && (known ==> mid.zone()->0.players@ == z
            && mid.last_fight().players@ == l) && (!known ==> added(
            z,
            mid.zone()->0.players@,
            name,
            id,
            main,
            now,
        ) && added(l, mid.last_fight().players@, name, id, main, now)) && if a.waiting_items().contains_key(
            id,
        ) {
            mid.changes_both(&b, id, Change::Equip(a.waiting_items()[id]), now)
        } else {
            b.zone() == mid.zone() && b.last_fight() == mid.last_fight()
        };
    let m = mid.zone()->0.players@;
    assert(m.len() >= z.len());
    assert forall|j: int| 0 <= j < z.len() implies (#[trigger] m[j]).name == z[j].name
        && m[j].combat.time_in_combat >= z[j].combat.time_in_combat by {
        if !known {
            match same_name(z, name) {
                Some(i) => {
                    if j != i {
                        assert(m[j] == z[j]);
                    }
                },
                None => {
                    assert(m[j] == z[j]);
                },
            }
        }
    }
    if a.waiting_items().contains_key(id) {
        lemma_changes_keep(mid, b, id, Change::Equip(a.waiting_items()[id]), now);
        assert forall|j: int| 0 <= j < z.len() implies (#[trigger] b.zone()->0.players@[j]).name
            == z[j].name && b.zone()->0.players@[j].combat.time_in_combat >= z[j].combat.time_in_combat by {
            assert(m[j].name == z[j].name);
        }
    }
}

} // verus!
