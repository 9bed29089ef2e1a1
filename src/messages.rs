//! Game messages: each is bound from the parameters of a protocol message
//! by parameter index, following the game's message schema.

use std::collections::HashMap;
use vstd::prelude::*;

use crate::codec::{Parameters, Value};
use crate::framing;

verus! {

/// The item table: item ids to item code names.
#[derive(Debug)]
pub struct ItemDb {
    names: HashMap<u32, String>,
}

impl ItemDb {
    pub closed spec fn table(&self) -> Map<u32, String> {
        self.names@
    }

    pub fn new() -> (r: ItemDb)
        ensures
            r.table() == Map::<u32, String>::empty(),
    {
        ItemDb { names: HashMap::new() }
    }

    pub fn insert(&mut self, id: u32, name: String)
        ensures
            final(self).table() == old(self).table().insert(id, name),
    {
        broadcast use vstd::std_specs::hash::group_hash_axioms;

        self.names.insert(id, name);
    }

    pub fn get(&self, id: u32) -> (r: Option<String>)
        ensures
            match r {
                Some(n) => self.table().contains_key(id) && n@ == self.table()[id]@,
                None => !self.table().contains_key(id),
            },
    {
        broadcast use vstd::std_specs::hash::group_hash_axioms;

        match self.names.get(&id) {
            Some(n) => Some(n.clone()),
            None => None,
        }
    }
}

/// The item name that slot `i` of `ids` holds: none for a missing slot, a
/// zero, or an id the table does not know.
pub open spec fn slot_name(ids: Seq<u32>, i: int, db: Map<u32, String>) -> Option<Seq<char>> {
    if i < ids.len() && ids[i] != 0 && db.contains_key(ids[i]) {
        Some(db[ids[i]]@)
    } else {
        None
    }
}

pub open spec fn opt_view(o: Option<String>) -> Option<Seq<char>> {
    match o {
        Some(s) => Some(s@),
        None => None,
    }
}

/// What a player carries, slot by slot.
#[derive(Clone, Debug, PartialEq, Eq, Default)]
pub struct Items {
    pub weapon: Option<String>,
    pub offhand: Option<String>,
    pub helmet: Option<String>,
    pub armor: Option<String>,
    pub boots: Option<String>,
    pub bag: Option<String>,
    pub cape: Option<String>,
    pub mount: Option<String>,
    pub potion: Option<String>,
    pub food: Option<String>,
}

fn copy_name(o: &Option<String>) -> (r: Option<String>)
    ensures
        r == *o,
{
    match o {
        Some(s) => Some(s.clone()),
        None => None,
    }
}

impl Items {
    /// Nothing in any slot.
    pub fn empty() -> (r: Items)
        ensures
            forall|i: int| 0 <= i < 10 ==> #[trigger] r.slots()[i] is None,
    {
        let r = Items {
            weapon: None,
            offhand: None,
            helmet: None,
            armor: None,
            boots: None,
            bag: None,
            cape: None,
            mount: None,
            potion: None,
            food: None,
        };
        assert forall|i: int| 0 <= i < 10 implies #[trigger] r.slots()[i] is None by {
            if i == 0 {} else if i == 1 {} else if i == 2 {} else if i == 3 {} else if i == 4 {}
            else if i == 5 {} else if i == 6 {} else if i == 7 {} else if i == 8 {} else {}
        }
        r
    }

    /// An equal copy.
    pub fn duplicate(&self) -> (r: Items)
        ensures
            r == *self,
    {
        Items {
            weapon: copy_name(&self.weapon),
            offhand: copy_name(&self.offhand),
            helmet: copy_name(&self.helmet),
            armor: copy_name(&self.armor),
            boots: copy_name(&self.boots),
            bag: copy_name(&self.bag),
            cape: copy_name(&self.cape),
            mount: copy_name(&self.mount),
            potion: copy_name(&self.potion),
            food: copy_name(&self.food),
        }
    }

    /// The slots as a sequence, in their wire order.
    pub open spec fn slots(&self) -> Seq<Option<Seq<char>>> {
        seq![
            opt_view(self.weapon),
            opt_view(self.offhand),
            opt_view(self.helmet),
            opt_view(self.armor),
            opt_view(self.boots),
            opt_view(self.bag),
            opt_view(self.cape),
            opt_view(self.mount),
            opt_view(self.potion),
            opt_view(self.food),
        ]
    }

    /// Names the items of a ten-slot id array through the item table.
    pub fn from(item_array: &Vec<u32>, db: &ItemDb) -> (r: Items)
        ensures
            forall|i: int| 0 <= i < 10 ==> #[trigger] r.slots()[i] == slot_name(item_array@, i, db.table()),
    {
        let r = Items {
            weapon: slot(item_array, 0, db),
            offhand: slot(item_array, 1, db),
            helmet: slot(item_array, 2, db),
            armor: slot(item_array, 3, db),
            boots: slot(item_array, 4, db),
            bag: slot(item_array, 5, db),
            cape: slot(item_array, 6, db),
            mount: slot(item_array, 7, db),
            potion: slot(item_array, 8, db),
            food: slot(item_array, 9, db),
        };
        assert forall|i: int| 0 <= i < 10 implies #[trigger] r.slots()[i] == slot_name(item_array@, i, db.table()) by {
            if i == 0 {} else if i == 1 {} else if i == 2 {} else if i == 3 {} else if i == 4 {}
            else if i == 5 {} else if i == 6 {} else if i == 7 {} else if i == 8 {} else {}
        }
        r
    }
}

fn slot(ids: &Vec<u32>, i: usize, db: &ItemDb) -> (r: Option<String>)
    ensures
        opt_view(r) == slot_name(ids@, i as int, db.table()),
{
    if i < ids.len() && ids[i] != 0 {
        db.get(ids[i])
    } else {
        None
    }
}

/// The unsigned 32-bit pattern of a signed 16-bit value.
pub open spec fn wrap32(x: i16) -> u32 {
    if x < 0 {
        (x + 0x1_0000_0000) as u32
    } else {
        x as u32
    }
}

/// A value read as a number: a short, an integer or a byte.
pub open spec fn number_of(v: Value) -> Option<u32> {
    match v {
        Value::Short(x) => Some(wrap32(x)),
        Value::Integer(x) => Some(x),
        Value::Byte(x) => Some(x as u32),
        _ => None,
    }
}

/// A value read as a float: the bits of a float.
pub open spec fn float_of(v: Value) -> Option<u32> {
    match v {
        Value::Float(b) => Some(b),
        _ => None,
    }
}

/// A value read as a text.
pub open spec fn text_of(v: Value) -> Option<Seq<char>> {
    match v {
        Value::String(s) => Some(s@),
        _ => None,
    }
}

/// The shorts and bytes among `s`, widened, in order.
pub open spec fn small_numbers(s: Seq<Value>) -> Seq<u32>
    decreases s.len(),
{
    if s.len() == 0 {
        Seq::empty()
    } else {
        let front = small_numbers(s.drop_last());
        match s.last() {
            Value::Short(x) => front.push(wrap32(x)),
            Value::Byte(x) => front.push(x as u32),
            _ => front,
        }
    }
}

/// The strings among `s`, in order.
pub open spec fn texts(s: Seq<Value>) -> Seq<Seq<char>>
    decreases s.len(),
{
    if s.len() == 0 {
        Seq::empty()
    } else {
        let front = texts(s.drop_last());
        match s.last() {
            Value::String(t) => front.push(t@),
            _ => front,
        }
    }
}

/// A value read as a list of numbers: the shorts and bytes of an array, or
/// every byte of a byte array.
pub open spec fn numbers_of(v: Value) -> Option<Seq<u32>> {
    match v {
        Value::Array(a) => Some(small_numbers(a@)),
        Value::ByteArray(b) => Some(b@.map_values(|x: u8| x as u32)),
        _ => None,
    }
}

/// A value read as a list of texts: the strings of an array.
pub open spec fn texts_of(v: Value) -> Option<Seq<Seq<char>>> {
    match v {
        Value::Array(a) => Some(texts(a@)),
        _ => None,
    }
}

/// Each element of `s` read as a list of numbers; none if one is not.
pub open spec fn number_lists(s: Seq<Value>) -> Option<Seq<Seq<u32>>>
    decreases s.len(),
{
    if s.len() == 0 {
        Some(Seq::empty())
    } else {
        match (number_lists(s.drop_last()), numbers_of(s.last())) {
            (Some(front), Some(l)) => Some(front.push(l)),
            _ => None,
        }
    }
}

pub open spec fn number_lists_of(v: Value) -> Option<Seq<Seq<u32>>> {
    match v {
        Value::Array(a) => number_lists(a@),
        _ => None,
    }
}

/// Parameter `k` of `p` read with `f`; none where it is absent or of
/// another shape.
pub open spec fn param_as<T>(p: Parameters, k: u8, f: spec_fn(Value) -> Option<T>) -> Option<T> {
    match p.lookup(k) {
        Some(v) => f(v),
        None => None,
    }
}

pub fn decode_number(p: &Parameters, k: u8) -> (r: Option<u32>)
    ensures
        r == param_as(*p, k, |v: Value| number_of(v)),
{
    match p.get(k) {
        Some(Value::Short(x)) => Some(widen(*x)),
        Some(Value::Integer(x)) => Some(*x),
        Some(Value::Byte(x)) => Some(*x as u32),
        _ => None,
    }
}

pub fn decode_float(p: &Parameters, k: u8) -> (r: Option<u32>)
    ensures
        r == param_as(*p, k, |v: Value| float_of(v)),
{
    match p.get(k) {
        Some(Value::Float(b)) => Some(*b),
        _ => None,
    }
}

pub fn decode_string(p: &Parameters, k: u8) -> (r: Option<String>)
    ensures
        opt_view(r) == param_as(*p, k, |v: Value| text_of(v)),
{
    match p.get(k) {
        Some(Value::String(s)) => Some(s.clone()),
        _ => None,
    }
}

fn widen(x: i16) -> (r: u32)
    ensures
        r == wrap32(x),
{
    if x < 0 {
        ((x as i64) + 0x1_0000_0000) as u32
    } else {
        x as u32
    }
}

/// The shorts and bytes of `a`, widened.
fn collect_small_numbers(a: &Vec<Value>) -> (r: Vec<u32>)
    ensures
        r@ == small_numbers(a@),
{
    let mut out: Vec<u32> = Vec::new();
    let mut i: usize = 0;
    while i < a.len()
        invariant
            0 <= i <= a@.len(),
            out@ == small_numbers(a@.subrange(0, i as int)),
        decreases a@.len() - i,
    {
        proof {
            assert(a@.subrange(0, i + 1).drop_last() =~= a@.subrange(0, i as int));
        }
        match &a[i] {
            Value::Short(x) => out.push(widen(*x)),
            Value::Byte(x) => out.push(*x as u32),
            _ => {},
        }
        i = i + 1;
    }
    assert(a@.subrange(0, i as int) =~= a@);
    out
}

fn numbers_from_value(v: &Value) -> (r: Option<Vec<u32>>)
    ensures
        match r {
            Some(l) => numbers_of(*v) == Some(l@),
            None => numbers_of(*v) is None,
        },
{
    match v {
        Value::Array(a) => Some(collect_small_numbers(a)),
        Value::ByteArray(b) => {
            let mut out: Vec<u32> = Vec::new();
            let mut i: usize = 0;
            while i < b.len()
                invariant
                    0 <= i <= b@.len(),
                    out@ == b@.subrange(0, i as int).map_values(|x: u8| x as u32),
                decreases b@.len() - i,
            {
                out.push(b[i] as u32);
                i = i + 1;
                assert(out@ =~= b@.subrange(0, i as int).map_values(|x: u8| x as u32));
            }
            assert(b@.subrange(0, i as int) =~= b@);
            Some(out)
        },
        _ => None,
    }
}

pub fn decode_number_vec(p: &Parameters, k: u8) -> (r: Option<Vec<u32>>)
    ensures
        match r {
            Some(l) => param_as(*p, k, |v: Value| numbers_of(v)) == Some(l@),
            None => param_as(*p, k, |v: Value| numbers_of(v)) is None,
        },
{
    match p.get(k) {
        Some(v) => numbers_from_value(v),
        None => None,
    }
}

pub fn decode_string_vec(p: &Parameters, k: u8) -> (r: Option<Vec<String>>)
    ensures
        match r {
            Some(l) => param_as(*p, k, |v: Value| texts_of(v)) == Some(
                l@.map_values(|s: String| s@),
            ),
            None => param_as(*p, k, |v: Value| texts_of(v)) is None,
        },
{
    match p.get(k) {
        Some(Value::Array(a)) => {
            let mut out: Vec<String> = Vec::new();
            let mut i: usize = 0;
            while i < a.len()
                invariant
                    0 <= i <= a@.len(),
                    out@.map_values(|s: String| s@) == texts(a@.subrange(0, i as int)),
                decreases a@.len() - i,
            {
                proof {
                    assert(a@.subrange(0, i + 1).drop_last() =~= a@.subrange(0, i as int));
                }
                match &a[i] {
                    Value::String(s) => {
                        let t = s.clone();
                        let ghost before = out@;
                        out.push(t);
                        assert(out@.map_values(|s: String| s@) =~= before.map_values(
                            |s: String| s@,
                        ).push(t@));
                    },
                    _ => {},
                }
                i = i + 1;
            }
            assert(a@.subrange(0, i as int) =~= a@);
            Some(out)
        },
        _ => None,
    }
}

pub fn decode_vec_of_number_vec(p: &Parameters, k: u8) -> (r: Option<Vec<Vec<u32>>>)
    ensures
        match r {
            Some(l) => param_as(*p, k, |v: Value| number_lists_of(v)) == Some(
                l@.map_values(|x: Vec<u32>| x@),
            ),
            None => param_as(*p, k, |v: Value| number_lists_of(v)) is None,
        },
{
    match p.get(k) {
        Some(Value::Array(a)) => {
            let mut out: Vec<Vec<u32>> = Vec::new();
            let mut i: usize = 0;
            while i < a.len()
                invariant
                    0 <= i <= a@.len(),
                    number_lists(a@.subrange(0, i as int)) == Some(
                        out@.map_values(|x: Vec<u32>| x@),
                    ),
                    p.lookup(k) == Some(Value::Array(*a)),
                decreases a@.len() - i,
            {
                proof {
                    assert(a@.subrange(0, i + 1).drop_last() =~= a@.subrange(0, i as int));
                    assert(a@.subrange(0, i + 1).last() == a@[i as int]);
                }
                match numbers_from_value(&a[i]) {
                    Some(l) => {
                        let ghost before = out@;
                        let ghost lv = l@;
                        out.push(l);
                        assert(out@.map_values(|x: Vec<u32>| x@) =~= before.map_values(
                            |x: Vec<u32>| x@,
                        ).push(lv));
                    },
                    None => {
                        proof {
                            assert(number_lists(a@.subrange(0, i + 1)) is None);
                            lemma_number_lists_prefix(a@, i as int + 1);
                            assert(number_lists_of(Value::Array(*a)) is None);
                            assert(p.lookup(k) == Some(Value::Array(*a)));
                            assert(param_as(*p, k, |v: Value| number_lists_of(v)) is None);
                        }
                        return None;
                    },
                }
                i = i + 1;
            }
            assert(a@.subrange(0, i as int) =~= a@);
            Some(out)
        },
        _ => None,
    }
}

/// Once an element fails to read as a list of numbers, so does every longer
/// prefix.
proof fn lemma_number_lists_prefix(s: Seq<Value>, n: int)
    requires
        0 < n <= s.len(),
        number_lists(s.subrange(0, n)) is None,
    ensures
        number_lists(s) is None,
    decreases s.len() - n,
{
    if n < s.len() {
        assert(s.subrange(0, n + 1).drop_last() =~= s.subrange(0, n));
        lemma_number_lists_prefix(s, n + 1);
    } else {
        assert(s.subrange(0, n) =~= s);
    }
}

/// Float fields hold IEEE-754 bit patterns, as they came off the wire.
#[derive(Clone, Debug, PartialEq, Eq, Default)]
pub struct Leave {
    pub source: u32,
}

#[derive(Clone, Debug, PartialEq, Eq, Default)]
pub struct HealthUpdate {
    pub source: u32,
    pub target: u32,
    pub value: u32,
}

#[derive(Clone, Debug, PartialEq, Eq, Default)]
pub struct RegenerationHealthChanged {
    pub source: u32,
    pub health: u32,
    pub max_health: u32,
    pub regeneration_rate: Option<u32>,
}

#[derive(Clone, Debug, PartialEq, Eq, Default)]
pub struct KnockedDown {
    pub source: u32,
    pub target: u32,
    pub target_name: String,
}

#[derive(Clone, Debug, PartialEq, Eq, Default)]
pub struct NewCharacter {
    pub source: u32,
    pub character_name: String,
    pub health: u32,
    pub max_health: u32,
    pub energy: u32,
    pub max_energy: u32,
    pub items: Items,
}

#[derive(Clone, Debug, PartialEq, Eq, Default)]
pub struct UpdateFame {
    pub source: u32,
    pub fame: u32,
}

#[derive(Clone, Debug, PartialEq, Eq, Default)]
pub struct CharacterEquipmentChanged {
    pub source: u32,
    pub items: Items,
}

#[derive(Clone, Debug, PartialEq, Eq, Default)]
pub struct PartyJoined {
    pub party_id: u32,
    pub party_structures: Vec<Vec<u32>>,
    pub character_names: Vec<String>,
}

#[derive(Clone, Debug, PartialEq, Eq, Default)]
pub struct PartyPlayerJoined {
    pub party_id: u32,
    pub party_structure: Vec<u32>,
    pub name: String,
}

#[derive(Clone, Debug, PartialEq, Eq, Default)]
pub struct PartyPlayerLeft {
    pub party_id: u32,
    pub party_structure: Vec<u32>,
}

#[derive(Clone, Debug, PartialEq, Eq, Default)]
pub struct Join {
    pub source: u32,
    pub character_name: String,
    pub health: u32,
    pub max_health: u32,
    pub energy: u32,
    pub max_energy: u32,
}

#[derive(Clone, Copy, Debug, PartialEq, Eq, Default)]
pub struct PartyInvitation {}

#[derive(Clone, Copy, Debug, PartialEq, Eq, Default)]
pub struct PartyDisbanded {}

#[derive(Clone, Copy, Debug, PartialEq, Eq, Default)]
pub struct PartyChangedOrder {}

#[derive(Clone, Copy, Debug, PartialEq, Eq, Default)]
pub struct PartyLeaderChanged {}

#[derive(Clone, Copy, Debug, PartialEq, Eq, Default)]
pub struct PartyLootSettingChangedPlayer {}

#[derive(Clone, Copy, Debug, PartialEq, Eq, Default)]
pub struct PartySilverGained {}

#[derive(Clone, Copy, Debug, PartialEq, Eq, Default)]
pub struct PartyPlayerUpdated {}

#[derive(Clone, Copy, Debug, PartialEq, Eq, Default)]
pub struct PartyInvitationPlayerBusy {}

#[derive(Clone, Copy, Debug, PartialEq, Eq, Default)]
pub struct PartyMarkedObjectsUpdated {}

#[derive(Clone, Copy, Debug, PartialEq, Eq, Default)]
pub struct PartyOnClusterPartyJoined {}

#[derive(Clone, Copy, Debug, PartialEq, Eq, Default)]
pub struct PartySetRoleFlag {}

/// A game message, bound from a protocol message.
#[derive(Clone, Debug, PartialEq, Eq)]
pub enum Message {
    Leave(Leave),
    HealthUpdate(HealthUpdate),
    RegenerationHealthChanged(RegenerationHealthChanged),
    KnockedDown(KnockedDown),
    NewCharacter(NewCharacter),
    UpdateFame(UpdateFame),
    CharacterEquipmentChanged(CharacterEquipmentChanged),
    PartyInvitation(PartyInvitation),
    PartyJoined(PartyJoined),
    PartyDisbanded(PartyDisbanded),
    PartyPlayerJoined(PartyPlayerJoined),
    PartyChangedOrder(PartyChangedOrder),
    PartyPlayerLeft(PartyPlayerLeft),
    PartyLeaderChanged(PartyLeaderChanged),
    PartyLootSettingChangedPlayer(PartyLootSettingChangedPlayer),
    PartySilverGained(PartySilverGained),
    PartyPlayerUpdated(PartyPlayerUpdated),
    PartyInvitationPlayerBusy(PartyInvitationPlayerBusy),
    PartyMarkedObjectsUpdated(PartyMarkedObjectsUpdated),
    PartyOnClusterPartyJoined(PartyOnClusterPartyJoined),
    PartySetRoleFlag(PartySetRoleFlag),
    Join(Join),
}

/// The schema code of each kind of message (a response code for `Join`,
/// an event code for the rest).
pub open spec fn schema_code(m: Message) -> i16 {
    match m {
        Message::Leave(_) => 1,
        Message::HealthUpdate(_) => 6,
        Message::RegenerationHealthChanged(_) => 81,
        Message::KnockedDown(_) => 154,
        Message::NewCharacter(_) => 25,
        Message::UpdateFame(_) => 72,
        Message::CharacterEquipmentChanged(_) => 80,
        Message::PartyInvitation(_) => 212,
        Message::PartyJoined(_) => 213,
        Message::PartyDisbanded(_) => 214,
        Message::PartyPlayerJoined(_) => 215,
        Message::PartyChangedOrder(_) => 216,
        Message::PartyPlayerLeft(_) => 217,
        Message::PartyLeaderChanged(_) => 218,
        Message::PartyLootSettingChangedPlayer(_) => 219,
        Message::PartySilverGained(_) => 220,
        Message::PartyPlayerUpdated(_) => 221,
        Message::PartyInvitationPlayerBusy(_) => 222,
        Message::PartyMarkedObjectsUpdated(_) => 223,
        Message::PartyOnClusterPartyJoined(_) => 224,
        Message::PartySetRoleFlag(_) => 225,
        Message::Join(_) => 2,
    }
}

impl PartyInvitation {
    pub fn parse(val: &Parameters) -> (r: Option<Message>)
        ensures
            parses_party_invitation(*val, r),
    {
        Some(Message::PartyInvitation(PartyInvitation {}))
    }
}

impl PartyDisbanded {
    pub fn parse(val: &Parameters) -> (r: Option<Message>)
        ensures
            parses_party_disbanded(*val, r),
    {
        Some(Message::PartyDisbanded(PartyDisbanded {}))
    }
}

impl PartyChangedOrder {
    pub fn parse(val: &Parameters) -> (r: Option<Message>)
        ensures
            parses_party_changed_order(*val, r),
    {
        Some(Message::PartyChangedOrder(PartyChangedOrder {}))
    }
}

impl PartyLeaderChanged {
    pub fn parse(val: &Parameters) -> (r: Option<Message>)
        ensures
            parses_party_leader_changed(*val, r),
    {
        Some(Message::PartyLeaderChanged(PartyLeaderChanged {}))
    }
}

impl PartyLootSettingChangedPlayer {
    pub fn parse(val: &Parameters) -> (r: Option<Message>)
        ensures
            parses_party_loot_setting_changed_player(*val, r),
    {
        Some(Message::PartyLootSettingChangedPlayer(PartyLootSettingChangedPlayer {}))
    }
}

impl PartySilverGained {
    pub fn parse(val: &Parameters) -> (r: Option<Message>)
        ensures
            parses_party_silver_gained(*val, r),
    {
        Some(Message::PartySilverGained(PartySilverGained {}))
    }
}

impl PartyPlayerUpdated {
    pub fn parse(val: &Parameters) -> (r: Option<Message>)
        ensures
            parses_party_player_updated(*val, r),
    {
        Some(Message::PartyPlayerUpdated(PartyPlayerUpdated {}))
    }
}

impl PartyInvitationPlayerBusy {
    pub fn parse(val: &Parameters) -> (r: Option<Message>)
        ensures
            parses_party_invitation_player_busy(*val, r),
    {
        Some(Message::PartyInvitationPlayerBusy(PartyInvitationPlayerBusy {}))
    }
}

impl PartyMarkedObjectsUpdated {
    pub fn parse(val: &Parameters) -> (r: Option<Message>)
        ensures
            parses_party_marked_objects_updated(*val, r),
    {
        Some(Message::PartyMarkedObjectsUpdated(PartyMarkedObjectsUpdated {}))
    }
}

impl PartyOnClusterPartyJoined {
    pub fn parse(val: &Parameters) -> (r: Option<Message>)
        ensures
            parses_party_on_cluster_party_joined(*val, r),
    {
        Some(Message::PartyOnClusterPartyJoined(PartyOnClusterPartyJoined {}))
    }
}

impl PartySetRoleFlag {
    pub fn parse(val: &Parameters) -> (r: Option<Message>)
        ensures
            parses_party_set_role_flag(*val, r),
    {
        Some(Message::PartySetRoleFlag(PartySetRoleFlag {}))
    }
}

impl Leave {
    pub fn parse(val: &Parameters) -> (r: Option<Message>)
        ensures
            parses_leave(*val, r),
    {
        let source = decode_number(val, 0)?;
        Some(Message::Leave(Leave { source }))
    }
}

impl HealthUpdate {
    pub fn parse(val: &Parameters) -> (r: Option<Message>)
        ensures
            parses_health_update(*val, r),
    {
        let source = decode_number(val, 0)?;
        let target = decode_number(val, 6)?;
        let value = decode_float(val, 2)?;
        Some(Message::HealthUpdate(HealthUpdate { source, target, value }))
    }
}

impl RegenerationHealthChanged {
    pub fn parse(val: &Parameters) -> (r: Option<Message>)
        ensures
            parses_regeneration_health_changed(*val, r),
    {
        let source = decode_number(val, 0)?;
        let health = decode_float(val, 2)?;
        let max_health = decode_float(val, 3)?;
        let regeneration_rate = decode_float(val, 4);
        Some(
            Message::RegenerationHealthChanged(
                RegenerationHealthChanged { source, health, max_health, regeneration_rate },
            ),
        )
    }
}

impl KnockedDown {
    pub fn parse(val: &Parameters) -> (r: Option<Message>)
        ensures
            parses_knocked_down(*val, r),
    {
        let source = decode_number(val, 0)?;
        let target = decode_number(val, 3)?;
        let target_name = decode_string(val, 4)?;
        Some(Message::KnockedDown(KnockedDown { source, target, target_name }))
    }
}

impl NewCharacter {
    pub fn parse(val: &Parameters, db: &ItemDb) -> (r: Option<Message>)
        ensures
            parses_new_character(*val, *db, r),
    {
        let source = decode_number(val, 0)?;
        let character_name = decode_string(val, 1)?;
        let health = decode_float(val, 18)?;
        let max_health = decode_float(val, 19)?;
        let energy = decode_float(val, 22)?;
        let max_energy = decode_float(val, 23)?;
        let item_array = decode_number_vec(val, 33)?;
        let items = Items::from(&item_array, db);
        Some(
            Message::NewCharacter(
                NewCharacter {
                    source,
                    character_name,
                    health,
                    max_health,
                    energy,
                    max_energy,
                    items,
                },
            ),
        )
    }
}

impl UpdateFame {
    pub fn parse(val: &Parameters) -> (r: Option<Message>)
        ensures
            parses_update_fame(*val, r),
    {
        let source = decode_number(val, 0)?;
        let fame = decode_number(val, 2)?;
        Some(Message::UpdateFame(UpdateFame { source, fame }))
    }
}

impl CharacterEquipmentChanged {
    pub fn parse(val: &Parameters, db: &ItemDb) -> (r: Option<Message>)
        ensures
            parses_character_equipment_changed(*val, *db, r),
    {
        let source = decode_number(val, 0)?;
        let item_array = decode_number_vec(val, 2)?;
        let items = Items::from(&item_array, db);
        Some(Message::CharacterEquipmentChanged(CharacterEquipmentChanged { source, items }))
    }
}

impl PartyJoined {
    pub fn parse(val: &Parameters) -> (r: Option<Message>)
        ensures
            parses_party_joined(*val, r),
    {
        let party_id = decode_number(val, 0)?;
        let party_structures = decode_vec_of_number_vec(val, 4)?;
        let character_names = decode_string_vec(val, 5)?;
        Some(Message::PartyJoined(PartyJoined { party_id, party_structures, character_names }))
    }
}

impl PartyPlayerJoined {
    pub fn parse(val: &Parameters) -> (r: Option<Message>)
        ensures
            parses_party_player_joined(*val, r),
    {
        let party_id = decode_number(val, 0)?;
        let party_structure = decode_number_vec(val, 1)?;
        let name = decode_string(val, 2)?;
        Some(Message::PartyPlayerJoined(PartyPlayerJoined { party_id, party_structure, name }))
    }
}

impl PartyPlayerLeft {
    pub fn parse(val: &Parameters) -> (r: Option<Message>)
        ensures
            parses_party_player_left(*val, r),
    {
        let party_id = decode_number(val, 0)?;
        let party_structure = decode_number_vec(val, 1)?;
        Some(Message::PartyPlayerLeft(PartyPlayerLeft { party_id, party_structure }))
    }
}

impl Join {
    pub fn parse(val: &Parameters) -> (r: Option<Message>)
        ensures
            parses_join(*val, r),
    {
        let source = decode_number(val, 0)?;
        let character_name = decode_string(val, 2)?;
        let health = decode_float(val, 11)?;
        let max_health = decode_float(val, 12)?;
        let energy = decode_float(val, 15)?;
        let max_energy = decode_float(val, 16)?;
        Some(
            Message::Join(
                Join { source, character_name, health, max_health, energy, max_energy },
            ),
        )
    }
}

/// What `PartyInvitation::parse` gives for the parameters `val`.
pub open spec fn parses_party_invitation(val: Parameters, r: Option<Message>) -> bool {
    &&& r == Some(Message::PartyInvitation(PartyInvitation {}))
}

/// What `PartyDisbanded::parse` gives for the parameters `val`.
pub open spec fn parses_party_disbanded(val: Parameters, r: Option<Message>) -> bool {
    &&& r == Some(Message::PartyDisbanded(PartyDisbanded {}))
}

/// What `PartyChangedOrder::parse` gives for the parameters `val`.
pub open spec fn parses_party_changed_order(val: Parameters, r: Option<Message>) -> bool {
    &&& r == Some(Message::PartyChangedOrder(PartyChangedOrder {}))
}

/// What `PartyLeaderChanged::parse` gives for the parameters `val`.
pub open spec fn parses_party_leader_changed(val: Parameters, r: Option<Message>) -> bool {
    &&& r == Some(Message::PartyLeaderChanged(PartyLeaderChanged {}))
}

/// What `PartyLootSettingChangedPlayer::parse` gives for the parameters `val`.
pub open spec fn parses_party_loot_setting_changed_player(val: Parameters, r: Option<Message>) -> bool {
    &&& r == Some(Message::PartyLootSettingChangedPlayer(PartyLootSettingChangedPlayer {}))
}

/// What `PartySilverGained::parse` gives for the parameters `val`.
pub open spec fn parses_party_silver_gained(val: Parameters, r: Option<Message>) -> bool {
    &&& r == Some(Message::PartySilverGained(PartySilverGained {}))
}

/// What `PartyPlayerUpdated::parse` gives for the parameters `val`.
pub open spec fn parses_party_player_updated(val: Parameters, r: Option<Message>) -> bool {
    &&& r == Some(Message::PartyPlayerUpdated(PartyPlayerUpdated {}))
}

/// What `PartyInvitationPlayerBusy::parse` gives for the parameters `val`.
pub open spec fn parses_party_invitation_player_busy(val: Parameters, r: Option<Message>) -> bool {
    &&& r == Some(Message::PartyInvitationPlayerBusy(PartyInvitationPlayerBusy {}))
}

/// What `PartyMarkedObjectsUpdated::parse` gives for the parameters `val`.
pub open spec fn parses_party_marked_objects_updated(val: Parameters, r: Option<Message>) -> bool {
    &&& r == Some(Message::PartyMarkedObjectsUpdated(PartyMarkedObjectsUpdated {}))
}

/// What `PartyOnClusterPartyJoined::parse` gives for the parameters `val`.
pub open spec fn parses_party_on_cluster_party_joined(val: Parameters, r: Option<Message>) -> bool {
    &&& r == Some(Message::PartyOnClusterPartyJoined(PartyOnClusterPartyJoined {}))
}

/// What `PartySetRoleFlag::parse` gives for the parameters `val`.
pub open spec fn parses_party_set_role_flag(val: Parameters, r: Option<Message>) -> bool {
    &&& r == Some(Message::PartySetRoleFlag(PartySetRoleFlag {}))
}

/// What `Leave::parse` gives for the parameters `val`.
pub open spec fn parses_leave(val: Parameters, r: Option<Message>) -> bool {
    &&& match param_as(val, 0, |v: Value| number_of(v)) {
                Some(s) => r == Some(Message::Leave(Leave { source: s })),
                None => r is None,
            }
}

/// What `HealthUpdate::parse` gives for the parameters `val`.
pub open spec fn parses_health_update(val: Parameters, r: Option<Message>) -> bool {
    &&& match (
                param_as(val, 0, |v: Value| number_of(v)),
                param_as(val, 6, |v: Value| number_of(v)),
                param_as(val, 2, |v: Value| float_of(v)),
            ) {
                (Some(source), Some(target), Some(value)) => r == Some(
                    Message::HealthUpdate(HealthUpdate { source, target, value }),
                ),
                _ => r is None,
            }
}

/// What `RegenerationHealthChanged::parse` gives for the parameters `val`.
pub open spec fn parses_regeneration_health_changed(val: Parameters, r: Option<Message>) -> bool {
    &&& match (
                param_as(val, 0, |v: Value| number_of(v)),
                param_as(val, 2, |v: Value| float_of(v)),
                param_as(val, 3, |v: Value| float_of(v)),
            ) {
                (Some(source), Some(health), Some(max_health)) => r == Some(
                    Message::RegenerationHealthChanged(
                        RegenerationHealthChanged {
                            source,
                            health,
                            max_health,
                            regeneration_rate: param_as(val, 4, |v: Value| float_of(v)),
                        },
                    ),
                ),
                _ => r is None,
            }
}

/// What `KnockedDown::parse` gives for the parameters `val`.
pub open spec fn parses_knocked_down(val: Parameters, r: Option<Message>) -> bool {
    &&& r is Some <==> (param_as(val, 0, |v: Value| number_of(v)) is Some && param_as(
                val,
                3,
                |v: Value| number_of(v),
            ) is Some && param_as(val, 4, |v: Value| text_of(v)) is Some)
    &&& r is Some ==> r->0 is KnockedDown && {
                let m = r->0->KnockedDown_0;
                &&& Some(m.source) == param_as(val, 0, |v: Value| number_of(v))
                &&& Some(m.target) == param_as(val, 3, |v: Value| number_of(v))
                &&& Some(m.target_name@) == param_as(val, 4, |v: Value| text_of(v))
            }
}

/// What `NewCharacter::parse` gives for the parameters `val`.
pub open spec fn parses_new_character(val: Parameters, db: ItemDb, r: Option<Message>) -> bool {
    &&& r is Some <==> (param_as(val, 0, |v: Value| number_of(v)) is Some && param_as(
                val,
                1,
                |v: Value| text_of(v),
            ) is Some && param_as(val, 18, |v: Value| float_of(v)) is Some && param_as(
                val,
                19,
                |v: Value| float_of(v),
            ) is Some && param_as(val, 22, |v: Value| float_of(v)) is Some && param_as(
                val,
                23,
                |v: Value| float_of(v),
            ) is Some && param_as(val, 33, |v: Value| numbers_of(v)) is Some)
    &&& r is Some ==> r->0 is NewCharacter && {
                let m = r->0->NewCharacter_0;
                let ids = param_as(val, 33, |v: Value| numbers_of(v))->0;
                &&& Some(m.source) == param_as(val, 0, |v: Value| number_of(v))
                &&& Some(m.character_name@) == param_as(val, 1, |v: Value| text_of(v))
                &&& Some(m.health) == param_as(val, 18, |v: Value| float_of(v))
                &&& Some(m.max_health) == param_as(val, 19, |v: Value| float_of(v))
                &&& Some(m.energy) == param_as(val, 22, |v: Value| float_of(v))
                &&& Some(m.max_energy) == param_as(val, 23, |v: Value| float_of(v))
                &&& forall|i: int|
                    0 <= i < 10 ==> #[trigger] m.items.slots()[i] == slot_name(ids, i, db.table())
            }
}

/// What `UpdateFame::parse` gives for the parameters `val`.
pub open spec fn parses_update_fame(val: Parameters, r: Option<Message>) -> bool {
    &&& match (
                param_as(val, 0, |v: Value| number_of(v)),
                param_as(val, 2, |v: Value| number_of(v)),
            ) {
                (Some(source), Some(fame)) => r == Some(
                    Message::UpdateFame(UpdateFame { source, fame }),
                ),
                _ => r is None,
            }
}

/// What `CharacterEquipmentChanged::parse` gives for the parameters `val`.
pub open spec fn parses_character_equipment_changed(val: Parameters, db: ItemDb, r: Option<Message>) -> bool {
    &&& r is Some <==> (param_as(val, 0, |v: Value| number_of(v)) is Some && param_as(
                val,
                2,
                |v: Value| numbers_of(v),
            ) is Some)
    &&& r is Some ==> r->0 is CharacterEquipmentChanged && {
                let m = r->0->CharacterEquipmentChanged_0;
                let ids = param_as(val, 2, |v: Value| numbers_of(v))->0;
                &&& Some(m.source) == param_as(val, 0, |v: Value| number_of(v))
                &&& forall|i: int|
                    0 <= i < 10 ==> #[trigger] m.items.slots()[i] == slot_name(ids, i, db.table())
            }
}

/// What `PartyJoined::parse` gives for the parameters `val`.
pub open spec fn parses_party_joined(val: Parameters, r: Option<Message>) -> bool {
    &&& r is Some <==> (param_as(val, 0, |v: Value| number_of(v)) is Some && param_as(
                val,
                4,
                |v: Value| number_lists_of(v),
            ) is Some && param_as(val, 5, |v: Value| texts_of(v)) is Some)
    &&& r is Some ==> r->0 is PartyJoined && {
                let m = r->0->PartyJoined_0;
                &&& Some(m.party_id) == param_as(val, 0, |v: Value| number_of(v))
                &&& Some(m.party_structures@.map_values(|x: Vec<u32>| x@)) == param_as(
                    val,
                    4,
                    |v: Value| number_lists_of(v),
                )
                &&& Some(m.character_names@.map_values(|s: String| s@)) == param_as(
                    val,
                    5,
                    |v: Value| texts_of(v),
                )
            }
}

/// What `PartyPlayerJoined::parse` gives for the parameters `val`.
pub open spec fn parses_party_player_joined(val: Parameters, r: Option<Message>) -> bool {
    &&& r is Some <==> (param_as(val, 0, |v: Value| number_of(v)) is Some && param_as(
                val,
                1,
                |v: Value| numbers_of(v),
            ) is Some && param_as(val, 2, |v: Value| text_of(v)) is Some)
    &&& r is Some ==> r->0 is PartyPlayerJoined && {
                let m = r->0->PartyPlayerJoined_0;
                &&& Some(m.party_id) == param_as(val, 0, |v: Value| number_of(v))
                &&& Some(m.party_structure@) == param_as(val, 1, |v: Value| numbers_of(v))
                &&& Some(m.name@) == param_as(val, 2, |v: Value| text_of(v))
            }
}

/// What `PartyPlayerLeft::parse` gives for the parameters `val`.
pub open spec fn parses_party_player_left(val: Parameters, r: Option<Message>) -> bool {
    &&& r is Some <==> (param_as(val, 0, |v: Value| number_of(v)) is Some && param_as(
                val,
                1,
                |v: Value| numbers_of(v),
            ) is Some)
    &&& r is Some ==> r->0 is PartyPlayerLeft && {
                let m = r->0->PartyPlayerLeft_0;
                &&& Some(m.party_id) == param_as(val, 0, |v: Value| number_of(v))
                &&& Some(m.party_structure@) == param_as(val, 1, |v: Value| numbers_of(v))
            }
}

/// What `Join::parse` gives for the parameters `val`.
pub open spec fn parses_join(val: Parameters, r: Option<Message>) -> bool {
    &&& r is Some <==> (param_as(val, 0, |v: Value| number_of(v)) is Some && param_as(
                val,
                2,
                |v: Value| text_of(v),
            ) is Some && param_as(val, 11, |v: Value| float_of(v)) is Some && param_as(
                val,
                12,
                |v: Value| float_of(v),
            ) is Some && param_as(val, 15, |v: Value| float_of(v)) is Some && param_as(
                val,
                16,
                |v: Value| float_of(v),
            ) is Some)
    &&& r is Some ==> r->0 is Join && {
                let m = r->0->Join_0;
                &&& Some(m.source) == param_as(val, 0, |v: Value| number_of(v))
                &&& Some(m.character_name@) == param_as(val, 2, |v: Value| text_of(v))
                &&& Some(m.health) == param_as(val, 11, |v: Value| float_of(v))
                &&& Some(m.max_health) == param_as(val, 12, |v: Value| float_of(v))
                &&& Some(m.energy) == param_as(val, 15, |v: Value| float_of(v))
                &&& Some(m.max_energy) == param_as(val, 16, |v: Value| float_of(v))
            }
}

/// The code that parameter `k` of `p` holds as a short, if it does.
pub open spec fn short_param(p: Parameters, k: u8) -> Option<i16> {
    match p.lookup(k) {
        Some(Value::Short(c)) => Some(c),
        _ => None,
    }
}

fn short_code(p: &Parameters, k: u8) -> (r: Option<i16>)
    ensures
        r == short_param(*p, k),
{
    match p.get(k) {
        Some(Value::Short(c)) => Some(*c),
        _ => None,
    }
}

/// Whether the parameters hold every mandatory field of the event that the
/// schema gives the code `c` (false for a code outside the schema).
pub open spec fn event_binds(p: Parameters, c: i16) -> bool {
    let num = |k: u8| param_as(p, k, |v: Value| number_of(v)) is Some;
    let flt = |k: u8| param_as(p, k, |v: Value| float_of(v)) is Some;
    let txt = |k: u8| param_as(p, k, |v: Value| text_of(v)) is Some;
    let nums = |k: u8| param_as(p, k, |v: Value| numbers_of(v)) is Some;
    if c == 1 {
        num(0)
    } else if c == 6 {
        num(0) && num(6) && flt(2)
    } else if c == 81 {
        num(0) && flt(2) && flt(3)
    } else if c == 154 {
        num(0) && num(3) && txt(4)
    } else if c == 25 {
        num(0) && txt(1) && flt(18) && flt(19) && flt(22) && flt(23) && nums(33)
    } else if c == 72 {
        num(0) && num(2)
    } else if c == 80 {
        num(0) && nums(2)
    } else if c == 213 {
        num(0) && param_as(p, 4, |v: Value| number_lists_of(v)) is Some && param_as(
            p,
            5,
            |v: Value| texts_of(v),
        ) is Some
    } else if c == 215 {
        num(0) && nums(1) && txt(2)
    } else if c == 217 {
        num(0) && nums(1)
    } else {
        c == 212 || c == 214 || c == 216 || (218 <= c <= 225)
    }
}

/// Whether the parameters hold every mandatory field of `Join`.
pub open spec fn join_binds(p: Parameters) -> bool {
    &&& param_as(p, 0, |v: Value| number_of(v)) is Some
    &&& param_as(p, 2, |v: Value| text_of(v)) is Some
    &&& param_as(p, 11, |v: Value| float_of(v)) is Some
    &&& param_as(p, 12, |v: Value| float_of(v)) is Some
    &&& param_as(p, 15, |v: Value| float_of(v)) is Some
    &&& param_as(p, 16, |v: Value| float_of(v)) is Some
}

/// What the event with the game's event code `c` binds to: the result of
/// that event's parser, or nothing for a code outside the schema.
pub open spec fn event_parses(p: Parameters, db: ItemDb, c: i16, r: Option<Message>) -> bool {
    if c == 1 {
        parses_leave(p, r)
    } else     if c == 6 {
        parses_health_update(p, r)
    } else     if c == 81 {
        parses_regeneration_health_changed(p, r)
    } else     if c == 154 {
        parses_knocked_down(p, r)
    } else     if c == 25 {
        parses_new_character(p, db, r)
    } else     if c == 72 {
        parses_update_fame(p, r)
    } else     if c == 80 {
        parses_character_equipment_changed(p, db, r)
    } else     if c == 212 {
        parses_party_invitation(p, r)
    } else     if c == 213 {
        parses_party_joined(p, r)
    } else     if c == 214 {
        parses_party_disbanded(p, r)
    } else     if c == 215 {
        parses_party_player_joined(p, r)
    } else     if c == 216 {
        parses_party_changed_order(p, r)
    } else     if c == 217 {
        parses_party_player_left(p, r)
    } else     if c == 218 {
        parses_party_leader_changed(p, r)
    } else     if c == 219 {
        parses_party_loot_setting_changed_player(p, r)
    } else     if c == 220 {
        parses_party_silver_gained(p, r)
    } else     if c == 221 {
        parses_party_player_updated(p, r)
    } else     if c == 222 {
        parses_party_invitation_player_busy(p, r)
    } else     if c == 223 {
        parses_party_marked_objects_updated(p, r)
    } else     if c == 224 {
        parses_party_on_cluster_party_joined(p, r)
    } else     if c == 225 {
        parses_party_set_role_flag(p, r)
    } else {
        r is None
    }
}

/// What `into_game_message` gives for `message`.
pub open spec fn binds(message: framing::Message, db: ItemDb, r: Option<Message>) -> bool {
    match message {
        framing::Message::Event(e) => if e.code == 1 && short_param(e.parameters, 252) is Some {
            event_parses(e.parameters, db, short_param(e.parameters, 252)->0, r)
        } else {
            r is None
        },
        framing::Message::Response(o) => if o.code == 1 && short_param(o.parameters, 253) == Some(
            2i16,
        ) {
            parses_join(o.parameters, r)
        } else {
            r is None
        },
        framing::Message::Request(_) => r is None,
    }
}

/// Binds an event (code 1, with the game's event code in parameter 252) or a
/// response (code 1, with the game's response code in parameter 253) to a
/// game message. Requests and all other codes give none.
pub fn into_game_message(message: &framing::Message, db: &ItemDb) -> (r: Option<Message>)
    ensures
        binds(*message, *db, r),
        r is Some ==> match *message {
            framing::Message::Event(e) => e.code == 1 && short_param(e.parameters, 252) == Some(
                schema_code(r->0),
            ) && !(r->0 is Join),
            framing::Message::Response(o) => o.code == 1 && short_param(o.parameters, 253) == Some(
                schema_code(r->0),
            ) && r->0 is Join,
            framing::Message::Request(_) => false,
        },
        match *message {
            framing::Message::Event(e) => e.code == 1 && short_param(e.parameters, 252) is Some
                ==> (r is Some <==> event_binds(e.parameters, short_param(e.parameters, 252)->0)),
            framing::Message::Response(o) => o.code == 1 && short_param(o.parameters, 253) == Some(
                2i16,
            ) ==> (r is Some <==> join_binds(o.parameters)),
            framing::Message::Request(_) => r is None,
        },
{
    match message {
        framing::Message::Event(e) => {
            if e.code != 1 {
                return None;
            }
            let val = &e.parameters;
            match short_code(val, 252) {
                Some(1) => Leave::parse(val),
                Some(6) => HealthUpdate::parse(val),
                Some(81) => RegenerationHealthChanged::parse(val),
                Some(154) => KnockedDown::parse(val),
                Some(25) => NewCharacter::parse(val, db),
                Some(72) => UpdateFame::parse(val),
                Some(80) => CharacterEquipmentChanged::parse(val, db),
                Some(212) => PartyInvitation::parse(val),
                Some(213) => PartyJoined::parse(val),
                Some(214) => PartyDisbanded::parse(val),
                Some(215) => PartyPlayerJoined::parse(val),
                Some(216) => PartyChangedOrder::parse(val),
                Some(217) => PartyPlayerLeft::parse(val),
                Some(218) => PartyLeaderChanged::parse(val),
                Some(219) => PartyLootSettingChangedPlayer::parse(val),
                Some(220) => PartySilverGained::parse(val),
                Some(221) => PartyPlayerUpdated::parse(val),
                Some(222) => PartyInvitationPlayerBusy::parse(val),
                Some(223) => PartyMarkedObjectsUpdated::parse(val),
                Some(224) => PartyOnClusterPartyJoined::parse(val),
                Some(225) => PartySetRoleFlag::parse(val),
                _ => None,
            }
        },
        framing::Message::Response(o) => {
            if o.code != 1 {
                return None;
            }
            match short_code(&o.parameters, 253) {
                Some(2) => Join::parse(&o.parameters),
                _ => None,
            }
        },
        framing::Message::Request(_) => None,
    }
}

} // verus!
