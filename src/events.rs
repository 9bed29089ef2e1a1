//! The game events that the world emits, in terms of stable identities.

use vstd::prelude::*;

use crate::ids::StaticId;
use crate::messages;

verus! {

#[derive(Clone, Debug, PartialEq, Eq)]
pub struct Player {
    pub id: StaticId,
    pub name: String,
}

/// Damage dealt or health received. `value` holds the IEEE-754 bits of the
/// amount.
#[derive(Clone, Copy, Debug, PartialEq, Eq, Structural)]
pub struct Damage {
    pub source: StaticId,
    pub target: Option<StaticId>,
    pub value: u32,
}

/// Fame gained, as the wire counts it (ten thousand per point of fame).
#[derive(Clone, Copy, Debug, PartialEq, Eq, Structural)]
pub struct Fame {
    pub source: StaticId,
    pub value: u32,
}

#[derive(Clone, Debug, PartialEq, Eq)]
pub struct Items {
    pub source: StaticId,
    pub value: messages::Items,
}

#[derive(Clone, Debug, PartialEq, Eq)]
pub struct Party {
    pub player_names: Vec<String>,
}

#[derive(Clone, Debug, PartialEq, Eq)]
pub enum Event {
    MainPlayerAppeared(Player),
    PlayerAppeared(Player),
    DamageDone(Damage),
    HealthReceived(Damage),
    ZoneChange,
    EnterCombat(Player),
    LeaveCombat(Player),
    UpdateFame(Fame),
    UpdateItems(Items),
    UpdateParty(Party),
}

/// The bits of an IEEE-754 single that is below zero (not a zero, not NaN).
pub open spec fn f32_below_zero(bits: u32) -> bool {
    0x8000_0000 < bits <= 0xFF80_0000
}

/// The bits of an IEEE-754 single that is zero or above (not NaN).
pub open spec fn f32_not_below_zero(bits: u32) -> bool {
    bits <= 0x7F80_0000
}

/// The bits of the magnitude of an IEEE-754 single.
pub open spec fn f32_abs(bits: u32) -> u32 {
    if bits >= 0x8000_0000 {
        (bits - 0x8000_0000) as u32
    } else {
        bits
    }
}

pub fn is_below_zero(bits: u32) -> (r: bool)
    ensures
        r == f32_below_zero(bits),
{
    0x8000_0000 < bits && bits <= 0xFF80_0000
}

pub fn magnitude(bits: u32) -> (r: u32)
    ensures
        r == f32_abs(bits),
{
    if bits >= 0x8000_0000 {
        bits - 0x8000_0000
    } else {
        bits
    }
}

} // verus!
