//! Combat-time bookkeeping for one player. Instants are milliseconds on a
//! monotonic clock that the caller reads.

use vstd::prelude::*;

verus! {

#[derive(Clone, Copy, Debug, PartialEq, Eq, Structural)]
pub enum CombatState {
    InCombat,
    OutOfCombat,
}

/// The time a player has spent in combat, and when the current fight began.
#[derive(Clone, Copy, Debug, PartialEq, Eq, Structural)]
pub struct CombatTime {
    pub entered_combat: Option<u64>,
    pub time_in_combat: u64,
}

/// `a + b`, or the largest `u64` where that does not fit.
pub open spec fn add_capped(a: u64, b: int) -> u64 {
    if a + b > u64::MAX {
        u64::MAX
    } else {
        (a + b) as u64
    }
}

impl CombatTime {
    pub fn new() -> (r: CombatTime)
        ensures
            r.entered_combat is None,
            r.time_in_combat == 0,
    {
        CombatTime { entered_combat: None, time_in_combat: 0 }
    }

    pub fn state(&self) -> (r: CombatState)
        ensures
            r == (if self.entered_combat is Some {
                CombatState::InCombat
            } else {
                CombatState::OutOfCombat
            }),
    {
        if self.entered_combat.is_some() {
            CombatState::InCombat
        } else {
            CombatState::OutOfCombat
        }
    }

    /// Starts a fight at `now`, unless one is already going on (its start
    /// stays); the time already spent stays.
    pub fn enter(&mut self, now: u64)
        ensures
            final(self).entered_combat == if old(self).entered_combat is Some {
                old(self).entered_combat
            } else {
                Some(now)
            },
            final(self).time_in_combat == old(self).time_in_combat,
    {
        if self.entered_combat.is_none() {
            self.entered_combat = Some(now);
        }
    }

    /// Ends the current fight at `now`, adding its length to the time spent
    /// (a clock that went back adds nothing). Outside a fight nothing
    /// changes.
    pub fn leave(&mut self, now: u64)
        ensures
            final(self).entered_combat is None,
            final(self).time_in_combat >= old(self).time_in_combat,
            match old(self).entered_combat {
                Some(t) => final(self).time_in_combat == add_capped(
                    old(self).time_in_combat,
                    if now >= t {
                        now - t
                    } else {
                        0
                    },
                ),
                None => final(self).time_in_combat == old(self).time_in_combat,
            },
    {
        if let Some(t) = self.entered_combat {
            let spent = if now >= t {
                now - t
            } else {
                0
            };
            self.time_in_combat = self.time_in_combat.saturating_add(spent);
        }
        self.entered_combat = None;
    }

    /// The time spent in combat up to `now`, the current fight included.
    pub fn time_in_combat_at(&self, now: u64) -> (r: u64)
        ensures
            r >= self.time_in_combat,
            match self.entered_combat {
                Some(t) => r == add_capped(
                    self.time_in_combat,
                    if now >= t {
                        now - t
                    } else {
                        0
                    },
                ),
                None => r == self.time_in_combat,
            },
    {
        match self.entered_combat {
            Some(t) => {
                let spent = if now >= t {
                    now - t
                } else {
                    0
                };
                self.time_in_combat.saturating_add(spent)
            },
            None => self.time_in_combat,
        }
    }
}

} // verus!
