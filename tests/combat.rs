use photon_meter::combat::{CombatState, CombatTime};

#[test]
fn combat_time_accumulates_over_fights() {
    let mut c = CombatTime::new();
    assert_eq!(c.state(), CombatState::OutOfCombat);
    c.enter(1000);
    assert_eq!(c.state(), CombatState::InCombat);
    assert_eq!(c.time_in_combat_at(1500), 500);
    c.leave(3000);
    assert_eq!(c.time_in_combat, 2000);
    c.leave(9000);
    assert_eq!(c.time_in_combat, 2000);
    c.enter(10000);
    c.leave(10250);
    assert_eq!(c.time_in_combat, 2250);
}

#[test]
fn clock_going_back_adds_nothing() {
    let mut c = CombatTime::new();
    c.enter(500);
    c.leave(100);
    assert_eq!(c.time_in_combat, 0);
    assert_eq!(c.state(), CombatState::OutOfCombat);
}

#[test]
fn combat_time_saturates() {
    let mut c = CombatTime { entered_combat: Some(0), time_in_combat: u64::MAX - 1 };
    c.leave(10);
    assert_eq!(c.time_in_combat, u64::MAX);
}
