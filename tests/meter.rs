use photon_meter::events::Player;
use photon_meter::ids::StaticId;
use photon_meter::combat::CombatTime;
use photon_meter::messages::{
    HealthUpdate, Items, Join, Leave, Message, NewCharacter, RegenerationHealthChanged, UpdateFame,
};
use photon_meter::events::Event;
use photon_meter::meter::{History, Meter, Session, Tally};
use photon_meter::world::World;

struct Stat {
    player: String,
    damage: f32,
    time_in_combat: f32,
    dps: f32,
    seconds_in_game: f32,
    fame: f32,
    fame_per_minute: u32,
    fame_per_hour: u32,
}

fn stat(t: &Tally, now: u64) -> Stat {
    let damage: f32 = t.hits.iter().map(|b| f32::from_bits(*b)).sum();
    let time_in_combat = t.combat.time_in_combat_at(now) as f32;
    let seconds_in_game = ((now - t.started_at) / 1000) as f32;
    let fame = t.fame as f32 / 10000.0;
    let rate = |period: f32| {
        let periods = seconds_in_game / period;
        if periods > 0.0 {
            (fame / periods) as u32
        } else {
            0
        }
    };
    Stat {
        player: t.name.clone(),
        damage,
        time_in_combat,
        dps: if time_in_combat == 0.0 { 0.0 } else { damage / time_in_combat * 1000.0 },
        seconds_in_game,
        fame,
        fame_per_minute: rate(60.0),
        fame_per_hour: rate(3600.0),
    }
}

#[derive(Clone, Copy)]
enum Scope {
    Zone,
    LastFight,
}

struct Harness {
    world: World,
    meter: Meter,
    now: u64,
}

impl Harness {
    fn new() -> Self {
        Harness { world: World::new(), meter: Meter::new(), now: 0 }
    }

    fn register(&mut self, message: Message) {
        if let Some(events) = self.world.transform(message) {
            for e in events {
                self.meter.consume(e, self.now);
            }
        }
    }

    fn stats(&self, scope: Scope) -> Vec<Stat> {
        let session: Option<&Session> = match scope {
            Scope::Zone => self.meter.zone_session(),
            Scope::LastFight => Some(self.meter.last_fight_session()),
        };
        match session {
            Some(s) => s.players.iter().filter(|t| t.is_shown()).map(|t| stat(t, self.now)).collect(),
            None => Vec::new(),
        }
    }

    fn damage_of(&self, scope: Scope, name: &str) -> f32 {
        self.stats(scope).iter().find(|s| s.player == name).unwrap().damage
    }
}

fn new_character(name: &str, source: u32) -> Message {
    Message::NewCharacter(NewCharacter {
        source,
        character_name: name.to_string(),
        health: 10.0f32.to_bits(),
        max_health: 10.0f32.to_bits(),
        energy: 1.0f32.to_bits(),
        max_energy: 1.0f32.to_bits(),
        items: Items::default(),
    })
}

fn join(name: &str, source: u32) -> Message {
    Message::Join(Join {
        source,
        character_name: name.to_string(),
        health: 10.0f32.to_bits(),
        max_health: 10.0f32.to_bits(),
        energy: 1.0f32.to_bits(),
        max_energy: 1.0f32.to_bits(),
    })
}

fn hit(target: u32) -> Message {
    Message::HealthUpdate(HealthUpdate { source: 200, target, value: (-10.0f32).to_bits() })
}

fn regeneration(source: u32, rate: Option<f32>) -> Message {
    Message::RegenerationHealthChanged(RegenerationHealthChanged {
        source,
        health: 10.0f32.to_bits(),
        max_health: 10.0f32.to_bits(),
        regeneration_rate: rate.map(f32::to_bits),
    })
}

fn attack(h: &mut Harness, id: u32) {
    h.register(regeneration(id, None));
    h.register(hit(id));
}

fn combat_leave(h: &mut Harness, id: u32) {
    h.register(regeneration(id, Some(1.0)));
}

#[test]
fn core_test_empty_session() {
    let h = Harness::new();
    assert_eq!(h.stats(Scope::Zone).len(), 0);
}

#[test]
fn core_test_new_player_appears() {
    let mut h = Harness::new();
    h.register(new_character("CH1", 1));
    assert_eq!(h.stats(Scope::Zone).len(), 1);
}

#[test]
fn core_test_new_player_stats() {
    let mut h = Harness::new();
    h.register(new_character("CH1", 1));
    assert_eq!(h.stats(Scope::Zone).len(), 1);
    let zone_stats = h.stats(Scope::Zone);
    assert_eq!(zone_stats[0].player, "CH1");
    assert_eq!(zone_stats[0].damage, 0.0);
    assert_eq!(zone_stats[0].time_in_combat, 0.0);
    assert_eq!(zone_stats[0].dps, 0.0);
    assert_eq!(zone_stats[0].seconds_in_game, 0.0);
    assert_eq!(zone_stats[0].fame, 0.0);
    assert_eq!(zone_stats[0].fame_per_minute, 0);
    assert_eq!(zone_stats[0].fame_per_hour, 0);
}

#[test]
fn core_test_damage_aggregation() {
    let mut h = Harness::new();
    h.register(new_character("CH1", 1));
    assert_eq!(h.stats(Scope::Zone)[0].damage, 0.0);
    h.register(regeneration(1, None));
    assert_eq!(h.stats(Scope::Zone)[0].damage, 0.0);
    h.register(hit(1));
    assert_eq!(h.stats(Scope::Zone)[0].damage, 10.0);
    h.register(hit(1));
    assert_eq!(h.stats(Scope::Zone)[0].damage, 20.0);
}

#[test]
fn core_test_new_player_damage() {
    let mut h = Harness::new();
    h.register(new_character("CH1", 1));
    let zone_stats = h.stats(Scope::Zone);
    assert_eq!(zone_stats[0].damage, 0.0);
    assert_eq!(zone_stats[0].player, "CH1");
    h.register(regeneration(1, None));
    h.register(hit(1));
    assert_eq!(h.stats(Scope::Zone)[0].damage, 10.0);
}

#[test]
fn damage_out_of_combat_is_ignored() {
    let mut h = Harness::new();
    h.register(new_character("CH1", 1));
    h.register(hit(1));
    assert_eq!(h.damage_of(Scope::Zone, "CH1"), 0.0);
    h.register(regeneration(1, None));
    h.register(hit(1));
    assert_eq!(h.damage_of(Scope::Zone, "CH1"), 10.0);
}

#[test]
fn core_test_new_player_damage_reset() {
    let mut h = Harness::new();
    h.register(new_character("CH1", 1));
    let zone_stats = h.stats(Scope::Zone);
    assert_eq!(zone_stats[0].damage, 0.0);
    assert_eq!(zone_stats[0].player, "CH1");
    h.register(regeneration(1, None));
    h.register(hit(1));
    assert_eq!(h.stats(Scope::Zone)[0].damage, 10.0);
    h.meter.reset_zone(h.now);
    assert_eq!(h.meter.zone_session().unwrap().players[0].hits.len(), 0);
    assert_eq!(stat(&h.meter.zone_session().unwrap().players[0], h.now).damage, 0.0);
}

#[test]
fn core_test_zone_detection() {
    let mut h = Harness::new();
    h.register(join("MAIN_CH1", 1));
    let zone_stats = h.stats(Scope::Zone);
    assert_eq!(zone_stats[0].damage, 0.0);
    assert_eq!(zone_stats[0].player, "MAIN_CH1");

    attack(&mut h, 1);
    assert_eq!(h.stats(Scope::Zone)[0].damage, 10.0);

    h.register(Message::Leave(Leave { source: 1 }));
    h.register(join("MAIN_CH1", 2));
    assert_eq!(h.stats(Scope::Zone)[0].damage, 0.0);

    attack(&mut h, 2);
    assert_eq!(h.stats(Scope::Zone)[0].damage, 10.0);
}

#[test]
fn core_test_two_players_in_the_zone() {
    let mut h = Harness::new();
    h.register(join("MAIN_CH1", 1));
    assert_eq!(h.damage_of(Scope::Zone, "MAIN_CH1"), 0.0);
    h.register(new_character("CH1", 2));
    assert_eq!(h.damage_of(Scope::Zone, "CH1"), 0.0);
    h.register(Message::Leave(Leave { source: 1 }));
    assert!(h.stats(Scope::Zone).iter().find(|s| s.player == "CH1").is_none());
}

#[test]
fn core_test_overall_damage() {
    let mut h = Harness::new();
    h.register(join("MAIN_CH1", 1));
    assert_eq!(h.damage_of(Scope::Zone, "MAIN_CH1"), 0.0);
    attack(&mut h, 1);
    assert_eq!(h.damage_of(Scope::Zone, "MAIN_CH1"), 10.0);
    h.register(new_character("CH1", 2));
    assert_eq!(h.damage_of(Scope::Zone, "CH1"), 0.0);
    assert_eq!(h.damage_of(Scope::Zone, "MAIN_CH1"), 10.0);
    attack(&mut h, 1);
    assert_eq!(h.damage_of(Scope::Zone, "CH1"), 0.0);
    assert_eq!(h.damage_of(Scope::Zone, "MAIN_CH1"), 20.0);
}

#[test]
fn core_test_last_fight_damage() {
    let mut h = Harness::new();
    h.register(join("MAIN_CH1", 1));
    assert_eq!(h.damage_of(Scope::LastFight, "MAIN_CH1"), 0.0);
    attack(&mut h, 1);
    assert_eq!(h.damage_of(Scope::LastFight, "MAIN_CH1"), 10.0);
}

#[test]
fn core_test_last_fight_management() {
    let mut h = Harness::new();
    h.register(join("MAIN_CH1", 1));
    assert_eq!(h.damage_of(Scope::LastFight, "MAIN_CH1"), 0.0);

    attack(&mut h, 1);
    assert_eq!(h.damage_of(Scope::LastFight, "MAIN_CH1"), 10.0);

    h.register(new_character("CH1", 2));
    assert_eq!(h.damage_of(Scope::Zone, "CH1"), 0.0);
    attack(&mut h, 2);
    assert_eq!(h.damage_of(Scope::LastFight, "CH1"), 10.0);

    h.register(new_character("CH2", 3));
    assert_eq!(h.damage_of(Scope::Zone, "CH2"), 0.0);
    attack(&mut h, 3);
    assert_eq!(h.damage_of(Scope::LastFight, "CH2"), 10.0);

    for id in [1, 2, 3] {
        combat_leave(&mut h, id);
        assert_eq!(h.damage_of(Scope::LastFight, "MAIN_CH1"), 10.0);
        assert_eq!(h.damage_of(Scope::LastFight, "CH1"), 10.0);
        assert_eq!(h.damage_of(Scope::LastFight, "CH2"), 10.0);
    }

    attack(&mut h, 1);
    combat_leave(&mut h, 3);
    assert_eq!(h.damage_of(Scope::LastFight, "MAIN_CH1"), 10.0);
    let last_fight = h.meter.last_fight_session();
    let ch1 = last_fight.players.iter().find(|t| t.name == "CH1").unwrap();
    assert_eq!(stat(ch1, h.now).damage, 0.0);
    let ch2 = last_fight.players.iter().find(|t| t.name == "CH2").unwrap();
    assert_eq!(stat(ch2, h.now).damage, 0.0);
}

#[test]
fn core_test_fame_statistics() {
    let mut h = Harness::new();
    h.register(join("MAIN_CH1", 1));
    let zone_stats = h.stats(Scope::Zone);
    assert_eq!(zone_stats.iter().find(|s| s.player == "MAIN_CH1").unwrap().fame_per_minute, 0);

    h.now += 1000 * 60;
    let zone_stats = h.stats(Scope::Zone);
    assert_eq!(zone_stats.iter().find(|s| s.player == "MAIN_CH1").unwrap().fame_per_minute, 0);

    h.register(Message::UpdateFame(UpdateFame { source: 1, fame: 1000000 }));
    let zone_stats = h.stats(Scope::Zone);
    assert_eq!(zone_stats.iter().find(|s| s.player == "MAIN_CH1").unwrap().fame_per_minute, 100);
}

#[test]
fn zone_change_hands_back_the_zone() {
    let mut h = Harness::new();
    h.register(join("MAIN_CH1", 1));
    attack(&mut h, 1);
    let closed = h.meter.consume(Event::ZoneChange, h.now).unwrap();
    assert_eq!(closed.players.len(), 1);
    assert_eq!(closed.players[0].hits.len(), 1);
    assert_eq!(h.meter.zone_session().unwrap().players.len(), 0);
    assert_eq!(h.meter.last_fight_session().players.len(), 0);
}

#[test]
fn combat_time_counts_while_fighting() {
    let mut h = Harness::new();
    h.register(join("MAIN_CH1", 1));
    h.now = 1000;
    h.register(regeneration(1, None));
    h.now = 4000;
    h.register(regeneration(1, Some(1.0)));
    let t = &h.meter.zone_session().unwrap().players[0];
    assert_eq!(t.combat, CombatTime { entered_combat: None, time_in_combat: 3000 });
    h.now = 9000;
    assert_eq!(stat(&h.meter.zone_session().unwrap().players[0], h.now).time_in_combat, 3000.0);
}

#[test]
fn items_before_the_player_wait_for_it() {
    let mut m = Meter::new();
    let items = Items { weapon: Some("SWORD".to_string()), ..Default::default() };
    m.consume(
        photon_meter::events::Event::UpdateItems(photon_meter::events::Items {
            source: photon_meter::ids::StaticId(4),
            value: items.clone(),
        }),
        0,
    );
    assert!(m.zone_session().is_none());
    m.consume(
        photon_meter::events::Event::PlayerAppeared(photon_meter::events::Player {
            id: photon_meter::ids::StaticId(4),
            name: "P".to_string(),
        }),
        0,
    );
    let p = &m.zone_session().unwrap().players[0];
    assert_eq!(p.items, items);
    assert!(!p.idle);
}

fn fame_in(h: &History, name: &str) -> u64 {
    h.records.iter().find(|r| r.name == name).map(|r| r.fame).unwrap_or(0)
}

#[test]
fn ended_zones_add_up_by_name() {
    let mut world = World::new();
    let mut meter = Meter::new();
    let mut history = History::new();
    let mut feed = |world: &mut World, meter: &mut Meter, history: &mut History, m: Message, now: u64| {
        if let Some(events) = world.transform(m) {
            for e in events {
                meter.record(e, now, history);
            }
        }
    };
    feed(&mut world, &mut meter, &mut history, join("MAIN", 1), 0);
    feed(&mut world, &mut meter, &mut history, Message::UpdateFame(UpdateFame { source: 1, fame: 30000 }), 0);
    feed(&mut world, &mut meter, &mut history, Message::Leave(Leave { source: 1 }), 5000);
    assert_eq!(fame_in(&history, "MAIN"), 30000);
    assert_eq!(history.records[0].seconds_in_game, 5);

    feed(&mut world, &mut meter, &mut history, join("MAIN", 7), 5000);
    feed(&mut world, &mut meter, &mut history, Message::UpdateFame(UpdateFame { source: 7, fame: 12 }), 5000);
    feed(&mut world, &mut meter, &mut history, Message::Leave(Leave { source: 7 }), 8000);
    assert_eq!(fame_in(&history, "MAIN"), 30012);
    assert_eq!(history.records.len(), 1);
    assert_eq!(history.records[0].seconds_in_game, 8);
}

#[test]
fn an_empty_zone_changes_no_total() {
    let mut meter = Meter::new();
    let mut history = History::new();
    assert!(meter.record(Event::ZoneChange, 0, &mut history).is_none());
    assert!(history.records.is_empty());
    let closed = meter.record(Event::ZoneChange, 10, &mut history).unwrap();
    assert!(closed.players.is_empty());
    assert!(history.records.is_empty());
}

#[test]
fn a_name_seen_again_keeps_its_counts() {
    let mut m = Meter::new();
    let a3 = Player { id: StaticId(3), name: "A".to_string() };
    m.consume(Event::PlayerAppeared(a3.clone()), 0);
    m.consume(Event::EnterCombat(a3.clone()), 0);
    m.consume(Event::LeaveCombat(a3), 100);
    let a7 = Player { id: StaticId(7), name: "A".to_string() };
    m.consume(Event::PlayerAppeared(a7), 200);
    let zone = m.zone_session().unwrap();
    assert_eq!(zone.players.len(), 1);
    assert_eq!(zone.players[0].id, 7);
    assert_eq!(zone.players[0].combat.time_in_combat, 100);
}

#[test]
fn entering_a_fight_twice_keeps_its_start() {
    let mut m = Meter::new();
    let p = Player { id: StaticId(1), name: "P".to_string() };
    m.consume(Event::PlayerAppeared(p.clone()), 0);
    m.consume(Event::EnterCombat(p.clone()), 10);
    m.consume(Event::EnterCombat(p.clone()), 50);
    m.consume(Event::LeaveCombat(p), 110);
    assert_eq!(m.zone_session().unwrap().players[0].combat.time_in_combat, 100);
}
