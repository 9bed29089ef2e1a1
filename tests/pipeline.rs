use photon_meter::events::Event;
use photon_meter::messages::ItemDb;
use photon_meter::pipeline::{is_packet_valid, Pipeline, GAME_PORT};

fn datagram(message: &[u8]) -> Vec<u8> {
    let mut out = vec![0, 1, 0, 1, 0, 0, 0, 0, 0, 0, 0, 0];
    let length = (12 + message.len()) as u32;
    out.extend_from_slice(&[6, 0, 0, 0]);
    out.extend_from_slice(&length.to_be_bytes());
    out.extend_from_slice(&[0, 0, 0, 1]);
    out.extend_from_slice(message);
    out
}

/// A new-character event for dynamic id 1, named "CH1", with no items.
fn new_character() -> Vec<u8> {
    let mut m = vec![0, 4, 1, 0, 8];
    m.extend_from_slice(&[252, 107, 0, 25]);
    m.extend_from_slice(&[0, 107, 0, 1]);
    m.extend_from_slice(&[1, 115, 0, 3, b'C', b'H', b'1']);
    for k in [18u8, 19, 22, 23] {
        m.push(k);
        m.push(102);
        m.extend_from_slice(&1.0f32.to_be_bytes());
    }
    m.extend_from_slice(&[33, 120, 0, 0, 0, 10, 0, 0, 0, 0, 0, 0, 0, 0, 0, 0]);
    m
}

#[test]
fn only_the_game_port_matters() {
    assert!(is_packet_valid(GAME_PORT, 1));
    assert!(is_packet_valid(1, 5056));
    assert!(!is_packet_valid(1, 2));
}

#[test]
fn datagram_becomes_game_events() {
    let mut pipeline = Pipeline::new(ItemDb::new());
    let bytes = datagram(&new_character());
    assert!(pipeline.udp_packet_to_game_events(1, 2, &bytes).is_empty());
    let events = pipeline.udp_packet_to_game_events(5056, 40000, &bytes);
    assert_eq!(events.len(), 2);
    assert!(matches!(&events[0], Event::PlayerAppeared(p) if p.name == "CH1" && p.id.0 == 0));
    assert!(matches!(&events[1], Event::UpdateItems(_)));
}
