use photon_meter::codec::{DecodeFailure, Parameters, Value};
use photon_meter::cursor::Cursor;
use photon_meter::framing::{decode_header, decode_message, Frame, Message, Photon, MAX_PENDING};
use photon_meter::messages::{into_game_message, HealthUpdate, ItemDb, Message as GameMessage};

fn header(count: u8) -> Vec<u8> {
    vec![0, 1, 0, count, 0, 0, 0, 9, 0, 0, 0, 7]
}

fn reliable(message: &[u8]) -> Vec<u8> {
    let length = (12 + message.len()) as u32;
    let mut out = vec![6, 0, 0, 0];
    out.extend_from_slice(&length.to_be_bytes());
    out.extend_from_slice(&[0, 0, 0, 1]);
    out.extend_from_slice(message);
    out
}

fn fragment(seq: u32, count: u32, number: u32, payload: &[u8]) -> Vec<u8> {
    let length = (32 + payload.len()) as u32;
    let mut out = vec![8, 0, 0, 0];
    out.extend_from_slice(&length.to_be_bytes());
    out.extend_from_slice(&[0, 0, 0, 1]);
    for field in [seq, count, number, 0, 0] {
        out.extend_from_slice(&field.to_be_bytes());
    }
    out.extend_from_slice(payload);
    out
}

/// An event message: code 100 with one string parameter.
fn event_bytes() -> Vec<u8> {
    vec![0, 4, 100, 0, 1, 0, 115, 0, 2, 104, 105]
}

/// A health update event, as the game sends it.
fn health_update_bytes() -> Vec<u8> {
    let mut out = vec![0, 4, 1, 0, 4];
    out.extend_from_slice(&[252, 107, 0, 6]);
    out.extend_from_slice(&[0, 107, 0, 200]);
    out.extend_from_slice(&[6, 107, 0, 1]);
    out.push(2);
    out.push(102);
    out.extend_from_slice(&(-10.0f32).to_be_bytes());
    out
}

#[test]
fn header_fields_are_big_endian() {
    let mut c = Cursor::new(header(3));
    let h = decode_header(&mut c).unwrap();
    assert_eq!(h.peer_id, 1);
    assert!(!h.crc_enabled);
    assert_eq!(h.command_count, 3);
    assert_eq!(h.timestamp, 9);
    assert_eq!(h.challenge, 7);
    assert_eq!(c.position(), 12);
}

#[test]
fn short_datagram_is_an_error() {
    let mut photon = Photon::new();
    let r = photon.try_decode(&[0, 1, 2]);
    assert_eq!(r.unwrap_err().cause, DecodeFailure::NotEnoughBytes);
    assert!(photon.decode(&[0, 1, 2]).is_empty());
}

#[test]
fn reliable_command_carries_an_event() {
    let mut datagram = header(1);
    datagram.extend(reliable(&event_bytes()));
    let mut photon = Photon::new();
    let messages = photon.decode(&datagram);
    assert_eq!(messages.len(), 1);
    match &messages[0] {
        Message::Event(e) => {
            assert_eq!(e.code, 100);
            assert_eq!(e.parameters.get(0), Some(&Value::String("hi".to_string())));
        }
        _ => panic!("not an event"),
    }
}

#[test]
fn a_short_message_does_not_shift_the_next_command() {
    // The first command declares two bytes more than its message reads.
    let mut first = event_bytes();
    first.extend_from_slice(&[0xEE, 0xEE]);
    let mut datagram = header(2);
    datagram.extend(reliable(&first));
    datagram.extend(reliable(&event_bytes()));
    let mut photon = Photon::new();
    let messages = photon.decode(&datagram);
    assert_eq!(messages.len(), 2);
}

#[test]
fn unknown_message_type_is_reported_per_command() {
    let mut datagram = header(2);
    datagram.extend(reliable(&[0, 9, 1, 2]));
    datagram.extend(reliable(&event_bytes()));
    let mut photon = Photon::new();
    let results = photon.try_decode(&datagram).unwrap();
    assert_eq!(results.len(), 2);
    let e = results[0].as_ref().unwrap_err();
    assert_eq!(e.cause, DecodeFailure::UnknownMessage(9));
    assert_eq!(e.context, vec![Frame::SendReliable]);
    assert!(results[1].is_ok());
}

#[test]
fn unknown_command_type_is_an_error() {
    let mut datagram = header(1);
    datagram.push(5);
    let mut photon = Photon::new();
    let results = photon.try_decode(&datagram).unwrap();
    assert_eq!(results[0].as_ref().unwrap_err().cause, DecodeFailure::UnknownCommand(5));
}

#[test]
fn command_length_below_its_header_is_an_error() {
    let mut datagram = header(1);
    datagram.extend_from_slice(&[6, 0, 0, 0, 0, 0, 0, 5, 0, 0, 0, 1]);
    let mut photon = Photon::new();
    let results = photon.try_decode(&datagram).unwrap();
    assert_eq!(results[0].as_ref().unwrap_err().cause, DecodeFailure::InvalidLength);
}

#[test]
fn fragments_are_joined_in_arrival_order() {
    let message = event_bytes();
    let (a, b) = message.split_at(5);
    let mut photon = Photon::new();

    let mut first = header(1);
    first.extend(fragment(42, 2, 0, a));
    assert!(photon.try_decode(&first).unwrap().is_empty());

    let mut second = header(1);
    second.extend(fragment(42, 2, 1, b));
    let messages = photon.decode(&second);
    assert_eq!(messages.len(), 1);
    assert!(matches!(&messages[0], Message::Event(e) if e.code == 100));

    // The sequence number was forgotten: a lone fragment starts over.
    let mut third = header(1);
    third.extend(fragment(42, 2, 1, b));
    assert!(photon.decode(&third).is_empty());
}

#[test]
fn message_type_selects_the_body() {
    let mut c = Cursor::new(vec![0, 2, 7, 0, 0]);
    assert!(matches!(decode_message(&mut c), Ok(Message::Request(r)) if r.code == 7));
    let mut c = Cursor::new(vec![0, 3, 7, 0, 5, 42, 0, 0]);
    match decode_message(&mut c) {
        Ok(Message::Response(r)) => {
            assert_eq!(r.code, 7);
            assert_eq!(r.return_code, 5);
            assert_eq!(r.debug_message, "None");
        }
        _ => panic!("not a response"),
    }
    let mut c = Cursor::new(vec![0, 4, 7]);
    let e = decode_message(&mut c).unwrap_err();
    assert_eq!(e.cause, DecodeFailure::NotEnoughBytes);
    assert_eq!(e.context, vec![Frame::Event]);
}

#[test]
fn health_update_binds_from_the_wire() {
    let mut datagram = header(1);
    datagram.extend(reliable(&health_update_bytes()));
    let mut photon = Photon::new();
    let messages = photon.decode(&datagram);
    assert_eq!(messages.len(), 1);
    let db = ItemDb::new();
    let bound = into_game_message(&messages[0], &db);
    assert_eq!(
        bound,
        Some(GameMessage::HealthUpdate(HealthUpdate {
            source: 200,
            target: 1,
            value: (-10.0f32).to_bits(),
        }))
    );
}

#[test]
fn binder_ignores_other_codes_and_requests() {
    let db = ItemDb::new();
    let mut p = Parameters::new();
    p.insert(252, Value::Short(6));
    let event = photon_meter::codec::EventData { code: 2, parameters: p };
    assert_eq!(into_game_message(&Message::Event(event), &db), None);

    let mut p = Parameters::new();
    p.insert(252, Value::Short(999));
    let event = photon_meter::codec::EventData { code: 1, parameters: p };
    assert_eq!(into_game_message(&Message::Event(event), &db), None);

    let mut p = Parameters::new();
    p.insert(253, Value::Short(2));
    let request = photon_meter::codec::OperationRequest { code: 1, parameters: p };
    assert_eq!(into_game_message(&Message::Request(request), &db), None);
}

#[test]
fn oldest_incomplete_message_is_dropped_when_full() {
    let message = event_bytes();
    let (a, b) = message.split_at(5);
    let mut photon = Photon::new();
    for seq in 0..(MAX_PENDING as u32 + 1) {
        let mut d = header(1);
        d.extend(fragment(seq, 2, 0, a));
        assert!(photon.decode(&d).is_empty());
    }
    // Sequence 1 is still there; 0 waited longest and was pushed out.
    let mut d = header(1);
    d.extend(fragment(1, 2, 1, b));
    assert_eq!(photon.decode(&d).len(), 1);
    let mut d = header(1);
    d.extend(fragment(0, 2, 1, b));
    assert!(photon.decode(&d).is_empty());
}
