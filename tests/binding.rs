use photon_meter::codec::{EventData, OperationResponse, Parameters, Value};
use photon_meter::framing::Message;
use photon_meter::messages::{
    decode_number, decode_number_vec, decode_string_vec, decode_vec_of_number_vec, into_game_message,
    ItemDb, Items, Join, Message as GameMessage, NewCharacter, PartyJoined,
};
use photon_meter::party::into_id;

#[test]
fn numbers_widen_from_shorts_integers_and_bytes() {
    let mut p = Parameters::new();
    p.insert(0, Value::Short(-1));
    p.insert(1, Value::Integer(70000));
    p.insert(2, Value::Byte(9));
    p.insert(3, Value::String("x".to_string()));
    assert_eq!(decode_number(&p, 0), Some(0xFFFF_FFFF));
    assert_eq!(decode_number(&p, 1), Some(70000));
    assert_eq!(decode_number(&p, 2), Some(9));
    assert_eq!(decode_number(&p, 3), None);
    assert_eq!(decode_number(&p, 4), None);
}

#[test]
fn later_parameter_overrides_earlier() {
    let mut p = Parameters::new();
    p.insert(0, Value::Byte(1));
    p.insert(0, Value::Byte(2));
    assert_eq!(decode_number(&p, 0), Some(2));
}

#[test]
fn number_lists_keep_shorts_and_bytes() {
    let mut p = Parameters::new();
    p.insert(0, Value::Array(vec![Value::Short(3), Value::String("x".to_string()), Value::Byte(4)]));
    p.insert(1, Value::ByteArray(vec![1, 2]));
    p.insert(2, Value::Array(vec![Value::Array(vec![Value::Byte(1)]), Value::ByteArray(vec![5])]));
    p.insert(3, Value::Array(vec![Value::Byte(1)]));
    p.insert(4, Value::Array(vec![Value::String("a".to_string()), Value::Byte(1)]));
    assert_eq!(decode_number_vec(&p, 0), Some(vec![3, 4]));
    assert_eq!(decode_number_vec(&p, 1), Some(vec![1, 2]));
    assert_eq!(decode_vec_of_number_vec(&p, 2), Some(vec![vec![1], vec![5]]));
    assert_eq!(decode_vec_of_number_vec(&p, 3), None);
    assert_eq!(decode_string_vec(&p, 4), Some(vec!["a".to_string()]));
}

#[test]
fn composite_id_is_the_sum() {
    assert_eq!(into_id(&vec![1, 2, 3]), 6);
    assert_eq!(into_id(&vec![]), 0);
    assert_eq!(into_id(&vec![u32::MAX, 2]), 1);
}

#[test]
fn items_are_named_through_the_table() {
    let mut db = ItemDb::new();
    db.insert(7, "T4_MAIN_SWORD".to_string());
    db.insert(0, "UNIQUE_HIDEOUT".to_string());
    let items = Items::from(&vec![7, 0, 8, 7], &db);
    assert_eq!(items.weapon, Some("T4_MAIN_SWORD".to_string()));
    assert_eq!(items.offhand, None);
    assert_eq!(items.helmet, None);
    assert_eq!(items.armor, Some("T4_MAIN_SWORD".to_string()));
    assert_eq!(items.food, None);
}

#[test]
fn new_character_binds_event_twenty_five() {
    let mut db = ItemDb::new();
    db.insert(7, "T4_MAIN_SWORD".to_string());
    let mut p = Parameters::new();
    p.insert(252, Value::Short(25));
    p.insert(0, Value::Short(1));
    p.insert(1, Value::String("CH1".to_string()));
    for k in [18u8, 19, 22, 23] {
        p.insert(k, Value::Float(1.0f32.to_bits()));
    }
    p.insert(33, Value::Array(vec![Value::Short(7)]));
    let bound = into_game_message(&Message::Event(EventData { code: 1, parameters: p }), &db);
    match bound {
        Some(GameMessage::NewCharacter(NewCharacter { source, character_name, items, .. })) => {
            assert_eq!(source, 1);
            assert_eq!(character_name, "CH1");
            assert_eq!(items.weapon, Some("T4_MAIN_SWORD".to_string()));
        }
        other => panic!("unexpected {:?}", other),
    }
}

#[test]
fn missing_mandatory_field_gives_nothing() {
    let db = ItemDb::new();
    let mut p = Parameters::new();
    p.insert(252, Value::Short(25));
    p.insert(0, Value::Short(1));
    let bound = into_game_message(&Message::Event(EventData { code: 1, parameters: p }), &db);
    assert_eq!(bound, None);
}

#[test]
fn join_binds_from_response_two() {
    let db = ItemDb::new();
    let mut p = Parameters::new();
    p.insert(253, Value::Short(2));
    p.insert(0, Value::Integer(11));
    p.insert(2, Value::String("MAIN".to_string()));
    for k in [11u8, 12, 15, 16] {
        p.insert(k, Value::Float(2.0f32.to_bits()));
    }
    let response = OperationResponse {
        code: 1,
        return_code: 0,
        debug_message: "None".to_string(),
        parameters: p,
    };
    let bound = into_game_message(&Message::Response(response), &db);
    assert_eq!(
        bound,
        Some(GameMessage::Join(Join {
            source: 11,
            character_name: "MAIN".to_string(),
            health: 2.0f32.to_bits(),
            max_health: 2.0f32.to_bits(),
            energy: 2.0f32.to_bits(),
            max_energy: 2.0f32.to_bits(),
        }))
    );
}

#[test]
fn party_joined_binds_structures_and_names() {
    let db = ItemDb::new();
    let mut p = Parameters::new();
    p.insert(252, Value::Short(213));
    p.insert(0, Value::Byte(3));
    p.insert(4, Value::Array(vec![Value::ByteArray(vec![1, 2])]));
    p.insert(5, Value::Array(vec![Value::String("a".to_string())]));
    let bound = into_game_message(&Message::Event(EventData { code: 1, parameters: p }), &db);
    assert_eq!(
        bound,
        Some(GameMessage::PartyJoined(PartyJoined {
            party_id: 3,
            party_structures: vec![vec![1, 2]],
            character_names: vec!["a".to_string()],
        }))
    );
}
