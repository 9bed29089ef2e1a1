use photon_meter::codec::{
    deserialize, deserialize_array, deserialize_dictionary, deserialize_object_array, deserialize_parameter_table, deserialize_string,
    deserialize_value, DecodeFailure, TypeCode, Value,
};
use photon_meter::cursor::Cursor;

#[test]
fn unknown_type_code_is_named() {
    let mut c = Cursor::new(vec![0x01, 0, 0]);
    assert_eq!(deserialize_value(&mut c).unwrap_err(), DecodeFailure::UnknownTypeCode(1));
    assert_eq!(TypeCode::from_byte(0x7A), TypeCode::ObjectArray);
    assert_eq!(TypeCode::from_byte(0x01), TypeCode::Unknown);
}

#[test]
fn short_input_is_not_enough_bytes() {
    let mut c = Cursor::new(vec![105, 0, 0]);
    assert_eq!(deserialize_value(&mut c).unwrap_err(), DecodeFailure::NotEnoughBytes);
    let mut c = Cursor::new(vec![0, 5, b'a']);
    assert_eq!(deserialize_string(&mut c).unwrap_err(), DecodeFailure::NotEnoughBytes);
}

#[test]
fn negative_sizes_are_unreasonable() {
    let mut c = Cursor::new(vec![0xFF, 0xFF]);
    assert_eq!(deserialize_string(&mut c).unwrap_err(), DecodeFailure::UnreasonableSize);
    let mut c = Cursor::new(vec![0x80, 0x00, 105]);
    assert_eq!(deserialize_array(&mut c).unwrap_err(), DecodeFailure::UnreasonableSize);
    let mut c = Cursor::new(vec![0xFF, 0xFE]);
    assert_eq!(deserialize_parameter_table(&mut c).unwrap_err(), DecodeFailure::UnreasonableSize);
}

#[test]
fn invalid_utf8_is_reported() {
    let mut c = Cursor::new(vec![0, 1, 0xFF]);
    assert_eq!(deserialize_string(&mut c).unwrap_err(), DecodeFailure::InvalidText);
}

#[test]
fn failed_element_keeps_the_earlier_ones() {
    // Three integers announced, one and a half present.
    let mut c = Cursor::new(vec![0, 3, 105, 0, 0, 0, 7, 0, 0]);
    assert_eq!(deserialize_array(&mut c).unwrap(), vec![Value::Integer(7)]);
}

#[test]
fn per_element_codes_in_an_array() {
    let mut c = Cursor::new(vec![0, 2, 0x2A, 98, 5, 115, 0, 1, b'x']);
    assert_eq!(
        deserialize_array(&mut c).unwrap(),
        vec![Value::Byte(5), Value::String("x".to_string())]
    );
}

#[test]
fn null_codes_read_nothing() {
    let mut c = Cursor::new(vec![]);
    assert_eq!(deserialize(0x2A, &mut c).unwrap(), Value::Null);
    assert_eq!(deserialize(0x00, &mut c).unwrap(), Value::Null);
    assert_eq!(c.position(), 0);
}

#[test]
fn single_value_scenario() {
    let mut c = Cursor::new(vec![107, 4, 210]);
    assert_eq!(deserialize_value(&mut c).unwrap(), Value::Short(1234));
    let mut c = Cursor::new(vec![107, 0xFF, 0xFE]);
    assert_eq!(deserialize_value(&mut c).unwrap(), Value::Short(-2));
    let mut c = Cursor::new(vec![108, 0xFF, 0xFF, 0xFF, 0xFF, 0xFF, 0xFF, 0xFF, 0xFF]);
    assert_eq!(deserialize_value(&mut c).unwrap(), Value::Long(-1));
}

#[test]
fn parameter_table_scenario() {
    let mut c = Cursor::new(vec![
        101, 100, 0, 2, 0, 115, 0, 5, b't', b'e', b's', b't', b'1', 1, 115, 0, 5, b't', b'e',
        b's', b't', b'2',
    ]);
    match deserialize_value(&mut c).unwrap() {
        Value::EventData(e) => {
            assert_eq!(e.code, 100);
            assert_eq!(e.parameters.len(), 2);
            assert_eq!(e.parameters.get(0), Some(&Value::String("test1".to_string())));
            assert_eq!(e.parameters.get(1), Some(&Value::String("test2".to_string())));
        }
        _ => panic!("not event data"),
    }
}

#[test]
fn failed_pair_keeps_the_earlier_ones() {
    // Byte keys, integer values: two pairs announced, the second value cut short.
    let mut c = Cursor::new(vec![98, 105, 0, 2, 1, 0, 0, 0, 9, 2, 0, 0]);
    assert_eq!(
        deserialize_dictionary(&mut c).unwrap(),
        vec![(Value::Byte(1), Value::Integer(9))]
    );
}

#[test]
fn failed_object_keeps_the_earlier_ones() {
    let mut c = Cursor::new(vec![0, 3, 98, 4, 0x01, 98, 5]);
    assert_eq!(deserialize_object_array(&mut c).unwrap(), vec![Value::Byte(4)]);
}
