use photon_meter::codec::{deserialize, dictionary_get, Value};
use photon_meter::cursor::Cursor;


#[test]
fn lib_deserialize_dictionary() {
    let value: Vec<u8> = vec![68, 115, 115, 0, 2, 0, 8, 116, 101, 115, 116, 75, 101, 121, 49, 0, 10, 116, 101, 115, 116, 86, 97, 108, 117, 101, 49, 0, 8, 116, 101, 115, 116, 75, 101, 121, 50, 0, 10, 116, 101, 115, 116, 86, 97, 108, 117, 101, 50, 0, 0, 0, 0, 0, 0, 0, 0, 0, 0, 0, 0, 0, 0, 0];
    let mut buf = Cursor::new(value);
    let type_code = buf.read_u8().unwrap();
    let result = deserialize(type_code, &mut buf);
    assert!(result.is_ok(), "Unimplemented!");
    let value = result.unwrap();
    match value {
        Value::Dictionary(v) => assert_eq!(
            dictionary_get(&v, &Value::String("testKey1".to_owned())),
            Some(&Value::String("testValue1".to_owned()))
        ),
        _ => panic!("not a dictionary"),
    }
}

#[test]
fn lib_deserialize_string_array() {
    let value: Vec<u8> = vec![121, 0, 2, 115, 0, 5, 116, 101, 115, 116, 49, 0, 5, 116, 101, 115, 116, 50, 0, 0, 0, 0, 0, 0, 0, 0, 0, 0, 0, 0, 0, 0];
    let mut buf = Cursor::new(value);
    let type_code = buf.read_u8().unwrap();
    let result = deserialize(type_code, &mut buf);
    assert!(result.is_ok(), "Unimplemented!");
    let value = result.unwrap();
    match value {
        Value::Array(v) => {
            assert_eq!(v[0], Value::String("test1".to_owned()));
            assert_eq!(v[1], Value::String("test2".to_owned()));
        }
        Value::StringArray(v) => assert_eq!(vec!["test1".to_owned(), "test2".to_owned()], v),
        _ => panic!("not an array"),
    }
}

#[test]
fn lib_test_deserialize_byte() {
    let value: Vec<u8> = vec![98, 6];
    let mut buf = Cursor::new(value);
    let type_code = buf.read_u8().unwrap();
    let result = deserialize(type_code, &mut buf);
    assert!(result.is_ok(), "Unimplemented!");
    let value = result.unwrap();
    match value {
        Value::Byte(v) => assert_eq!(v, 6),
        _ => panic!("not a byte"),
    }
}

#[test]
fn lib_deserialize_double() {
    let value: Vec<u8> = vec![100, 64, 147, 74, 51, 51, 51, 51, 51, 0, 0, 0, 0, 0, 0, 0];
    let mut buf = Cursor::new(value);
    let type_code = buf.read_u8().unwrap();
    let result = deserialize(type_code, &mut buf);
    assert!(result.is_ok(), "Unimplemented!");
    let value = result.unwrap();
    match value {
        Value::Double(v) => assert_eq!(f64::from_bits(v), 1234.55),
        _ => panic!("not a double"),
    }
}

#[test]
fn lib_deserialize_event_data() {
    let value: Vec<u8> = vec![101, 100, 0, 2, 0, 115, 0, 5, 116, 101, 115, 116, 49, 1, 115, 0, 5, 116, 101, 115, 116, 50, 0, 0, 0, 0, 0, 0, 0, 0, 0, 0];
    let mut buf = Cursor::new(value);
    let type_code = buf.read_u8().unwrap();
    let result = deserialize(type_code, &mut buf);
    assert!(result.is_ok(), "Unimplemented!");
    let value = result.unwrap();
    match value {
        Value::EventData(v) => {
            assert_eq!(v.code, 100);
            assert_eq!(
                v.parameters.get(0).unwrap(),
                &Value::String("test1".to_owned())
            );
        }
        _ => panic!("not event data"),
    }
}

#[test]
fn lib_deserialize_float() {
    let value: Vec<u8> = vec![102, 68, 154, 81, 154, 0, 0, 0];
    let mut buf = Cursor::new(value);
    let type_code = buf.read_u8().unwrap();
    let result = deserialize(type_code, &mut buf);
    assert!(result.is_ok(), "Unimplemented!");
    let value = result.unwrap();
    match value {
        Value::Float(v) => assert_eq!(f32::from_bits(v), 1234.55),
        _ => panic!("not a float"),
    }
}

#[test]
fn lib_deserialize_integer() {
    let value: Vec<u8> = vec![105, 0, 0, 4, 210, 0, 0, 0];
    let mut buf = Cursor::new(value);
    let type_code = buf.read_u8().unwrap();
    let result = deserialize(type_code, &mut buf);
    assert!(result.is_ok(), "Unimplemented!");
    let value = result.unwrap();
    match value {
        Value::Integer(v) => assert_eq!(v, 1234),
        _ => panic!("not an integer"),
    }
}

#[test]
fn lib_deserialize_short() {
    let value: Vec<u8> = vec![107, 4, 210, 0];
    let mut buf = Cursor::new(value);
    let type_code = buf.read_u8().unwrap();
    let result = deserialize(type_code, &mut buf);
    assert!(result.is_ok(), "Unimplemented!");
    let value = result.unwrap();
    match value {
        Value::Short(v) => assert_eq!(v, 1234),
        _ => panic!("not a short"),
    }
}

#[test]
fn lib_deserialize_long() {
    let value: Vec<u8> = vec![108, 0, 0, 0, 0, 0, 0, 4, 210, 0, 0, 0, 0, 0, 0, 0];
    let mut buf = Cursor::new(value);
    let type_code = buf.read_u8().unwrap();
    let result = deserialize(type_code, &mut buf);
    assert!(result.is_ok(), "Unimplemented!");
    let value = result.unwrap();
    match value {
        Value::Long(v) => assert_eq!(v, 1234),
        _ => panic!("not a long"),
    }
}

#[test]
fn lib_deserialize_integer_array() {
    let value: Vec<u8> = vec![121, 0, 2, 105, 0, 0, 0, 0, 0, 0, 0, 1, 0, 0, 0, 0];
    let mut buf = Cursor::new(value);
    let type_code = buf.read_u8().unwrap();
    let result = deserialize(type_code, &mut buf);
    assert!(result.is_ok(), "Unimplemented!");
    let value = result.unwrap();
    match value {
        Value::Array(v) => {
            assert_eq!(v[0], Value::Integer(0));
            assert_eq!(v[1], Value::Integer(1));
        }
        _ => panic!("not an array"),
    }
}

#[test]
fn lib_deserialize_boolean() {
    let value: Vec<u8> = vec![111, 1];
    let mut buf = Cursor::new(value);
    let type_code = buf.read_u8().unwrap();
    let result = deserialize(type_code, &mut buf);
    assert!(result.is_ok(), "Unimplemented!");
    let value = result.unwrap();
    match value {
        Value::Boolean(v) => assert_eq!(v, true),
        _ => panic!("not a boolean"),
    }
}

#[test]
fn lib_deserialize_operation_response() {
    let value: Vec<u8> = vec![112, 100, 0, 100, 42, 0, 2, 0, 115, 0, 5, 116, 101, 115, 116, 49, 1, 115, 0, 5, 116, 101, 115, 116, 50, 0, 0, 0, 0, 0, 0, 0];
    let mut buf = Cursor::new(value);
    let type_code = buf.read_u8().unwrap();
    let result = deserialize(type_code, &mut buf);
    assert!(result.is_ok(), "Unimplemented!");
    let value = result.unwrap();
    match value {
        Value::OperationResponse(v) => {
            assert_eq!(v.code, 100);
            assert_eq!(v.return_code, 100);
            assert_eq!(
                v.parameters.get(1).unwrap(),
                &Value::String("test2".to_owned())
            );
        }
        _ => panic!("not a response"),
    }
}

#[test]
fn lib_deserialize_operation_request() {
    let value: Vec<u8> = vec![113, 100, 0, 2, 0, 115, 0, 5, 116, 101, 115, 116, 49, 1, 115, 0, 5, 116, 101, 115, 116, 50, 0, 0, 0, 0, 0, 0, 0, 0, 0, 0];
    let mut buf = Cursor::new(value);
    let type_code = buf.read_u8().unwrap();
    let result = deserialize(type_code, &mut buf);
    assert!(result.is_ok(), "Unimplemented!");
    let value = result.unwrap();
    match value {
        Value::OperationRequest(v) => {
            assert_eq!(v.code, 100);
            assert_eq!(
                v.parameters.get(1).unwrap(),
                &Value::String("test2".to_owned())
            );
        }
        _ => panic!("not a request"),
    }
}

#[test]
fn lib_deserialize_string() {
    let value: Vec<u8> = vec![115, 0, 12, 116, 101, 115, 116, 95, 109, 101, 115, 115, 97, 103, 101, 0];
    let mut buf = Cursor::new(value);
    let type_code = buf.read_u8().unwrap();
    let result = deserialize(type_code, &mut buf);
    assert!(result.is_ok(), "Unimplemented!");
    let value = result.unwrap();
    match value {
        Value::String(v) => assert_eq!(&v, "test_message"),
        _ => panic!("not a string"),
    }
}

#[test]
fn lib_deserialize_byte_array() {
    let value: Vec<u8> = vec![120, 0, 0, 0, 2, 6, 7, 0];
    let mut buf = Cursor::new(value);
    let type_code = buf.read_u8().unwrap();
    let result = deserialize(type_code, &mut buf);
    assert!(result.is_ok(), "Unimplemented!");
    let value = result.unwrap();
    match value {
        Value::ByteArray(v) => {
            assert_eq!(&v[0], &6);
            assert_eq!(&v[1], &7);
        }
        _ => panic!("not a byte array"),
    }
}

#[test]
fn lib_deserialize_array_dictionary() {
    let value: Vec<u8> = vec![121, 0, 1, 68, 105, 115, 0, 1, 0, 0, 0, 0, 0, 5, 116, 101, 115, 116, 49, 0, 0, 0, 0, 0, 0, 0, 0, 0, 0, 0, 0, 0];
    let mut buf = Cursor::new(value);
    let type_code = buf.read_u8().unwrap();
    let result = deserialize(type_code, &mut buf);
    assert!(result.is_ok(), "Unimplemented!");
    let value = result.unwrap();
    match value {
        Value::Array(v) => match &v[0] {
            Value::Dictionary(d) => assert_eq!(
                dictionary_get(d, &Value::Integer(0)).unwrap(),
                &Value::String("test1".to_owned())
            ),
            _ => panic!("not a dictionary"),
        },
        _ => panic!("not an array"),
    }
}

#[test]
fn lib_deserialize_array_byte_array() {
    let value: Vec<u8> = vec![121, 0, 1, 120, 0, 0, 0, 4, 0, 2, 4, 8, 0, 0, 0, 0];
    let mut buf = Cursor::new(value);
    let type_code = buf.read_u8().unwrap();
    let result = deserialize(type_code, &mut buf);
    assert!(result.is_ok(), "Unimplemented!");
    let value = result.unwrap();
    match value {
        Value::Array(v) => match &v[0] {
            Value::ByteArray(val) => {
                assert_eq!(val[0], 0);
                assert_eq!(val[1], 2);
                assert_eq!(val[2], 4);
                assert_eq!(val[3], 8);
            }
            _ => panic!("not a byte array"),
        },
        _ => panic!("not an array"),
    }
}

#[test]
fn lib_deserialize_array_array() {
    let value: Vec<u8> = vec![121, 0, 1, 121, 0, 3, 105, 0, 0, 0, 1, 0, 0, 0, 2, 0, 0, 0, 3, 0, 0, 0, 0, 0, 0, 0, 0, 0, 0, 0, 0, 0];
    let mut buf = Cursor::new(value);
    let type_code = buf.read_u8().unwrap();
    let result = deserialize(type_code, &mut buf);
    assert!(result.is_ok(), "Unimplemented!");
    let value = result.unwrap();
    match value {
        Value::Array(v) => match &v[0] {
            Value::Array(inner) => {
                assert_eq!(inner[0], Value::Integer(1));
                assert_eq!(inner[1], Value::Integer(2));
                assert_eq!(inner[2], Value::Integer(3));
            }
            _ => panic!("not an inner array"),
        },
        _ => panic!("not an array"),
    }
}

#[test]
fn lib_deserialize_object_array() {
    let value: Vec<u8> = vec![122, 0, 2, 115, 0, 5, 116, 101, 115, 116, 49, 115, 0, 5, 116, 101, 115, 116, 50, 0, 0, 0, 0, 0, 0, 0, 0, 0, 0, 0, 0, 0];
    let mut buf = Cursor::new(value);
    let type_code = buf.read_u8().unwrap();
    let result = deserialize(type_code, &mut buf);
    assert!(result.is_ok(), "Unimplemented!");
    let value = result.unwrap();
    match value {
        Value::ObjectArray(v) => {
            assert_eq!(v[0], Value::String("test1".to_owned()));
            assert_eq!(v[1], Value::String("test2".to_owned()));
        }
        _ => panic!("not an object array"),
    }
}
