use kv::codec::{decode_value, encode_value};
use kv::error::KvError;
use kv::pb::Value;

#[test]
fn values_round_trip_through_stored_form() {
    let values = vec![
        Value::default(),
        Value::from("héllo"),
        Value::from(i64::MIN),
        Value::Float((-2.25f64).to_bits()),
        Value::from(false),
        Value::from(vec![1u8, 2, 3]),
    ];
    for v in values {
        assert_eq!(decode_value(&encode_value(&v)).unwrap(), v);
    }
}

#[test]
fn stored_form_of_integer_is_tag_and_big_endian() {
    assert_eq!(encode_value(&Value::from(258i64)), vec![2, 0, 0, 0, 0, 0, 0, 1, 2]);
    assert_eq!(encode_value(&Value::from("ab")), vec![1, b'a', b'b']);
}

#[test]
fn unknown_stored_form_is_convert_error() {
    assert!(matches!(decode_value(&vec![9, 1]), Err(KvError::ConvertError(_, _))));
    assert!(matches!(decode_value(&vec![]), Err(KvError::ConvertError(_, _))));
    assert!(matches!(decode_value(&vec![1, 0xff]), Err(KvError::ConvertError(_, _))));
}

#[test]
fn error_messages_name_their_inputs() {
    let e = KvError::NotFound("t1".to_string(), "k1".to_string());
    assert_eq!(e.message(), "Not found for table: t1, key: k1");
    let e = KvError::StorageError("get".into(), "t".into(), "k".into(), "disk".into());
    assert_eq!(e.message(), "Cannot process command get with table: t, key: k. Error: disk");
    let r = kv::pb::CommandResponse::from_error(KvError::InvalidCommand("x".into()));
    assert_eq!(r.status, 400);
    let r = kv::pb::CommandResponse::from_error(KvError::FrameError);
    assert_eq!(r.status, 500);
}
