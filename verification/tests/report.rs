use c2pa_validate::base64::base64_encode;
use c2pa_validate::json::Json;
use c2pa_validate::report::{cbor_to_json, key_to_string};
use c2pa_validate::value::Value;

#[test]
fn base64_matches_known_vectors() {
    assert_eq!(base64_encode(b""), "");
    assert_eq!(base64_encode(b"f"), "Zg==");
    assert_eq!(base64_encode(b"fo"), "Zm8=");
    assert_eq!(base64_encode(b"foo"), "Zm9v");
    assert_eq!(base64_encode(b"foob"), "Zm9vYg==");
    assert_eq!(base64_encode(b"foobar"), "Zm9vYmFy");
}

#[test]
fn bytes_become_base64_in_json() {
    let v = Value::Dict(vec![(Value::Text("h".to_string()), Value::Bytes(vec![0xDE, 0xAD]))]);
    let json = cbor_to_json(&v);
    assert!(matches!(json.get("h"), Some(Json::Text(t)) if t == "3q0="));
}

#[test]
fn every_kind_of_value_has_a_rendering() {
    assert!(matches!(cbor_to_json(&Value::Null), Json::Null));
    assert!(matches!(cbor_to_json(&Value::Bool(true)), Json::Bool(true)));
    assert!(matches!(cbor_to_json(&Value::Integer(-7)), Json::Integer(-7)));
    let tagged = cbor_to_json(&Value::Tag(0, Box::new(Value::Text("t".to_string()))));
    assert!(matches!(tagged, Json::Text(t) if t == "t"));
    let array = cbor_to_json(&Value::Array(vec![Value::Integer(1), Value::Integer(2)]));
    assert!(matches!(array, Json::Array(items) if items.len() == 2));
}

#[test]
fn map_keys_become_text() {
    assert_eq!(key_to_string(&Value::Text("k".to_string())), "k");
    assert_eq!(key_to_string(&Value::Integer(33)), "33");
    assert_eq!(key_to_string(&Value::Integer(-1)), "-1");
}
