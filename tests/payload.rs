use drift_rust_core::{
    process_export_payload, process_export_payload_value, CoreError, JsonValue,
};

fn s(t: &str) -> JsonValue {
    JsonValue::String(t.to_string())
}

fn n(t: &str) -> JsonValue {
    JsonValue::Number(t.to_string())
}

fn obj(members: Vec<(&str, JsonValue)>) -> JsonValue {
    JsonValue::Object(members.into_iter().map(|(k, v)| (k.to_string(), v)).collect())
}

fn get<'a>(v: &'a JsonValue, key: &str) -> &'a JsonValue {
    match v {
        JsonValue::Object(es) => {
            &es.iter().rev().find(|(k, _)| k == key).expect("member should exist").1
        }
        _ => panic!("not an object"),
    }
}

#[test]
fn process_export_payload_value_without_merges_keeps_decoded_equal_normalized() {
    let payload = obj(vec![("k", s("v")), ("n", n("1"))]);
    let result = process_export_payload_value(&payload, None).expect("processing should work");

    assert_eq!(result.decoded_value, result.normalized_value);
    assert_eq!(get(&result.decoded_schema_value, "type"), &n("6"));
    assert!(!result.protobuf_struct_bytes.is_empty());
}

#[test]
fn process_export_payload_value_applies_base64_and_json_decoding_merges() {
    let payload = obj(vec![("decoded_blob", s("eyJrIjoidiJ9"))]);
    let merges = r#"{"decoded_blob":{"encoding":1,"decoded_type":1,"match_importance":0.75}}"#;

    let result = process_export_payload_value(&payload, Some(merges))
        .expect("processing with merges should work");

    assert_eq!(get(get(&result.decoded_value, "decoded_blob"), "k"), &s("v"));
    let props = get(&result.decoded_schema_value, "properties");
    assert_eq!(get(get(props, "decoded_blob"), "encoding"), &n("1"));
    assert_eq!(get(get(props, "decoded_blob"), "decoded_type"), &n("1"));
}

#[test]
fn process_export_payload_returns_error_for_invalid_merges_json() {
    let payload = r#"{"k":"v"}"#;
    let err = process_export_payload(payload, Some("{not-json"))
        .expect_err("invalid merges json should fail");
    assert!(matches!(err, CoreError::InvalidJson(_)));
}

#[test]
fn invalid_merges_fail_whatever_the_payload() {
    let err = process_export_payload("not json either", Some("{not-json"))
        .expect_err("invalid merges json should fail");
    assert!(matches!(err, CoreError::InvalidJson(_)));
}

#[test]
fn merge_rule_of_wrong_shape_is_invalid_json() {
    let err = process_export_payload(r#"{"a":1}"#, Some(r#"{"a":{"encoding":"one"}}"#))
        .expect_err("a string encoding should fail");
    assert!(matches!(err, CoreError::InvalidJson(_)));
    let err = process_export_payload(r#"{"a":1}"#, Some("[1]")).expect_err("an array should fail");
    assert!(matches!(err, CoreError::InvalidJson(_)));
}

#[test]
fn base64_and_json_merge_give_decoded_text_and_schema() {
    let result = process_export_payload(
        r#"{"decoded_blob":"eyJrIjoidiJ9"}"#,
        Some(r#"{"decoded_blob":{"encoding":1,"decoded_type":1}}"#),
    )
    .expect("processing should work");
    assert_eq!(result.normalized_json, r#"{"decoded_blob":"eyJrIjoidiJ9"}"#);
    assert_eq!(result.decoded_json, r#"{"decoded_blob":{"k":"v"}}"#);
    assert_eq!(
        result.decoded_schema_json,
        r#"{"properties":{"decoded_blob":{"decoded_type":1,"encoding":1,"properties":{"k":{"properties":{},"type":2}},"type":6}},"type":6}"#
    );
    assert_eq!(result.decoded_value_hash.len(), 64);
    assert_eq!(result.decoded_schema_hash.len(), 64);
}

#[test]
fn weight_is_written_as_a_double() {
    let result = process_export_payload(r#"{"x":2}"#, Some(r#"{"x":{"match_importance":1}}"#))
        .expect("processing should work");
    assert_eq!(
        result.decoded_schema_json,
        r#"{"properties":{"x":{"match_importance":1.0,"properties":{},"type":1}},"type":6}"#
    );
}

#[test]
fn invalid_utf8_after_base64_is_replaced() {
    let result = process_export_payload(r#"{"b":"/w=="}"#, Some(r#"{"b":{"encoding":1}}"#))
        .expect("processing should work");
    assert_eq!(result.decoded_json, "{\"b\":\"\u{FFFD}\"}");
}

#[test]
fn failed_decodes_leave_the_value() {
    let result = process_export_payload(
        r#"{"b":"not base64!","c":"{bad","d":3}"#,
        Some(r#"{"b":{"encoding":1},"c":{"decoded_type":1},"d":{"encoding":1,"decoded_type":1},"absent":{"encoding":1}}"#),
    )
    .expect("processing should work");
    assert_eq!(result.decoded_json, r#"{"b":"not base64!","c":"{bad","d":3}"#);
}

#[test]
fn nested_fields_are_not_decoded() {
    let result = process_export_payload(
        r#"{"outer":{"blob":"eyJrIjoidiJ9"}}"#,
        Some(r#"{"blob":{"encoding":1,"decoded_type":1}}"#),
    )
    .expect("processing should work");
    assert_eq!(result.decoded_json, r#"{"outer":{"blob":"eyJrIjoidiJ9"}}"#);
}

#[test]
fn struct_bytes_follow_the_normalized_value() {
    let with = process_export_payload(
        r#"{"decoded_blob":"eyJrIjoidiJ9"}"#,
        Some(r#"{"decoded_blob":{"encoding":1,"decoded_type":1}}"#),
    )
    .expect("processing should work");
    let without = process_export_payload(r#"{"decoded_blob":"eyJrIjoidiJ9"}"#, None)
        .expect("processing should work");
    assert_eq!(with.protobuf_struct_bytes, without.protobuf_struct_bytes);
    assert_ne!(with.decoded_value_hash, without.decoded_value_hash);
}

#[test]
fn array_schema_describes_first_element_only() {
    let result = process_export_payload(r#"[{"a":1},"x"]"#, None).expect("processing should work");
    assert_eq!(
        result.decoded_schema_json,
        r#"{"items":{"properties":{"a":{"properties":{},"type":1}},"type":6},"properties":{},"type":7}"#
    );
    let empty = process_export_payload("[]", None).expect("processing should work");
    assert_eq!(empty.decoded_schema_json, r#"{"properties":{},"type":7}"#);
}

#[test]
fn scalar_schemas_carry_their_type_codes() {
    for (text, code) in [("null", 4), ("true", 3), ("1.5", 1), ("\"s\"", 2)] {
        let result = process_export_payload(text, None).expect("processing should work");
        assert_eq!(result.decoded_schema_json, format!(r#"{{"properties":{{}},"type":{}}}"#, code));
    }
}

#[test]
fn invalid_number_text_is_a_serialization_error() {
    let payload = obj(vec![("n", n("not a number"))]);
    let err = process_export_payload_value(&payload, None).expect_err("should fail");
    assert!(matches!(err, CoreError::SerializationError(_)));
}

#[test]
fn invalid_merges_take_precedence_over_an_unnormalizable_value() {
    let payload = obj(vec![("n", n("not a number"))]);
    let err = process_export_payload_value(&payload, Some("{not-json")).expect_err("should fail");
    assert!(matches!(err, CoreError::InvalidJson(_)));
}
