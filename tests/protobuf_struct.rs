use drift_rust_core::protobuf_struct::{
    object_to_protobuf_struct, object_to_protobuf_struct_bytes,
    object_to_protobuf_struct_field_count,
};
use prost_types::value::Kind;

#[test]
fn object_to_protobuf_struct_preserves_top_level_fields() {
    let payload = r#"{"n":1,"s":"x","b":true,"arr":[1,2],"obj":{"k":"v"},"nullv":null}"#;
    let s = object_to_protobuf_struct(payload).expect("conversion should succeed");

    assert_eq!(s.fields.len(), 6);
    assert!(matches!(
        s.fields.get("nullv").and_then(|v| v.kind.as_ref()),
        Some(Kind::NullValue(_))
    ));
}

#[test]
fn non_object_json_yields_empty_struct() {
    let s = object_to_protobuf_struct("[1,2,3]").expect("conversion should succeed");
    assert!(s.fields.is_empty());
}

#[test]
fn object_to_protobuf_struct_field_count_matches_field_total() {
    let payload = r#"{"a":1,"b":2,"c":{"nested":3}}"#;
    let count =
        object_to_protobuf_struct_field_count(payload).expect("field count should succeed");
    assert_eq!(count, 3);
}

#[test]
fn struct_bytes_are_not_empty_for_an_object() {
    let bytes = object_to_protobuf_struct_bytes(r#"{"a":1}"#).expect("bytes should build");
    assert!(!bytes.is_empty());
}

#[test]
fn non_object_field_count_is_zero() {
    for text in ["[1,2,3]", "null", "\"s\"", "7"] {
        assert_eq!(object_to_protobuf_struct_field_count(text).expect("count"), 0);
    }
}

#[test]
fn numbers_become_doubles_and_duplicates_collapse() {
    let s = object_to_protobuf_struct(r#"{"n":1.5,"i":-2,"d":1,"d":2,"l":[true,"x"]}"#)
        .expect("conversion should succeed");
    assert_eq!(s.fields.len(), 4);
    assert!(matches!(s.fields.get("n").and_then(|v| v.kind.as_ref()), Some(Kind::NumberValue(x)) if *x == 1.5));
    assert!(matches!(s.fields.get("i").and_then(|v| v.kind.as_ref()), Some(Kind::NumberValue(x)) if *x == -2.0));
    assert!(matches!(s.fields.get("d").and_then(|v| v.kind.as_ref()), Some(Kind::NumberValue(x)) if *x == 2.0));
    match s.fields.get("l").and_then(|v| v.kind.as_ref()) {
        Some(Kind::ListValue(l)) => {
            assert!(matches!(l.values[0].kind, Some(Kind::BoolValue(true))));
            assert!(matches!(&l.values[1].kind, Some(Kind::StringValue(x)) if x == "x"));
        }
        _ => panic!("expected a list"),
    }
}

#[test]
fn struct_conversion_rejects_invalid_json() {
    assert!(matches!(
        object_to_protobuf_struct_bytes("{"),
        Err(drift_rust_core::CoreError::InvalidJson(_))
    ));
}
