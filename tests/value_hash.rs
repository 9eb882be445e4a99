use drift_rust_core::hash::{hash_json_value_deterministic, sort_keys_recursively};
use drift_rust_core::{CoreError, JsonValue};

fn n(t: &str) -> JsonValue {
    JsonValue::Number(t.to_string())
}

fn obj(members: Vec<(&str, JsonValue)>) -> JsonValue {
    JsonValue::Object(members.into_iter().map(|(k, v)| (k.to_string(), v)).collect())
}

#[test]
fn value_hash_ignores_member_order_at_any_depth() {
    let a = obj(vec![("z", n("1")), ("a", obj(vec![("m", n("2")), ("b", JsonValue::Array(vec![n("3"), n("4")]))]))]);
    let b = obj(vec![("a", obj(vec![("b", JsonValue::Array(vec![n("3"), n("4")])), ("m", n("2"))])), ("z", n("1"))]);
    assert_eq!(
        hash_json_value_deterministic(&a).expect("a"),
        hash_json_value_deterministic(&b).expect("b")
    );
}

#[test]
fn sort_keys_orders_members_and_keeps_the_last_duplicate() {
    let v = obj(vec![("b", n("1")), ("a", n("2")), ("b", n("3")), ("\u{e9}", n("4")), ("B", n("5"))]);
    let sorted = sort_keys_recursively(&v);
    assert_eq!(sorted, obj(vec![("B", n("5")), ("a", n("2")), ("b", n("3")), ("\u{e9}", n("4"))]));
}

#[test]
fn value_hash_rejects_invalid_number_text() {
    let err = hash_json_value_deterministic(&obj(vec![("x", n("1.2.3"))])).expect_err("should fail");
    assert!(matches!(err, CoreError::SerializationError(_)));
}
