use drift_rust_core::CoreError;
use drift_rust_core::hash::{deterministic_hash, normalize_and_hash};
use drift_rust_core::normalize::normalize_json;

#[test]
fn deterministic_hash_is_stable_across_object_key_order() {
    let a = r#"{"z":1,"a":{"m":2,"b":[3,4]}}"#;
    let b = r#"{"a":{"b":[3,4],"m":2},"z":1}"#;

    let hash_a = deterministic_hash(a).expect("hash should succeed");
    let hash_b = deterministic_hash(b).expect("hash should succeed");

    assert_eq!(hash_a, hash_b);
}

#[test]
fn normalize_and_hash_returns_compact_json_and_sha256_hex() {
    let input = "{ \"k\": \"v\", \"n\": 3 }";
    let (normalized, hash) = normalize_and_hash(input).expect("operation should succeed");

    assert_eq!(normalized, r#"{"k":"v","n":3}"#);
    assert_eq!(hash.len(), 64);
}

#[test]
fn deterministic_hash_returns_invalid_json_error() {
    let err = deterministic_hash("nope").expect_err("invalid json should fail");
    assert!(matches!(err, CoreError::InvalidJson(_)));
}

#[test]
fn normalize_json_compacts_valid_json() {
    let input = "{\n  \"b\": 2,\n  \"a\": { \"x\": true }\n}";
    let normalized = normalize_json(input).expect("normalization should succeed");

    assert_eq!(normalized, r#"{"a":{"x":true},"b":2}"#);
}

#[test]
fn normalize_json_returns_invalid_json_error() {
    let err = normalize_json("{not-valid-json").expect_err("invalid json should fail");
    assert!(matches!(err, CoreError::InvalidJson(_)));
}

#[test]
fn normalize_sorts_keys_compactly() {
    let normalized = normalize_json(r#"{"b":2,"a":{"x":true}}"#).expect("normalization should succeed");
    assert_eq!(normalized, r#"{"a":{"x":true},"b":2}"#);
}

#[test]
fn normalizing_twice_changes_nothing() {
    let once = normalize_json("{ \"z\": [3, 1, {\"q\": null}], \"a\": \"\\u0041\" }").expect("once");
    let twice = normalize_json(&once).expect("twice");
    assert_eq!(once, twice);
    assert_eq!(once, r#"{"a":"A","z":[3,1,{"q":null}]}"#);
}

#[test]
fn hash_is_sha256_of_the_sorted_compact_text() {
    let h = deterministic_hash("{ }").expect("hash should succeed");
    assert_eq!(h, "44136fa355b3678a1146ad16f7e8649e94fb4fc21fe77e8310c060f61caaff8a");
}

#[test]
fn hash_is_lowercase_hex_of_length_64() {
    for text in ["null", "[1,2,3]", r#"{"k":"v"}"#, "\"\u{e9}\""] {
        let h = deterministic_hash(text).expect("hash should succeed");
        assert_eq!(h.len(), 64);
        assert!(h.chars().all(|c| c.is_ascii_digit() || ('a'..='f').contains(&c)));
    }
}

#[test]
fn hash_depends_on_array_order_and_values() {
    let a = deterministic_hash("[1,2]").expect("a");
    let b = deterministic_hash("[2,1]").expect("b");
    let c = deterministic_hash(r#"{"k":"v"}"#).expect("c");
    let d = deterministic_hash(r#"{"k":"w"}"#).expect("d");
    assert_ne!(a, b);
    assert_ne!(c, d);
}

#[test]
fn normalize_and_hash_agrees_with_the_separate_calls() {
    let text = r#"{"z":1,"a":{"m":2,"b":[3,4]}}"#;
    let (normalized, hash) = normalize_and_hash(text).expect("both");
    assert_eq!(normalized, normalize_json(text).expect("normalize"));
    assert_eq!(hash, deterministic_hash(text).expect("hash"));
}

#[test]
fn normalize_and_hash_rejects_invalid_json() {
    let err = normalize_and_hash("{").expect_err("should fail");
    assert!(matches!(err, CoreError::InvalidJson(_)));
}
