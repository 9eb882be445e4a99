use drift_rust_core::{
    build_export_spans_request_bytes, build_span_proto_bytes, BuildSpanProtoInput, CoreError,
    JsonValue,
};
use prost::Message;
use tusk_drift_schemas::tusk::drift::backend::v1::ExportSpansRequest;

fn obj(members: Vec<(&str, JsonValue)>) -> JsonValue {
    JsonValue::Object(members.into_iter().map(|(k, v)| (k.to_string(), v)).collect())
}

fn schema6() -> JsonValue {
    obj(vec![
        ("type", JsonValue::Number("6".to_string())),
        ("properties", JsonValue::Object(Vec::new())),
    ])
}

fn input<'a>(
    trace_id: &'a str,
    span_id: &'a str,
    input_schema: &'a JsonValue,
    output_schema: &'a JsonValue,
) -> BuildSpanProtoInput<'a> {
    BuildSpanProtoInput {
        trace_id,
        span_id,
        parent_span_id: "",
        name: "test-span",
        package_name: "http",
        instrumentation_name: "instr",
        submodule_name: "GET",
        package_type: 1,
        environment: Some("test"),
        kind: 2,
        input_schema,
        output_schema,
        input_schema_hash: "ih",
        output_schema_hash: "oh",
        input_value_hash: "ivh",
        output_value_hash: "ovh",
        status_code: 1,
        status_message: "ok",
        is_pre_app_start: false,
        is_root_span: true,
        timestamp_seconds: 1,
        timestamp_nanos: 2,
        duration_seconds: 3,
        duration_nanos: 4,
        metadata: None,
        input_value: None,
        output_value: None,
        input_value_proto_struct_bytes: None,
        output_value_proto_struct_bytes: None,
    }
}

/// The schema's type code, read from field 1 of its encoding (absent when 0).
fn type_field(schema: &tusk_drift_schemas::tusk::drift::core::v1::JsonSchema) -> u8 {
    let bytes = schema.encode_to_vec();
    if bytes.len() >= 2 && bytes[0] == 0x08 {
        bytes[1]
    } else {
        0
    }
}

#[test]
fn build_span_proto_bytes_decodes_as_generated_span() {
    let input_schema = schema6();
    let output_schema = schema6();
    let input_value = obj(vec![("hello", JsonValue::String("world".to_string()))]);
    let output_value = obj(vec![("ok", JsonValue::Bool(true))]);
    let metadata = obj(vec![("source", JsonValue::String("test".to_string()))]);

    let mut fields = input("trace-1", "span-1", &input_schema, &output_schema);
    fields.metadata = Some(&metadata);
    fields.input_value = Some(&input_value);
    fields.output_value = Some(&output_value);
    let bytes = build_span_proto_bytes(fields).expect("span bytes should build");

    let decoded = tusk_drift_schemas::tusk::drift::core::v1::Span::decode(bytes.as_slice()).expect("span bytes should decode");
    assert_eq!(decoded.trace_id, "trace-1");
    assert_eq!(decoded.package_type, 1);
    assert_eq!(decoded.kind, 2);
    assert_eq!(decoded.environment.as_deref(), Some("test"));
}

#[test]
fn span_copies_schema_and_values() {
    let input_schema = obj(vec![
        ("type", JsonValue::Number("6".to_string())),
        ("properties", obj(vec![("a", obj(vec![
            ("type", JsonValue::Number("2".to_string())),
            ("encoding", JsonValue::Number("1".to_string())),
            ("match_importance", JsonValue::Number("0.5".to_string())),
        ]))])),
        ("items", obj(vec![("type", JsonValue::Number("1".to_string()))])),
    ]);
    let output_schema = JsonValue::Null;
    let value = obj(vec![("hello", JsonValue::String("world".to_string()))]);
    let mut fields = input("t", "s", &input_schema, &output_schema);
    fields.input_value = Some(&value);
    let bytes = build_span_proto_bytes(fields).expect("span bytes should build");
    let decoded = tusk_drift_schemas::tusk::drift::core::v1::Span::decode(bytes.as_slice()).expect("span bytes should decode");

    let schema = decoded.input_schema.expect("input schema");
    assert_eq!(type_field(&schema), 6);
    let a = schema.properties.get("a").expect("property a");
    assert_eq!(type_field(a), 2);
    assert_eq!(a.encoding, Some(1));
    assert_eq!(a.match_importance, Some(0.5));
    assert_eq!(type_field(&schema.items.clone().expect("items")), 1);
    assert_eq!(type_field(&decoded.output_schema.expect("output schema")), 0);
    let iv = decoded.input_value.expect("input value");
    assert_eq!(iv.fields.len(), 1);
    assert!(decoded.output_value.expect("output value").fields.is_empty());
    assert!(decoded.metadata.expect("metadata").fields.is_empty());
    let ts = decoded.timestamp.expect("timestamp");
    assert_eq!((ts.seconds, ts.nanos), (1, 2));
    let status = decoded.status.expect("status");
    assert_eq!((status.code, status.message.as_str()), (1, "ok"));
}

#[test]
fn span_takes_supplied_struct_bytes() {
    let schema = schema6();
    let struct_bytes = drift_rust_core::object_to_protobuf_struct_bytes(r#"{"x":1,"y":2}"#)
        .expect("struct bytes");
    let mut fields = input("t", "s", &schema, &schema);
    fields.input_value_proto_struct_bytes = Some(struct_bytes.as_slice());
    let bytes = build_span_proto_bytes(fields).expect("span bytes should build");
    let decoded = tusk_drift_schemas::tusk::drift::core::v1::Span::decode(bytes.as_slice()).expect("span bytes should decode");
    assert_eq!(decoded.input_value.expect("input value").fields.len(), 2);
}

#[test]
fn span_rejects_bad_struct_bytes() {
    let schema = schema6();
    let bad = vec![0xffu8, 0x00, 0xab];
    let mut fields = input("t", "s", &schema, &schema);
    fields.output_value_proto_struct_bytes = Some(bad.as_slice());
    let err = build_span_proto_bytes(fields).expect_err("bad bytes should fail");
    assert!(matches!(err, CoreError::SerializationError(_)));
}

#[test]
fn builds_generated_export_spans_request_bytes() {
    let span = tusk_drift_schemas::tusk::drift::core::v1::Span {
        trace_id: "trace-1".to_string(),
        span_id: "span-1".to_string(),
        ..Default::default()
    };
    let span_bytes = span.encode_to_vec();

    let request_bytes = build_export_spans_request_bytes(
        "svc-1",
        "test",
        "0.1.0",
        "sdk-instance-1",
        &[span_bytes],
    )
    .expect("request bytes should build");

    let decoded = ExportSpansRequest::decode(request_bytes.as_slice())
        .expect("request bytes should decode");
    assert_eq!(decoded.observable_service_id, "svc-1");
    assert_eq!(decoded.environment, "test");
    assert_eq!(decoded.spans.len(), 1);
    assert_eq!(decoded.spans[0].trace_id, "trace-1");
}

#[test]
fn returns_error_when_span_bytes_are_invalid() {
    let err = build_export_spans_request_bytes(
        "svc-1",
        "test",
        "0.1.0",
        "sdk-instance-1",
        &[vec![0xff, 0x00, 0xab]],
    )
    .expect_err("invalid span bytes should fail");

    assert!(matches!(err, CoreError::SerializationError(_)));
}

#[test]
fn batch_of_built_spans_keeps_their_identifiers() {
    let schema = schema6();
    let a = build_span_proto_bytes(input("trace-a", "span-a", &schema, &schema)).expect("span a");
    let b = build_span_proto_bytes(input("trace-b", "span-b", &schema, &schema)).expect("span b");
    let request_bytes =
        build_export_spans_request_bytes("svc", "prod", "1.2.3", "inst", &[a, b]).expect("batch");
    let decoded = ExportSpansRequest::decode(request_bytes.as_slice()).expect("decode");
    assert_eq!(decoded.sdk_version, "1.2.3");
    assert_eq!(decoded.sdk_instance_id, "inst");
    let ids: Vec<(&str, &str)> =
        decoded.spans.iter().map(|s| (s.trace_id.as_str(), s.span_id.as_str())).collect();
    assert_eq!(ids, vec![("trace-a", "span-a"), ("trace-b", "span-b")]);
}

#[test]
fn schema_type_code_is_copied_as_it_is() {
    let schema = obj(vec![
        ("type", JsonValue::Number("12".to_string())),
        ("properties", obj(vec![("n", obj(vec![("type", JsonValue::Number("-3".to_string()))]))])),
    ]);
    let other = schema6();
    let bytes = build_span_proto_bytes(input("t", "s", &schema, &other)).expect("span bytes");
    let decoded = tusk_drift_schemas::tusk::drift::core::v1::Span::decode(bytes.as_slice()).expect("decode");
    let s = decoded.input_schema.expect("input schema");
    assert_eq!(type_field(&s), 12);
    let n = s.properties.get("n").expect("property n");
    let enc = n.encode_to_vec();
    assert_eq!(&enc[..11], &[0x08, 0xfd, 0xff, 0xff, 0xff, 0xff, 0xff, 0xff, 0xff, 0xff, 0x01]);
}

#[test]
fn schema_duplicate_keys_keep_the_last() {
    let schema = obj(vec![
        ("type", JsonValue::Number("2".to_string())),
        ("type", JsonValue::Number("6".to_string())),
    ]);
    let other = schema6();
    let bytes = build_span_proto_bytes(input("t", "s", &schema, &other)).expect("span bytes");
    let decoded = tusk_drift_schemas::tusk::drift::core::v1::Span::decode(bytes.as_slice()).expect("decode");
    assert_eq!(type_field(&decoded.input_schema.expect("input schema")), 6);
}

#[test]
fn batch_error_names_the_failing_buffer() {
    let good = tusk_drift_schemas::tusk::drift::core::v1::Span::default().encode_to_vec();
    let err = build_export_spans_request_bytes("svc", "env", "1", "i", &[good, vec![0xff, 0x00, 0xab]])
        .expect_err("second buffer should fail");
    match err {
        CoreError::SerializationError(m) => {
            assert!(m.starts_with("failed to decode span proto bytes at index 1"), "{m}")
        }
        _ => panic!("expected a serialization error"),
    }
}
