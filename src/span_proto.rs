//! The span builder: one telemetry span record, encoded as protobuf.
use vstd::prelude::*;
use crate::error::{CoreError, CoreResult};
use crate::json_text::{is_integer_text, number_canon};
use crate::merge_rule::{int_of_text, last_index, member_index};
use crate::hash::sort_keys_recursively;
use crate::json_text::{keys_sorted, lemma_keys_sorted_member, sorted_keys};
use crate::order::{entry_map, key_lt, keys_ascending};
use crate::protobuf_struct::{
    decode_error_message, decode_struct, double_bits, fields_within, json_object_to_struct, nesting_limit, struct_decoding,
    struct_model, struct_of, Dyn,
};
use crate::value::{entries_view, Json, JsonValue};


verus! {

#[verifier::external_type_specification]
#[verifier::external_body]
pub struct ExJsonSchema(tusk_drift_schemas::tusk::drift::core::v1::JsonSchema);

#[verifier::external_type_specification]
#[verifier::external_body]
pub struct ExSpan(tusk_drift_schemas::tusk::drift::core::v1::Span);

/// The model of a wire schema node. A weight is the bit pattern of its
/// double; `items` holds at most one node.
pub enum SchemaModel {
    Node {
        code: i32,
        properties: Map<Seq<char>, SchemaModel>,
        items: Seq<SchemaModel>,
        encoding: Option<i32>,
        decoded_type: Option<i32>,
        match_importance: Option<u64>,
    },
}

/// What a wire schema node holds.
pub uninterp spec fn schema_model(s: tusk_drift_schemas::tusk::drift::core::v1::JsonSchema) -> SchemaModel;

/// The model of a span record.
pub struct SpanModel {
    pub trace_id: Seq<char>,
    pub span_id: Seq<char>,
    pub parent_span_id: Seq<char>,
    pub name: Seq<char>,
    pub package_name: Seq<char>,
    pub instrumentation_name: Seq<char>,
    pub submodule_name: Seq<char>,
    pub package_type: i32,
    pub input_value: Seq<(Seq<char>, Dyn)>,
    pub output_value: Seq<(Seq<char>, Dyn)>,
    pub input_schema: SchemaModel,
    pub output_schema: SchemaModel,
    pub input_schema_hash: Seq<char>,
    pub output_schema_hash: Seq<char>,
    pub input_value_hash: Seq<char>,
    pub output_value_hash: Seq<char>,
    pub kind: i32,
    pub status_code: i32,
    pub status_message: Seq<char>,
    pub is_pre_app_start: bool,
    pub timestamp_seconds: i64,
    pub timestamp_nanos: i32,
    pub duration_seconds: i64,
    pub duration_nanos: i32,
    pub is_root_span: bool,
    pub metadata: Seq<(Seq<char>, Dyn)>,
    pub environment: Option<Seq<char>>,
}

/// Properties and items nest at most `n` deep in a wire schema node.
pub open spec fn schema_within(s: SchemaModel, n: nat) -> bool
    decreases s,
{
    match s {
        SchemaModel::Node { properties, items, .. } => n > 0 && (forall|k: Seq<char>|
            #[trigger] properties.dom().contains(k) ==> schema_within(properties[k], (n - 1) as nat))
            && forall|i: int| 0 <= i < items.len() ==> schema_within(#[trigger] items[i], (n - 1) as nat),
    }
}

/// The values, metadata and schemas of a span nest within prost's limit.
pub open spec fn span_within(m: SpanModel) -> bool {
    &&& fields_within(m.input_value, nesting_limit())
    &&& fields_within(m.output_value, nesting_limit())
    &&& fields_within(m.metadata, nesting_limit())
    &&& schema_within(m.input_schema, nesting_limit())
    &&& schema_within(m.output_schema, nesting_limit())
}

/// What a span record holds.
pub uninterp spec fn span_model(s: tusk_drift_schemas::tusk::drift::core::v1::Span) -> SpanModel;

/// The span that protobuf decodes from these bytes, or `None` where they
/// are not a span's encoding.
pub uninterp spec fn span_decoding(b: Seq<u8>) -> Option<SpanModel>;

/// The fields of a span, as the caller gives them.
pub struct BuildSpanProtoInput<'a> {
    pub trace_id: &'a str,
    pub span_id: &'a str,
    pub parent_span_id: &'a str,
    pub name: &'a str,
    pub package_name: &'a str,
    pub instrumentation_name: &'a str,
    pub submodule_name: &'a str,
    pub package_type: i32,
    pub environment: Option<&'a str>,
    pub kind: i32,
    pub input_schema: &'a JsonValue,
    pub output_schema: &'a JsonValue,
    pub input_schema_hash: &'a str,
    pub output_schema_hash: &'a str,
    pub input_value_hash: &'a str,
    pub output_value_hash: &'a str,
    pub status_code: i32,
    pub status_message: &'a str,
    pub is_pre_app_start: bool,
    pub is_root_span: bool,
    pub timestamp_seconds: i64,
    pub timestamp_nanos: i32,
    pub duration_seconds: i64,
    pub duration_nanos: i32,
    pub metadata: Option<&'a JsonValue>,
    pub input_value: Option<&'a JsonValue>,
    pub output_value: Option<&'a JsonValue>,
    pub input_value_proto_struct_bytes: Option<&'a [u8]>,
    pub output_value_proto_struct_bytes: Option<&'a [u8]>,
}

/// An optional integer member read as `as_i64` reads it, cut to `i32`.
pub open spec fn int_member(es: Seq<(Seq<char>, Json)>, k: Seq<char>) -> Option<i32> {
    let i = last_index(es, k);
    if 0 <= i < es.len() && es[i].1 is Number && is_integer_text(es[i].1->Number_0) && i64::MIN
        <= int_of_text(es[i].1->Number_0) <= i64::MAX {
        Some((int_of_text(es[i].1->Number_0) as i64) as i32)
    } else {
        None
    }
}

/// The wire schema node that a schema value gives: that of its key-sorted
/// form (a later member replacing an earlier one with the same key).
pub open spec fn schema_from_json(j: Json) -> SchemaModel {
    schema_plain(sorted_keys(j))
}

/// The wire schema node of a schema value, member by member: `type`,
/// `properties`, `items`, `encoding`, `decoded_type` and `match_importance`
/// are copied over, recursively through `properties` and `items`; a
/// missing or ill-typed member is left out (a missing type is 0).
pub open spec fn schema_plain(j: Json) -> SchemaModel
    decreases j,
{
    match j {
        Json::Object(es) => {
            let pi = last_index(es, "properties"@);
            let ii = last_index(es, "items"@);
            let mi = last_index(es, "match_importance"@);
            SchemaModel::Node {
                code: match int_member(es, "type"@) {
                    Some(c) => c,
                    None => 0,
                },
                properties: if 0 <= pi < es.len() && es[pi].1 is Object {
                    entry_map(schema_entries(es[pi].1->Object_0))
                } else {
                    Map::empty()
                },
                items: if 0 <= ii < es.len() {
                    seq![schema_plain(es[ii].1)]
                } else {
                    Seq::empty()
                },
                encoding: int_member(es, "encoding"@),
                decoded_type: int_member(es, "decoded_type"@),
                match_importance: if 0 <= mi < es.len() && es[mi].1 is Number && number_canon(
                    es[mi].1->Number_0,
                ) is Some {
                    Some(double_bits(es[mi].1->Number_0))
                } else {
                    None
                },
            }
        },
        _ => SchemaModel::Node {
            code: 0,
            properties: Map::empty(),
            items: Seq::empty(),
            encoding: None,
            decoded_type: None,
            match_importance: None,
        },
    }
}

pub open spec fn schema_entries(ps: Seq<(Seq<char>, Json)>) -> Seq<(Seq<char>, SchemaModel)>
    decreases ps,
{
    Seq::new(
        ps.len(),
        |i: int|
            if 0 <= i < ps.len() {
                (ps[i].0, schema_plain(ps[i].1))
            } else {
                (Seq::empty(), SchemaModel::Node {
                    code: 0,
                    properties: Map::empty(),
                    items: Seq::empty(),
                    encoding: None,
                    decoded_type: None,
                    match_importance: None,
                })
            },
    )
}

pub open spec fn schema_list_model(ps: Seq<(String, tusk_drift_schemas::tusk::drift::core::v1::JsonSchema)>) -> Seq<(Seq<char>, SchemaModel)> {
    Seq::new(ps.len(), |i: int| (ps[i].0@, schema_model(ps[i].1)))
}

/// The protobuf varint encoding of a natural number.
pub open spec fn varint(n: nat) -> Seq<u8>
    decreases n,
{
    if n < 128 {
        seq![n as u8]
    } else {
        seq![(n % 128 + 128) as u8] + varint(n / 128)
    }
}

/// The protobuf encoding of a JsonSchema's field 1 (`type`): its key, then
/// the code as a sign-extended 64-bit varint.
pub open spec fn type_field(code: i32) -> Seq<u8> {
    seq![8u8] + varint(
        if code >= 0 {
            code as nat
        } else {
            (code + 18446744073709551616) as nat
        },
    )
}

/// The encoding of the `type` field for a code.
pub fn type_field_bytes(code: i32) -> (r: Vec<u8>)
    ensures
        r@ == type_field(code),
{
    let mut n: u64 = if code >= 0 {
        code as u64
    } else {
        (code as i128 + 18446744073709551616i128) as u64
    };
    let mut out: Vec<u8> = Vec::new();
    out.push(8u8);
    proof {
        assert(out@ =~= seq![8u8]);
    }
    while n >= 128
        invariant
            out@ + varint(n as nat) == type_field(code),
        decreases n,
    {
        let b: u8 = (n % 128 + 128) as u8;
        proof {
            assert(varint(n as nat) == seq![b] + varint((n / 128) as nat));
            assert(out@.push(b) + varint((n / 128) as nat) =~= out@ + varint(n as nat));
        }
        out.push(b);
        n = n / 128;
    }
    proof {
        assert(varint(n as nat) == seq![n as u8]);
        assert(out@.push(n as u8) =~= out@ + varint(n as nat));
    }
    out.push(n as u8);
    out
}

/// Relies on JsonSchema's fields: properties (distinct keys, in ascending
/// order) collected into a HashMap, items boxed, the weight read by
/// serde_json::Number's FromStr and as_f64; and on prost::Message::merge,
/// which sets `type` from an encoded field 1 (an int32 read from the low 32
/// bits of the varint).
#[verifier::external_body]
fn make_json_schema(
    code: i32,
    type_bytes: &[u8],
    props: Vec<(String, tusk_drift_schemas::tusk::drift::core::v1::JsonSchema)>,
    items: Option<tusk_drift_schemas::tusk::drift::core::v1::JsonSchema>,
    encoding: Option<i32>,
    decoded_type: Option<i32>,
    match_importance: Option<String>,
) -> (r: tusk_drift_schemas::tusk::drift::core::v1::JsonSchema)
    requires
        type_bytes@ == type_field(code),
        keys_ascending(schema_list_model(props@)),
    ensures
        schema_model(r) == (SchemaModel::Node {
            code,
            properties: entry_map(schema_list_model(props@)),
            items: match items {
                Some(s) => seq![schema_model(s)],
                None => Seq::empty(),
            },
            encoding,
            decoded_type,
            match_importance: match match_importance {
                Some(t) => if number_canon(t@) is Some {
                    Some(double_bits(t@))
                } else {
                    None
                },
                None => None,
            },
        }),
{
    let mut s = tusk_drift_schemas::tusk::drift::core::v1::JsonSchema {
        properties: props.into_iter().collect(),
        items: items.map(Box::new),
        encoding,
        decoded_type,
        match_importance: match_importance.and_then(
            |t| <serde_json::Number as core::str::FromStr>::from_str(&t).ok(),
        ).and_then(|n| n.as_f64()),
        ..Default::default()
    };
    let _ = prost::Message::merge(&mut s, type_bytes);
    s
}

fn int_member_exec(es: &Vec<(String, JsonValue)>, k: &str) -> (r: Option<i32>)
    ensures
        r == int_member(entries_view(es@), k@),
{
    match member_index(es, k) {
        Some(i) => match &es[i].1 {
            JsonValue::Number(t) => match crate::merge_rule::parse_i64(t.as_str()) {
                Some(v) => Some(v as i32),
                None => None,
            },
            _ => None,
        },
        None => None,
    }
}

/// The wire schema node of a schema value.
pub fn json_schema_from_value(value: &JsonValue) -> (r: tusk_drift_schemas::tusk::drift::core::v1::JsonSchema)
    ensures
        schema_model(r) == schema_from_json(value@),
{
    let sorted = sort_keys_recursively(value);
    schema_of_sorted(&sorted)
}

fn schema_of_sorted(value: &JsonValue) -> (r: tusk_drift_schemas::tusk::drift::core::v1::JsonSchema)
    requires
        keys_sorted(value@),
    ensures
        schema_model(r) == schema_plain(value@),
    decreases value,
{
    match value {
        JsonValue::Object(es) => {
            let ghost ev = entries_view(es@);
            proof {
                reveal_strlit("type");
                reveal_strlit("properties");
                reveal_strlit("items");
                reveal_strlit("encoding");
                reveal_strlit("decoded_type");
                reveal_strlit("match_importance");
            }
            let code = match int_member_exec(es, "type") {
                Some(c) => c,
                None => 0,
            };
            let type_bytes = type_field_bytes(code);
            let mut props: Vec<(String, tusk_drift_schemas::tusk::drift::core::v1::JsonSchema)> = Vec::new();
            match member_index(es, "properties") {
                Some(pi) => match &es[pi].1 {
                    JsonValue::Object(ps) => {
                        proof {
                            lemma_keys_sorted_member(value@, pi as int);
                            assert(ev[pi as int].1 == es@[pi as int].1@);
                        }
                        let mut i: usize = 0;
                        while i < ps.len()
                            invariant
                                i <= ps.len(),
                                pi < es.len(),
                                *value == JsonValue::Object(*es),
                                es@[pi as int].1 == JsonValue::Object(*ps),
                                keys_sorted(es@[pi as int].1@),
                                props@.len() == i,
                                forall|k: int| 0 <= k < i ==> (#[trigger] props@[k]).0@ == ps@[k].0@ && schema_model(props@[k].1) == schema_plain(ps@[k].1@),
                            decreases ps.len() - i,
                        {
                            proof {
                                assert(decreases_to!(*value => value->Object_0));
                                assert(decreases_to!(*es => es@[pi as int]));
                                assert(decreases_to!(es@[pi as int] => es@[pi as int].1));
                                assert(decreases_to!(es@[pi as int].1 => es@[pi as int].1->Object_0));
                                assert(decreases_to!(*ps => ps@[i as int]));
                                assert(decreases_to!(ps@[i as int] => ps@[i as int].1));
                                lemma_keys_sorted_member(es@[pi as int].1@, i as int);
                                assert(entries_view(ps@)[i as int].1 == ps@[i as int].1@);
                            }
                            let c = schema_of_sorted(&ps[i].1);
                            props.push((ps[i].0.clone(), c));
                            i = i + 1;
                        }
                        proof {
                            let pv = entries_view(ps@);
                            assert(schema_list_model(props@) =~= schema_entries(pv));
                            let sl = schema_list_model(props@);
                            assert forall|x: int, y: int| 0 <= x < y < sl.len() implies key_lt(#[trigger] sl[x].0, #[trigger] sl[y].0) by {
                                assert(sl[x].0 == pv[x].0 && sl[y].0 == pv[y].0);
                            }
                        }
                    },
                    _ => {},
                },
                None => {},
            }
            let items = match member_index(es, "items") {
                Some(ii) => {
                    proof {
                        assert(decreases_to!(*value => value->Object_0));
                        assert(decreases_to!(*es => es@[ii as int]));
                        assert(decreases_to!(es@[ii as int] => es@[ii as int].1));
                        lemma_keys_sorted_member(value@, ii as int);
                        assert(ev[ii as int].1 == es@[ii as int].1@);
                    }
                    Some(schema_of_sorted(&es[ii].1))
                },
                None => None,
            };
            let encoding = int_member_exec(es, "encoding");
            let decoded_type = int_member_exec(es, "decoded_type");
            let match_importance = match member_index(es, "match_importance") {
                Some(mi) => match &es[mi].1 {
                    JsonValue::Number(t) => Some(t.clone()),
                    _ => None,
                },
                None => None,
            };
            proof {
                if schema_list_model(props@).len() == 0 {
                    assert(keys_ascending(schema_list_model(props@)));
                }
            }
            let r = make_json_schema(code, type_bytes.as_slice(), props, items, encoding, decoded_type, match_importance);
            proof {
                let pi = last_index(ev, "properties"@);
                let ii = last_index(ev, "items"@);
                if 0 <= ii < ev.len() {
                    assert(ev[ii].1 == es@[ii].1@);
                }
                let mi = last_index(ev, "match_importance"@);
                if 0 <= mi < ev.len() {
                    assert(ev[mi].1 == es@[mi].1@);
                }
                if 0 <= pi < ev.len() {
                    assert(ev[pi].1 == es@[pi].1@);
                }
                if !(0 <= pi < ev.len() && ev[pi].1 is Object) {
                    assert(schema_list_model(props@) =~= Seq::<(Seq<char>, SchemaModel)>::empty());
                }
            }
            r
        },
        _ => {
            let props: Vec<(String, tusk_drift_schemas::tusk::drift::core::v1::JsonSchema)> = Vec::new();
            let type_bytes = type_field_bytes(0);
            proof {
                assert(schema_list_model(props@) =~= Seq::<(Seq<char>, SchemaModel)>::empty());
            }
            let r = make_json_schema(0, type_bytes.as_slice(), props, None, None, None, None);
            r
        },
    }
}

/// The span record that the builder assembles from its input, given the
/// fields of the input, output and metadata structs and the two schemas.
pub open spec fn span_of(
    input: BuildSpanProtoInput,
    input_value: Seq<(Seq<char>, Dyn)>,
    output_value: Seq<(Seq<char>, Dyn)>,
    input_schema: SchemaModel,
    output_schema: SchemaModel,
    metadata: Seq<(Seq<char>, Dyn)>,
) -> SpanModel {
    SpanModel {
        trace_id: input.trace_id@,
        span_id: input.span_id@,
        parent_span_id: input.parent_span_id@,
        name: input.name@,
        package_name: input.package_name@,
        instrumentation_name: input.instrumentation_name@,
        submodule_name: input.submodule_name@,
        package_type: input.package_type,
        input_value,
        output_value,
        input_schema,
        output_schema,
        input_schema_hash: input.input_schema_hash@,
        output_schema_hash: input.output_schema_hash@,
        input_value_hash: input.input_value_hash@,
        output_value_hash: input.output_value_hash@,
        kind: input.kind,
        status_code: input.status_code,
        status_message: input.status_message@,
        is_pre_app_start: input.is_pre_app_start,
        timestamp_seconds: input.timestamp_seconds,
        timestamp_nanos: input.timestamp_nanos,
        duration_seconds: input.duration_seconds,
        duration_nanos: input.duration_nanos,
        is_root_span: input.is_root_span,
        metadata,
        environment: match input.environment {
            Some(e) => Some(e@),
            None => None,
        },
    }
}

/// Relies on the fields of tusk_drift_schemas' Span: the names, kinds and
/// environment copied, the rest left at their defaults.
#[verifier::external_body]
fn span_with_names(input: &BuildSpanProtoInput) -> (r: tusk_drift_schemas::tusk::drift::core::v1::Span)
    ensures
        span_model(r).trace_id == input.trace_id@,
        span_model(r).span_id == input.span_id@,
        span_model(r).parent_span_id == input.parent_span_id@,
        span_model(r).name == input.name@,
        span_model(r).package_name == input.package_name@,
        span_model(r).instrumentation_name == input.instrumentation_name@,
        span_model(r).submodule_name == input.submodule_name@,
        span_model(r).package_type == input.package_type,
        span_model(r).kind == input.kind,
        span_model(r).environment == match input.environment {
            Some(e) => Some(e@),
            None => None,
        },
{
    tusk_drift_schemas::tusk::drift::core::v1::Span {
        trace_id: input.trace_id.to_string(),
        span_id: input.span_id.to_string(),
        parent_span_id: input.parent_span_id.to_string(),
        name: input.name.to_string(),
        package_name: input.package_name.to_string(),
        instrumentation_name: input.instrumentation_name.to_string(),
        submodule_name: input.submodule_name.to_string(),
        package_type: input.package_type,
        kind: input.kind,
        environment: input.environment.map(|v| v.to_string()),
        ..Default::default()
    }
}

/// Relies on the fields of tusk_drift_schemas' Span: the hashes and flags
/// copied, and the status, timestamp and duration put in their messages.
#[verifier::external_body]
fn span_with_record(s: tusk_drift_schemas::tusk::drift::core::v1::Span, input: &BuildSpanProtoInput) -> (r: tusk_drift_schemas::tusk::drift::core::v1::Span)
    ensures
        span_model(r) == (SpanModel {
            input_schema_hash: input.input_schema_hash@,
            output_schema_hash: input.output_schema_hash@,
            input_value_hash: input.input_value_hash@,
            output_value_hash: input.output_value_hash@,
            status_code: input.status_code,
            status_message: input.status_message@,
            is_pre_app_start: input.is_pre_app_start,
            is_root_span: input.is_root_span,
            timestamp_seconds: input.timestamp_seconds,
            timestamp_nanos: input.timestamp_nanos,
            duration_seconds: input.duration_seconds,
            duration_nanos: input.duration_nanos,
            ..span_model(s)
        }),
{
    let mut s = s;
    s.input_schema_hash = input.input_schema_hash.to_string();
    s.output_schema_hash = input.output_schema_hash.to_string();
    s.input_value_hash = input.input_value_hash.to_string();
    s.output_value_hash = input.output_value_hash.to_string();
    s.status = Some(tusk_drift_schemas::tusk::drift::core::v1::SpanStatus { code: input.status_code, message: input.status_message.to_string() });
    s.is_pre_app_start = input.is_pre_app_start;
    s.is_root_span = input.is_root_span;
    s.timestamp = Some(prost_types::Timestamp { seconds: input.timestamp_seconds, nanos: input.timestamp_nanos });
    s.duration = Some(prost_types::Duration { seconds: input.duration_seconds, nanos: input.duration_nanos });
    s
}

/// Relies on the fields of tusk_drift_schemas' Span: the value structs and
/// schemas put in place.
#[verifier::external_body]
fn span_with_payloads(
    s: tusk_drift_schemas::tusk::drift::core::v1::Span,
    input_value: prost_types::Struct,
    output_value: prost_types::Struct,
    input_schema: tusk_drift_schemas::tusk::drift::core::v1::JsonSchema,
    output_schema: tusk_drift_schemas::tusk::drift::core::v1::JsonSchema,
    metadata: prost_types::Struct,
) -> (r: tusk_drift_schemas::tusk::drift::core::v1::Span)
    ensures
        span_model(r) == (SpanModel {
            input_value: struct_model(input_value),
            output_value: struct_model(output_value),
            input_schema: schema_model(input_schema),
            output_schema: schema_model(output_schema),
            metadata: struct_model(metadata),
            ..span_model(s)
        }),
{
    let mut s = s;
    s.input_value = Some(input_value);
    s.output_value = Some(output_value);
    s.input_schema = Some(input_schema);
    s.output_schema = Some(output_schema);
    s.metadata = Some(metadata);
    s
}

/// Relies on prost::Message::encode_to_vec for a Span: where the bytes
/// decode, they give the span back; they do decode where the nesting is
/// within prost's recursion limit.
#[verifier::external_body]
pub(crate) fn encode_span(s: &tusk_drift_schemas::tusk::drift::core::v1::Span) -> (r: Vec<u8>)
    ensures
        span_decoding(r@) is Some ==> span_decoding(r@) == Some(span_model(*s)),
        span_within(span_model(*s)) ==> span_decoding(r@) is Some,
{
    prost::Message::encode_to_vec(s)
}

/// Relies on prost::Message::decode for a Span.
#[verifier::external_body]
pub(crate) fn decode_span(b: &[u8]) -> (r: Result<tusk_drift_schemas::tusk::drift::core::v1::Span, prost::DecodeError>)
    ensures
        r is Ok <==> span_decoding(b@) is Some,
        r matches Ok(s) ==> span_decoding(b@) == Some(span_model(s)),
{
    <tusk_drift_schemas::tusk::drift::core::v1::Span as prost::Message>::decode(b)
}

/// The fields of a value struct: those decoded from the given bytes, else
/// those of the given value tree, else none.
pub open spec fn value_fields(bytes: Option<&[u8]>, value: Option<&JsonValue>) -> Seq<(Seq<char>, Dyn)> {
    match bytes {
        Some(b) => struct_decoding(b@)->0,
        None => match value {
            Some(v) => struct_of(v@),
            None => struct_of(Json::Object(Seq::empty())),
        },
    }
}

/// Whether supplied struct bytes, if any, decode.
pub open spec fn bytes_decode(bytes: Option<&[u8]>) -> bool {
    match bytes {
        Some(b) => struct_decoding(b@) is Some,
        None => true,
    }
}

/// The span that the builder assembles from its input.
pub open spec fn built_span(input: BuildSpanProtoInput) -> SpanModel {
    span_of(
        input,
        value_fields(input.input_value_proto_struct_bytes, input.input_value),
        value_fields(input.output_value_proto_struct_bytes, input.output_value),
        schema_from_json(input.input_schema@),
        schema_from_json(input.output_schema@),
        value_fields(None, input.metadata),
    )
}

fn value_struct(bytes: Option<&[u8]>, value: Option<&JsonValue>) -> (r: CoreResult<prost_types::Struct>)
    ensures
        r is Ok <==> bytes_decode(bytes),
        r matches Ok(s) ==> struct_model(s) == value_fields(bytes, value),
        r matches Err(e) ==> e is SerializationError,
{
    match bytes {
        Some(b) => match decode_struct(b) {
            Ok(s) => Ok(s),
            Err(e) => Err(CoreError::SerializationError(decode_error_message(&e))),
        },
        None => match value {
            Some(v) => Ok(json_object_to_struct(v)),
            None => {
                let empty = JsonValue::Object(Vec::new());
                proof {
                    assert(empty@ == Json::Object(Seq::empty())) by {
                        assert(entries_view(Seq::<(String, JsonValue)>::empty()) =~= Seq::<(Seq<char>, Json)>::empty());
                    }
                }
                Ok(json_object_to_struct(&empty))
            },
        },
    }
}

/// Builds one span record and encodes it. Input and output values come from
/// supplied struct bytes where there are some, else from the value trees,
/// else an empty object; metadata comes from its value tree, else an empty
/// object; the schemas are copied over field by field; the other fields
/// are copied as they are. Fails with `SerializationError` where supplied
/// struct bytes do not decode.
pub fn build_span_proto_bytes(input: BuildSpanProtoInput) -> (r: CoreResult<Vec<u8>>)
    ensures
        r is Ok <==> bytes_decode(input.input_value_proto_struct_bytes) && bytes_decode(
            input.output_value_proto_struct_bytes,
        ),
        r matches Ok(b) ==> (span_decoding(b@) is Some ==> span_decoding(b@) == Some(built_span(input))),
        r matches Ok(b) ==> (span_within(built_span(input)) ==> span_decoding(b@) is Some),
        r matches Err(e) ==> e is SerializationError,
{
    let input_struct = value_struct(input.input_value_proto_struct_bytes, input.input_value)?;
    let output_struct = value_struct(input.output_value_proto_struct_bytes, input.output_value)?;
    let metadata_struct = value_struct(None, input.metadata)?;
    let input_schema = json_schema_from_value(input.input_schema);
    let output_schema = json_schema_from_value(input.output_schema);
    let span = span_with_names(&input);
    let span = span_with_record(span, &input);
    let span = span_with_payloads(span, input_struct, output_struct, input_schema, output_schema, metadata_struct);
    Ok(encode_span(&span))
}

} // verus!
