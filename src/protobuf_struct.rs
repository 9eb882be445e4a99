//! The dynamic-value encoder: a value tree as a protobuf `Struct`.
use vstd::prelude::*;
use crate::error::CoreResult;
use crate::json_text::json_parse;
use crate::normalize::{json_roundtrip_normalize, normalized_value, parse_json};
use crate::hash::sort_keys_recursively;
use crate::json_text::{keys_sorted, number_canon, same_shape, serde_form, sorted_keys};
use crate::order::{key_lt, keys_ascending};
use crate::value::{entries_view, items_view, Json, JsonValue};

verus! {

#[verifier::external_type_specification]
#[verifier::external_body]
pub struct ExStruct(prost_types::Struct);

#[verifier::external_type_specification]
#[verifier::external_body]
pub struct ExProtoValue(prost_types::Value);

#[verifier::external_type_specification]
#[verifier::external_body]
pub struct ExDecodeError(prost::DecodeError);

/// The model of a protobuf dynamic value. `Empty` is a value with no kind
/// set; a null keeps its enum code; a number is the bit pattern of its
/// double; the fields of a struct are in ascending key order.
pub enum Dyn {
    Empty,
    Null(i32),
    Number(u64),
    Str(Seq<char>),
    Bool(bool),
    Struct(Seq<(Seq<char>, Dyn)>),
    List(Seq<Dyn>),
}

/// What a protobuf `Value` holds.
pub uninterp spec fn dyn_model(v: prost_types::Value) -> Dyn;

/// The fields of a protobuf `Struct`, in ascending key order.
pub uninterp spec fn struct_model(s: prost_types::Struct) -> Seq<(Seq<char>, Dyn)>;

/// The bit pattern of the double that serde_json gives for a number text,
/// or of 0.0 where the text is not a JSON number.
pub uninterp spec fn double_bits(t: Seq<char>) -> u64;

/// The protobuf encoding of a `Struct` with these fields.
pub uninterp spec fn struct_encoding(fields: Seq<(Seq<char>, Dyn)>) -> Seq<u8>;

/// The fields of the `Struct` that protobuf decodes from these bytes, or
/// `None` where they are not such an encoding.
pub uninterp spec fn struct_decoding(b: Seq<u8>) -> Option<Seq<(Seq<char>, Dyn)>>;

/// Structs and lists nest at most `n` deep in a dynamic value.
pub open spec fn dyn_within(d: Dyn, n: nat) -> bool
    decreases d,
{
    match d {
        Dyn::Struct(fs) => n > 0 && forall|i: int| 0 <= i < fs.len() ==> dyn_within(#[trigger] fs[i].1, (n - 1) as nat),
        Dyn::List(vs) => n > 0 && forall|i: int| 0 <= i < vs.len() ==> dyn_within(#[trigger] vs[i], (n - 1) as nat),
        _ => true,
    }
}

/// Every field value of a struct nests structs and lists at most `n` deep.
pub open spec fn fields_within(fs: Seq<(Seq<char>, Dyn)>, n: nat) -> bool {
    forall|i: int| 0 <= i < fs.len() ==> dyn_within(#[trigger] fs[i].1, n)
}

/// A nesting that prost decodes whatever message holds it here: prost
/// refuses messages nested more than 100 deep, and each level of a struct
/// costs at most three message levels.
pub open spec fn nesting_limit() -> nat {
    30
}

/// A value tree as a dynamic value, member by member: an object's members
/// become a struct's fields in the order they come.
pub open spec fn dyn_plain(j: Json) -> Dyn
    decreases j,
{
    match j {
        Json::Null => Dyn::Null(0),
        Json::Bool(b) => Dyn::Bool(b),
        Json::Number(t) => Dyn::Number(double_bits(t)),
        Json::Str(s) => Dyn::Str(s),
        Json::Array(a) => Dyn::List(dyn_items(a)),
        Json::Object(es) => Dyn::Struct(dyn_entries(es)),
    }
}

pub open spec fn dyn_items(a: Seq<Json>) -> Seq<Dyn>
    decreases a,
{
    Seq::new(a.len(), |i: int| if 0 <= i < a.len() { dyn_plain(a[i]) } else { Dyn::Empty })
}

pub open spec fn dyn_entries(es: Seq<(Seq<char>, Json)>) -> Seq<(Seq<char>, Dyn)>
    decreases es,
{
    Seq::new(
        es.len(),
        |i: int|
            if 0 <= i < es.len() {
                (es[i].0, dyn_plain(es[i].1))
            } else {
                (Seq::empty(), Dyn::Empty)
            },
    )
}

/// A value tree as a dynamic value: that of its key-sorted form, so a
/// struct's fields are in ascending key order and a later member replaces
/// an earlier one with the same key.
pub open spec fn dyn_of(j: Json) -> Dyn {
    dyn_plain(sorted_keys(j))
}

/// The fields of the struct that a value tree gives: those of an object,
/// none for any other value.
pub open spec fn struct_of(j: Json) -> Seq<(Seq<char>, Dyn)> {
    match sorted_keys(j) {
        Json::Object(es) => dyn_entries(es),
        _ => Seq::empty(),
    }
}

pub open spec fn list_model(a: Seq<prost_types::Value>) -> Seq<Dyn> {
    Seq::new(a.len(), |i: int| dyn_model(a[i]))
}

pub open spec fn fields_model(es: Seq<(String, prost_types::Value)>) -> Seq<(Seq<char>, Dyn)> {
    Seq::new(es.len(), |i: int| (es[i].0@, dyn_model(es[i].1)))
}

/// Relies on prost_types::value::Kind::NullValue.
#[verifier::external_body]
fn proto_null() -> (r: prost_types::Value)
    ensures
        dyn_model(r) == Dyn::Null(0),
{
    prost_types::Value { kind: Some(prost_types::value::Kind::NullValue(0)) }
}

/// Relies on prost_types::value::Kind::BoolValue.
#[verifier::external_body]
fn proto_bool(b: bool) -> (r: prost_types::Value)
    ensures
        dyn_model(r) == Dyn::Bool(b),
{
    prost_types::Value { kind: Some(prost_types::value::Kind::BoolValue(b)) }
}

/// Relies on serde_json::Number's FromStr and as_f64, and on
/// prost_types::value::Kind::NumberValue; 0.0 where the text is no number.
#[verifier::external_body]
fn proto_number(t: &str) -> (r: prost_types::Value)
    ensures
        dyn_model(r) == Dyn::Number(double_bits(t@)),
        number_canon(t@) is None ==> dyn_model(r) == Dyn::Number(0),
{
    let d = <serde_json::Number as core::str::FromStr>::from_str(t).ok().and_then(|n| n.as_f64());
    prost_types::Value { kind: Some(prost_types::value::Kind::NumberValue(d.unwrap_or_default())) }
}

/// Relies on prost_types::value::Kind::StringValue.
#[verifier::external_body]
fn proto_string(s: String) -> (r: prost_types::Value)
    ensures
        dyn_model(r) == Dyn::Str(s@),
{
    prost_types::Value { kind: Some(prost_types::value::Kind::StringValue(s)) }
}

/// Relies on prost_types::value::Kind::ListValue, which keeps the order.
#[verifier::external_body]
fn proto_list(a: Vec<prost_types::Value>) -> (r: prost_types::Value)
    ensures
        dyn_model(r) == Dyn::List(list_model(a@)),
{
    prost_types::Value {
        kind: Some(prost_types::value::Kind::ListValue(prost_types::ListValue { values: a })),
    }
}

/// Relies on prost_types::value::Kind::StructValue.
#[verifier::external_body]
fn proto_struct_value(s: prost_types::Struct) -> (r: prost_types::Value)
    ensures
        dyn_model(r) == Dyn::Struct(struct_model(s)),
{
    prost_types::Value { kind: Some(prost_types::value::Kind::StructValue(s)) }
}

/// Relies on prost_types::Struct's fields being a BTreeMap, which iterates
/// in ascending key order: given distinct keys in that order, the map holds
/// exactly these entries, in this order.
#[verifier::external_body]
fn proto_struct(es: Vec<(String, prost_types::Value)>) -> (r: prost_types::Struct)
    requires
        keys_ascending(fields_model(es@)),
    ensures
        struct_model(r) == fields_model(es@),
{
    prost_types::Struct { fields: es.into_iter().collect() }
}

/// Relies on prost::Message::encode_to_vec for prost_types::Struct: where
/// the bytes decode, they give the struct back; they do decode where the
/// nesting is within prost's recursion limit.
#[verifier::external_body]
pub(crate) fn encode_struct(s: &prost_types::Struct) -> (r: Vec<u8>)
    ensures
        r@ == struct_encoding(struct_model(*s)),
        struct_decoding(r@) is Some ==> struct_decoding(r@) == Some(struct_model(*s)),
        fields_within(struct_model(*s), nesting_limit()) ==> struct_decoding(r@) is Some,
{
    prost::Message::encode_to_vec(s)
}

/// Relies on prost::Message::decode for prost_types::Struct.
#[verifier::external_body]
pub(crate) fn decode_struct(b: &[u8]) -> (r: Result<prost_types::Struct, prost::DecodeError>)
    ensures
        r is Ok <==> struct_decoding(b@) is Some,
        r matches Ok(s) ==> struct_decoding(b@) == Some(struct_model(s)),
{
    <prost_types::Struct as prost::Message>::decode(b)
}

/// Relies on prost::DecodeError's Display: the message of a failure.
#[verifier::external_body]
pub(crate) fn decode_error_message(e: &prost::DecodeError) -> String {
    e.to_string()
}

/// Relies on BTreeMap::len of prost_types::Struct's fields.
#[verifier::external_body]
fn struct_field_total(s: &prost_types::Struct) -> (r: usize)
    ensures
        r == struct_model(*s).len(),
{
    s.fields.len()
}

/// A value tree as a protobuf dynamic value: its keys sorted, a later
/// member replacing an earlier one with the same key.
pub fn json_to_protobuf_value(v: &JsonValue) -> (r: prost_types::Value)
    ensures
        dyn_model(r) == dyn_of(v@),
{
    let sorted = sort_keys_recursively(v);
    value_of_sorted(&sorted)
}

/// The protobuf struct of a value tree: the members of an object, each as a
/// dynamic value, in ascending key order, a later member replacing an
/// earlier one with the same key; no fields for any other value.
pub fn json_object_to_struct(v: &JsonValue) -> (r: prost_types::Struct)
    ensures
        struct_model(r) == struct_of(v@),
{
    let sorted = sort_keys_recursively(v);
    struct_of_sorted(&sorted)
}

fn value_of_sorted(v: &JsonValue) -> (r: prost_types::Value)
    requires
        keys_sorted(v@),
    ensures
        dyn_model(r) == dyn_plain(v@),
    decreases v,
{
    match v {
        JsonValue::Null => proto_null(),
        JsonValue::Bool(b) => proto_bool(*b),
        JsonValue::Number(t) => proto_number(t.as_str()),
        JsonValue::String(s) => proto_string(s.clone()),
        JsonValue::Array(a) => {
            let mut out: Vec<prost_types::Value> = Vec::new();
            let mut i: usize = 0;
            while i < a.len()
                invariant
                    i <= a.len(),
                    *v == JsonValue::Array(*a),
                    keys_sorted(v@),
                    out@.len() == i,
                    forall|k: int| 0 <= k < i ==> #[trigger] dyn_model(out@[k]) == dyn_plain(a@[k]@),
                decreases a.len() - i,
            {
                proof {
                    assert(decreases_to!(*v => v->Array_0));
                    assert(decreases_to!(*a => a@[i as int]));
                    assert(v@ == Json::Array(items_view(a@)));
                    assert(0 <= i < items_view(a@).len());
                    crate::json_text::lemma_keys_sorted_item(v@, i as int);
                    assert(items_view(a@)[i as int] == a@[i as int]@);
                }
                out.push(value_of_sorted(&a[i]));
                i = i + 1;
            }
            proof {
                assert(list_model(out@) =~= dyn_items(items_view(a@)));
            }
            proto_list(out)
        },
        JsonValue::Object(es) => {
            let s = struct_of_sorted(v);
            proto_struct_value(s)
        },
    }
}

fn struct_of_sorted(v: &JsonValue) -> (r: prost_types::Struct)
    requires
        keys_sorted(v@),
    ensures
        struct_model(r) == match v@ {
            Json::Object(es) => dyn_entries(es),
            _ => Seq::empty(),
        },
    decreases v, 0nat,
{
    match v {
        JsonValue::Object(es) => {
            let mut out: Vec<(String, prost_types::Value)> = Vec::new();
            let mut i: usize = 0;
            while i < es.len()
                invariant
                    i <= es.len(),
                    *v == JsonValue::Object(*es),
                    keys_sorted(v@),
                    out@.len() == i,
                    forall|k: int| 0 <= k < i ==> (#[trigger] out@[k]).0@ == es@[k].0@ && dyn_model(out@[k].1) == dyn_plain(es@[k].1@),
                decreases es.len() - i,
            {
                proof {
                    assert(decreases_to!(*v => v->Object_0));
                    assert(decreases_to!(*es => es@[i as int]));
                    assert(decreases_to!(es@[i as int] => es@[i as int].1));
                    assert(entries_view(es@)[i as int].1 == es@[i as int].1@);
                }
                let c = value_of_sorted(&es[i].1);
                out.push((es[i].0.clone(), c));
                i = i + 1;
            }
            proof {
                let ev = entries_view(es@);
                assert(fields_model(out@) =~= dyn_entries(ev));
                let fm = fields_model(out@);
                assert forall|x: int, y: int| 0 <= x < y < fm.len() implies key_lt(#[trigger] fm[x].0, #[trigger] fm[y].0) by {
                    assert(fm[x].0 == ev[x].0 && fm[y].0 == ev[y].0);
                }
            }
            proto_struct(out)
        },
        _ => {
            let out: Vec<(String, prost_types::Value)> = Vec::new();
            proof {
                assert(fields_model(out@) =~= Seq::empty());
            }
            proto_struct(out)
        },
    }
}

/// The protobuf struct of a JSON text's normalized value tree.
pub fn object_to_protobuf_struct(payload_json: &str) -> (r: CoreResult<prost_types::Struct>)
    ensures
        r is Ok <==> json_parse(payload_json@) is Some,
        r matches Ok(s) ==> struct_model(s) == struct_of(normalized_value(payload_json@)->0),
        r matches Ok(s) ==> (!(json_parse(payload_json@)->0 is Object) ==> struct_model(s)
            == Seq::<(Seq<char>, Dyn)>::empty()),
        r matches Err(e) ==> e is InvalidJson,
{
    let input = parse_json(payload_json)?;
    proof {
        crate::normalize::lemma_parsed_normalizable(input@);
    }
    match json_roundtrip_normalize(&input) {
        Ok(normalized) => {
            proof {
                let f = serde_form(input@);
                if !(input@ is Object) {
                    assert(!(f is Object));
                    assert(same_shape(normalized@, f));
                    assert(!(normalized@ is Object));
                    assert(!(sorted_keys(normalized@) is Object));
                }
            }
            Ok(json_object_to_struct(&normalized))
        },
        Err(e) => {
            proof {
                assert(false);
            }
            Err(e)
        },
    }
}

/// The protobuf encoding of the struct of a JSON text.
pub fn object_to_protobuf_struct_bytes(payload_json: &str) -> (r: CoreResult<Vec<u8>>)
    ensures
        r is Ok <==> json_parse(payload_json@) is Some,
        r matches Ok(b) ==> b@ == struct_encoding(struct_of(normalized_value(payload_json@)->0)),
        r matches Ok(b) ==> (!(json_parse(payload_json@)->0 is Object) ==> struct_decoding(b@)
            == Some(Seq::<(Seq<char>, Dyn)>::empty())),
        r matches Err(e) ==> e is InvalidJson,
{
    let s = object_to_protobuf_struct(payload_json)?;
    Ok(encode_struct(&s))
}

/// The number of fields of the struct of a JSON text: the distinct keys of
/// a top-level object, and zero for any other top-level value.
pub fn object_to_protobuf_struct_field_count(payload_json: &str) -> (r: CoreResult<usize>)
    ensures
        r is Ok <==> json_parse(payload_json@) is Some,
        r matches Ok(n) ==> n == struct_of(normalized_value(payload_json@)->0).len(),
        r matches Ok(n) ==> (!(json_parse(payload_json@)->0 is Object) ==> n == 0),
        r matches Err(e) ==> e is InvalidJson,
{
    let s = object_to_protobuf_struct(payload_json)?;
    Ok(struct_field_total(&s))
}

} // verus!
