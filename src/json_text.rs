//! Reading and writing JSON text through serde_json, and the canonical form
//! that serde_json gives a value tree.
use vstd::prelude::*;
use crate::hash::sort_keys_recursively;
use crate::order::{entry_map, key_lt, keys_ascending, sorted_entries};
use crate::value::{entries_view, items_view, Json, JsonValue};

verus! {

#[verifier::external_type_specification]
#[verifier::external_body]
pub struct ExSerdeValue(serde_json::Value);

#[verifier::external_type_specification]
#[verifier::external_body]
pub struct ExSerdeError(serde_json::Error);

/// What a serde_json value tree holds.
pub uninterp spec fn serde_model(v: serde_json::Value) -> Json;

/// The value tree that serde_json reads from a text, or `None` where the
/// text is not JSON.
pub uninterp spec fn json_parse(text: Seq<char>) -> Option<Json>;

/// The compact text that serde_json writes for a value tree.
pub uninterp spec fn json_text(v: Json) -> Seq<char>;

/// The text that serde_json writes for the number it reads from `t`, or
/// `None` where `t` is not a JSON number.
pub uninterp spec fn number_canon(t: Seq<char>) -> Option<Seq<char>>;

/// A decimal digit.
pub open spec fn is_digit(c: char) -> bool {
    48 <= (c as u32) && (c as u32) <= 57
}

/// One or more decimal digits.
pub open spec fn all_digits(d: Seq<char>) -> bool {
    d.len() > 0 && forall|i: int| 0 <= i < d.len() ==> is_digit(#[trigger] d[i])
}

/// A JSON integer: an optional minus sign and decimal digits.
pub open spec fn is_integer_text(t: Seq<char>) -> bool {
    if t.len() > 0 && t[0] == '-' {
        all_digits(t.drop_first())
    } else {
        all_digits(t)
    }
}

/// Arrays and objects nest at most `d` deep in the tree.
pub open spec fn within_depth(j: Json, d: nat) -> bool
    decreases j,
{
    match j {
        Json::Array(a) => d > 0 && forall|i: int| 0 <= i < a.len() ==> within_depth(#[trigger] a[i], (d - 1) as nat),
        Json::Object(es) => d > 0 && forall|i: int|
            0 <= i < es.len() ==> within_depth(#[trigger] es[i].1, (d - 1) as nat),
        _ => true,
    }
}

/// Two trees alike but for the texts of their numbers: the same variants,
/// booleans, strings, keys in the same order and array lengths.
pub open spec fn same_shape(a: Json, b: Json) -> bool
    decreases a,
{
    match a {
        Json::Null => b is Null,
        Json::Bool(x) => b == Json::Bool(x),
        Json::Number(_) => b is Number,
        Json::Str(x) => b == Json::Str(x),
        Json::Array(x) => b is Array && x.len() == b->Array_0.len() && forall|i: int|
            0 <= i < x.len() ==> same_shape(#[trigger] x[i], b->Array_0[i]),
        Json::Object(x) => b is Object && x.len() == b->Object_0.len() && forall|i: int|
            0 <= i < x.len() ==> (#[trigger] x[i]).0 == b->Object_0[i].0 && same_shape(
                x[i].1,
                b->Object_0[i].1,
            ),
    }
}

/// The deepest nesting of arrays and objects that serde_json reads.
pub open spec fn max_depth() -> nat {
    127
}

/// Every number in the tree is a JSON integer.
pub open spec fn integers_only(j: Json) -> bool
    decreases j,
{
    match j {
        Json::Number(t) => is_integer_text(t),
        Json::Array(a) => forall|i: int| 0 <= i < a.len() ==> integers_only(#[trigger] a[i]),
        Json::Object(es) => forall|i: int| 0 <= i < es.len() ==> integers_only(#[trigger] es[i].1),
        _ => true,
    }
}

/// Every number text in the tree is one that serde_json reads.
pub open spec fn numbers_valid(j: Json) -> bool
    decreases j,
{
    match j {
        Json::Number(t) => number_canon(t) is Some,
        Json::Array(a) => forall|i: int| 0 <= i < a.len() ==> numbers_valid(#[trigger] a[i]),
        Json::Object(es) => forall|i: int| 0 <= i < es.len() ==> numbers_valid(#[trigger] es[i].1),
        _ => true,
    }
}

/// The tree with the members of every object in ascending key order, a
/// later member replacing an earlier one with the same key.
pub open spec fn canonical(j: Json) -> Json
    decreases j,
{
    match j {
        Json::Array(a) => Json::Array(canonical_items(a)),
        Json::Object(es) => Json::Object(sorted_entries(entry_map(canonical_entries(es)))),
        _ => j,
    }
}

pub open spec fn canonical_items(a: Seq<Json>) -> Seq<Json>
    decreases a,
{
    Seq::new(a.len(), |i: int| if 0 <= i < a.len() { canonical(a[i]) } else { Json::Null })
}

pub open spec fn canonical_entries(es: Seq<(Seq<char>, Json)>) -> Seq<(Seq<char>, Json)>
    decreases es,
{
    Seq::new(
        es.len(),
        |i: int|
            if 0 <= i < es.len() {
                (es[i].0, canonical(es[i].1))
            } else {
                (Seq::empty(), Json::Null)
            },
    )
}

/// The tree with the keys of every object sorted.
pub open spec fn sorted_keys(j: Json) -> Json {
    canonical(j)
}

/// The tree that serde_json holds after reading this one in.
pub open spec fn serde_form(j: Json) -> Json {
    numbers_canon(sorted_keys(j))
}

/// The tree with each number text as serde_json writes the number it reads
/// from it.
pub open spec fn numbers_canon(j: Json) -> Json
    decreases j,
{
    match j {
        Json::Number(t) => if number_canon(t) is Some {
            Json::Number(number_canon(t)->0)
        } else {
            j
        },
        Json::Array(a) => Json::Array(numbers_canon_items(a)),
        Json::Object(es) => Json::Object(numbers_canon_entries(es)),
        _ => j,
    }
}

pub open spec fn numbers_canon_items(a: Seq<Json>) -> Seq<Json>
    decreases a,
{
    Seq::new(a.len(), |i: int| if 0 <= i < a.len() { numbers_canon(a[i]) } else { Json::Null })
}

pub open spec fn numbers_canon_entries(es: Seq<(Seq<char>, Json)>) -> Seq<(Seq<char>, Json)>
    decreases es,
{
    Seq::new(
        es.len(),
        |i: int|
            if 0 <= i < es.len() {
                (es[i].0, numbers_canon(es[i].1))
            } else {
                (Seq::empty(), Json::Null)
            },
    )
}

/// A tree as serde_json hands it out: keys ascending, each number text one
/// that serde_json reads, and an integer as serde_json writes it.
pub open spec fn is_serde_form(j: Json) -> bool
    decreases j,
{
    match j {
        Json::Number(t) => number_canon(t) is Some && (is_integer_text(t) ==> number_canon(t)
            == Some(t)),
        Json::Array(a) => forall|i: int| 0 <= i < a.len() ==> is_serde_form(#[trigger] a[i]),
        Json::Object(es) => keys_ascending(es) && forall|i: int|
            0 <= i < es.len() ==> is_serde_form(#[trigger] es[i].1),
        _ => true,
    }
}

/// Every object in the tree has its keys in ascending order.
pub open spec fn keys_sorted(j: Json) -> bool
    decreases j,
{
    match j {
        Json::Array(a) => forall|i: int| 0 <= i < a.len() ==> keys_sorted(#[trigger] a[i]),
        Json::Object(es) => keys_ascending(es) && forall|i: int|
            0 <= i < es.len() ==> keys_sorted(#[trigger] es[i].1),
        _ => true,
    }
}

/// An element of an array whose keys are sorted has its keys sorted.
pub proof fn lemma_keys_sorted_item(j: Json, i: int)
    requires
        keys_sorted(j),
        j is Array,
        0 <= i < j->Array_0.len(),
    ensures
        keys_sorted(j->Array_0[i]),
{
    match j {
        Json::Array(a) => {
            assert(keys_sorted(a[i]));
        },
        _ => {},
    }
}

/// A member of an object whose keys are sorted has its keys sorted.
pub proof fn lemma_keys_sorted_member(j: Json, i: int)
    requires
        keys_sorted(j),
        j is Object,
        0 <= i < j->Object_0.len(),
    ensures
        keys_sorted(j->Object_0[i].1),
        keys_ascending(j->Object_0),
{
    match j {
        Json::Object(es) => {
            assert(keys_sorted(es[i].1));
        },
        _ => {},
    }
}

pub open spec fn decimal_digits() -> Seq<char> {
    seq!['0', '1', '2', '3', '4', '5', '6', '7', '8', '9']
}

/// The decimal digits of a natural number, without leading zeros.
pub open spec fn nat_text(n: nat) -> Seq<char>
    decreases n,
{
    if n < 10 {
        seq![decimal_digits()[n as int]]
    } else {
        nat_text(n / 10).push(decimal_digits()[(n % 10) as int])
    }
}

/// The decimal text of an integer.
pub open spec fn int_text(n: int) -> Seq<char> {
    if n < 0 {
        seq!['-'] + nat_text((-n) as nat)
    } else {
        nat_text(n as nat)
    }
}

/// Relies on serde_json::Number's From<i64> and Display: the decimal text
/// of the integer, which FromStr reads back as the same integer.
#[verifier::external_body]
pub(crate) fn serde_integer_text(n: i64) -> (r: String)
    ensures
        r@ == int_text(n as int),
        number_canon(r@) == Some(r@),
{
    serde_json::Number::from(n).to_string()
}

/// One level of a serde_json value, its children still serde_json values.
pub enum SerdeNode {
    Null,
    Bool(bool),
    Number(String),
    String(String),
    Array(Vec<serde_json::Value>),
    Object(Vec<(String, serde_json::Value)>),
}

pub open spec fn array_model(a: Seq<serde_json::Value>) -> Seq<Json> {
    Seq::new(a.len(), |i: int| serde_model(a[i]))
}

pub open spec fn object_model(es: Seq<(String, serde_json::Value)>) -> Seq<(Seq<char>, Json)> {
    Seq::new(es.len(), |i: int| (es[i].0@, serde_model(es[i].1)))
}

/// Relies on serde_json::from_str::<Value>: it reads a JSON text into a
/// value tree, and refuses arrays and objects nested deeper than 127.
#[verifier::external_body]
pub(crate) fn serde_parse(text: &str) -> (r: Result<serde_json::Value, serde_json::Error>)
    ensures
        r is Ok <==> json_parse(text@) is Some,
        r matches Ok(v) ==> json_parse(text@) == Some(serde_model(v)),
        r matches Ok(v) ==> within_depth(serde_model(v), max_depth()),
{
    serde_json::from_str::<serde_json::Value>(text)
}

/// Relies on serde_json::to_string of a Value: it writes the compact text,
/// which cannot fail for a Value (its keys are strings), and which
/// serde_json reads back where the nesting is within its limit, with the
/// same shape (a float may come back as a neighbouring double); an
/// integer-only tree comes back unchanged.
#[verifier::external_body]
pub(crate) fn serde_write(v: &serde_json::Value) -> (r: Result<String, serde_json::Error>)
    ensures
        r is Ok,
        r matches Ok(t) ==> t@ == json_text(serde_model(*v)),
        r matches Ok(t) ==> (within_depth(serde_model(*v), max_depth()) ==> json_parse(t@) is Some),
        r matches Ok(t) ==> (within_depth(serde_model(*v), max_depth()) ==> same_shape(
            json_parse(t@)->0,
            serde_model(*v),
        )),
        r matches Ok(t) ==> (within_depth(serde_model(*v), max_depth()) && integers_only(
            serde_model(*v),
        ) ==> json_parse(t@) == Some(serde_model(*v))),
{
    serde_json::to_string(v)
}

/// Relies on serde_json::Error's Display: the message of a failure.
#[verifier::external_body]
pub(crate) fn serde_error_message(e: &serde_json::Error) -> String {
    e.to_string()
}

/// Relies on serde_json::Number's FromStr: it reads a number text.
#[verifier::external_body]
fn serde_number(t: &str) -> (r: Option<serde_json::Value>)
    ensures
        r is Some <==> number_canon(t@) is Some,
        r matches Some(v) ==> serde_model(v) == Json::Number(number_canon(t@)->0),
{
    <serde_json::Number as core::str::FromStr>::from_str(t).ok().map(serde_json::Value::Number)
}

/// Relies on serde_json::Value::Null.
#[verifier::external_body]
fn serde_null() -> (r: serde_json::Value)
    ensures
        serde_model(r) == Json::Null,
{
    serde_json::Value::Null
}

/// Relies on serde_json::Value::Bool.
#[verifier::external_body]
fn serde_bool(b: bool) -> (r: serde_json::Value)
    ensures
        serde_model(r) == Json::Bool(b),
{
    serde_json::Value::Bool(b)
}

/// Relies on serde_json::Value::String.
#[verifier::external_body]
fn serde_string(s: String) -> (r: serde_json::Value)
    ensures
        serde_model(r) == Json::Str(s@),
{
    serde_json::Value::String(s)
}

/// Relies on serde_json::Value::Array.
#[verifier::external_body]
fn serde_array(a: Vec<serde_json::Value>) -> (r: serde_json::Value)
    ensures
        serde_model(r) == Json::Array(array_model(a@)),
{
    serde_json::Value::Array(a)
}

/// Relies on serde_json::Map's FromIterator (a BTreeMap by default, which
/// iterates in ascending byte order): given distinct keys in that order, the
/// map holds exactly these entries, in this order.
#[verifier::external_body]
fn serde_object(es: Vec<(String, serde_json::Value)>) -> (r: serde_json::Value)
    requires
        keys_ascending(object_model(es@)),
    ensures
        serde_model(r) == Json::Object(object_model(es@)),
{
    serde_json::Value::Object(es.into_iter().collect())
}

/// Relies on serde_json::Value's variants, on Number's Display (which
/// writes an integer so that FromStr reads back the same integer), and on
/// serde_json::Map iterating in ascending key order.
#[verifier::external_body]
fn serde_node(v: &serde_json::Value) -> (r: SerdeNode)
    ensures
        match r {
            SerdeNode::Null => serde_model(*v) == Json::Null,
            SerdeNode::Bool(b) => serde_model(*v) == Json::Bool(b),
            SerdeNode::Number(t) => serde_model(*v) == Json::Number(t@) && number_canon(t@) is Some
                && (is_integer_text(t@) ==> number_canon(t@) == Some(t@)),
            SerdeNode::String(s) => serde_model(*v) == Json::Str(s@),
            SerdeNode::Array(a) => serde_model(*v) == Json::Array(array_model(a@)),
            SerdeNode::Object(es) => serde_model(*v) == Json::Object(object_model(es@))
                && keys_ascending(object_model(es@)),
        },
{
    match v {
        serde_json::Value::Null => SerdeNode::Null,
        serde_json::Value::Bool(b) => SerdeNode::Bool(*b),
        serde_json::Value::Number(n) => SerdeNode::Number(n.to_string()),
        serde_json::Value::String(s) => SerdeNode::String(s.clone()),
        serde_json::Value::Array(a) => SerdeNode::Array(a.clone()),
        serde_json::Value::Object(m) => SerdeNode::Object(
            m.iter().map(|(k, c)| (k.clone(), c.clone())).collect(),
        ),
    }
}

/// Copies a serde_json value tree into a [`JsonValue`].
pub fn from_serde(v: &serde_json::Value) -> (r: JsonValue)
    ensures
        r@ == serde_model(*v),
        is_serde_form(r@),
    decreases serde_model(*v),
{
    match serde_node(v) {
        SerdeNode::Null => JsonValue::Null,
        SerdeNode::Bool(b) => JsonValue::Bool(b),
        SerdeNode::Number(t) => JsonValue::Number(t),
        SerdeNode::String(s) => JsonValue::String(s),
        SerdeNode::Array(a) => {
            let ghost m = array_model(a@);
            let mut out: Vec<JsonValue> = Vec::new();
            let mut i: usize = 0;
            while i < a.len()
                invariant
                    i <= a.len(),
                    m == array_model(a@),
                    serde_model(*v) == Json::Array(m),
                    out@.len() == i,
                    forall|k: int| 0 <= k < i ==> (#[trigger] out@[k])@ == m[k] && is_serde_form(out@[k]@),
                decreases a.len() - i,
            {
                proof {
                    assert(decreases_to!(serde_model(*v) => serde_model(*v)->Array_0));
                    assert(decreases_to!(m => m[i as int]));
                }
                let c = from_serde(&a[i]);
                out.push(c);
                i = i + 1;
            }
            let r = JsonValue::Array(out);
            proof {
                assert(items_view(out@) =~= m);
            }
            r
        },
        SerdeNode::Object(es) => {
            let ghost m = object_model(es@);
            let mut out: Vec<(String, JsonValue)> = Vec::new();
            let mut i: usize = 0;
            while i < es.len()
                invariant
                    i <= es.len(),
                    m == object_model(es@),
                    serde_model(*v) == Json::Object(m),
                    keys_ascending(m),
                    out@.len() == i,
                    forall|k: int| 0 <= k < i ==> (#[trigger] out@[k]).0@ == m[k].0 && out@[k].1@ == m[k].1
                        && is_serde_form(out@[k].1@),
                decreases es.len() - i,
            {
                proof {
                    assert(decreases_to!(serde_model(*v) => serde_model(*v)->Object_0));
                    assert(decreases_to!(m => m[i as int]));
                    assert(decreases_to!(m[i as int] => m[i as int].1));
                }
                let c = from_serde(&es[i].1);
                let k = es[i].0.clone();
                out.push((k, c));
                i = i + 1;
            }
            let r = JsonValue::Object(out);
            proof {
                assert(entries_view(out@) =~= m);
            }
            r
        },
    }
}

/// Copies a [`JsonValue`] into a serde_json value tree; `None` where a
/// number text that the key-sorted tree keeps is not one that serde_json
/// reads.
pub fn to_serde(v: &JsonValue) -> (r: Option<serde_json::Value>)
    ensures
        r is Some <==> numbers_valid(sorted_keys(v@)),
        r matches Some(s) ==> serde_model(s) == serde_form(v@),
{
    let sorted = sort_keys_recursively(v);
    serde_of_sorted(&sorted)
}

/// Copies a tree whose keys are sorted everywhere, member by member.
fn serde_of_sorted(v: &JsonValue) -> (r: Option<serde_json::Value>)
    requires
        keys_sorted(v@),
    ensures
        r is Some <==> numbers_valid(v@),
        r matches Some(s) ==> serde_model(s) == numbers_canon(v@),
    decreases v,
{
    match v {
        JsonValue::Null => Some(serde_null()),
        JsonValue::Bool(b) => Some(serde_bool(*b)),
        JsonValue::Number(t) => serde_number(t.as_str()),
        JsonValue::String(s) => Some(serde_string(s.clone())),
        JsonValue::Array(a) => {
            let ghost m = v@;
            let mut out: Vec<serde_json::Value> = Vec::new();
            let mut i: usize = 0;
            while i < a.len()
                invariant
                    i <= a.len(),
                    m == v@,
                    *v == JsonValue::Array(*a),
                    keys_sorted(v@),
                    out@.len() == i,
                    forall|k: int| 0 <= k < i ==> numbers_valid(#[trigger] a@[k]@),
                    forall|k: int| 0 <= k < i ==> #[trigger] serde_model(out@[k]) == numbers_canon(a@[k]@),
                decreases a.len() - i,
            {
                proof {
                    assert(decreases_to!(*v => *a));
                    assert(decreases_to!(*a => a@[i as int]));
                    assert(items_view(a@)[i as int] == a@[i as int]@);
                }
                match serde_of_sorted(&a[i]) {
                    Some(c) => {
                        out.push(c);
                    },
                    None => {
                        proof {
                            assert(m->Array_0[i as int] == a@[i as int]@);
                        }
                        return None;
                    },
                }
                i = i + 1;
            }
            proof {
                assert(array_model(out@) =~= numbers_canon_items(m->Array_0));
                assert forall|k: int| 0 <= k < m->Array_0.len() implies numbers_valid(#[trigger] m->Array_0[k]) by {
                    assert(m->Array_0[k] == a@[k]@);
                }
            }
            Some(serde_array(out))
        },
        JsonValue::Object(es) => {
            let ghost m = v@;
            let mut out: Vec<(String, serde_json::Value)> = Vec::new();
            let mut i: usize = 0;
            while i < es.len()
                invariant
                    i <= es.len(),
                    m == v@,
                    *v == JsonValue::Object(*es),
                    keys_sorted(v@),
                    out@.len() == i,
                    forall|k: int| 0 <= k < i ==> numbers_valid(#[trigger] es@[k].1@),
                    forall|k: int| 0 <= k < i ==> (#[trigger] out@[k]).0@ == es@[k].0@ && serde_model(out@[k].1) == numbers_canon(es@[k].1@),
                decreases es.len() - i,
            {
                proof {
                    assert(decreases_to!(*v => *es));
                    assert(decreases_to!(*es => es@[i as int]));
                    assert(decreases_to!(es@[i as int] => es@[i as int].1));
                    assert(entries_view(es@)[i as int].1 == es@[i as int].1@);
                }
                match serde_of_sorted(&es[i].1) {
                    Some(c) => {
                        let k = es[i].0.clone();
                        out.push((k, c));
                    },
                    None => {
                        proof {
                            assert(m->Object_0[i as int].1 == es@[i as int].1@);
                        }
                        return None;
                    },
                }
                i = i + 1;
            }
            proof {
                assert(object_model(out@) =~= numbers_canon_entries(m->Object_0));
                let om = object_model(out@);
                assert forall|x: int, y: int| 0 <= x < y < om.len() implies key_lt(#[trigger] om[x].0, #[trigger] om[y].0) by {
                    assert(om[x].0 == m->Object_0[x].0 && om[y].0 == m->Object_0[y].0);
                }
                assert forall|k: int| 0 <= k < m->Object_0.len() implies numbers_valid(#[trigger] m->Object_0[k].1) by {
                    assert(m->Object_0[k].1 == es@[k].1@);
                }
            }
            Some(serde_object(out))
        },
    }
}

} // verus!
