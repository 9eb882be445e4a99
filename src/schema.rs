//! The schema inferencer, and the decode transforms that merge rules apply
//! to the fields of a top-level object.
use vstd::prelude::*;
use vstd::utf8::encode_utf8;
use crate::hash::insert_entry;
use crate::json_text::{
    int_text, is_serde_form, json_parse, keys_sorted, number_canon, numbers_valid,
    serde_integer_text,
};
use crate::merge_rule::{find_rule, rule_for, rules_view, MergeRule, RuleModel};
use crate::normalize::parse_json;
use crate::order::{
    entry_map, keys_ascending, lemma_sorted_entries_of_ascending, sorted_entries,
};
use crate::value::{entries_view, Json, JsonValue};

verus! {

/// The bytes that the standard base64 alphabet decodes from these bytes,
/// or `None` where they are not valid base64.
pub uninterp spec fn base64_decoded(b: Seq<u8>) -> Option<Seq<u8>>;

/// The text that a lossy UTF-8 reading of these bytes gives.
pub uninterp spec fn lossy_text(b: Seq<u8>) -> Seq<char>;

/// Relies on base64's general_purpose::STANDARD engine: decodes standard,
/// padded base64.
#[verifier::external_body]
fn base64_decode(b: &[u8]) -> (r: Option<Vec<u8>>)
    ensures
        r is Some <==> base64_decoded(b@) is Some,
        r matches Some(x) ==> base64_decoded(b@) == Some(x@),
{
    <base64::engine::GeneralPurpose as base64::Engine>::decode(
        &base64::engine::general_purpose::STANDARD,
        b,
    ).ok()
}

/// Relies on String::from_utf8_lossy: invalid sequences become U+FFFD.
#[verifier::external_body]
fn lossy_utf8(b: &[u8]) -> (r: String)
    ensures
        r@ == lossy_text(b@),
{
    String::from_utf8_lossy(b).into_owned()
}

/// A field's value after a rule's decode transforms: base64 first, where
/// the rule's `encoding` is 1, then embedded JSON, where its
/// `decoded_type` is 1. A transform that fails leaves the value as it is.
pub open spec fn decode_value(v: Json, r: RuleModel) -> Json {
    let a = if r.encoding == Some(1i32) && v is Str && base64_decoded(encode_utf8(v->Str_0)) is Some {
        Json::Str(lossy_text(base64_decoded(encode_utf8(v->Str_0))->0))
    } else {
        v
    };
    if r.decoded_type == Some(1i32) && a is Str && json_parse(a->Str_0) is Some {
        json_parse(a->Str_0)->0
    } else {
        a
    }
}

/// The decoded value: each member of a top-level object that has a rule,
/// decoded by it; anything else is left as it is.
pub open spec fn decoded_of(m: Json, rules: Seq<(Seq<char>, RuleModel)>) -> Json {
    if rules.len() == 0 {
        m
    } else {
        match m {
            Json::Object(es) => Json::Object(
                Seq::new(
                    es.len(),
                    |i: int|
                        (
                            es[i].0,
                            match rule_for(rules, es[i].0) {
                                Some(r) => decode_value(es[i].1, r),
                                None => es[i].1,
                            },
                        ),
                ),
            ),
            _ => m,
        }
    }
}

fn decode_value_exec(v: &JsonValue, rule: &MergeRule) -> (r: JsonValue)
    ensures
        r@ == decode_value(v@, rule@),
        is_serde_form(v@) ==> is_serde_form(r@),
{
    let mut w = v.copy();
    if matches!(rule.encoding, Some(1i32)) {
        let decoded = match &w {
            JsonValue::String(s) => base64_decode(s.as_str().as_bytes()),
            _ => None,
        };
        match decoded {
            Some(bytes) => {
                w = JsonValue::String(lossy_utf8(bytes.as_slice()));
            },
            None => {},
        }
    }
    if matches!(rule.decoded_type, Some(1i32)) {
        let parsed = match &w {
            JsonValue::String(s) => match parse_json(s.as_str()) {
                Ok(p) => Some(p),
                Err(_) => None,
            },
            _ => None,
        };
        match parsed {
            Some(p) => {
                w = p;
            },
            None => {},
        }
    }
    w
}

/// Applies the decode transforms of the rules to the members of a
/// top-level object; a value that is not an object, or an empty rule map,
/// leaves the value as it is.
pub fn apply_schema_merges_top_level(normalized: &JsonValue, rules: &Vec<(String, MergeRule)>) -> (r: JsonValue)
    ensures
        r@ == decoded_of(normalized@, rules_view(rules@)),
        is_serde_form(normalized@) ==> is_serde_form(r@),
{
    if rules.len() == 0 {
        return normalized.copy();
    }
    match normalized {
        JsonValue::Object(es) => {
            let mut out: Vec<(String, JsonValue)> = Vec::new();
            let mut i: usize = 0;
            let ghost rv = rules_view(rules@);
            while i < es.len()
                invariant
                    i <= es.len(),
                    rules.len() > 0,
                    rv == rules_view(rules@),
                    *normalized == JsonValue::Object(*es),
                    out@.len() == i,
                    forall|k: int| 0 <= k < i ==> (#[trigger] out@[k]).0@ == es@[k].0@,
                    forall|k: int| 0 <= k < i ==> (#[trigger] out@[k]).1@ == match rule_for(rv, es@[k].0@) {
                        Some(r) => decode_value(es@[k].1@, r),
                        None => es@[k].1@,
                    },
                    is_serde_form(normalized@) ==> forall|k: int| 0 <= k < i ==> is_serde_form((#[trigger] out@[k]).1@),
                decreases es.len() - i,
            {
                let v = match find_rule(rules, es[i].0.as_str()) {
                    Some(rule) => decode_value_exec(&es[i].1, rule),
                    None => es[i].1.copy(),
                };
                proof {
                    if is_serde_form(normalized@) {
                        assert(entries_view(es@)[i as int].1 == es@[i as int].1@);
                    }
                }
                out.push((es[i].0.clone(), v));
                i = i + 1;
            }
            let r = JsonValue::Object(out);
            proof {
                let d = decoded_of(normalized@, rv);
                assert(entries_view(out@) =~= d->Object_0);
                if is_serde_form(normalized@) {
                    let ev = entries_view(es@);
                    let ov = entries_view(out@);
                    assert forall|a: int, b: int| 0 <= a < b < ov.len() implies crate::order::key_lt(#[trigger] ov[a].0, #[trigger] ov[b].0) by {
                        assert(ov[a].0 == ev[a].0 && ov[b].0 == ev[b].0);
                    }
                }
            }
            r
        },
        _ => normalized.copy(),
    }
}

/// The type code of a value: Number 1, String 2, Boolean 3, Null 4,
/// Object 6, OrderedList 7.
pub open spec fn type_code(j: Json) -> int {
    match j {
        Json::Null => 4,
        Json::Bool(_) => 3,
        Json::Number(_) => 1,
        Json::Str(_) => 2,
        Json::Array(_) => 7,
        Json::Object(_) => 6,
    }
}

/// The type code of a value.
pub fn json_type_code(value: &JsonValue) -> (r: i64)
    ensures
        r == type_code(value@),
{
    match value {
        JsonValue::Null => 4,
        JsonValue::Bool(_) => 3,
        JsonValue::Number(_) => 1,
        JsonValue::String(_) => 2,
        JsonValue::Array(_) => 7,
        JsonValue::Object(_) => 6,
    }
}

/// The members of a schema node without its properties and items: its
/// type code and an empty property map.
pub open spec fn base_map(j: Json) -> Map<Seq<char>, Json> {
    Map::empty().insert("type"@, Json::Number(int_text(type_code(j)))).insert(
        "properties"@,
        Json::Object(Seq::empty()),
    )
}

/// A schema node's members with a rule's annotations added.
pub open spec fn annotate_map(m: Map<Seq<char>, Json>, r: RuleModel) -> Map<Seq<char>, Json> {
    let m1 = match r.encoding {
        Some(e) => m.insert("encoding"@, Json::Number(int_text(e as int))),
        None => m,
    };
    let m2 = match r.decoded_type {
        Some(d) => m1.insert("decoded_type"@, Json::Number(int_text(d as int))),
        None => m1,
    };
    match r.match_importance {
        Some(w) => m2.insert("match_importance"@, Json::Number(w)),
        None => m2,
    }
}

/// The members of the schema node of a value: its type code, the schemas
/// of an object's members under `properties`, and the schema of an array's
/// first element under `items`. At the root, a member with a rule carries
/// the rule's annotations.
pub open spec fn schema_map(j: Json, rules: Seq<(Seq<char>, RuleModel)>, at_root: bool) -> Map<Seq<char>, Json>
    decreases j, 1nat,
{
    match j {
        Json::Array(a) => if a.len() > 0 {
            base_map(j).insert("items"@, Json::Object(sorted_entries(schema_map(a[0], Seq::empty(), false))))
        } else {
            base_map(j)
        },
        Json::Object(es) => base_map(j).insert(
            "properties"@,
            Json::Object(sorted_entries(entry_map(property_entries(es, rules, at_root)))),
        ),
        _ => base_map(j),
    }
}

pub open spec fn property_entries(es: Seq<(Seq<char>, Json)>, rules: Seq<(Seq<char>, RuleModel)>, at_root: bool) -> Seq<(Seq<char>, Json)>
    decreases es, 0nat,
{
    Seq::new(
        es.len(),
        |i: int|
            if 0 <= i < es.len() {
                (
                    es[i].0,
                    Json::Object(
                        sorted_entries(
                            if at_root && rule_for(rules, es[i].0) is Some {
                                annotate_map(schema_map(es[i].1, Seq::empty(), false), rule_for(rules, es[i].0)->0)
                            } else {
                                schema_map(es[i].1, Seq::empty(), false)
                            },
                        ),
                    ),
                )
            } else {
                (Seq::empty(), Json::Null)
            },
    )
}

/// The schema node of a value.
pub open spec fn schema_of(j: Json, rules: Seq<(Seq<char>, RuleModel)>, at_root: bool) -> Json {
    Json::Object(sorted_entries(schema_map(j, rules, at_root)))
}

/// Every member value in a list of entries has its keys sorted.
pub open spec fn entries_sorted(es: Seq<(String, JsonValue)>) -> bool {
    forall|i: int| 0 <= i < es.len() ==> keys_sorted(#[trigger] es[i].1@)
}

/// Every member value in a list of entries holds valid number texts only.
pub open spec fn entries_numbers_valid(es: Seq<(String, JsonValue)>) -> bool {
    forall|i: int| 0 <= i < es.len() ==> numbers_valid(#[trigger] es[i].1@)
}

fn put(out: &mut Vec<(String, JsonValue)>, k: String, v: JsonValue)
    requires
        keys_ascending(entries_view(old(out)@)),
        entries_sorted(old(out)@),
        keys_sorted(v@),
    ensures
        keys_ascending(entries_view(final(out)@)),
        entries_sorted(final(out)@),
        entries_numbers_valid(old(out)@) && numbers_valid(v@) ==> entries_numbers_valid(final(out)@),
        entry_map(entries_view(final(out)@)) == entry_map(entries_view(old(out)@)).insert(k@, v@),
{
    let ghost o = out@;
    let ghost kv = (k, v);
    insert_entry(out, k, v);
    proof {
        assert forall|i: int| 0 <= i < out@.len() implies keys_sorted(#[trigger] out@[i].1@) by {
            if out@[i] != kv {
                let j = choose|j: int| 0 <= j < o.len() && o[j] == out@[i];
                assert(keys_sorted(o[j].1@));
            }
        }
        if entries_numbers_valid(o) && numbers_valid(kv.1@) {
            assert forall|i: int| 0 <= i < out@.len() implies numbers_valid(#[trigger] out@[i].1@) by {
                if out@[i] != kv {
                    let j = choose|j: int| 0 <= j < o.len() && o[j] == out@[i];
                    assert(numbers_valid(o[j].1@));
                }
            }
        }
    }
}

proof fn lemma_object_facts(es: Seq<(String, JsonValue)>)
    requires
        keys_ascending(entries_view(es)),
        entries_sorted(es),
    ensures
        keys_sorted(Json::Object(entries_view(es))),
        entries_numbers_valid(es) ==> numbers_valid(Json::Object(entries_view(es))),
{
    let ev = entries_view(es);
    assert forall|i: int| 0 <= i < ev.len() implies keys_sorted(#[trigger] ev[i].1) by {
        assert(keys_sorted(es[i].1@));
    }
    if entries_numbers_valid(es) {
        assert forall|i: int| 0 <= i < ev.len() implies numbers_valid(#[trigger] ev[i].1) by {
            assert(numbers_valid(es[i].1@));
        }
    }
}

/// Rules whose weights are all JSON numbers.
pub open spec fn weights_valid(rules: Seq<(String, MergeRule)>) -> bool {
    forall|i: int| 0 <= i < rules.len() ==> ((#[trigger] rules[i]).1.match_importance matches Some(d) ==> number_canon(d@) is Some)
}

fn string_of(s: &str) -> (r: String)
    ensures
        r@ == s@,
{
    s.to_string()
}

/// Adds a rule's annotations to a schema node.
fn annotate(node: Vec<(String, JsonValue)>, rule: &MergeRule) -> (r: Vec<(String, JsonValue)>)
    requires
        keys_ascending(entries_view(node@)),
        entries_sorted(node@),
    ensures
        keys_ascending(entries_view(r@)),
        entries_sorted(r@),
        entries_numbers_valid(node@) && (rule.match_importance matches Some(d) ==> number_canon(d@)
            is Some) ==> entries_numbers_valid(r@),
        entry_map(entries_view(r@)) == annotate_map(entry_map(entries_view(node@)), rule@),
{
    let mut out = node;
    match rule.encoding {
        Some(e) => {
            let t = serde_integer_text(e as i64);
            put(&mut out, string_of("encoding"), JsonValue::Number(t));
        },
        None => {},
    }
    match rule.decoded_type {
        Some(d) => {
            let t = serde_integer_text(d as i64);
            put(&mut out, string_of("decoded_type"), JsonValue::Number(t));
        },
        None => {},
    }
    match &rule.match_importance {
        Some(w) => {
            put(&mut out, string_of("match_importance"), JsonValue::Number(w.clone()));
        },
        None => {},
    }
    out
}

/// The schema node of a value: a JSON object with the value's type code
/// under `type`, the schemas of an object's members under `properties`
/// (empty for any other value), and, for a non-empty array, the schema of
/// its first element under `items`; later elements are not looked at.
/// Where `at_object_root` holds, a member of the object with a rule
/// carries that rule's `encoding`, `decoded_type` and `match_importance`.
pub fn generate_schema_json_value(
    value: &JsonValue,
    rules: &Vec<(String, MergeRule)>,
    at_object_root: bool,
) -> (r: JsonValue)
    ensures
        r@ == schema_of(value@, rules_view(rules@), at_object_root),
        r@ is Object,
        entry_map(r@->Object_0) == schema_map(value@, rules_view(rules@), at_object_root),
        keys_sorted(r@),
        weights_valid(rules@) ==> numbers_valid(r@),
    decreases value,
{
    let ghost rv = rules_view(rules@);
    let ghost wv = weights_valid(rules@);
    let mut out: Vec<(String, JsonValue)> = Vec::new();
    let empty_rules: Vec<(String, MergeRule)> = Vec::new();
    proof {
        assert(rules_view(empty_rules@) =~= Seq::<(Seq<char>, RuleModel)>::empty());
        assert(entries_view(out@) =~= Seq::<(Seq<char>, Json)>::empty());
        assert(entry_map(entries_view(out@)) == Map::<Seq<char>, Json>::empty());
    }
    let code = serde_integer_text(json_type_code(value));
    proof {
        lemma_object_facts(out@);
    }
    put(&mut out, string_of("type"), JsonValue::Number(code));
    let no_props: Vec<(String, JsonValue)> = Vec::new();
    proof {
        assert(entries_view(no_props@) =~= Seq::<(Seq<char>, Json)>::empty());
    }
    put(&mut out, string_of("properties"), JsonValue::Object(no_props));
    proof {
        assert(entry_map(entries_view(out@)) == base_map(value@));
    }
    match value {
        JsonValue::Array(a) => {
            if a.len() > 0 {
                proof {
                    assert(decreases_to!(*value => value->Array_0));
                    assert(decreases_to!(*a => a@[0]));
                }
                let item = generate_schema_json_value(&a[0], &empty_rules, false);
                proof {
                    assert(value@->Array_0[0] == a@[0]@);
                }
                put(&mut out, string_of("items"), item);
            }
        },
        JsonValue::Object(es) => {
            let ghost ev = entries_view(es@);
            let ghost pe = property_entries(ev, rv, at_object_root);
            let mut props: Vec<(String, JsonValue)> = Vec::new();
            proof {
                assert(entries_view(props@) =~= Seq::<(Seq<char>, Json)>::empty());
                assert(pe.subrange(0, 0) =~= Seq::<(Seq<char>, Json)>::empty());
            }
            let mut i: usize = 0;
            while i < es.len()
                invariant
                    i <= es.len(),
                    *value == JsonValue::Object(*es),
                    ev == entries_view(es@),
                    rv == rules_view(rules@),
                    wv == weights_valid(rules@),
                    rules_view(empty_rules@) == Seq::<(Seq<char>, RuleModel)>::empty(),
                    empty_rules@.len() == 0,
                    pe == property_entries(ev, rv, at_object_root),
                    keys_ascending(entries_view(props@)),
                    entries_sorted(props@),
                    wv ==> entries_numbers_valid(props@),
                    entry_map(entries_view(props@)) == entry_map(pe.subrange(0, i as int)),
                decreases es.len() - i,
            {
                proof {
                    assert(decreases_to!(*value => value->Object_0));
                    assert(decreases_to!(*es => es@[i as int]));
                    assert(decreases_to!(es@[i as int] => es@[i as int].1));
                }
                let child = generate_schema_json_value(&es[i].1, &empty_rules, false);
                let ghost cm = schema_map(es@[i as int].1@, Seq::empty(), false);
                let ghost cv = child@;
                let node = match child {
                    JsonValue::Object(ces) => ces,
                    _ => {
                        proof {
                            assert(false);
                        }
                        Vec::new()
                    },
                };
                proof {
                    assert(cv == Json::Object(entries_view(node@)));
                    assert(entry_map(entries_view(node@)) == cm);
                    assert forall|t: int| 0 <= t < node@.len() implies keys_sorted(#[trigger] node@[t].1@) by {
                        assert(entries_view(node@)[t].1 == node@[t].1@);
                    }
                    assert forall|t: int| 0 <= t < node@.len() implies numbers_valid(#[trigger] node@[t].1@) by {
                        assert(entries_view(node@)[t].1 == node@[t].1@);
                    }
                }
                let node = if at_object_root {
                    match find_rule(rules, es[i].0.as_str()) {
                        Some(rule) => {
                            proof {
                                if wv {
                                    let j = choose|j: int| 0 <= j < rules@.len() && rules@[j].1 == *rule;
                                    assert(rules@[j].1.match_importance matches Some(d) ==> number_canon(d@) is Some);
                                }
                            }
                            annotate(node, rule)
                        },
                        None => node,
                    }
                } else {
                    node
                };
                let k = es[i].0.clone();
                proof {
                    lemma_object_facts(node@);
                    lemma_sorted_entries_of_ascending(entries_view(node@));
                    assert(pe[i as int].0 == k@);
                    assert(ev[i as int].1 == es@[i as int].1@);
                }
                put(&mut props, k, JsonValue::Object(node));
                proof {
                    assert(pe.subrange(0, i + 1).drop_last() =~= pe.subrange(0, i as int));
                }
                i = i + 1;
            }
            proof {
                assert(pe.subrange(0, es@.len() as int) =~= pe);
                lemma_sorted_entries_of_ascending(entries_view(props@));
                lemma_object_facts(props@);
            }
            put(&mut out, string_of("properties"), JsonValue::Object(props));
        },
        _ => {},
    }
    proof {
        lemma_sorted_entries_of_ascending(entries_view(out@));
        lemma_object_facts(out@);
    }
    JsonValue::Object(out)
}

} // verus!
