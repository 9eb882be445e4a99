//! The canonicalizer: a JSON text is read, written out compactly and read
//! again.
use vstd::prelude::*;
use crate::error::{CoreError, CoreResult};
use crate::json_text::{
    canonical, canonical_entries, canonical_items, from_serde, integers_only, is_serde_form, keys_sorted,
    max_depth, same_shape, numbers_canon, numbers_canon_entries, numbers_canon_items, sorted_keys, within_depth,
    json_parse, json_text, numbers_valid, serde_error_message, serde_form, serde_parse,
    serde_write, to_serde,
};
use crate::order::lemma_sorted_entries_of_ascending;
use crate::value::{Json, JsonValue};

verus! {

/// The value tree that normalization gives for a value tree: written out
/// as serde_json writes it and read back.
pub open spec fn roundtrip_model(m: Json) -> Option<Json> {
    json_parse(json_text(serde_form(m)))
}

/// The normalized value tree of a JSON text, if the text is JSON.
pub open spec fn normalized_value(text: Seq<char>) -> Option<Json> {
    match json_parse(text) {
        Some(m) => roundtrip_model(m),
        None => None,
    }
}

/// The normalized compact text of a JSON text.
pub open spec fn normalized_text(text: Seq<char>) -> Seq<char> {
    json_text(serde_form(normalized_value(text)->0))
}

pub proof fn lemma_serde_form_numbers_valid(j: Json)
    requires
        is_serde_form(j),
    ensures
        numbers_valid(j),
    decreases j,
{
    match j {
        Json::Array(a) => {
            assert forall|i: int| 0 <= i < a.len() implies numbers_valid(#[trigger] a[i]) by {
                lemma_serde_form_numbers_valid(a[i]);
            }
        },
        Json::Object(es) => {
            assert forall|i: int| 0 <= i < es.len() implies numbers_valid(#[trigger] es[i].1) by {
                lemma_serde_form_numbers_valid(es[i].1);
            }
        },
        _ => {},
    }
}

pub proof fn lemma_serde_form_keys_sorted(j: Json)
    requires
        is_serde_form(j),
    ensures
        keys_sorted(j),
    decreases j,
{
    match j {
        Json::Array(a) => {
            assert forall|i: int| 0 <= i < a.len() implies keys_sorted(#[trigger] a[i]) by {
                lemma_serde_form_keys_sorted(a[i]);
            }
        },
        Json::Object(es) => {
            assert forall|i: int| 0 <= i < es.len() implies keys_sorted(#[trigger] es[i].1) by {
                lemma_serde_form_keys_sorted(es[i].1);
            }
        },
        _ => {},
    }
}

/// A tree with its keys sorted everywhere is its own sorted form.
pub proof fn lemma_canonical_fixed(j: Json)
    requires
        keys_sorted(j),
    ensures
        canonical(j) == j,
    decreases j,
{
    match j {
        Json::Array(a) => {
            assert forall|i: int| 0 <= i < a.len() implies canonical(a[i]) == a[i] by {
                lemma_canonical_fixed(a[i]);
            }
            assert(canonical_items(a) =~= a);
        },
        Json::Object(es) => {
            assert forall|i: int| 0 <= i < es.len() implies canonical(es[i].1) == es[i].1 by {
                lemma_canonical_fixed(es[i].1);
            }
            assert(canonical_entries(es) =~= es);
            lemma_sorted_entries_of_ascending(es);
        },
        _ => {},
    }
}

/// The normalized value of a tree is defined: its numbers are JSON numbers
/// and serde_json reads back the text it writes for it.
pub open spec fn normalizable(m: Json) -> bool {
    numbers_valid(sorted_keys(m)) && roundtrip_model(m) is Some
}

pub proof fn lemma_numbers_canon_fixed(j: Json)
    requires
        is_serde_form(j),
        integers_only(j),
    ensures
        numbers_canon(j) == j,
    decreases j,
{
    match j {
        Json::Array(a) => {
            assert forall|i: int| 0 <= i < a.len() implies numbers_canon(a[i]) == a[i] by {
                lemma_numbers_canon_fixed(a[i]);
            }
            assert(numbers_canon_items(a) =~= a);
        },
        Json::Object(es) => {
            assert forall|i: int| 0 <= i < es.len() implies numbers_canon(es[i].1) == es[i].1 by {
                lemma_numbers_canon_fixed(es[i].1);
            }
            assert(numbers_canon_entries(es) =~= es);
        },
        _ => {},
    }
}

pub proof fn lemma_numbers_canon_depth(j: Json, d: nat)
    requires
        within_depth(j, d),
    ensures
        within_depth(numbers_canon(j), d),
    decreases j,
{
    match j {
        Json::Array(a) => {
            let ca = numbers_canon_items(a);
            assert forall|i: int| 0 <= i < ca.len() implies within_depth(#[trigger] ca[i], (d - 1) as nat) by {
                assert(ca[i] == numbers_canon(a[i]));
                lemma_numbers_canon_depth(a[i], (d - 1) as nat);
            }
        },
        Json::Object(es) => {
            let ce = numbers_canon_entries(es);
            assert forall|i: int| 0 <= i < ce.len() implies within_depth(#[trigger] ce[i].1, (d - 1) as nat) by {
                assert(ce[i].1 == numbers_canon(es[i].1));
                lemma_numbers_canon_depth(es[i].1, (d - 1) as nat);
            }
        },
        _ => {},
    }
}

/// A tree as serde_json reads it from text is normalizable.
pub proof fn lemma_parsed_normalizable(m: Json)
    requires
        is_serde_form(m),
        within_depth(m, max_depth()),
    ensures
        numbers_valid(m),
        sorted_keys(m) == m,
        within_depth(serde_form(m), max_depth()),
        keys_sorted(m),
        integers_only(m) ==> serde_form(m) == m,
{
    lemma_serde_form_numbers_valid(m);
    lemma_serde_form_keys_sorted(m);
    lemma_canonical_fixed(m);
    lemma_numbers_canon_depth(m, max_depth());
    if integers_only(m) {
        lemma_numbers_canon_fixed(m);
    }
}

/// Reads a JSON text.
pub fn parse_json(payload_json: &str) -> (r: CoreResult<JsonValue>)
    ensures
        r is Ok <==> json_parse(payload_json@) is Some,
        r matches Ok(v) ==> json_parse(payload_json@) == Some(v@) && is_serde_form(v@),
        r matches Ok(v) ==> within_depth(v@, max_depth()),
        r matches Err(e) ==> e is InvalidJson,
{
    match serde_parse(payload_json) {
        Ok(v) => Ok(from_serde(&v)),
        Err(e) => Err(CoreError::InvalidJson(serde_error_message(&e))),
    }
}

/// Writes a value tree as compact JSON text, keys sorted; fails where a
/// number text that the sorted tree keeps is not a JSON number.
pub fn write_json(v: &JsonValue) -> (r: CoreResult<String>)
    ensures
        r is Ok <==> numbers_valid(sorted_keys(v@)),
        r matches Ok(t) ==> t@ == json_text(serde_form(v@)),
        r matches Ok(t) ==> (within_depth(serde_form(v@), max_depth()) ==> json_parse(t@) is Some),
        r matches Ok(t) ==> (within_depth(serde_form(v@), max_depth()) ==> same_shape(
            json_parse(t@)->0,
            serde_form(v@),
        )),
        r matches Ok(t) ==> (within_depth(serde_form(v@), max_depth()) && integers_only(
            serde_form(v@),
        ) ==> json_parse(t@) == Some(serde_form(v@))),
        r matches Err(e) ==> e is SerializationError,
{
    match to_serde(v) {
        Some(s) => match serde_write(&s) {
            Ok(t) => Ok(t),
            Err(e) => Err(CoreError::SerializationError(serde_error_message(&e))),
        },
        None => Err(CoreError::SerializationError(String::from_str("number is not valid JSON"))),
    }
}

/// Writes a value tree out and reads it back. Fails where a number text is
/// not a JSON number, or where serde_json does not read back what it wrote
/// (arrays and objects nested deeper than it reads).
pub fn json_roundtrip_normalize(v: &JsonValue) -> (r: CoreResult<JsonValue>)
    ensures
        r is Ok <==> normalizable(v@),
        numbers_valid(sorted_keys(v@)) && within_depth(serde_form(v@), max_depth()) ==> r is Ok,
        r matches Ok(n) ==> Some(n@) == roundtrip_model(v@) && is_serde_form(n@) && within_depth(n@, max_depth()),
        r matches Ok(n) ==> (within_depth(serde_form(v@), max_depth()) && integers_only(serde_form(v@)) ==> n@ == serde_form(v@)),
        r matches Ok(n) ==> (within_depth(serde_form(v@), max_depth()) ==> same_shape(n@, serde_form(v@))),
        r matches Err(e) ==> e is SerializationError,
{
    let s = write_json(v)?;
    match serde_parse(s.as_str()) {
        Ok(p) => Ok(from_serde(&p)),
        Err(e) => Err(CoreError::SerializationError(serde_error_message(&e))),
    }
}

/// Normalizes a JSON text: read, written compactly, read again and
/// written. Normalizing the result again gives it back unchanged where the
/// text holds integers only.
pub fn normalize_json(payload_json: &str) -> (r: CoreResult<String>)
    ensures
        r is Ok <==> json_parse(payload_json@) is Some,
        r matches Ok(s) ==> s@ == normalized_text(payload_json@),
        r matches Ok(s) ==> (integers_only(json_parse(payload_json@)->0) ==> json_parse(s@) is Some
            && normalized_text(s@) == s@),
        r matches Err(e) ==> e is InvalidJson,
{
    let input = parse_json(payload_json)?;
    proof {
        lemma_parsed_normalizable(input@);
    }
    let normalized = match json_roundtrip_normalize(&input) {
        Ok(n) => n,
        Err(_) => {
            proof {
                assert(false);
            }
            return Err(CoreError::InvalidJson(String::from_str("value could not be normalized")));
        },
    };
    proof {
        lemma_parsed_normalizable(normalized@);
    }
    match write_json(&normalized) {
        Ok(s) => {
            proof {
                let m = input@;
                if integers_only(m) {
                    assert(normalized@ == m);
                    assert(json_parse(s@) == Some(m));
                    assert(normalized_value(s@) == roundtrip_model(m));
                }
            }
            Ok(s)
        },
        Err(_) => {
            proof {
                assert(false);
            }
            Err(CoreError::InvalidJson(String::from_str("value could not be written")))
        },
    }
}

} // verus!
