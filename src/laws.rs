//! Properties that relate several operations of the library.
use vstd::prelude::*;
use crate::export_request_proto::batch_of;
use crate::hash::{text_hash, value_hash};
use crate::json_text::{canonical, canonical_entries, canonical_items, json_parse, numbers_valid, sorted_keys};
use crate::normalize::normalized_text;
use crate::order::{entry_map, lemma_entry_map_dom, lemma_entry_map_unique};
use crate::span_proto::{built_span, span_decoding, BuildSpanProtoInput};
use crate::value::Json;

verus! {

/// No key occurs twice among the members.
pub open spec fn keys_unique(es: Seq<(Seq<char>, Json)>) -> bool {
    forall|i: int, j: int| 0 <= i < es.len() && 0 <= j < es.len() && i != j ==> es[i].0 != es[j].0
}

/// Two value trees that differ at most in the order of the members of
/// their objects, at any depth; the objects have no repeated keys.
pub open spec fn same_but_key_order(a: Json, b: Json) -> bool
    decreases a,
{
    match a {
        Json::Array(x) => match b {
            Json::Array(y) => x.len() == y.len() && forall|i: int|
                0 <= i < x.len() ==> same_but_key_order(#[trigger] x[i], y[i]),
            _ => false,
        },
        Json::Object(x) => match b {
            Json::Object(y) => {
                &&& keys_unique(x)
                &&& keys_unique(y)
                &&& forall|i: int|
                    0 <= i < x.len() ==> exists|j: int|
                        0 <= j < y.len() && #[trigger] x[i].0 == #[trigger] y[j].0 && same_but_key_order(
                            x[i].1,
                            y[j].1,
                        )
                &&& forall|j: int|
                    0 <= j < y.len() ==> exists|i: int| 0 <= i < x.len() && #[trigger] x[i].0 == #[trigger] y[j].0
            },
            _ => false,
        },
        _ => a == b,
    }
}

proof fn lemma_canonical_entries_keys(es: Seq<(Seq<char>, Json)>)
    requires
        keys_unique(es),
    ensures
        forall|i: int| 0 <= i < es.len() ==> entry_map(canonical_entries(es)).dom().contains(#[trigger] es[i].0)
            && entry_map(canonical_entries(es))[es[i].0] == canonical(es[i].1),
        forall|k: Seq<char>| #[trigger] entry_map(canonical_entries(es)).dom().contains(k) ==> exists|i: int|
            0 <= i < es.len() && es[i].0 == k,
{
    let c = canonical_entries(es);
    assert forall|i: int| 0 <= i < es.len() implies entry_map(c).dom().contains(#[trigger] es[i].0)
        && entry_map(c)[es[i].0] == canonical(es[i].1) by {
        assert forall|j: int| 0 <= j < c.len() && j != i implies c[j].0 != c[i].0 by {}
        lemma_entry_map_unique(c, i);
    }
    assert forall|k: Seq<char>| #[trigger] entry_map(c).dom().contains(k) implies exists|i: int|
        0 <= i < es.len() && es[i].0 == k by {
        lemma_entry_map_dom(c, k);
        let i = choose|i: int| 0 <= i < c.len() && c[i].0 == k;
        assert(es[i].0 == k);
    }
}

proof fn lemma_same_entry_map(x: Seq<(Seq<char>, Json)>, y: Seq<(Seq<char>, Json)>)
    requires
        keys_unique(x),
        keys_unique(y),
        forall|i: int| 0 <= i < x.len() ==> exists|j: int|
            0 <= j < y.len() && #[trigger] x[i].0 == #[trigger] y[j].0 && canonical(x[i].1)
                == canonical(y[j].1),
        forall|j: int| 0 <= j < y.len() ==> exists|i: int| 0 <= i < x.len() && #[trigger] x[i].0 == #[trigger] y[j].0,
    ensures
        entry_map(canonical_entries(x)) == entry_map(canonical_entries(y)),
{
    lemma_canonical_entries_keys(x);
    lemma_canonical_entries_keys(y);
    let mx = entry_map(canonical_entries(x));
    let my = entry_map(canonical_entries(y));
    assert forall|k: Seq<char>| mx.dom().contains(k) <==> my.dom().contains(k) by {
        if mx.dom().contains(k) {
            let i = choose|i: int| 0 <= i < x.len() && x[i].0 == k;
            let j = choose|j: int| 0 <= j < y.len() && #[trigger] x[i].0 == #[trigger] y[j].0 && canonical(x[i].1) == canonical(y[j].1);
            assert(my.dom().contains(y[j].0));
        }
        if my.dom().contains(k) {
            let j = choose|j: int| 0 <= j < y.len() && y[j].0 == k;
            let i = choose|i: int| 0 <= i < x.len() && #[trigger] x[i].0 == #[trigger] y[j].0;
            assert(mx.dom().contains(x[i].0));
        }
    }
    assert forall|k: Seq<char>| #[trigger] mx.dom().contains(k) implies mx[k] == my[k] by {
        let i = choose|i: int| 0 <= i < x.len() && x[i].0 == k;
        let j = choose|j: int| 0 <= j < y.len() && #[trigger] x[i].0 == #[trigger] y[j].0 && canonical(x[i].1) == canonical(y[j].1);
        assert(mx[x[i].0] == canonical(x[i].1));
        assert(my[y[j].0] == canonical(y[j].1));
    }
    assert(mx =~= my);
}

/// Trees that differ only in the order of object members have the same
/// canonical form.
pub proof fn lemma_canonical_key_order(a: Json, b: Json)
    requires
        same_but_key_order(a, b),
    ensures
        canonical(a) == canonical(b),
    decreases a,
{
    match a {
        Json::Array(x) => {
            let y = b->Array_0;
            assert forall|i: int| 0 <= i < x.len() implies canonical(x[i]) == canonical(y[i]) by {
                lemma_canonical_key_order(x[i], y[i]);
            }
            assert(canonical_items(x) =~= canonical_items(y));
        },
        Json::Object(x) => {
            let y = b->Object_0;
            assert forall|i: int| 0 <= i < x.len() implies exists|j: int|
                0 <= j < y.len() && #[trigger] x[i].0 == #[trigger] y[j].0 && canonical(x[i].1)
                    == canonical(y[j].1) by {
                let j = choose|j: int| 0 <= j < y.len() && #[trigger] x[i].0 == #[trigger] y[j].0 && same_but_key_order(x[i].1, y[j].1);
                lemma_canonical_key_order(x[i].1, y[j].1);
            }
            lemma_same_entry_map(x, y);
        },
        _ => {},
    }
}

/// The deterministic hash of a value tree does not depend on the order of
/// object members at any depth, and neither does whether hashing succeeds.
pub proof fn law_hash_ignores_key_order(a: Json, b: Json)
    requires
        same_but_key_order(a, b),
    ensures
        value_hash(a) == value_hash(b),
        numbers_valid(sorted_keys(a)) == numbers_valid(sorted_keys(b)),
{
    lemma_canonical_key_order(a, b);
}

/// Two JSON texts whose value trees differ only in the order of object
/// members normalize to the same text and have the same hash.
pub proof fn law_text_hash_ignores_key_order(a: Seq<char>, b: Seq<char>)
    requires
        json_parse(a) is Some,
        json_parse(b) is Some,
        same_but_key_order(json_parse(a)->0, json_parse(b)->0),
    ensures
        text_hash(a) == text_hash(b),
        normalized_text(a) == normalized_text(b),
{
    lemma_canonical_key_order(json_parse(a)->0, json_parse(b)->0);
}

/// An export batch built from span encodings that the span builder produced
/// decodes to spans with the trace and span identifiers they were built
/// with, in order, beside the batch's own identity strings.
pub proof fn law_batch_keeps_span_identity(
    inputs: Seq<BuildSpanProtoInput>,
    encodings: Seq<Vec<u8>>,
    observable_service_id: Seq<char>,
    environment: Seq<char>,
    sdk_version: Seq<char>,
    sdk_instance_id: Seq<char>,
)
    requires
        inputs.len() == encodings.len(),
        forall|i: int| 0 <= i < encodings.len() ==> span_decoding(#[trigger] encodings[i]@) == Some(built_span(inputs[i])),
    ensures
        ({
            let batch = batch_of(observable_service_id, environment, sdk_version, sdk_instance_id, encodings);
            &&& batch.observable_service_id == observable_service_id
            &&& batch.spans.len() == inputs.len()
            &&& forall|i: int| 0 <= i < inputs.len() ==> (#[trigger] batch.spans[i]).trace_id == inputs[i].trace_id@
                && batch.spans[i].span_id == inputs[i].span_id@
        }),
{
    let batch = batch_of(observable_service_id, environment, sdk_version, sdk_instance_id, encodings);
    assert forall|i: int| 0 <= i < inputs.len() implies (#[trigger] batch.spans[i]).trace_id == inputs[i].trace_id@
        && batch.spans[i].span_id == inputs[i].span_id@ by {
        assert(span_decoding(encodings[i]@) == Some(built_span(inputs[i])));
    }
}

} // verus!
