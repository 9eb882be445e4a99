//! The deterministic hasher: object keys sorted at every depth, the tree
//! written compactly, and the SHA-256 digest of that text in lowercase hex.
use vstd::prelude::*;
use core::cmp::Ordering;
use crate::error::CoreResult;
use crate::json_text::{
    canonical_entries, canonical_items, json_parse, json_text, keys_sorted, numbers_valid, serde_form,
    sorted_keys,
};
use crate::normalize::{
    json_roundtrip_normalize, lemma_canonical_fixed, lemma_serde_form_keys_sorted,
    lemma_serde_form_numbers_valid,
    normalized_text, normalized_value, parse_json, write_json,
};
use crate::order::{
    compare_keys, entry_map, key_lt, keys_ascending, lemma_entry_map_dom, lemma_entry_map_unique,
    lemma_key_lt_irreflexive, lemma_key_lt_transitive, lemma_sorted_entries_of_ascending,
};
use crate::value::{entries_view, items_view, Json, JsonValue};
use vstd::utf8::encode_utf8;

verus! {

/// The SHA-256 digest of a byte string.
pub uninterp spec fn sha256_of(b: Seq<u8>) -> Seq<u8>;

/// Relies on sha2::Sha256: the 32-byte digest of the input.
#[verifier::external_body]
fn sha256_digest(b: &[u8]) -> (r: Vec<u8>)
    ensures
        r@ == sha256_of(b@),
        r@.len() == 32,
{
    <sha2::Sha256 as sha2::Digest>::digest(b).to_vec()
}

pub open spec fn hex_digits() -> Seq<char> {
    seq!['0', '1', '2', '3', '4', '5', '6', '7', '8', '9', 'a', 'b', 'c', 'd', 'e', 'f']
}

/// Two lowercase hex digits for each byte, high nibble first.
pub open spec fn hex_of(b: Seq<u8>) -> Seq<char> {
    Seq::new(
        2 * b.len(),
        |i: int| if i % 2 == 0 { hex_digits()[(b[i / 2] / 16) as int] } else { hex_digits()[(b[i / 2] % 16) as int] },
    )
}

pub open spec fn is_lower_hex(c: char) -> bool {
    ('0' <= c && c <= '9') || ('a' <= c && c <= 'f')
}

/// The hash of a value tree: its keys sorted, written compactly, digested
/// and put in hex.
pub open spec fn value_hash(j: Json) -> Seq<char> {
    hex_of(sha256_of(encode_utf8(json_text(serde_form(sorted_keys(j))))))
}

/// The hash of a JSON text: that of its normalized value tree.
pub open spec fn text_hash(text: Seq<char>) -> Seq<char> {
    value_hash(normalized_value(text)->0)
}

pub proof fn lemma_hex_of_lower(b: Seq<u8>)
    ensures
        hex_of(b).len() == 2 * b.len(),
        forall|i: int| 0 <= i < hex_of(b).len() ==> is_lower_hex(#[trigger] hex_of(b)[i]),
{
    assert forall|d: int| 0 <= d < 16 implies is_lower_hex(#[trigger] hex_digits()[d]) by {
        assert(hex_digits().len() == 16);
    }
    assert forall|i: int| 0 <= i < hex_of(b).len() implies is_lower_hex(#[trigger] hex_of(b)[i]) by {
        let x = b[i / 2];
        assert(0 <= x / 16 < 16);
        assert(0 <= x % 16 < 16);
    }
}

pub(crate) fn hex_digit(d: u8) -> (r: &'static str)
    requires
        d < 16,
    ensures
        r@ == seq![hex_digits()[d as int]],
{
    proof {
        reveal_strlit("0");
        reveal_strlit("1");
        reveal_strlit("2");
        reveal_strlit("3");
        reveal_strlit("4");
        reveal_strlit("5");
        reveal_strlit("6");
        reveal_strlit("7");
        reveal_strlit("8");
        reveal_strlit("9");
        reveal_strlit("a");
        reveal_strlit("b");
        reveal_strlit("c");
        reveal_strlit("d");
        reveal_strlit("e");
        reveal_strlit("f");
    }
    let r = match d {
        0 => "0",
        1 => "1",
        2 => "2",
        3 => "3",
        4 => "4",
        5 => "5",
        6 => "6",
        7 => "7",
        8 => "8",
        9 => "9",
        10 => "a",
        11 => "b",
        12 => "c",
        13 => "d",
        14 => "e",
        _ => "f",
    };
    proof {
        assert(r@ =~= seq![hex_digits()[d as int]]);
    }
    r
}

/// Lowercase hex of a byte string.
pub fn to_hex(b: &[u8]) -> (r: String)
    ensures
        r@ == hex_of(b@),
{
    let mut s = String::new();
    let mut i: usize = 0;
    while i < b.len()
        invariant
            i <= b.len(),
            s@ =~= hex_of(b@.subrange(0, i as int)),
        decreases b.len() - i,
    {
        let x = b[i];
        s.append(hex_digit(x / 16));
        s.append(hex_digit(x % 16));
        proof {
            assert(hex_of(b@.subrange(0, i + 1)) =~= hex_of(b@.subrange(0, i as int)) + seq![
                hex_digits()[(x / 16) as int],
                hex_digits()[(x % 16) as int],
            ]);
        }
        i = i + 1;
    }
    proof {
        assert(b@.subrange(0, b@.len() as int) =~= b@);
    }
    s
}

/// In a key-ascending entry list each key maps to the value beside it,
/// and the mapping holds no other key.
proof fn lemma_ascending_map<V>(s: Seq<(Seq<char>, V)>)
    requires
        keys_ascending(s),
    ensures
        forall|i: int| 0 <= i < s.len() ==> entry_map(s).dom().contains(#[trigger] s[i].0)
            && entry_map(s)[s[i].0] == s[i].1,
        forall|x: Seq<char>| entry_map(s).dom().contains(x) ==> exists|i: int| 0 <= i < s.len() && #[trigger] s[i].0 == x,
{
    assert forall|i: int| 0 <= i < s.len() implies entry_map(s).dom().contains(#[trigger] s[i].0)
        && entry_map(s)[s[i].0] == s[i].1 by {
        assert forall|j: int| 0 <= j < s.len() && j != i implies s[j].0 != s[i].0 by {
            lemma_key_lt_irreflexive(s[i].0);
        }
        lemma_entry_map_unique(s, i);
    }
    assert forall|x: Seq<char>| entry_map(s).dom().contains(x) implies exists|i: int| 0 <= i < s.len() && #[trigger] s[i].0 == x by {
        lemma_entry_map_dom(s, x);
    }
}

/// Adds an entry to a key-ascending list, replacing the entry with the same
/// key if there is one.
#[verifier::rlimit(40)]
pub(crate) fn insert_entry(out: &mut Vec<(String, JsonValue)>, k: String, v: JsonValue)
    requires
        keys_ascending(entries_view(old(out)@)),
    ensures
        keys_ascending(entries_view(final(out)@)),
        entry_map(entries_view(final(out)@)) == entry_map(entries_view(old(out)@)).insert(k@, v@),
        forall|i: int| 0 <= i < final(out)@.len() ==> (#[trigger] final(out)@[i]) == (k, v) || exists|j: int|
            0 <= j < old(out)@.len() && old(out)@[j] == final(out)@[i],
{
    let ghost ov = entries_view(out@);
    proof {
        lemma_ascending_map(ov);
    }
    let mut j: usize = 0;
    while j < out.len() && matches!(compare_keys(out[j].0.as_str(), k.as_str()), Ordering::Less)
        invariant
            j <= out.len(),
            ov == entries_view(out@),
            forall|t: int| 0 <= t < j ==> key_lt(#[trigger] ov[t].0, k@),
        decreases out.len() - j,
    {
        j = j + 1;
    }
    let n = out.len();
    let c = if j < n {
        compare_keys(out[j].0.as_str(), k.as_str())
    } else {
        Ordering::Greater
    };
    if matches!(c, Ordering::Equal) {
        out.set(j, (k, v));
        proof {
            assert(ov[j as int].0 == k@);
            let nv = entries_view(out@);
            assert(nv =~= ov.update(j as int, (k@, v@)));
            assert(keys_ascending(nv));
            lemma_ascending_map(nv);
            let m = entry_map(ov).insert(k@, v@);
            assert forall|x: Seq<char>| entry_map(nv).dom().contains(x) <==> m.dom().contains(x) by {
                if entry_map(nv).dom().contains(x) {
                    let i = choose|i: int| 0 <= i < nv.len() && #[trigger] nv[i].0 == x;
                    assert(ov[i].0 == x || i == j);
                }
                if entry_map(ov).dom().contains(x) {
                    let i = choose|i: int| 0 <= i < ov.len() && #[trigger] ov[i].0 == x;
                    assert(nv[i].0 == x);
                }
            }
            assert forall|x: Seq<char>| #[trigger] entry_map(nv).dom().contains(x) implies entry_map(nv)[x] == m[x] by {
                let i = choose|i: int| 0 <= i < nv.len() && #[trigger] nv[i].0 == x;
                if i != j {
                    assert(ov[i] == nv[i]);
                }
            }
            assert(entry_map(nv) =~= m);
        }
    } else {
        let ghost cmp_greater = j < n;
        proof {
            if j < n {
                lemma_key_lt_irreflexive(k@);
                assert(key_lt(k@, ov[j as int].0));
            }
        }
        out.insert(j, (k, v));
        proof {
            let nv = entries_view(out@);
            assert(nv =~= ov.insert(j as int, (k@, v@)));
            assert forall|a: int, b: int| 0 <= a < b < nv.len() implies key_lt(#[trigger] nv[a].0, #[trigger] nv[b].0) by {
                if a < j && b == j {
                } else if a < j && b > j {
                    assert(nv[b] == ov[b - 1]);
                    assert(key_lt(ov[a].0, k@));
                    assert(key_lt(k@, ov[j as int].0));
                    if b - 1 > j {
                        assert(key_lt(ov[j as int].0, ov[b - 1].0));
                        lemma_key_lt_transitive(k@, ov[j as int].0, ov[b - 1].0);
                    }
                    lemma_key_lt_transitive(ov[a].0, k@, ov[b - 1].0);
                } else if a == j {
                    assert(nv[b] == ov[b - 1]);
                    if b - 1 > j {
                        assert(key_lt(ov[j as int].0, ov[b - 1].0));
                        lemma_key_lt_transitive(k@, ov[j as int].0, ov[b - 1].0);
                    }
                } else if a > j {
                    assert(nv[a] == ov[a - 1] && nv[b] == ov[b - 1]);
                } else {
                    assert(nv[a] == ov[a] && nv[b] == ov[b]);
                }
            }
            lemma_ascending_map(nv);
            let m = entry_map(ov).insert(k@, v@);
            assert forall|x: Seq<char>| entry_map(nv).dom().contains(x) <==> m.dom().contains(x) by {
                if x == k@ {
                    assert(nv[j as int].0 == k@);
                }
                if entry_map(nv).dom().contains(x) {
                    let i = choose|i: int| 0 <= i < nv.len() && #[trigger] nv[i].0 == x;
                    if i < j {
                        assert(ov[i].0 == x);
                    } else if i > j {
                        assert(ov[i - 1].0 == x);
                    }
                }
                if entry_map(ov).dom().contains(x) {
                    let i = choose|i: int| 0 <= i < ov.len() && #[trigger] ov[i].0 == x;
                    if i < j {
                        assert(nv[i].0 == x);
                    } else {
                        assert(nv[i + 1].0 == x);
                    }
                }
            }
            assert forall|x: Seq<char>| #[trigger] entry_map(nv).dom().contains(x) implies entry_map(nv)[x] == m[x] by {
                let i = choose|i: int| 0 <= i < nv.len() && #[trigger] nv[i].0 == x;
                if i < j {
                    assert(nv[i] == ov[i]);
                    lemma_key_lt_irreflexive(k@);
                } else if i > j {
                    assert(nv[i] == ov[i - 1]);
                    lemma_key_lt_irreflexive(k@);
                    if i - 1 > j {
                        assert(key_lt(ov[j as int].0, ov[i - 1].0));
                        lemma_key_lt_transitive(k@, ov[j as int].0, ov[i - 1].0);
                    }
                }
            }
            assert(entry_map(nv) =~= m);
        }
    }
}

/// Rebuilds the tree with the keys of every object in ascending byte order;
/// a later member replaces an earlier one with the same key. Arrays keep
/// their order.
pub fn sort_keys_recursively(v: &JsonValue) -> (r: JsonValue)
    ensures
        r@ == sorted_keys(v@),
        keys_sorted(r@),
    decreases v,
{
    match v {
        JsonValue::Object(es) => {
            let ghost cv = canonical_entries(entries_view(es@));
            let mut out: Vec<(String, JsonValue)> = Vec::new();
            let mut i: usize = 0;
            proof {
                assert(entries_view(out@) =~= Seq::empty());
                assert(cv.subrange(0, 0) =~= Seq::empty());
            }
            while i < es.len()
                invariant
                    i <= es.len(),
                    *v == JsonValue::Object(*es),
                    cv == canonical_entries(entries_view(es@)),
                    keys_ascending(entries_view(out@)),
                    forall|k: int| 0 <= k < out@.len() ==> keys_sorted(#[trigger] out@[k].1@),
                    entry_map(entries_view(out@)) == entry_map(cv.subrange(0, i as int)),
                decreases es.len() - i,
            {
                proof {
                    assert(decreases_to!(*v => v->Object_0));
                    assert(decreases_to!(*es => es@[i as int]));
                    assert(decreases_to!(es@[i as int] => es@[i as int].1));
                }
                let c = sort_keys_recursively(&es[i].1);
                let k = es[i].0.clone();
                let ghost before = out@;
                let ghost kc = (k, c);
                insert_entry(&mut out, k, c);
                proof {
                    assert(cv.subrange(0, i + 1).drop_last() =~= cv.subrange(0, i as int));
                    assert forall|t: int| 0 <= t < out@.len() implies keys_sorted(#[trigger] out@[t].1@) by {
                        if out@[t] != kc {
                            let j = choose|j: int| 0 <= j < before.len() && before[j] == out@[t];
                            assert(keys_sorted(before[j].1@));
                        }
                    }
                }
                i = i + 1;
            }
            proof {
                assert(cv.subrange(0, es@.len() as int) =~= cv);
                lemma_sorted_entries_of_ascending(entries_view(out@));
                let ov = entries_view(out@);
                assert forall|t: int| 0 <= t < ov.len() implies keys_sorted(#[trigger] ov[t].1) by {
                    assert(ov[t].1 == out@[t].1@);
                }
            }
            JsonValue::Object(out)
        },
        JsonValue::Array(a) => {
            let mut out: Vec<JsonValue> = Vec::new();
            let mut i: usize = 0;
            while i < a.len()
                invariant
                    i <= a.len(),
                    *v == JsonValue::Array(*a),
                    out@.len() == i,
                    forall|k: int| 0 <= k < i ==> (#[trigger] out@[k])@ == sorted_keys(a@[k]@),
                    forall|k: int| 0 <= k < i ==> keys_sorted((#[trigger] out@[k])@),
                decreases a.len() - i,
            {
                proof {
                    assert(decreases_to!(*v => v->Array_0));
                    assert(decreases_to!(*a => a@[i as int]));
                }
                out.push(sort_keys_recursively(&a[i]));
                i = i + 1;
            }
            proof {
                assert(items_view(out@) =~= canonical_items(items_view(a@)));
                let ov = items_view(out@);
                assert forall|t: int| 0 <= t < ov.len() implies keys_sorted(#[trigger] ov[t]) by {
                    assert(ov[t] == out@[t]@);
                }
            }
            JsonValue::Array(out)
        },
        _ => v.copy(),
    }
}

/// Hashes a value tree: its keys sorted at every depth, written compactly,
/// digested with SHA-256 and put in lowercase hex. Fails where a number
/// text that the sorted tree keeps is not a JSON number.
pub fn hash_json_value_deterministic(v: &JsonValue) -> (r: CoreResult<String>)
    ensures
        r is Ok <==> numbers_valid(sorted_keys(v@)),
        r matches Ok(h) ==> h@ == value_hash(v@),
        r matches Ok(h) ==> h@.len() == 64 && forall|i: int| 0 <= i < 64 ==> is_lower_hex(#[trigger] h@[i]),
        r matches Err(e) ==> e is SerializationError,
{
    let sorted = sort_keys_recursively(v);
    proof {
        lemma_canonical_fixed(sorted@);
    }
    let compact = write_json(&sorted)?;
    let digest = sha256_digest(compact.as_str().as_bytes());
    let h = to_hex(digest.as_slice());
    proof {
        lemma_hex_of_lower(digest@);
    }
    Ok(h)
}

/// Normalizes a JSON text and hashes its normalized value tree.
pub fn normalize_and_hash(payload_json: &str) -> (r: CoreResult<(String, String)>)
    ensures
        r is Ok <==> json_parse(payload_json@) is Some,
        r matches Ok(p) ==> p.0@ == normalized_text(payload_json@) && p.1@ == text_hash(payload_json@),
        r matches Ok(p) ==> p.1@.len() == 64 && forall|i: int| 0 <= i < 64 ==> is_lower_hex(#[trigger] p.1@[i]),
        r matches Err(e) ==> e is InvalidJson,
{
    let input = parse_json(payload_json)?;
    proof {
        crate::normalize::lemma_parsed_normalizable(input@);
    }
    let normalized = match json_roundtrip_normalize(&input) {
        Ok(n) => n,
        Err(e) => {
            proof {
                assert(false);
            }
            return Err(e);
        },
    };
    proof {
        lemma_serde_form_numbers_valid(normalized@);
        lemma_serde_form_keys_sorted(normalized@);
        lemma_canonical_fixed(normalized@);
    }
    let normalized_json = match write_json(&normalized) {
        Ok(t) => t,
        Err(e) => {
            proof {
                assert(false);
            }
            return Err(e);
        },
    };
    let hash = match hash_json_value_deterministic(&normalized) {
        Ok(h) => h,
        Err(e) => {
            proof {
                assert(false);
            }
            return Err(e);
        },
    };
    Ok((normalized_json, hash))
}

/// The hash of a JSON text: that of its normalized value tree, as 64
/// lowercase hex digits.
pub fn deterministic_hash(payload_json: &str) -> (r: CoreResult<String>)
    ensures
        r is Ok <==> json_parse(payload_json@) is Some,
        r matches Ok(h) ==> h@ == text_hash(payload_json@),
        r matches Ok(h) ==> h@.len() == 64 && forall|i: int| 0 <= i < 64 ==> is_lower_hex(#[trigger] h@[i]),
        r matches Err(e) ==> e is InvalidJson,
{
    let (_, hash) = normalize_and_hash(payload_json)?;
    Ok(hash)
}

} // verus!
