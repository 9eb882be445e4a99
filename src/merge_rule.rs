//! Decode-merge directives: per top-level field, how an encoded value is to
//! be decoded and annotated in the schema.
use vstd::prelude::*;
use crate::error::{CoreError, CoreResult};
use crate::json_text::{is_digit, is_integer_text, json_parse, number_canon};
use crate::normalize::parse_json;
use core::cmp::Ordering;
use crate::order::{compare_keys, entry_map, keys_ascending, lemma_entry_map_dom, lemma_entry_map_last};
use crate::value::{entries_view, Json, JsonValue};

verus! {

/// The model of a merge rule.
pub struct RuleModel {
    pub encoding: Option<i32>,
    pub decoded_type: Option<i32>,
    pub match_importance: Option<Seq<char>>,
}

/// A decode-merge directive for one top-level field.
#[derive(Debug)]
pub struct MergeRule {
    /// `1` stands for base64.
    pub encoding: Option<i32>,
    /// `1` stands for embedded JSON text.
    pub decoded_type: Option<i32>,
    /// A weight carried into the schema, as the JSON text of a double.
    pub match_importance: Option<String>,
}

impl View for MergeRule {
    type V = RuleModel;

    open spec fn view(&self) -> RuleModel {
        RuleModel {
            encoding: self.encoding,
            decoded_type: self.decoded_type,
            match_importance: match self.match_importance {
                Some(m) => Some(m@),
                None => None,
            },
        }
    }
}

/// The text that serde_json writes for the double it reads from a number
/// text.
pub uninterp spec fn double_text(t: Seq<char>) -> Option<Seq<char>>;

/// Relies on serde_json::Number's FromStr, as_f64, from_f64 and Display:
/// a number text read as a double and written back; the text written is a
/// JSON number.
#[verifier::external_body]
fn serde_double_text(t: &str) -> (r: Option<String>)
    ensures
        r is Some <==> double_text(t@) is Some,
        r matches Some(d) ==> double_text(t@) == Some(d@) && number_canon(d@) is Some,
{
    <serde_json::Number as core::str::FromStr>::from_str(t).ok().and_then(|n| n.as_f64()).and_then(
        serde_json::Number::from_f64,
    ).map(|n| n.to_string())
}

/// The value of a string of decimal digits.
pub open spec fn digits_value(d: Seq<char>) -> int
    decreases d.len(),
{
    if d.len() == 0 {
        0
    } else {
        10 * digits_value(d.drop_last()) + (d.last() as u32 - 48)
    }
}

/// The value of a JSON integer text.
pub open spec fn int_of_text(t: Seq<char>) -> int {
    if t.len() > 0 && t[0] == '-' {
        -digits_value(t.drop_first())
    } else {
        digits_value(t)
    }
}

/// An optional integer member: absent or null gives none; a JSON integer
/// in the range of `i32` gives its value; anything else is refused.
pub open spec fn int_field(f: Option<Json>) -> Option<Option<i32>> {
    match f {
        None => Some(None),
        Some(Json::Null) => Some(None),
        Some(Json::Number(t)) => if is_integer_text(t) && i32::MIN <= int_of_text(t) <= i32::MAX {
            Some(Some(int_of_text(t) as i32))
        } else {
            None
        },
        _ => None,
    }
}

/// An optional double member: absent or null gives none; a number gives the
/// text of its double; anything else is refused.
pub open spec fn double_field(f: Option<Json>) -> Option<Option<Seq<char>>> {
    match f {
        None => Some(None),
        Some(Json::Null) => Some(None),
        Some(Json::Number(t)) => match double_text(t) {
            Some(d) => Some(Some(d)),
            None => None,
        },
        _ => None,
    }
}

/// The position of the last member of an object with a given key, or -1.
pub open spec fn last_index(es: Seq<(Seq<char>, Json)>, k: Seq<char>) -> int
    decreases es.len(),
{
    if es.len() == 0 {
        -1
    } else if es.last().0 == k {
        es.len() - 1
    } else {
        last_index(es.drop_last(), k)
    }
}

/// The member of an object with a given key; a later one wins.
pub open spec fn member(es: Seq<(Seq<char>, Json)>, k: Seq<char>) -> Option<Json> {
    let i = last_index(es, k);
    if 0 <= i < es.len() {
        Some(es[i].1)
    } else {
        None
    }
}

proof fn lemma_last_index(es: Seq<(Seq<char>, Json)>, k: Seq<char>, i: int)
    requires
        -1 <= i < es.len(),
        i >= 0 ==> es[i].0 == k,
        forall|j: int| i < j < es.len() ==> es[j].0 != k,
    ensures
        last_index(es, k) == i,
    decreases es.len(),
{
    if es.len() > 0 && i < es.len() - 1 {
        let d = es.drop_last();
        assert forall|j: int| i < j < d.len() implies d[j].0 != k by {
            assert(d[j] == es[j]);
        }
        lemma_last_index(d, k, i);
    }
}

/// The merge rule that a JSON value states: an object whose members
/// `encoding`, `decoded_type` and `match_importance` are each optional;
/// other members are ignored.
pub open spec fn rule_of(j: Json) -> Option<RuleModel> {
    match j {
        Json::Object(es) => {
            let e = int_field(member(es, "encoding"@));
            let d = int_field(member(es, "decoded_type"@));
            let m = double_field(member(es, "match_importance"@));
            if e is Some && d is Some && m is Some {
                Some(RuleModel { encoding: e->0, decoded_type: d->0, match_importance: m->0 })
            } else {
                None
            }
        },
        _ => None,
    }
}

/// The rules stated by the members of an object, each key with its rule.
pub open spec fn rules_of_entries(es: Seq<(Seq<char>, Json)>) -> Option<Seq<(Seq<char>, RuleModel)>>
    decreases es.len(),
{
    if es.len() == 0 {
        Some(Seq::empty())
    } else {
        match (rules_of_entries(es.drop_last()), rule_of(es.last().1)) {
            (Some(s), Some(r)) => Some(s.push((es.last().0, r))),
            _ => None,
        }
    }
}

/// The merge map that a JSON text states: an object mapping field names to
/// rules; `None` where the text is not JSON or not of that shape.
pub open spec fn merge_rules_of(text: Seq<char>) -> Option<Seq<(Seq<char>, RuleModel)>> {
    match json_parse(text) {
        Some(Json::Object(es)) => rules_of_entries(es),
        _ => None,
    }
}

pub open spec fn rules_view(rs: Seq<(String, MergeRule)>) -> Seq<(Seq<char>, RuleModel)> {
    Seq::new(rs.len(), |i: int| (rs[i].0@, rs[i].1@))
}

/// The rule for a field, if the map has one.
pub open spec fn rule_for(rules: Seq<(Seq<char>, RuleModel)>, k: Seq<char>) -> Option<RuleModel> {
    if entry_map(rules).dom().contains(k) {
        Some(entry_map(rules)[k])
    } else {
        None
    }
}

proof fn lemma_digits_value_prefix(d: Seq<char>, i: int)
    requires
        0 <= i <= d.len(),
        forall|k: int| 0 <= k < d.len() ==> is_digit(#[trigger] d[k]),
    ensures
        digits_value(d.subrange(0, i)) <= digits_value(d),
        0 <= digits_value(d.subrange(0, i)),
    decreases d.len() - i,
{
    if i < d.len() {
        lemma_digits_value_prefix(d, i + 1);
        let p = d.subrange(0, i + 1);
        assert(p.drop_last() =~= d.subrange(0, i));
        assert(p.last() == d[i]);
    } else {
        assert(d.subrange(0, i) =~= d);
        lemma_digits_value_nonneg(d);
    }
}

proof fn lemma_digits_value_nonneg(d: Seq<char>)
    requires
        forall|k: int| 0 <= k < d.len() ==> is_digit(#[trigger] d[k]),
    ensures
        0 <= digits_value(d),
    decreases d.len(),
{
    if d.len() > 0 {
        lemma_digits_value_nonneg(d.drop_last());
    }
}

/// Reads a JSON integer text as an `i64`; `None` where the text is not an
/// integer or its value does not fit.
pub fn parse_i64(t: &str) -> (r: Option<i64>)
    ensures
        r == (if is_integer_text(t@) && i64::MIN <= int_of_text(t@) <= i64::MAX {
            Some(int_of_text(t@) as i64)
        } else {
            None::<i64>
        }),
{
    let n = t.unicode_len();
    let neg = n > 0 && t.get_char(0) == '-';
    let start: usize = if neg { 1 } else { 0 };
    let ghost d = if neg { t@.drop_first() } else { t@ };
    proof {
        assert(d =~= t@.subrange(start as int, n as int));
    }
    if start >= n {
        return None;
    }
    let mut acc: i128 = 0;
    let mut i: usize = start;
    while i < n
        invariant
            n == t@.len(),
            start <= i <= n,
            d == t@.subrange(start as int, n as int),
            neg == (t@.len() > 0 && t@[0] == '-'),
            d == (if t@.len() > 0 && t@[0] == '-' { t@.drop_first() } else { t@ }),
            start == (if neg { 1usize } else { 0usize }),
            forall|k: int| 0 <= k < i - start ==> is_digit(#[trigger] d[k]),
            acc == digits_value(d.subrange(0, i - start)),
            0 <= acc <= 9223372036854775808,
        decreases n - i,
    {
        let c = t.get_char(i);
        proof {
            assert(d[i - start] == c);
        }
        let cu = c as u32;
        if !(48 <= cu && cu <= 57) {
            proof {
                if is_integer_text(t@) {
                    let dd = if t@.len() > 0 && t@[0] == '-' { t@.drop_first() } else { t@ };
                    assert(is_digit(dd[i - start]));
                }
            }
            return None;
        }
        let v: i128 = (cu - 48) as i128;
        proof {
            let p = d.subrange(0, i - start + 1);
            assert(p.drop_last() =~= d.subrange(0, i - start));
            assert(p.last() == c);
        }
        if acc > 922337203685477580 || (acc == 922337203685477580 && v > 8) {
            proof {
                assert forall|k: int| 0 <= k < i - start + 1 implies is_digit(#[trigger] d[k]) by {}
                if is_integer_text(t@) {
                    let dd = if t@.len() > 0 && t@[0] == '-' { t@.drop_first() } else { t@ };
                    assert forall|k: int| 0 <= k < d.len() implies is_digit(#[trigger] d[k]) by {
                        assert(is_digit(dd[k]));
                    }
                    lemma_digits_value_prefix(d, i - start + 1);
                }
            }
            return None;
        }
        acc = acc * 10 + v;
        i = i + 1;
    }
    proof {
        assert(d.subrange(0, n - start) =~= d);
        if neg {
            assert(t@[0] == '-');
        }
    }
    if neg {
        Some((-acc) as i64)
    } else if acc > 9223372036854775807 {
        None
    } else {
        Some(acc as i64)
    }
}

/// Reads a JSON integer text as an `i32`; `None` where the text is not an
/// integer or its value does not fit.
pub fn parse_i32(t: &str) -> (r: Option<i32>)
    ensures
        r == (if is_integer_text(t@) && i32::MIN <= int_of_text(t@) <= i32::MAX {
            Some(int_of_text(t@) as i32)
        } else {
            None::<i32>
        }),
{
    match parse_i64(t) {
        Some(v) => if -2147483648 <= v && v <= 2147483647 {
            Some(v as i32)
        } else {
            None
        },
        None => None,
    }
}

/// The position of the last member of an object with a given key.
pub fn member_index(es: &Vec<(String, JsonValue)>, k: &str) -> (r: Option<usize>)
    ensures
        r is Some <==> last_index(entries_view(es@), k@) >= 0,
        r matches Some(i) ==> i == last_index(entries_view(es@), k@) && i < es@.len(),
{
    let ghost ev = entries_view(es@);
    let mut i: usize = es.len();
    while i > 0
        invariant
            i <= es.len(),
            ev == entries_view(es@),
            forall|j: int| i <= j < es.len() ==> (#[trigger] ev[j]).0 != k@,
        decreases i,
    {
        i = i - 1;
        if matches!(compare_keys(es[i].0.as_str(), k), Ordering::Equal) {
            proof {
                lemma_last_index(ev, k@, i as int);
            }
            return Some(i);
        }
    }
    proof {
        lemma_last_index(ev, k@, -1);
    }
    None
}

/// The last member of an object with a given key.
pub fn find_member<'a>(es: &'a Vec<(String, JsonValue)>, k: &str) -> (r: Option<&'a JsonValue>)
    ensures
        r is Some <==> member(entries_view(es@), k@) is Some,
        r matches Some(x) ==> member(entries_view(es@), k@) == Some(x@),
{
    match member_index(es, k) {
        Some(i) => Some(&es[i].1),
        None => None,
    }
}

/// The rule for a field, if the map has one.
pub fn find_rule<'a>(rules: &'a Vec<(String, MergeRule)>, k: &str) -> (r: Option<&'a MergeRule>)
    ensures
        r is Some <==> rule_for(rules_view(rules@), k@) is Some,
        r matches Some(x) ==> rule_for(rules_view(rules@), k@) == Some(x@),
        r matches Some(x) ==> exists|j: int| 0 <= j < rules@.len() && rules@[j].1 == *x,
{
    let ghost rv = rules_view(rules@);
    let mut i: usize = rules.len();
    while i > 0
        invariant
            i <= rules.len(),
            rv == rules_view(rules@),
            forall|j: int| i <= j < rules.len() ==> (#[trigger] rv[j]).0 != k@,
        decreases i,
    {
        i = i - 1;
        if matches!(compare_keys(rules[i].0.as_str(), k), Ordering::Equal) {
            proof {
                lemma_entry_map_last(rv, i as int);
            }
            return Some(&rules[i].1);
        }
    }
    proof {
        lemma_entry_map_dom(rv, k@);
        if entry_map(rv).dom().contains(k@) {
            let j = choose|j: int| 0 <= j < rv.len() && rv[j].0 == k@;
            assert(rv[j].0 != k@);
        }
    }
    None
}

pub open spec fn opt_view(f: Option<&JsonValue>) -> Option<Json> {
    match f {
        Some(x) => Some(x@),
        None => None,
    }
}

fn read_int_field(f: Option<&JsonValue>) -> (r: Option<Option<i32>>)
    ensures
        r == int_field(opt_view(f)),
{
    match f {
        None => Some(None),
        Some(JsonValue::Null) => Some(None),
        Some(JsonValue::Number(t)) => match parse_i32(t.as_str()) {
            Some(n) => Some(Some(n)),
            None => None,
        },
        Some(_) => None,
    }
}

fn read_double_field(f: Option<&JsonValue>) -> (r: Option<Option<String>>)
    ensures
        r is Some <==> double_field(opt_view(f)) is Some,
        r matches Some(x) ==> double_field(opt_view(f)) == Some(
            match x {
                Some(d) => Some(d@),
                None => None,
            },
        ),
        r matches Some(Some(d)) ==> number_canon(d@) is Some,
{
    match f {
        None => Some(None),
        Some(JsonValue::Null) => Some(None),
        Some(JsonValue::Number(t)) => match serde_double_text(t.as_str()) {
            Some(d) => Some(Some(d)),
            None => None,
        },
        Some(_) => None,
    }
}

/// The merge rule that a JSON value states, if it states one.
pub fn rule_from_value(v: &JsonValue) -> (r: Option<MergeRule>)
    ensures
        r is Some <==> rule_of(v@) is Some,
        r matches Some(x) ==> rule_of(v@) == Some(x@),
        r matches Some(x) ==> (x.match_importance matches Some(d) ==> number_canon(d@) is Some),
{
    match v {
        JsonValue::Object(es) => {
            proof {
                reveal_strlit("encoding");
                reveal_strlit("decoded_type");
                reveal_strlit("match_importance");
            }
            let e = read_int_field(find_member(es, "encoding"));
            let d = read_int_field(find_member(es, "decoded_type"));
            let m = read_double_field(find_member(es, "match_importance"));
            match (e, d, m) {
                (Some(e), Some(d), Some(m)) => Some(
                    MergeRule { encoding: e, decoded_type: d, match_importance: m },
                ),
                _ => None,
            }
        },
        _ => None,
    }
}

proof fn lemma_rules_prefix_none(es: Seq<(Seq<char>, Json)>, i: int)
    requires
        0 <= i <= es.len(),
        rules_of_entries(es.subrange(0, i)) is None,
    ensures
        rules_of_entries(es) is None,
    decreases es.len() - i,
{
    if i < es.len() {
        assert(es.subrange(0, i + 1).drop_last() =~= es.subrange(0, i));
        lemma_rules_prefix_none(es, i + 1);
    } else {
        assert(es.subrange(0, i) =~= es);
    }
}

/// Reads a decode-merge directive map: a JSON object mapping field names to
/// rules. Fails with `InvalidJson` where the text is not JSON or not of
/// that shape. The rules come in ascending key order.
pub fn parse_merge_rules(schema_merges_json: &str) -> (r: CoreResult<Vec<(String, MergeRule)>>)
    ensures
        r is Ok <==> merge_rules_of(schema_merges_json@) is Some,
        r matches Ok(rs) ==> merge_rules_of(schema_merges_json@) == Some(rules_view(rs@))
            && keys_ascending(rules_view(rs@)),
        r matches Ok(rs) ==> forall|i: int| 0 <= i < rs@.len() ==> ((#[trigger] rs@[i]).1.match_importance matches Some(d) ==> number_canon(d@) is Some),
        r matches Err(e) ==> e is InvalidJson,
{
    let parsed = parse_json(schema_merges_json)?;
    let ghost pv = parsed@;
    match parsed {
        JsonValue::Object(es) => {
            let ghost ev = entries_view(es@);
            proof {
                assert(pv == Json::Object(ev));
            }
            let mut out: Vec<(String, MergeRule)> = Vec::new();
            let mut i: usize = 0;
            proof {
                assert(ev.subrange(0, 0) =~= Seq::<(Seq<char>, Json)>::empty());
                assert(rules_view(out@) =~= Seq::<(Seq<char>, RuleModel)>::empty());
            }
            while i < es.len()
                invariant
                    i <= es.len(),
                    ev == entries_view(es@),
                    json_parse(schema_merges_json@) == Some(Json::Object(ev)),
                    keys_ascending(ev),
                    rules_of_entries(ev.subrange(0, i as int)) == Some(rules_view(out@)),
                    out@.len() == i,
                    forall|k: int| 0 <= k < i ==> (#[trigger] out@[k]).0@ == ev[k].0,
                    forall|k: int| 0 <= k < i ==> ((#[trigger] out@[k]).1.match_importance matches Some(d) ==> number_canon(d@) is Some),
                decreases es.len() - i,
            {
                proof {
                    assert(ev.subrange(0, i + 1).drop_last() =~= ev.subrange(0, i as int));
                }
                match rule_from_value(&es[i].1) {
                    Some(rule) => {
                        let k = es[i].0.clone();
                        let ghost before = rules_view(out@);
                        out.push((k, rule));
                        proof {
                            assert(rules_view(out@) =~= before.push((ev[i as int].0, rule_of(ev[i as int].1)->0)));
                        }
                    },
                    None => {
                        proof {
                            assert(ev[i as int].1 == es@[i as int].1@);
                            assert(ev.subrange(0, i + 1).last() == ev[i as int]);
                            assert(rule_of(ev[i as int].1) is None);
                            assert(ev.subrange(0, i + 1).drop_last() =~= ev.subrange(0, i as int));
                            assert(rules_of_entries(ev.subrange(0, i + 1)) is None);
                            lemma_rules_prefix_none(ev, i + 1);
                            assert(json_parse(schema_merges_json@) == Some(Json::Object(ev)));
                        }
                        return Err(CoreError::InvalidJson(String::from_str("a merge rule is not an object of optional numbers")));
                    },
                }
                i = i + 1;
            }
            proof {
                assert(ev.subrange(0, es@.len() as int) =~= ev);
                let rv = rules_view(out@);
                assert forall|a: int, b: int| 0 <= a < b < rv.len() implies crate::order::key_lt(#[trigger] rv[a].0, #[trigger] rv[b].0) by {
                    assert(rv[a].0 == ev[a].0 && rv[b].0 == ev[b].0);
                }
            }
            Ok(out)
        },
        _ => Err(CoreError::InvalidJson(String::from_str("merge rules are not a JSON object"))),
    }
}

} // verus!
