use vstd::prelude::*;
use vstd::utf8::*;
use core::cmp::Ordering;

verus! {

broadcast use vstd::utf8::group_utf8_lib;

/// Lexicographic order on byte strings: a proper prefix comes first.
pub open spec fn bytes_lt(a: Seq<u8>, b: Seq<u8>) -> bool
    decreases a.len(),
{
    if a.len() == 0 {
        b.len() > 0
    } else if b.len() == 0 {
        false
    } else if a[0] != b[0] {
        a[0] < b[0]
    } else {
        bytes_lt(a.drop_first(), b.drop_first())
    }
}

/// Object keys are ordered as their UTF-8 bytes are.
pub open spec fn key_lt(a: Seq<char>, b: Seq<char>) -> bool {
    bytes_lt(encode_utf8(a), encode_utf8(b))
}

pub proof fn lemma_bytes_lt_irreflexive(a: Seq<u8>)
    ensures
        !bytes_lt(a, a),
    decreases a.len(),
{
    if a.len() > 0 {
        lemma_bytes_lt_irreflexive(a.drop_first());
    }
}

pub proof fn lemma_bytes_lt_transitive(a: Seq<u8>, b: Seq<u8>, c: Seq<u8>)
    requires
        bytes_lt(a, b),
        bytes_lt(b, c),
    ensures
        bytes_lt(a, c),
    decreases a.len(),
{
    if a.len() > 0 && b.len() > 0 && c.len() > 0 && a[0] == b[0] && b[0] == c[0] {
        lemma_bytes_lt_transitive(a.drop_first(), b.drop_first(), c.drop_first());
    }
}

pub proof fn lemma_key_lt_irreflexive(a: Seq<char>)
    ensures
        !key_lt(a, a),
{
    lemma_bytes_lt_irreflexive(encode_utf8(a));
}

pub proof fn lemma_key_lt_transitive(a: Seq<char>, b: Seq<char>, c: Seq<char>)
    requires
        key_lt(a, b),
        key_lt(b, c),
    ensures
        key_lt(a, c),
{
    lemma_bytes_lt_transitive(encode_utf8(a), encode_utf8(b), encode_utf8(c));
}

/// The mapping that a list of entries stands for: a later entry for a key
/// replaces an earlier one.
pub open spec fn entry_map<V>(es: Seq<(Seq<char>, V)>) -> Map<Seq<char>, V>
    decreases es.len(),
{
    if es.len() == 0 {
        Map::empty()
    } else {
        entry_map(es.drop_last()).insert(es.last().0, es.last().1)
    }
}

/// Each key is below every key that follows it, so no key repeats.
pub open spec fn keys_ascending<V>(es: Seq<(Seq<char>, V)>) -> bool {
    forall|i: int, j: int| 0 <= i < j < es.len() ==> key_lt(#[trigger] es[i].0, #[trigger] es[j].0)
}

/// The entries of a mapping, in ascending key order.
pub open spec fn sorted_entries<V>(m: Map<Seq<char>, V>) -> Seq<(Seq<char>, V)> {
    choose|s: Seq<(Seq<char>, V)>| keys_ascending(s) && entry_map(s) == m
}

pub proof fn lemma_entry_map_dom<V>(es: Seq<(Seq<char>, V)>, k: Seq<char>)
    ensures
        entry_map(es).dom().contains(k) <==> exists|i: int| 0 <= i < es.len() && es[i].0 == k,
    decreases es.len(),
{
    if es.len() > 0 {
        lemma_entry_map_dom(es.drop_last(), k);
        if exists|i: int| 0 <= i < es.len() && es[i].0 == k {
            let i = choose|i: int| 0 <= i < es.len() && es[i].0 == k;
            if i < es.len() - 1 {
                assert(es.drop_last()[i].0 == k);
            }
        }
        if exists|i: int| 0 <= i < es.len() - 1 && es.drop_last()[i].0 == k {
            let i = choose|i: int| 0 <= i < es.len() - 1 && es.drop_last()[i].0 == k;
            assert(es[i].0 == k);
        }
    }
}

/// A key that occurs once in the entries maps to the value beside it.
pub proof fn lemma_entry_map_unique<V>(es: Seq<(Seq<char>, V)>, i: int)
    requires
        0 <= i < es.len(),
        forall|j: int| 0 <= j < es.len() && j != i ==> es[j].0 != es[i].0,
    ensures
        entry_map(es).dom().contains(es[i].0),
        entry_map(es)[es[i].0] == es[i].1,
    decreases es.len(),
{
    if i < es.len() - 1 {
        let d = es.drop_last();
        assert forall|j: int| 0 <= j < d.len() && j != i implies d[j].0 != d[i].0 by {
            assert(d[j] == es[j]);
        }
        lemma_entry_map_unique(d, i);
    }
}

/// The last entry with a key gives the key's value.
pub proof fn lemma_entry_map_last<V>(es: Seq<(Seq<char>, V)>, i: int)
    requires
        0 <= i < es.len(),
        forall|j: int| i < j < es.len() ==> es[j].0 != es[i].0,
    ensures
        entry_map(es).dom().contains(es[i].0),
        entry_map(es)[es[i].0] == es[i].1,
    decreases es.len(),
{
    if i < es.len() - 1 {
        let d = es.drop_last();
        assert forall|j: int| i < j < d.len() implies d[j].0 != d[i].0 by {
            assert(d[j] == es[j]);
        }
        lemma_entry_map_last(d, i);
    }
}

/// Two key-ascending entry lists that stand for the same mapping are equal.
pub proof fn lemma_sorted_unique<V>(s1: Seq<(Seq<char>, V)>, s2: Seq<(Seq<char>, V)>)
    requires
        keys_ascending(s1),
        keys_ascending(s2),
        entry_map(s1) == entry_map(s2),
    ensures
        s1 == s2,
    decreases s1.len(),
{
    if s1.len() == 0 || s2.len() == 0 {
        if s1.len() > 0 {
            lemma_entry_map_dom(s1, s1.last().0);
            assert(entry_map(s2).dom().contains(s1.last().0));
            lemma_entry_map_dom(s2, s1.last().0);
        }
        if s2.len() > 0 {
            lemma_entry_map_dom(s2, s2.last().0);
            assert(entry_map(s1).dom().contains(s2.last().0));
            lemma_entry_map_dom(s1, s2.last().0);
        }
        assert(s1 =~= s2);
    } else {
        let k1 = s1.last().0;
        let k2 = s2.last().0;
        let n1 = s1.len() - 1;
        let n2 = s2.len() - 1;
        lemma_entry_map_dom(s1, k1);
        lemma_entry_map_dom(s2, k1);
        lemma_entry_map_dom(s1, k2);
        lemma_entry_map_dom(s2, k2);
        let j1 = choose|i: int| 0 <= i < s2.len() && s2[i].0 == k1;
        let j2 = choose|i: int| 0 <= i < s1.len() && s1[i].0 == k2;
        if k1 != k2 {
            assert(j1 < n2);
            assert(key_lt(k1, k2));
            assert(j2 < n1);
            assert(key_lt(k2, k1));
            lemma_key_lt_transitive(k1, k2, k1);
            lemma_key_lt_irreflexive(k1);
        }
        let d1 = s1.drop_last();
        let d2 = s2.drop_last();
        lemma_entry_map_dom(d1, k1);
        lemma_entry_map_dom(d2, k1);
        if entry_map(d1).dom().contains(k1) {
            let i = choose|i: int| 0 <= i < d1.len() && d1[i].0 == k1;
            assert(s1[i].0 == k1);
            lemma_key_lt_irreflexive(k1);
        }
        if entry_map(d2).dom().contains(k1) {
            let i = choose|i: int| 0 <= i < d2.len() && d2[i].0 == k1;
            assert(s2[i].0 == k1);
            lemma_key_lt_irreflexive(k1);
        }
        assert(entry_map(d1) =~= entry_map(s1).remove(k1));
        assert(entry_map(d2) =~= entry_map(s2).remove(k1));
        assert(keys_ascending(d1)) by {
            assert forall|i: int, j: int| 0 <= i < j < d1.len() implies key_lt(
                #[trigger] d1[i].0,
                #[trigger] d1[j].0,
            ) by {
                assert(d1[i] == s1[i] && d1[j] == s1[j]);
            }
        }
        assert(keys_ascending(d2)) by {
            assert forall|i: int, j: int| 0 <= i < j < d2.len() implies key_lt(
                #[trigger] d2[i].0,
                #[trigger] d2[j].0,
            ) by {
                assert(d2[i] == s2[i] && d2[j] == s2[j]);
            }
        }
        lemma_sorted_unique(d1, d2);
        assert(entry_map(s1)[k1] == s1.last().1);
        assert(entry_map(s2)[k1] == s2.last().1);
        assert(s1 =~= d1.push(s1.last()));
        assert(s2 =~= d2.push(s2.last()));
    }
}

/// A key-ascending list is the sorted form of the mapping it stands for.
pub proof fn lemma_sorted_entries_of_ascending<V>(s: Seq<(Seq<char>, V)>)
    requires
        keys_ascending(s),
    ensures
        sorted_entries(entry_map(s)) == s,
{
    let m = entry_map(s);
    assert(keys_ascending(s) && entry_map(s) == m);
    let t = sorted_entries(m);
    lemma_sorted_unique(t, s);
}

/// Compares two keys by their UTF-8 bytes.
pub fn compare_keys(a: &str, b: &str) -> (r: Ordering)
    ensures
        r == Ordering::Less <==> key_lt(a@, b@),
        r == Ordering::Equal <==> a@ == b@,
        r == Ordering::Greater <==> key_lt(b@, a@),
{
    let x = a.as_bytes();
    let y = b.as_bytes();
    let ghost ea = encode_utf8(a@);
    let ghost eb = encode_utf8(b@);
    let mut i: usize = 0;
    proof {
        assert(ea.subrange(0, ea.len() as int) =~= ea);
        assert(eb.subrange(0, eb.len() as int) =~= eb);
    }
    while i < x.len() && i < y.len() && x[i] == y[i]
        invariant
            x@ == ea,
            y@ == eb,
            i <= x.len(),
            i <= y.len(),
            ea.subrange(0, i as int) == eb.subrange(0, i as int),
            bytes_lt(ea, eb) == bytes_lt(ea.subrange(i as int, ea.len() as int), eb.subrange(i as int, eb.len() as int)),
            bytes_lt(eb, ea) == bytes_lt(eb.subrange(i as int, eb.len() as int), ea.subrange(i as int, ea.len() as int)),
        decreases x.len() - i,
    {
        proof {
            let sa = ea.subrange(i as int, ea.len() as int);
            let sb = eb.subrange(i as int, eb.len() as int);
            assert(sa.drop_first() =~= ea.subrange(i + 1, ea.len() as int));
            assert(sb.drop_first() =~= eb.subrange(i + 1, eb.len() as int));
            assert(ea.subrange(0, i + 1) =~= ea.subrange(0, i as int).push(ea[i as int]));
            assert(eb.subrange(0, i + 1) =~= eb.subrange(0, i as int).push(eb[i as int]));
        }
        i = i + 1;
    }
    proof {
        assert(ea.subrange(0, ea.len() as int) =~= ea);
        assert(eb.subrange(0, eb.len() as int) =~= eb);
        lemma_bytes_lt_irreflexive(ea);
        if ea == eb {
            assert(decode_utf8(encode_utf8(a@)) == a@);
            assert(decode_utf8(encode_utf8(b@)) == b@);
        }
        if a@ == b@ {
            assert(ea == eb);
        }
    }
    if i == x.len() && i == y.len() {
        proof {
            assert(ea =~= eb);
        }
        Ordering::Equal
    } else if i == x.len() {
        proof {
            assert(ea != eb);
        }
        Ordering::Less
    } else if i == y.len() {
        proof {
            assert(ea != eb);
        }
        Ordering::Greater
    } else if x[i] < y[i] {
        proof {
            assert(ea != eb);
        }
        Ordering::Less
    } else {
        proof {
            assert(ea[i as int] != eb[i as int]);
            assert(ea != eb);
        }
        Ordering::Greater
    }
}

} // verus!
