//! Keyed entries: the members of a map-like `Type` or `Value`, held as a vector of
//! (key, member) pairs whose keys are strictly ascending. Ascending keys make each
//! key occur at most once and give every mapping exactly one representation.
use vstd::prelude::*;
use crate::text::{seq_lt, lemma_seq_lt_irreflexive, lemma_seq_lt_trichotomy, lemma_seq_lt_transitive, chars_of, chars_lt, str_eq};

verus! {

/// The keys of spec-level entries, in order.
pub open spec fn key_seq<V>(es: Seq<(Seq<char>, V)>) -> Seq<Seq<char>> {
    Seq::new(es.len(), |i: int| es[i].0)
}

/// The keys of executable entries, each taken as its characters, in order.
pub open spec fn string_keys<T>(es: Seq<(String, T)>) -> Seq<Seq<char>> {
    Seq::new(es.len(), |i: int| es[i].0@)
}

/// Keys strictly ascending in lexicographic order (so no key repeats).
pub open spec fn sorted_keys(keys: Seq<Seq<char>>) -> bool {
    forall|i: int, j: int| 0 <= i < j < keys.len() ==> seq_lt(#[trigger] keys[i], #[trigger] keys[j])
}

/// The first position at or after `i` that holds `key`.
pub open spec fn index_of_key_from(keys: Seq<Seq<char>>, key: Seq<char>, i: int) -> Option<int>
    decreases keys.len() - i,
{
    if i < 0 || i >= keys.len() {
        None
    } else if keys[i] == key {
        Some(i)
    } else {
        index_of_key_from(keys, key, i + 1)
    }
}

/// The first position that holds `key`, if any.
pub open spec fn index_of_key(keys: Seq<Seq<char>>, key: Seq<char>) -> Option<int> {
    index_of_key_from(keys, key, 0)
}

/// What `index_of_key_from` finds lies in range and holds the key; when it finds nothing,
/// no position from `i` on holds the key.
pub proof fn lemma_index_of_key_from(keys: Seq<Seq<char>>, key: Seq<char>, i: int)
    requires
        0 <= i,
    ensures
        index_of_key_from(keys, key, i) matches Some(j) ==> i <= j < keys.len() && keys[j] == key
            && forall|k: int| i <= k < j ==> keys[k] != key,
        index_of_key_from(keys, key, i) is None ==> forall|k: int| i <= k < keys.len() ==> keys[k]
            != key,
    decreases keys.len() - i,
{
    if i < keys.len() && keys[i] != key {
        lemma_index_of_key_from(keys, key, i + 1);
    }
}

/// `index_of_key` finds the first position that holds the key, or tells that none does.
pub proof fn lemma_index_of_key(keys: Seq<Seq<char>>, key: Seq<char>)
    ensures
        index_of_key(keys, key) matches Some(j) ==> 0 <= j < keys.len() && keys[j] == key
            && forall|k: int| 0 <= k < j ==> keys[k] != key,
        index_of_key(keys, key) is None ==> forall|k: int| 0 <= k < keys.len() ==> keys[k] != key,
{
    lemma_index_of_key_from(keys, key, 0);
}

/// With ascending keys, a key found at position `j` is found exactly there.
pub proof fn lemma_index_of_sorted(keys: Seq<Seq<char>>, key: Seq<char>, j: int)
    requires
        sorted_keys(keys),
        0 <= j < keys.len(),
        keys[j] == key,
    ensures
        index_of_key(keys, key) == Some(j),
{
    lemma_index_of_key(keys, key);
    if let Some(k) = index_of_key(keys, key) {
        if k != j {
            if k < j {
                assert(seq_lt(keys[k], keys[j]));
            } else {
                assert(seq_lt(keys[j], keys[k]));
            }
            lemma_seq_lt_irreflexive(key);
        }
    }
}

/// The number of leading keys that precede `key`: where `key` belongs among ascending keys.
pub open spec fn insert_index(keys: Seq<Seq<char>>, key: Seq<char>) -> int
    decreases keys.len(),
{
    if keys.len() == 0 {
        0
    } else if seq_lt(keys[0], key) {
        1 + insert_index(keys.drop_first(), key)
    } else {
        0
    }
}

/// The entries with `key` bound to `v`: the key's member replaced where the key is present,
/// otherwise a new entry placed where the key belongs.
pub open spec fn insert_entry<V>(es: Seq<(Seq<char>, V)>, key: Seq<char>, v: V) -> Seq<(Seq<char>, V)> {
    match index_of_key(key_seq(es), key) {
        Some(i) => es.update(i, (key, v)),
        None => es.insert(insert_index(key_seq(es), key), (key, v)),
    }
}

/// The member bound to `key`, if any.
pub open spec fn member_of<V>(es: Seq<(Seq<char>, V)>, key: Seq<char>) -> Option<V> {
    match index_of_key(key_seq(es), key) {
        Some(i) => Some(es[i].1),
        None => None,
    }
}

/// Facts about `insert_index` over ascending keys: every key before it precedes `key`,
/// every key from it on does not.
pub proof fn lemma_insert_index(keys: Seq<Seq<char>>, key: Seq<char>)
    requires
        sorted_keys(keys),
    ensures
        0 <= insert_index(keys, key) <= keys.len(),
        forall|k: int| 0 <= k < insert_index(keys, key) ==> seq_lt(#[trigger] keys[k], key),
        forall|k: int| insert_index(keys, key) <= k < keys.len() ==> !seq_lt(#[trigger] keys[k], key),
    decreases keys.len(),
{
    if keys.len() > 0 {
        let rest = keys.drop_first();
        assert(sorted_keys(rest)) by {
            assert forall|i: int, j: int| 0 <= i < j < rest.len() implies seq_lt(rest[i], rest[j]) by {
                assert(rest[i] == keys[i + 1] && rest[j] == keys[j + 1]);
            }
        }
        lemma_insert_index(rest, key);
        if seq_lt(keys[0], key) {
            assert forall|k: int| 0 <= k < insert_index(keys, key) implies seq_lt(#[trigger] keys[k], key) by {
                if k > 0 {
                    assert(keys[k] == rest[k - 1]);
                }
            }
            assert forall|k: int| insert_index(keys, key) <= k < keys.len() implies !seq_lt(#[trigger] keys[k], key) by {
                assert(keys[k] == rest[k - 1]);
            }
        } else {
            assert forall|k: int| 0 <= k < keys.len() implies !seq_lt(#[trigger] keys[k], key) by {
                if k > 0 {
                    assert(seq_lt(keys[0], keys[k]));
                    lemma_seq_lt_trichotomy(keys[k], key);
                    if seq_lt(keys[k], key) {
                        lemma_seq_lt_transitive(keys[0], keys[k], key);
                    }
                }
            }
        }
    }
}

/// Binding a key keeps the keys ascending.
pub proof fn lemma_insert_entry_sorted<V>(es: Seq<(Seq<char>, V)>, key: Seq<char>, v: V)
    requires
        sorted_keys(key_seq(es)),
    ensures
        sorted_keys(key_seq(insert_entry(es, key, v))),
        member_of(insert_entry(es, key, v), key) == Some(v),
        forall|k: Seq<char>| k != key ==> member_of(insert_entry(es, key, v), k) == member_of(es, k),
{
    let keys = key_seq(es);
    let r = insert_entry(es, key, v);
    let rkeys = key_seq(r);
    lemma_index_of_key(keys, key);
    match index_of_key(keys, key) {
        Some(i) => {
            assert(rkeys =~= keys);
        },
        None => {
            let p = insert_index(keys, key);
            lemma_insert_index(keys, key);
            assert(rkeys =~= keys.insert(p, key));
            assert forall|i: int, j: int| 0 <= i < j < rkeys.len() implies seq_lt(#[trigger] rkeys[i], #[trigger] rkeys[j]) by {
                if j < p {
                } else if j == p {
                } else if i < p {
                    assert(rkeys[j] == keys[j - 1]);
                    lemma_seq_lt_trichotomy(keys[j - 1], key);
                    assert(seq_lt(keys[i], key));
                    assert(key != keys[j - 1]);
                    lemma_seq_lt_transitive(keys[i], key, keys[j - 1]);
                } else if i == p {
                    assert(rkeys[j] == keys[j - 1]);
                    lemma_seq_lt_trichotomy(keys[j - 1], key);
                } else {
                    assert(rkeys[i] == keys[i - 1]);
                    assert(rkeys[j] == keys[j - 1]);
                }
            }
        },
    }
    assert(sorted_keys(rkeys));
    let ri = if let Some(i) = index_of_key(keys, key) { i } else { insert_index(keys, key) };
    assert(rkeys[ri] == key);
    lemma_index_of_sorted(rkeys, key, ri);
    assert forall|k: Seq<char>| k != key implies member_of(r, k) == member_of(es, k) by {
        lemma_index_of_key(keys, k);
        lemma_index_of_key(rkeys, k);
        match index_of_key(keys, k) {
            Some(j) => {
                let rj = if index_of_key(keys, key) is Some || j < ri { j } else { j + 1 };
                assert(rkeys[rj] == k);
                lemma_index_of_sorted(rkeys, k, rj);
            },
            None => {
                if let Some(rj) = index_of_key(rkeys, k) {
                    if index_of_key(keys, key) is Some {
                        assert(keys[rj] == k);
                    } else if rj < ri {
                        assert(keys[rj] == k);
                    } else if rj > ri {
                        assert(keys[rj - 1] == k);
                    }
                }
            },
        }
    }
}

/// The position of the first entry whose key is `key`, if any.
pub fn find_entry<T>(es: &Vec<(String, T)>, key: &str) -> (r: Option<usize>)
    ensures
        r matches Some(i) ==> index_of_key(string_keys(es@), key@) == Some(i as int),
        r is None ==> index_of_key(string_keys(es@), key@) is None,
{
    let ghost keys = string_keys(es@);
    let mut i: usize = 0;
    while i < es.len()
        invariant
            i <= es.len(),
            keys == string_keys(es@),
            index_of_key(keys, key@) == index_of_key_from(keys, key@, i as int),
        decreases es.len() - i,
    {
        if str_eq(es[i].0.as_str(), key) {
            return Some(i);
        }
        i = i + 1;
    }
    None
}

/// Where `key` belongs among ascending keys, and whether it is already there.
pub fn locate_key<T>(es: &Vec<(String, T)>, key: &str) -> (r: (usize, bool))
    requires
        sorted_keys(string_keys(es@)),
    ensures
        r.1 ==> index_of_key(string_keys(es@), key@) == Some(r.0 as int),
        !r.1 ==> index_of_key(string_keys(es@), key@) is None && r.0 as int == insert_index(
            string_keys(es@),
            key@,
        ),
{
    let ghost keys = string_keys(es@);
    proof {
        lemma_insert_index(keys, key@);
    }
    let kc = chars_of(key);
    let mut i: usize = 0;
    while i < es.len()
        invariant
            i <= es.len(),
            keys == string_keys(es@),
            sorted_keys(keys),
            kc@ == key@,
            forall|k: int| 0 <= k < i ==> seq_lt(#[trigger] keys[k], key@),
            0 <= insert_index(keys, key@) <= keys.len(),
            forall|k: int| 0 <= k < insert_index(keys, key@) ==> seq_lt(#[trigger] keys[k], key@),
            forall|k: int| insert_index(keys, key@) <= k < keys.len() ==> !seq_lt(#[trigger] keys[k], key@),
        decreases es.len() - i,
    {
        let ec = chars_of(es[i].0.as_str());
        if !chars_lt(&ec, &kc) {
            proof {
                assert(!seq_lt(keys[i as int], key@));
                if (i as int) > insert_index(keys, key@) {
                    assert(seq_lt(keys[insert_index(keys, key@)], key@));
                }
                if (i as int) < insert_index(keys, key@) {
                    assert(seq_lt(keys[i as int], key@));
                }
            }
            let same = str_eq(es[i].0.as_str(), key);
            proof {
                if same {
                    lemma_index_of_sorted(keys, key@, i as int);
                } else {
                    lemma_index_of_key(keys, key@);
                    if let Some(j) = index_of_key(keys, key@) {
                        if j < i {
                            lemma_seq_lt_irreflexive(key@);
                        } else if j > i {
                            assert(seq_lt(keys[i as int], keys[j]));
                        }
                    }
                }
            }
            return (i, same);
        }
        i = i + 1;
    }
    proof {
        lemma_index_of_key(keys, key@);
        if let Some(j) = index_of_key(keys, key@) {
            lemma_seq_lt_irreflexive(key@);
        }
        if insert_index(keys, key@) < keys.len() {
            assert(seq_lt(keys[insert_index(keys, key@)], key@));
        }
    }
    (i, false)
}

} // verus!

verus! {

/// The executable entries with `key` bound to `v` (the executable counterpart of `insert_entry`).
pub open spec fn insert_string_entry<T>(es: Seq<(String, T)>, key: String, v: T) -> Seq<(String, T)> {
    match index_of_key(string_keys(es), key@) {
        Some(i) => es.update(i, (key, v)),
        None => es.insert(insert_index(string_keys(es), key@), (key, v)),
    }
}

/// Binds `key` to `v` among ascending entries: replaces the member of a present key, or
/// inserts a new entry where the key belongs.
pub fn insert_sorted<T>(es: &mut Vec<(String, T)>, key: String, v: T)
    requires
        sorted_keys(string_keys(old(es)@)),
    ensures
        final(es)@ == insert_string_entry(old(es)@, key, v),
{
    let (i, present) = locate_key(es, key.as_str());
    proof {
        lemma_insert_index(string_keys(es@), key@);
        lemma_index_of_key(string_keys(es@), key@);
    }
    if present {
        es.set(i, (key, v));
    } else {
        es.insert(i, (key, v));
    }
}

} // verus!

verus! {

/// The entries built by binding each pair in order, later pairs replacing earlier ones.
pub open spec fn entries_from_pairs<V>(pairs: Seq<(Seq<char>, V)>) -> Seq<(Seq<char>, V)>
    decreases pairs.len(),
{
    if pairs.len() == 0 {
        Seq::empty()
    } else {
        insert_entry(entries_from_pairs(pairs.drop_last()), pairs.last().0, pairs.last().1)
    }
}

} // verus!

verus! {

/// A property of every member survives binding a key to a member that has it.
pub proof fn lemma_insert_entry_all<V>(es: Seq<(Seq<char>, V)>, key: Seq<char>, v: V, p: spec_fn(V) -> bool)
    requires
        sorted_keys(key_seq(es)),
        forall|i: int| 0 <= i < es.len() ==> p((#[trigger] es[i]).1),
        p(v),
    ensures
        forall|i: int| 0 <= i < insert_entry(es, key, v).len() ==> p((#[trigger] insert_entry(es, key, v)[i]).1),
{
    let r = insert_entry(es, key, v);
    lemma_index_of_key(key_seq(es), key);
    lemma_insert_index(key_seq(es), key);
    match index_of_key(key_seq(es), key) {
        Some(j) => {
            assert forall|i: int| 0 <= i < r.len() implies p((#[trigger] r[i]).1) by {
                if i != j {
                    assert(r[i] == es[i]);
                }
            }
        },
        None => {
            let q = insert_index(key_seq(es), key);
            assert forall|i: int| 0 <= i < r.len() implies p((#[trigger] r[i]).1) by {
                if i < q {
                    assert(r[i] == es[i]);
                } else if i > q {
                    assert(r[i] == es[i - 1]);
                }
            }
        },
    }
}

} // verus!

verus! {

/// Whether the keys of executable entries are strictly ascending.
pub fn entries_sorted<T>(es: &Vec<(String, T)>) -> (r: bool)
    ensures
        r == sorted_keys(string_keys(es@)),
{
    let ghost keys = string_keys(es@);
    if es.len() == 0 {
        return true;
    }
    let mut i: usize = 1;
    while i < es.len()
        invariant
            1 <= i <= es.len(),
            keys == string_keys(es@),
            forall|a: int, b: int| 0 <= a < b < i ==> seq_lt(#[trigger] keys[a], #[trigger] keys[b]),
        decreases es.len() - i,
    {
        let prev = chars_of(es[i - 1].0.as_str());
        let cur = chars_of(es[i].0.as_str());
        if !chars_lt(&prev, &cur) {
            assert(!seq_lt(keys[i - 1], keys[i as int]));
            return false;
        }
        assert forall|a: int, b: int| 0 <= a < b < i + 1 implies seq_lt(#[trigger] keys[a], #[trigger] keys[b]) by {
            if b == i && a < i - 1 {
                lemma_seq_lt_transitive(keys[a], keys[i - 1], keys[b]);
            }
        }
        i = i + 1;
    }
    true
}

} // verus!
