//! Indirect representation of mutations to indirectly represented data.
use vstd::prelude::*;
use crate::text::{chars_of, string_from_chars, string_from_str, digit_value};
use super::entries::{key_seq, string_keys, index_of_key, member_of, sorted_keys, lemma_index_of_key, find_entry};
use super::errors::{SchemaError, SpecSchemaError};
use super::primitives::{Type, Value, SpecValue, type_of, ok_type, value_list_view, value_entries_view, lemma_value_keys, lemma_items_wf};

verus! {

/// The position of the first `'.'`, if any.
pub open spec fn first_dot(s: Seq<char>) -> Option<int>
    decreases s.len(),
{
    if s.len() == 0 {
        None
    } else if s[0] == '.' {
        Some(0)
    } else {
        match first_dot(s.drop_first()) {
            Some(i) => Some(i + 1),
            None => None,
        }
    }
}

/// A lookup path split at its first `'.'`: the leading segment and, when there was a dot,
/// the rest of the path.
pub open spec fn split_path(s: Seq<char>) -> (Seq<char>, Option<Seq<char>>) {
    match first_dot(s) {
        Some(i) => (s.subrange(0, i), Some(s.subrange(i + 1, s.len() as int))),
        None => (s, None),
    }
}

/// The value of a string of decimal digits (zero for the empty string), if all its
/// characters are digits.
pub open spec fn digits_value(s: Seq<char>) -> Option<nat>
    decreases s.len(),
{
    if s.len() == 0 {
        Some(0)
    } else {
        match (digits_value(s.drop_last()), digit_value(s.last())) {
            (Some(v), Some(d)) => Some(v * 10 + d),
            _ => None,
        }
    }
}

/// How `str::parse::<usize>` reads a string: an optional `'+'`, then at least one decimal
/// digit and nothing else, with a value that fits in `usize`.
pub open spec fn parse_usize(s: Seq<char>) -> Option<usize> {
    let body = if s.len() > 0 && s[0] == '+' { s.drop_first() } else { s };
    if body.len() == 0 {
        None
    } else {
        match digits_value(body) {
            Some(v) => if v <= usize::MAX { Some(v as usize) } else { None },
            None => None,
        }
    }
}

/// Characters `from..to` of `cs`.
pub fn sub_chars(cs: &Vec<char>, from: usize, to: usize) -> (r: Vec<char>)
    requires
        from <= to <= cs.len(),
    ensures
        r@ == cs@.subrange(from as int, to as int),
{
    let mut r: Vec<char> = Vec::new();
    let mut i: usize = from;
    while i < to
        invariant
            from <= i <= to <= cs.len(),
            r@ == cs@.subrange(from as int, i as int),
        decreases to - i,
    {
        r.push(cs[i]);
        assert(cs@.subrange(from as int, i + 1) =~= cs@.subrange(from as int, i as int).push(cs@[i as int]));
        i = i + 1;
    }
    r
}

/// The position of the first `'.'` in `cs`, if any.
pub(crate) fn find_dot(cs: &Vec<char>) -> (r: Option<usize>)
    ensures
        r matches Some(i) ==> first_dot(cs@) == Some(i as int),
        r is None ==> first_dot(cs@) is None,
{
    let mut i: usize = 0;
    assert(cs@.skip(0) =~= cs@);
    while i < cs.len()
        invariant
            i <= cs.len(),
            first_dot(cs@) == match first_dot(cs@.skip(i as int)) {
                Some(j) => Some(j + i),
                None => None,
            },
        decreases cs.len() - i,
    {
        assert(cs@.skip(i as int)[0] == cs@[i as int]);
        assert(cs@.skip(i as int).drop_first() =~= cs@.skip(i + 1));
        if cs[i] == '.' {
            return Some(i);
        }
        i = i + 1;
    }
    assert(cs@.skip(i as int).len() == 0);
    None
}

/// Reads a string as `str::parse::<usize>` does (see `parse_usize`).
pub fn parse_index(cs: &Vec<char>) -> (r: Option<usize>)
    ensures
        r == parse_usize(cs@),
{
    let start: usize = if cs.len() > 0 && cs[0] == '+' { 1 } else { 0 };
    let ghost body = if cs@.len() > 0 && cs@[0] == '+' { cs@.drop_first() } else { cs@ };
    assert(body =~= cs@.subrange(start as int, cs@.len() as int));
    if start >= cs.len() {
        return None;
    }
    let mut acc: usize = 0;
    let mut i: usize = start;
    while i < cs.len()
        invariant
            start <= i <= cs.len(),
            body == cs@.subrange(start as int, cs@.len() as int),
            body == (if cs@.len() > 0 && cs@[0] == '+' { cs@.drop_first() } else { cs@ }),
            body.len() > 0,
            digits_value(cs@.subrange(start as int, i as int)) == Some(acc as nat),
        decreases cs.len() - i,
    {
        let c = cs[i];
        let ghost pre = cs@.subrange(start as int, i as int);
        let ghost cur = cs@.subrange(start as int, i + 1);
        assert(cur.drop_last() =~= pre);
        assert(cur.last() == c);
        assert(body[(i - start) as int] == c);
        if !('0' <= c && c <= '9') {
            proof {
                lemma_digits_value_prefix_none(body, (i - start) as int);
            }
            return None;
        }
        let d: usize = ((c as u32) - ('0' as u32)) as usize;
        assert(digit_value(c) == Some(d as nat));
        assert(body.subrange(0, (i - start + 1) as int) =~= cur);
        assert(digits_value(cur) == Some((acc * 10 + d) as nat));
        if acc > (usize::MAX - d) / 10 {
            proof {
                assert(acc * 10 + d > usize::MAX) by (nonlinear_arith)
                    requires
                        acc > (usize::MAX - d) / 10,
                        d <= 9,
                ;
                lemma_digits_value_prefix_big(body, (i - start + 1) as int);
            }
            return None;
        }
        assert(acc * 10 + d <= usize::MAX) by (nonlinear_arith)
            requires
                acc <= (usize::MAX - d) / 10,
                d <= 9,
        ;
        acc = acc * 10 + d;
        i = i + 1;
    }
    assert(cs@.subrange(start as int, i as int) =~= body);
    Some(acc)
}

/// A non-digit in a prefix makes the whole string unreadable as digits.
proof fn lemma_digits_value_prefix_none(s: Seq<char>, n: int)
    requires
        0 <= n < s.len(),
        digit_value(s[n]) is None,
    ensures
        digits_value(s) is None,
    decreases s.len(),
{
    if n < s.len() - 1 {
        assert(s.drop_last()[n] == s[n]);
        lemma_digits_value_prefix_none(s.drop_last(), n);
    }
}

/// Digits only grow in value as more of them are read.
proof fn lemma_digits_value_prefix_big(s: Seq<char>, n: int)
    requires
        0 < n <= s.len(),
        digits_value(s.subrange(0, n)) matches Some(v) && v > usize::MAX,
    ensures
        digits_value(s) is None || digits_value(s)->0 > usize::MAX,
    decreases s.len(),
{
    if n < s.len() {
        assert(s.drop_last().subrange(0, n) =~= s.subrange(0, n));
        lemma_digits_value_prefix_big(s.drop_last(), n);
    } else {
        assert(s.subrange(0, n) =~= s);
    }
}

/// The outcome of setting the member at `lookup` (a `'.'`-separated path) in `target` to `to`.
/// In a list the leading segment must read as an index within the list; a further path then
/// continues, from the list itself, to compute the new element, and a path that ends at a list
/// element is not supported. In a map the leading segment must name a present key, whose member
/// is replaced, or rewritten along the rest of the path. Any other target is replaced by `to`.
pub open spec fn mutate_at(target: SpecValue, lookup: Seq<char>, to: SpecValue) -> Result<SpecValue, SpecSchemaError>
    decreases lookup.len(),
{
    proof {
        lemma_split_path(lookup);
    }
    let (this_lookup, next_lookup) = split_path(lookup);
    match target {
        SpecValue::List(ms) => match parse_usize(this_lookup) {
            Some(i) => if i >= ms.len() {
                Err(SpecSchemaError::InvalidIndex(ok_type(type_of(target)), Some(i)))
            } else {
                match next_lookup {
                    Some(next) => match mutate_at(target, next, to) {
                        Ok(x) => Ok(SpecValue::List(ms.update(i as int, x))),
                        Err(e) => Err(e),
                    },
                    None => Err(SpecSchemaError::NotImplemented("Object key mutation of array element"@)),
                }
            },
            None => Err(SpecSchemaError::InvalidIndex(ok_type(type_of(target)), None)),
        },
        SpecValue::Dict(es) => match index_of_key(key_seq(es), this_lookup) {
            Some(j) => match next_lookup {
                Some(next) => match mutate_at(es[j].1, next, to) {
                    Ok(x) => Ok(SpecValue::Dict(es.update(j, (this_lookup, x)))),
                    Err(e) => Err(e),
                },
                None => Ok(SpecValue::Dict(es.update(j, (this_lookup, to)))),
            },
            None => Err(SpecSchemaError::InvalidLookup(ok_type(type_of(target)), this_lookup)),
        },
        _ => Ok(to),
    }
}

/// The rest of a path after its first dot is shorter than the path.
pub proof fn lemma_split_path(s: Seq<char>)
    ensures
        first_dot(s) matches Some(i) ==> 0 <= i < s.len() && s[i] == '.',
        split_path(s).1 matches Some(next) ==> next.len() < s.len(),
    decreases s.len(),
{
    if s.len() > 0 && s[0] != '.' {
        lemma_split_path(s.drop_first());
    }
}

/// Mutating a well-formed value with a well-formed replacement gives a well-formed value.
pub proof fn lemma_mutate_at_wf(target: SpecValue, lookup: Seq<char>, to: SpecValue)
    requires
        target.wf(),
        to.wf(),
    ensures
        mutate_at(target, lookup, to) matches Ok(v) ==> v.wf(),
    decreases lookup.len(),
{
    lemma_split_path(lookup);
    let (this_lookup, next_lookup) = split_path(lookup);
    match target {
        SpecValue::List(ms) => {
            if let Some(i) = parse_usize(this_lookup) {
                if i < ms.len() {
                    if let Some(next) = next_lookup {
                        lemma_mutate_at_wf(target, next, to);
                        if let Ok(x) = mutate_at(target, next, to) {
                            let r = ms.update(i as int, x);
                            lemma_items_wf(ms, 0);
                            lemma_items_wf(r, 0);
                            assert forall|k: int| 0 <= k < r.len() implies (#[trigger] r[k]).wf() by {
                                if k != i {
                                    assert(r[k] == ms[k]);
                                }
                            }
                        }
                    }
                }
            }
        },
        SpecValue::Dict(es) => {
            lemma_index_of_key(key_seq(es), this_lookup);
            if let Some(j) = index_of_key(key_seq(es), this_lookup) {
                let x = match next_lookup {
                    Some(next) => {
                        assert(es[j].1.wf());
                        lemma_mutate_at_wf(es[j].1, next, to);
                        mutate_at(es[j].1, next, to)
                    },
                    None => Ok(to),
                };
                if let Ok(x) = x {
                    let r = es.update(j, (this_lookup, x));
                    assert(key_seq(r) =~= key_seq(es));
                    assert forall|k: int| 0 <= k < r.len() implies (#[trigger] r[k]).1.wf() by {
                        if k != j {
                            assert(r[k] == es[k]);
                        }
                    }
                }
            }
        },
        _ => {},
    }
}

/// Assigns the member at `lookup` in `target` to `to` (see `mutate_at`).
#[verifier::loop_isolation(false)]
pub fn execute_mutation_via_lookup(target: &Value, lookup: &str, to: Value) -> (r: Result<Value, SchemaError>)
    ensures
        match mutate_at(target@, lookup@, to@) {
            Ok(v) => r matches Ok(rv) && rv@ == v,
            Err(e) => r matches Err(re) && re@ == e,
        },
    decreases lookup@.len(),
{
    let cs = chars_of(lookup);
    proof {
        lemma_split_path(lookup@);
    }
    let (this_chars, next_chars) = match find_dot(&cs) {
        Some(i) => (sub_chars(&cs, 0, i), Some(sub_chars(&cs, i + 1, cs.len()))),
        None => (sub_chars(&cs, 0, cs.len()), None),
    };
    assert(cs@.subrange(0, cs@.len() as int) =~= cs@);
    let ghost this_lookup = split_path(lookup@).0;
    assert(this_chars@ == this_lookup);
    match target {
        Value::List(elements) => {
            match parse_index(&this_chars) {
                Some(i) => {
                    if i >= elements.len() {
                        let t = match Type::try_from_value(target) {
                            Ok(t) => Some(t),
                            Err(_) => None,
                        };
                        return Err(SchemaError::InvalidIndex(t, Some(i)));
                    }
                    match next_chars {
                        Some(next) => {
                            let next_str = string_from_chars(next.as_slice());
                            let x = execute_mutation_via_lookup(target, next_str.as_str(), to)?;
                            let mut updated: Vec<Value> = Vec::new();
                            let mut k: usize = 0;
                            while k < elements.len()
                                invariant
                                    k <= elements.len(),
                                    i < elements.len(),
                                    updated.len() == k,
                                    forall|m: int| 0 <= m < k ==> (#[trigger] updated@[m])@ == (if m == i { x@ } else { elements@[m]@ }),
                                decreases elements.len() - k,
                            {
                                if k == i {
                                    updated.push(x.duplicate());
                                } else {
                                    updated.push(elements[k].duplicate());
                                }
                                k = k + 1;
                            }
                            assert(value_list_view(updated@) =~= value_list_view(elements@).update(i as int, x@));
                            Ok(Value::List(updated))
                        },
                        None => Err(SchemaError::NotImplemented(string_from_str("Object key mutation of array element"))),
                    }
                },
                None => {
                    let t = match Type::try_from_value(target) {
                        Ok(t) => Some(t),
                        Err(_) => None,
                    };
                    Err(SchemaError::InvalidIndex(t, None))
                },
            }
        },
        Value::Dict(members) => {
            let this_str = string_from_chars(this_chars.as_slice());
            proof {
                lemma_value_keys(members@);
            }
            match find_entry(members, this_str.as_str()) {
                Some(j) => {
                    proof {
                        lemma_index_of_key(string_keys(members@), this_lookup);
                    }
                    assert(value_entries_view(members@)[j as int].1 == members@[j as int].1@);
                    let x = match next_chars {
                        Some(next) => {
                            let next_str = string_from_chars(next.as_slice());
                            execute_mutation_via_lookup(&members[j].1, next_str.as_str(), to)?
                        },
                        None => to,
                    };
                    let mut updated: Vec<(String, Value)> = Vec::new();
                    let mut k: usize = 0;
                    while k < members.len()
                        invariant
                            k <= members.len(),
                            j < members.len(),
                            updated.len() == k,
                            forall|m: int| 0 <= m < k ==> (#[trigger] updated@[m]).0@ == members@[m].0@
                                && updated@[m].1@ == (if m == j { x@ } else { members@[m].1@ }),
                        decreases members.len() - k,
                    {
                        let key = string_from_str(members[k].0.as_str());
                        if k == j {
                            updated.push((key, x.duplicate()));
                        } else {
                            updated.push((key, members[k].1.duplicate()));
                        }
                        k = k + 1;
                    }
                    assert(value_entries_view(updated@) =~= value_entries_view(members@).update(j as int, (this_lookup, x@)));
                    Ok(Value::Dict(updated))
                },
                None => {
                    let t = match Type::try_from_value(target) {
                        Ok(t) => Some(t),
                        Err(_) => None,
                    };
                    Err(SchemaError::InvalidLookup(t, this_str))
                },
            }
        },
        _ => Ok(to),
    }
}

} // verus!

verus! {

/// The model of a `Mutation`.
pub enum SpecMutation {
    Assign(Seq<char>, SpecValue),
    Bulk(Seq<SpecMutation>),
}

/// A change to an indirectly represented value: set the member at a path, or apply several
/// mutations in order.
#[derive(Debug)]
pub enum Mutation {
    Assign(String, Value),
    Bulk(Vec<Mutation>),
}

/// The model of executable mutation parts.
pub open spec fn mutation_parts_view(ps: Seq<Mutation>) -> Seq<SpecMutation>
    decreases ps,
{
    Seq::new(ps.len(), |i: int| if 0 <= i < ps.len() { ps[i].model() } else { SpecMutation::Bulk(Seq::empty()) })
}

impl Mutation {
    /// The mathematical model of this mutation.
    pub open spec fn model(&self) -> SpecMutation
        decreases self,
    {
        match self {
            Mutation::Assign(k, v) => SpecMutation::Assign(k@, v@),
            Mutation::Bulk(ps) => SpecMutation::Bulk(mutation_parts_view(ps@)),
        }
    }
}

impl View for Mutation {
    type V = SpecMutation;

    open spec fn view(&self) -> SpecMutation {
        self.model()
    }
}

/// The outcome of applying a mutation to `target`: an `Assign` mutates at its path; a `Bulk`
/// applies its parts in order, each to the result of the one before, stopping at the
/// first error.
pub open spec fn mutation_applies(m: SpecMutation, target: SpecValue) -> Result<SpecValue, SpecSchemaError>
    decreases m, 0int,
{
    match m {
        SpecMutation::Assign(k, v) => mutate_at(target, k, v),
        SpecMutation::Bulk(parts) => bulk_applies(parts, target, 0),
    }
}

/// The outcome of applying the parts from position `i` on, in order.
pub open spec fn bulk_applies(parts: Seq<SpecMutation>, target: SpecValue, i: int) -> Result<SpecValue, SpecSchemaError>
    decreases parts, parts.len() - i,
{
    if i < 0 || i >= parts.len() {
        Ok(target)
    } else {
        match mutation_applies(parts[i], target) {
            Err(e) => Err(e),
            Ok(next) => bulk_applies(parts, next, i + 1),
        }
    }
}

/// Every value a mutation sets is well-formed.
pub open spec fn mutation_wf(m: SpecMutation) -> bool
    decreases m, 0int,
{
    match m {
        SpecMutation::Assign(_, v) => v.wf(),
        SpecMutation::Bulk(parts) => mutation_parts_wf(parts, 0),
    }
}

/// Whether the parts from position `i` on are all well-formed.
pub open spec fn mutation_parts_wf(parts: Seq<SpecMutation>, i: int) -> bool
    decreases parts, parts.len() - i,
{
    if i < 0 || i >= parts.len() {
        true
    } else {
        mutation_wf(parts[i]) && mutation_parts_wf(parts, i + 1)
    }
}

/// `mutation_parts_wf` holds exactly when every part from position `i` on is well-formed.
pub proof fn lemma_mutation_parts_wf(parts: Seq<SpecMutation>, i: int)
    requires
        0 <= i,
    ensures
        mutation_parts_wf(parts, i) <==> forall|k: int| i <= k < parts.len() ==> mutation_wf(#[trigger] parts[k]),
    decreases parts.len() - i,
{
    if i < parts.len() {
        lemma_mutation_parts_wf(parts, i + 1);
    }
}

/// Applying a well-formed mutation to a well-formed value gives a well-formed value.
pub proof fn lemma_mutation_applies_wf(m: SpecMutation, target: SpecValue)
    requires
        mutation_wf(m),
        target.wf(),
    ensures
        mutation_applies(m, target) matches Ok(v) ==> v.wf(),
    decreases m, 0int,
{
    match m {
        SpecMutation::Assign(k, v) => lemma_mutate_at_wf(target, k, v),
        SpecMutation::Bulk(parts) => {
            lemma_mutation_parts_wf(parts, 0);
            lemma_bulk_applies_wf(parts, target, 0);
        },
    }
}

/// Applying well-formed parts to a well-formed value gives a well-formed value.
pub proof fn lemma_bulk_applies_wf(parts: Seq<SpecMutation>, target: SpecValue, i: int)
    requires
        forall|k: int| 0 <= k < parts.len() ==> mutation_wf(#[trigger] parts[k]),
        target.wf(),
    ensures
        bulk_applies(parts, target, i) matches Ok(v) ==> v.wf(),
    decreases parts, parts.len() - i,
{
    if 0 <= i < parts.len() {
        lemma_mutation_applies_wf(parts[i], target);
        if let Ok(next) = mutation_applies(parts[i], target) {
            lemma_bulk_applies_wf(parts, next, i + 1);
        }
    }
}

impl Mutation {
    /// Applies this mutation to `target` (see `mutation_applies`).
    #[verifier::loop_isolation(false)]
    pub fn execute(&self, target: &Value) -> (r: Result<Value, SchemaError>)
        ensures
            match mutation_applies(self@, target@) {
                Ok(v) => r matches Ok(rv) && rv@ == v,
                Err(e) => r matches Err(re) && re@ == e,
            },
        decreases self,
    {
        match self {
            Mutation::Assign(lookup, value) => execute_mutation_via_lookup(target, lookup.as_str(), value.duplicate()),
            Mutation::Bulk(parts) => {
                let ghost pv = mutation_parts_view(parts@);
                let mut updated = target.duplicate();
                let mut i: usize = 0;
                while i < parts.len()
                    invariant
                        i <= parts.len(),
                        pv == mutation_parts_view(parts@),
                        bulk_applies(pv, target@, 0) == bulk_applies(pv, updated@, i as int),
                    decreases parts.len() - i,
                {
                    assert(pv[i as int] == parts@[i as int]@);
                    updated = parts[i].execute(&updated)?;
                    i = i + 1;
                }
                Ok(updated)
            },
        }
    }
}

/// Applying the parts of `seq![m] + rest` from position `i + 1` on is applying those of `rest`
/// from `i` on.
proof fn lemma_bulk_shift(m: SpecMutation, rest: Seq<SpecMutation>, target: SpecValue, i: int)
    requires
        0 <= i <= rest.len(),
    ensures
        bulk_applies(seq![m] + rest, target, i + 1) == bulk_applies(rest, target, i),
    decreases rest.len() - i,
{
    let parts = seq![m] + rest;
    if i < rest.len() {
        assert(parts[i + 1] == rest[i]);
        match mutation_applies(rest[i], target) {
            Ok(next) => lemma_bulk_shift(m, rest, next, i + 1),
            Err(_) => {},
        }
    }
}

/// Law: a bulk mutation applies its parts in order: an empty bulk changes nothing, and a
/// bulk whose first part is `m` applies `m` to the target and then the remaining parts to
/// the result, failing as soon as a part fails.
pub proof fn law_bulk_applies_in_order(m: SpecMutation, rest: Seq<SpecMutation>, target: SpecValue)
    ensures
        mutation_applies(SpecMutation::Bulk(Seq::empty()), target) == Ok::<SpecValue, SpecSchemaError>(target),
        mutation_applies(SpecMutation::Bulk(seq![m] + rest), target) == match mutation_applies(m, target) {
            Err(e) => Err(e),
            Ok(next) => mutation_applies(SpecMutation::Bulk(rest), next),
        },
{
    let parts = seq![m] + rest;
    assert(parts[0] == m);
    if let Ok(next) = mutation_applies(m, target) {
        lemma_bulk_shift(m, rest, next, 0);
    }
}

/// Law: of two assignments to the same key of a map that holds it, the later one wins: the
/// member ends up with the later value, and every other member is as it was.
pub proof fn law_later_assignment_wins(target: SpecValue, key: Seq<char>, v1: SpecValue, v2: SpecValue)
    requires
        target.wf(),
        v1.wf(),
        first_dot(key) is None,
        target.member(key) is Some,
    ensures
        mutation_applies(
            SpecMutation::Bulk(seq![SpecMutation::Assign(key, v1), SpecMutation::Assign(key, v2)]),
            target,
        ) matches Ok(r) && r.member(key) == Some(v2) && forall|k: Seq<char>| k != key ==> r.member(k) == target.member(k),
{
    let a1 = SpecMutation::Assign(key, v1);
    let a2 = SpecMutation::Assign(key, v2);
    law_set_then_lookup(target, key, v1);
    let mid = mutation_applies(a1, target)->Ok_0;
    lemma_mutate_at_wf(target, key, v1);
    assert(seq![a1, a2] == seq![a1] + seq![a2]);
    law_bulk_applies_in_order(a1, seq![a2], target);
    law_bulk_applies_in_order(a2, Seq::empty(), mid);
    assert(seq![a2] == seq![a2] + Seq::<SpecMutation>::empty());
    law_set_then_lookup(mid, key, v2);
}

/// Law: setting a present key of a map (a one-segment path) replaces that member with the
/// new value and leaves every other member as it was.
pub proof fn law_set_then_lookup(target: SpecValue, key: Seq<char>, v: SpecValue)
    requires
        target.wf(),
        first_dot(key) is None,
        target.member(key) is Some,
    ensures
        mutation_applies(SpecMutation::Assign(key, v), target) matches Ok(r) && r.member(key) == Some(v)
            && forall|k: Seq<char>| k != key ==> r.member(k) == target.member(k),
{
    if let SpecValue::Dict(es) = target {
        let keys = key_seq(es);
        lemma_index_of_key(keys, key);
        let j = index_of_key(keys, key)->0;
        assert(split_path(key) == (key, None::<Seq<char>>));
        let r = es.update(j, (key, v));
        assert(key_seq(r) =~= keys);
        assert forall|k: Seq<char>| k != key implies member_of(r, k) == member_of(es, k) by {
            lemma_index_of_key(keys, k);
            if let Some(i) = index_of_key(keys, k) {
                assert(i != j);
            }
        }
    }
}

} // verus!

verus! {

impl Mutation {
    /// Whether every value this mutation sets is well-formed (see `mutation_wf`).
    #[verifier::loop_isolation(false)]
    pub fn is_wf(&self) -> (r: bool)
        ensures
            r == mutation_wf(self@),
        decreases self,
    {
        match self {
            Mutation::Assign(_, v) => v.is_wf(),
            Mutation::Bulk(parts) => {
                let ghost pv = mutation_parts_view(parts@);
                proof {
                    lemma_mutation_parts_wf(pv, 0);
                }
                let mut i: usize = 0;
                while i < parts.len()
                    invariant
                        i <= parts.len(),
                        pv == mutation_parts_view(parts@),
                        forall|k: int| 0 <= k < i ==> mutation_wf(#[trigger] pv[k]),
                    decreases parts.len() - i,
                {
                    assert(pv[i as int] == parts@[i as int]@);
                    if !parts[i].is_wf() {
                        assert(!mutation_wf(pv[i as int]));
                        return false;
                    }
                    i = i + 1;
                }
                true
            },
        }
    }
}

} // verus!
