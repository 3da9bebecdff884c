//! Indirect mutations.
use vstd::prelude::*;
use crate::text::{chars_of, string_from_chars, string_from_str};
use crate::schema::entries::{string_keys, index_of_key, lemma_index_of_key, find_entry};
use crate::schema::errors::SpecSchemaError;
use crate::schema::primitives::SpecValue;
use crate::schema::mutation::{
    SpecMutation, mutate_at, mutation_applies, bulk_applies, split_path, lemma_split_path, find_dot, sub_chars,
    parse_index,
};
use super::errors::{IndirectSchemaError, SpecIndirectError};
use super::primitives::{IndirectValue, ivalue_list_view, ivalue_entries_view, lemma_ivalue_keys};

verus! {

/// The message a failed mutation reports: an index past the end of a list, a list index
/// that is not a number, a path ending at a list element, or a missing map key.
pub open spec fn mutation_error(e: SpecSchemaError) -> SpecIndirectError {
    match e {
        SpecSchemaError::InvalidIndex(_, Some(_)) => SpecIndirectError::Message("index lookup oob"@),
        SpecSchemaError::InvalidIndex(_, None) => SpecIndirectError::Message("invalid lookup idx fmt"@),
        SpecSchemaError::NotImplemented(_) => SpecIndirectError::Message("object key mut apply below ary idx"@),
        SpecSchemaError::InvalidLookup(_, _) => SpecIndirectError::Message("invalid map member key"@),
        _ => SpecIndirectError::UnknownableType,
    }
}

/// Sets the member at `lookup` in `target` to `to` (see `mutate_at`).
#[verifier::loop_isolation(false)]
fn apply_via_lookup(target: &IndirectValue, lookup: &str, to: IndirectValue) -> (r: Result<IndirectValue, IndirectSchemaError>)
    ensures
        match mutate_at(target@, lookup@, to@) {
            Ok(v) => r matches Ok(rv) && rv@ == v,
            Err(e) => r matches Err(re) && re@ == mutation_error(e),
        },
    decreases lookup@.len(),
{
    let cs = chars_of(lookup);
    proof {
        lemma_split_path(lookup@);
    }
    let (this_chars, next_chars) = match find_dot(&cs) {
        Some(i) => (sub_chars(&cs, 0, i), Some(sub_chars(&cs, i + 1, cs.len()))),
        None => (sub_chars(&cs, 0, cs.len()), None),
    };
    assert(cs@.subrange(0, cs@.len() as int) =~= cs@);
    let ghost this_lookup = split_path(lookup@).0;
    assert(this_chars@ == this_lookup);
    match target {
        IndirectValue::List(elements) => {
            match parse_index(&this_chars) {
                Some(i) => {
                    if i >= elements.len() {
                        return Err(IndirectSchemaError::Message(string_from_str("index lookup oob")));
                    }
                    match next_chars {
                        Some(next) => {
                            let next_str = string_from_chars(next.as_slice());
                            let x = apply_via_lookup(target, next_str.as_str(), to)?;
                            let mut updated: Vec<IndirectValue> = Vec::new();
                            let mut k: usize = 0;
                            while k < elements.len()
                                invariant
                                    k <= elements.len(),
                                    i < elements.len(),
                                    updated.len() == k,
                                    forall|m: int| 0 <= m < k ==> (#[trigger] updated@[m])@ == (if m == i { x@ } else { elements@[m]@ }),
                                decreases elements.len() - k,
                            {
                                if k == i {
                                    updated.push(x.duplicate());
                                } else {
                                    updated.push(elements[k].duplicate());
                                }
                                k = k + 1;
                            }
                            assert(ivalue_list_view(updated@) =~= ivalue_list_view(elements@).update(i as int, x@));
                            Ok(IndirectValue::List(updated))
                        },
                        None => Err(IndirectSchemaError::Message(string_from_str("object key mut apply below ary idx"))),
                    }
                },
                None => Err(IndirectSchemaError::Message(string_from_str("invalid lookup idx fmt"))),
            }
        },
        IndirectValue::Dict(members) => {
            let this_str = string_from_chars(this_chars.as_slice());
            proof {
                lemma_ivalue_keys(members@);
            }
            match find_entry(members, this_str.as_str()) {
                Some(j) => {
                    proof {
                        lemma_index_of_key(string_keys(members@), this_lookup);
                    }
                    assert(ivalue_entries_view(members@)[j as int].1 == members@[j as int].1@);
                    let x = match next_chars {
                        Some(next) => {
                            let next_str = string_from_chars(next.as_slice());
                            apply_via_lookup(&members[j].1, next_str.as_str(), to)?
                        },
                        None => to,
                    };
                    let mut updated: Vec<(String, IndirectValue)> = Vec::new();
                    let mut k: usize = 0;
                    while k < members.len()
                        invariant
                            k <= members.len(),
                            j < members.len(),
                            updated.len() == k,
                            forall|m: int| 0 <= m < k ==> (#[trigger] updated@[m]).0@ == members@[m].0@
                                && updated@[m].1@ == (if m == j { x@ } else { members@[m].1@ }),
                        decreases members.len() - k,
                    {
                        let key = string_from_str(members[k].0.as_str());
                        if k == j {
                            updated.push((key, x.duplicate()));
                        } else {
                            updated.push((key, members[k].1.duplicate()));
                        }
                        k = k + 1;
                    }
                    assert(ivalue_entries_view(updated@) =~= ivalue_entries_view(members@).update(j as int, (this_lookup, x@)));
                    Ok(IndirectValue::Dict(updated))
                },
                None => Err(IndirectSchemaError::Message(string_from_str("invalid map member key"))),
            }
        },
        _ => Ok(to),
    }
}

/// A change to an indirect value: set the member at a path, or apply
/// several mutations in order. Its model is a `SpecMutation`.
#[derive(Debug)]
pub enum IndirectMutation {
    Assign(String, IndirectValue),
    Bulk(Vec<IndirectMutation>),
}

/// The model of executable mutation parts.
pub open spec fn imutation_parts_view(ps: Seq<IndirectMutation>) -> Seq<SpecMutation>
    decreases ps,
{
    Seq::new(ps.len(), |i: int| if 0 <= i < ps.len() { ps[i].model() } else { SpecMutation::Bulk(Seq::empty()) })
}

impl IndirectMutation {
    /// The mathematical model of this mutation.
    pub open spec fn model(&self) -> SpecMutation
        decreases self,
    {
        match self {
            IndirectMutation::Assign(k, v) => SpecMutation::Assign(k@, v@),
            IndirectMutation::Bulk(ps) => SpecMutation::Bulk(imutation_parts_view(ps@)),
        }
    }
}

impl View for IndirectMutation {
    type V = SpecMutation;

    open spec fn view(&self) -> SpecMutation {
        self.model()
    }
}

impl IndirectMutation {
    /// Applies this mutation to `target` (see `mutation_applies`), reporting a failure as
    /// `mutation_error` describes it.
    #[verifier::loop_isolation(false)]
    pub fn apply(&self, target: &IndirectValue) -> (r: Result<IndirectValue, IndirectSchemaError>)
        ensures
            match mutation_applies(self@, target@) {
                Ok(v) => r matches Ok(rv) && rv@ == v,
                Err(e) => r matches Err(re) && re@ == mutation_error(e),
            },
        decreases self,
    {
        match self {
            IndirectMutation::Assign(lookup, value) => apply_via_lookup(target, lookup.as_str(), value.duplicate()),
            IndirectMutation::Bulk(parts) => {
                let ghost pv = imutation_parts_view(parts@);
                let mut updated = target.duplicate();
                let mut i: usize = 0;
                while i < parts.len()
                    invariant
                        i <= parts.len(),
                        pv == imutation_parts_view(parts@),
                        bulk_applies(pv, target@, 0) == bulk_applies(pv, updated@, i as int),
                    decreases parts.len() - i,
                {
                    assert(pv[i as int] == parts@[i as int]@);
                    updated = parts[i].apply(&updated)?;
                    i = i + 1;
                }
                Ok(updated)
            },
        }
    }
}

} // verus!

verus! {

impl IndirectMutation {
    /// Whether every value this mutation sets is well-formed (see `mutation_wf`).
    #[verifier::loop_isolation(false)]
    pub fn is_wf(&self) -> (r: bool)
        ensures
            r == crate::schema::mutation::mutation_wf(self@),
        decreases self,
    {
        match self {
            IndirectMutation::Assign(_, v) => v.is_wf(),
            IndirectMutation::Bulk(parts) => {
                let ghost pv = imutation_parts_view(parts@);
                proof {
                    crate::schema::mutation::lemma_mutation_parts_wf(pv, 0);
                }
                let mut i: usize = 0;
                while i < parts.len()
                    invariant
                        i <= parts.len(),
                        pv == imutation_parts_view(parts@),
                        forall|k: int| 0 <= k < i ==> crate::schema::mutation::mutation_wf(#[trigger] pv[k]),
                    decreases parts.len() - i,
                {
                    assert(pv[i as int] == parts@[i as int]@);
                    if !parts[i].is_wf() {
                        assert(!crate::schema::mutation::mutation_wf(pv[i as int]));
                        return false;
                    }
                    i = i + 1;
                }
                true
            },
        }
    }
}

} // verus!
