//! The data logic of the in-memory persistence driver: loading, updating, deleting and
//! inserting the values it holds.
use vstd::prelude::*;
use crate::schema::primitives::SpecValue;
use crate::schema::mutation::{SpecMutation, mutation_applies, mutation_wf, lemma_mutation_applies_wf};
use crate::indirect::errors::SpecIndirectError;
use crate::indirect::primitives::{IndirectValue, ivalue_list_view};
use crate::indirect::expr::{IndirectExpression, SpecIndirectExpression, iexpression_evaluates, iexpression_wf};
use crate::indirect::mutation::{IndirectMutation, mutation_error};
use crate::indirect_serial::value::SerialValue;
use crate::indirect_serial::format::{SerialFormat, SerialReader, SerialWriter, StreamSerial};
use crate::indirect_serial::pseudo::{PseudoSerial, PseudoSerialReader};
use crate::store::mem::{all_wf, remove_in_turn, removals_fit};
use super::errors::{PersistenceError, SpecPersistenceError};

verus! {

/// Selecting from position `i` on, with `skipped` passing items already skipped and `found`
/// already taken. Items are visited in order; a filter error stops the selection; the first
/// `offset` passing items are skipped; each further one is taken, and the selection ends as
/// soon as the number taken equals `limit`.
pub open spec fn select_from(
    items: Seq<SpecValue>,
    filter: SpecIndirectExpression,
    limit: nat,
    offset: nat,
    i: int,
    skipped: nat,
    found: Seq<SpecValue>,
) -> Result<Seq<SpecValue>, SpecIndirectError>
    decreases items.len() - i,
{
    if i < 0 || i >= items.len() {
        Ok(found)
    } else {
        match iexpression_evaluates(filter, items[i]) {
            Err(e) => Err(e),
            Ok(false) => select_from(items, filter, limit, offset, i + 1, skipped, found),
            Ok(true) => if skipped < offset {
                select_from(items, filter, limit, offset, i + 1, skipped + 1, found)
            } else if found.len() + 1 == limit {
                Ok(found.push(items[i]))
            } else {
                select_from(items, filter, limit, offset, i + 1, skipped, found.push(items[i]))
            },
        }
    }
}

/// The values a load selects (see `select_from`).
pub open spec fn selection(items: Seq<SpecValue>, filter: SpecIndirectExpression, limit: nat, offset: nat) -> Result<
    Seq<SpecValue>,
    SpecIndirectError,
> {
    select_from(items, filter, limit, offset, 0, 0, Seq::empty())
}

/// Updating from position `i` on: each item the filter passes is replaced by the outcome of
/// the mutation on it, the others kept; also the number of items replaced. The first filter
/// or mutation error, in item order, stops the update.
pub open spec fn iupdate_from(items: Seq<SpecValue>, filter: SpecIndirectExpression, m: SpecMutation, i: int) -> Result<
    (Seq<SpecValue>, nat),
    SpecIndirectError,
>
    decreases items.len() - i,
{
    if i < 0 || i >= items.len() {
        Ok((Seq::empty(), 0))
    } else {
        match iexpression_evaluates(filter, items[i]) {
            Err(e) => Err(e),
            Ok(hit) => {
                let first = if hit {
                    match mutation_applies(m, items[i]) {
                        Ok(v) => Ok(v),
                        Err(e) => Err(mutation_error(e)),
                    }
                } else {
                    Ok(items[i])
                };
                match first {
                    Err(e) => Err(e),
                    Ok(v) => match iupdate_from(items, filter, m, i + 1) {
                        Err(e) => Err(e),
                        Ok((rest, n)) => Ok((seq![v] + rest, if hit { n + 1 } else { n })),
                    },
                }
            },
        }
    }
}

/// Prepends already updated items, and their count, to an update's outcome.
pub open spec fn iprepend_update(
    done: Seq<SpecValue>,
    count: nat,
    r: Result<(Seq<SpecValue>, nat), SpecIndirectError>,
) -> Result<(Seq<SpecValue>, nat), SpecIndirectError> {
    match r {
        Ok((rest, n)) => Ok((done + rest, count + n)),
        Err(e) => Err(e),
    }
}

/// The positions, from `i` on and in ascending order, of the items the filter passes; the
/// first filter error, in item order, stops the search.
pub open spec fn imatching_from(items: Seq<SpecValue>, filter: SpecIndirectExpression, i: int) -> Result<Seq<int>, SpecIndirectError>
    decreases items.len() - i,
{
    if i < 0 || i >= items.len() {
        Ok(Seq::empty())
    } else {
        match iexpression_evaluates(filter, items[i]) {
            Err(e) => Err(e),
            Ok(hit) => match imatching_from(items, filter, i + 1) {
                Err(e) => Err(e),
                Ok(rest) => Ok(if hit { seq![i] + rest } else { rest }),
            },
        }
    }
}

/// Prepends already found positions to a search's outcome.
pub open spec fn iprepend_matches(done: Seq<int>, r: Result<Seq<int>, SpecIndirectError>) -> Result<Seq<int>, SpecIndirectError> {
    match r {
        Ok(rest) => Ok(done + rest),
        Err(e) => Err(e),
    }
}

/// Whether a deletion by `filter` from `items` stays in bounds (see
/// `InMemoryPersistenceDriver::delete_items`).
pub open spec fn ideletion_fits(items: Seq<SpecValue>, filter: SpecIndirectExpression) -> bool {
    match imatching_from(items, filter, 0) {
        Ok(rs) => removals_fit(rs, items.len() as int),
        Err(_) => true,
    }
}

/// The in-memory driver of persistent stores.
pub struct InMemoryPersistenceDriver;

impl InMemoryPersistenceDriver {
    /// The driver.
    pub fn new() -> (r: Self) {
        InMemoryPersistenceDriver
    }

    /// The values a load selects (see `selection`).
    pub fn select_items(items: &Vec<IndirectValue>, filter: &IndirectExpression, limit: usize, offset: usize) -> (r: Result<Vec<IndirectValue>, PersistenceError>)
        requires
            all_wf(ivalue_list_view(items@)),
            iexpression_wf(filter@),
        ensures
            match selection(ivalue_list_view(items@), filter@, limit as nat, offset as nat) {
                Ok(s) => r matches Ok(v) && ivalue_list_view(v@) == s,
                Err(e) => r matches Err(re) && re@ == SpecPersistenceError::SchemaError(e),
            },
    {
        let ghost iv = ivalue_list_view(items@);
        let mut until_offs: usize = 0;
        let mut found: Vec<IndirectValue> = Vec::new();
        let mut i: usize = 0;
        assert(ivalue_list_view(found@) =~= Seq::<SpecValue>::empty());
        while i < items.len()
            invariant
                i <= items.len(),
                until_offs <= i,
                found@.len() <= i,
                iv == ivalue_list_view(items@),
                all_wf(iv),
                iexpression_wf(filter@),
                selection(iv, filter@, limit as nat, offset as nat) == select_from(iv, filter@, limit as nat, offset as nat, i as int, until_offs as nat, ivalue_list_view(found@)),
            decreases items.len() - i,
        {
            assert(iv[i as int] == items@[i as int]@);
            assert(iv[i as int].wf());
            match filter.evaluate(&items[i]) {
                Err(e) => return Err(PersistenceError::SchemaError(e)),
                Ok(hit) => {
                    if hit {
                        if until_offs < offset {
                            until_offs = until_offs + 1;
                        } else {
                            let ghost before = ivalue_list_view(found@);
                            found.push(items[i].duplicate());
                            assert(ivalue_list_view(found@) =~= before.push(iv[i as int]));
                            if found.len() == limit {
                                return Ok(found);
                            }
                        }
                    }
                },
            }
            i = i + 1;
        }
        Ok(found)
    }

    /// Loads the values the filter selects (see `selection`), each read as the data model
    /// `T` through the pseudo format. Items are visited in order and each selected one is
    /// read at once, so the first failure, of the filter or of a read, is the one reported:
    /// a filter error met before any item is selected (the selection with limit 1 fails) is
    /// reported as it is, and where no item is selected at all the load succeeds with
    /// nothing read. What a read gives, and whether it fails, is up to `T`.
    pub fn load_items<T: StreamSerial>(items: &Vec<IndirectValue>, filter: &IndirectExpression, limit: usize, offset: usize) -> (r: Result<Vec<T>, PersistenceError>)
        requires
            all_wf(ivalue_list_view(items@)),
            iexpression_wf(filter@),
        ensures
            selection(ivalue_list_view(items@), filter@, limit as nat, offset as nat) is Err ==> r is Err,
            r matches Ok(v) ==> selection(ivalue_list_view(items@), filter@, limit as nat, offset as nat) matches Ok(s)
                && v@.len() == s.len(),
            selection(ivalue_list_view(items@), filter@, 1, offset as nat) matches Err(e) ==> r matches Err(re)
                && re@ == SpecPersistenceError::SchemaError(e),
            selection(ivalue_list_view(items@), filter@, 1, offset as nat) == Ok::<Seq<SpecValue>, SpecIndirectError>(Seq::empty())
                ==> (r matches Ok(v) && v@.len() == 0),
            r matches Err(PersistenceError::SchemaError(e)) ==> selection(ivalue_list_view(items@), filter@, limit as nat, offset as nat)
                == Err::<Seq<SpecValue>, SpecIndirectError>(e@),
            r matches Err(e) ==> e is SchemaError || e is SerialError,
    {
        let ghost iv = ivalue_list_view(items@);
        let ghost mut taken: Seq<SpecValue> = Seq::empty();
        let mut until_offs: usize = 0;
        let mut found: Vec<T> = Vec::new();
        let mut i: usize = 0;
        while i < items.len()
            invariant
                i <= items.len(),
                until_offs <= i,
                found@.len() == taken.len(),
                taken.len() <= i,
                iv == ivalue_list_view(items@),
                all_wf(iv),
                iexpression_wf(filter@),
                selection(iv, filter@, limit as nat, offset as nat) == select_from(iv, filter@, limit as nat, offset as nat, i as int, until_offs as nat, taken),
                taken.len() == 0 ==> selection(iv, filter@, 1, offset as nat) == select_from(iv, filter@, 1, offset as nat, i as int, until_offs as nat, taken),
                taken.len() > 0 ==> (selection(iv, filter@, 1, offset as nat) matches Ok(s1) && s1.len() == 1),
            decreases items.len() - i,
        {
            assert(iv[i as int] == items@[i as int]@);
            assert(iv[i as int].wf());
            match filter.evaluate(&items[i]) {
                Err(e) => return Err(PersistenceError::SchemaError(e)),
                Ok(hit) => {
                    if hit {
                        if until_offs < offset {
                            until_offs = until_offs + 1;
                        } else {
                            proof {
                                if taken.len() == 0 {
                                    assert(select_from(iv, filter@, 1, offset as nat, i as int, until_offs as nat, taken)
                                        == Ok::<Seq<SpecValue>, SpecIndirectError>(taken.push(iv[i as int])));
                                }
                                assert(selection(iv, filter@, 1, offset as nat) matches Ok(s1) && s1.len() == 1);
                            }
                            let mut reader = PseudoSerial::new_reader(SerialValue::Pseudo(items[i].duplicate()));
                            let concrete = match T::stream_deserialize(&mut reader) {
                                Ok(c) => c,
                                Err(e) => return Err(PersistenceError::SerialError(e)),
                            };
                            found.push(concrete);
                            proof {
                                taken = taken.push(iv[i as int]);
                            }
                            if found.len() == limit {
                                return Ok(found);
                            }
                        }
                    }
                },
            }
            i = i + 1;
        }
        Ok(found)
    }

    /// Replaces each item that passes `filter` by the outcome of `update` on it (see
    /// `iupdate_from`) and gives the number replaced. On an error no item changes.
    pub fn update_items(items: &mut Vec<IndirectValue>, filter: &IndirectExpression, update: &IndirectMutation) -> (r: Result<usize, PersistenceError>)
        requires
            all_wf(ivalue_list_view(old(items)@)),
            iexpression_wf(filter@),
            mutation_wf(update@),
        ensures
            match iupdate_from(ivalue_list_view(old(items)@), filter@, update@, 0) {
                Ok((s, n)) => r == Ok::<usize, PersistenceError>(n as usize) && ivalue_list_view(final(items)@) == s,
                Err(e) => r matches Err(re) && re@ == SpecPersistenceError::SchemaError(e) && final(items)@ == old(items)@,
            },
            all_wf(ivalue_list_view(final(items)@)),
    {
        let ghost iv = ivalue_list_view(items@);
        let mut out: Vec<IndirectValue> = Vec::new();
        let mut count: usize = 0;
        let mut i: usize = 0;
        while i < items.len()
            invariant
                i <= items.len(),
                count <= i,
                out@.len() == i,
                iv == ivalue_list_view(items@),
                all_wf(iv),
                all_wf(ivalue_list_view(out@)),
                iexpression_wf(filter@),
                mutation_wf(update@),
                iupdate_from(iv, filter@, update@, 0) == iprepend_update(ivalue_list_view(out@), count as nat, iupdate_from(iv, filter@, update@, i as int)),
            decreases items.len() - i,
        {
            assert(iv[i as int] == items@[i as int]@);
            assert(iv[i as int].wf());
            let hit = match filter.evaluate(&items[i]) {
                Err(e) => return Err(PersistenceError::SchemaError(e)),
                Ok(hit) => hit,
            };
            let v = if hit {
                proof {
                    lemma_mutation_applies_wf(update@, iv[i as int]);
                }
                match update.apply(&items[i]) {
                    Err(e) => return Err(PersistenceError::SchemaError(e)),
                    Ok(v) => v,
                }
            } else {
                items[i].duplicate()
            };
            let ghost before = ivalue_list_view(out@);
            out.push(v);
            proof {
                assert(ivalue_list_view(out@) =~= before.push(v@));
                match iupdate_from(iv, filter@, update@, i + 1) {
                    Ok((rest, n)) => {
                        assert(before + (seq![v@] + rest) =~= before.push(v@) + rest);
                    },
                    Err(_) => {},
                }
            }
            if hit {
                count = count + 1;
            }
            i = i + 1;
        }
        assert(ivalue_list_view(out@) + Seq::<SpecValue>::empty() =~= ivalue_list_view(out@));
        *items = out;
        Ok(count)
    }

    /// The positions of the items that pass `filter`, in ascending order (see `imatching_from`).
    pub fn matching_items(items: &Vec<IndirectValue>, filter: &IndirectExpression) -> (r: Result<Vec<usize>, PersistenceError>)
        requires
            all_wf(ivalue_list_view(items@)),
            iexpression_wf(filter@),
        ensures
            match imatching_from(ivalue_list_view(items@), filter@, 0) {
                Ok(rs) => r matches Ok(v) && v@.len() == rs.len() && forall|j: int| 0 <= j < rs.len() ==> v@[j] as int == #[trigger] rs[j],
                Err(e) => r matches Err(re) && re@ == SpecPersistenceError::SchemaError(e),
            },
    {
        let ghost iv = ivalue_list_view(items@);
        let mut out: Vec<usize> = Vec::new();
        let mut i: usize = 0;
        while i < items.len()
            invariant
                i <= items.len(),
                iv == ivalue_list_view(items@),
                all_wf(iv),
                iexpression_wf(filter@),
                forall|j: int| 0 <= j < out@.len() ==> out@[j] < i,
                imatching_from(iv, filter@, 0) == iprepend_matches(Seq::new(out@.len(), |j: int| out@[j] as int), imatching_from(iv, filter@, i as int)),
            decreases items.len() - i,
        {
            assert(iv[i as int] == items@[i as int]@);
            assert(iv[i as int].wf());
            let hit = match filter.evaluate(&items[i]) {
                Err(e) => return Err(PersistenceError::SchemaError(e)),
                Ok(hit) => hit,
            };
            let ghost before = Seq::new(out@.len(), |j: int| out@[j] as int);
            if hit {
                out.push(i);
                proof {
                    assert(Seq::new(out@.len(), |j: int| out@[j] as int) =~= before.push(i as int));
                    match imatching_from(iv, filter@, i + 1) {
                        Ok(rest) => {
                            assert(before + (seq![i as int] + rest) =~= before.push(i as int) + rest);
                        },
                        Err(_) => {},
                    }
                }
            }
            i = i + 1;
        }
        proof {
            let fin = Seq::new(out@.len(), |j: int| out@[j] as int);
            assert(fin + Seq::<int>::empty() =~= fin);
        }
        Ok(out)
    }

    /// Whether deleting the items that pass `filter` from `items` stays in bounds (see
    /// `ideletion_fits`).
    pub fn deletion_in_bounds(items: &Vec<IndirectValue>, filter: &IndirectExpression) -> (r: bool)
        requires
            all_wf(ivalue_list_view(items@)),
            iexpression_wf(filter@),
        ensures
            r == ideletion_fits(ivalue_list_view(items@), filter@),
    {
        match Self::matching_items(items, filter) {
            Err(_) => true,
            Ok(rs) => {
                proof {
                    if let Ok(s) = imatching_from(ivalue_list_view(items@), filter@, 0) {
                        assert(Seq::new(rs@.len(), |j: int| rs@[j] as int) =~= s);
                    }
                }
                crate::store::mem::MemStore::removals_in_bounds(&rs, items.len())
            },
        }
    }

    /// Deletes the items that pass `filter` and gives their number: the positions found are
    /// removed one after the other, each from what the removals before it left (see
    /// `remove_in_turn`). On a filter error no item is removed.
    pub fn delete_items(items: &mut Vec<IndirectValue>, filter: &IndirectExpression) -> (r: Result<usize, PersistenceError>)
        requires
            all_wf(ivalue_list_view(old(items)@)),
            iexpression_wf(filter@),
            ideletion_fits(ivalue_list_view(old(items)@), filter@),
        ensures
            match imatching_from(ivalue_list_view(old(items)@), filter@, 0) {
                Ok(rs) => r == Ok::<usize, PersistenceError>(rs.len() as usize)
                    && ivalue_list_view(final(items)@) == remove_in_turn(ivalue_list_view(old(items)@), rs),
                Err(e) => r matches Err(re) && re@ == SpecPersistenceError::SchemaError(e) && final(items)@ == old(items)@,
            },
    {
        let removals = Self::matching_items(items, filter)?;
        let ghost rs = Seq::new(removals@.len(), |j: int| removals@[j] as int);
        proof {
            if let Ok(s) = imatching_from(ivalue_list_view(items@), filter@, 0) {
                assert(rs =~= s);
            }
        }
        let removal_count = removals.len();
        let mut j: usize = 0;
        assert(rs.skip(0) =~= rs);
        while j < removals.len()
            invariant
                j <= removals.len(),
                removal_count == removals.len(),
                rs == Seq::new(removals@.len(), |k: int| removals@[k] as int),
                removals_fit(rs, old(items)@.len() as int),
                items@.len() == old(items)@.len() - j,
                remove_in_turn(ivalue_list_view(old(items)@), rs) == remove_in_turn(ivalue_list_view(items@), rs.skip(j as int)),
            decreases removals.len() - j,
        {
            let i = removals[j];
            assert(0 <= rs[j as int] < old(items)@.len() - j);
            let ghost before = ivalue_list_view(items@);
            items.remove(i);
            proof {
                assert(ivalue_list_view(items@) =~= before.remove(i as int));
                assert(rs.skip(j as int).drop_first() =~= rs.skip(j + 1));
                assert(rs.skip(j as int)[0] == i as int);
            }
            j = j + 1;
        }
        assert(rs.skip(removals.len() as int) =~= Seq::<int>::empty());
        Ok(removal_count)
    }

    /// Writes each item of the data model `T` through the pseudo format and appends the
    /// values written, in order. On an error no value is appended; only a write by `T` can
    /// fail, so inserting nothing succeeds and leaves the items as they were. What a write
    /// gives is up to `T`.
    pub fn insert_items<T: StreamSerial>(items: &mut Vec<IndirectValue>, new_data: Vec<T>) -> (r: Result<(), PersistenceError>)
        ensures
            r is Ok ==> final(items)@.len() == old(items)@.len() + new_data@.len()
                && final(items)@.subrange(0, old(items)@.len() as int) == old(items)@,
            r is Err ==> final(items)@ == old(items)@,
            r matches Err(e) ==> e is SerialError,
            new_data@.len() == 0 ==> r is Ok && final(items)@ == old(items)@,
    {
        let mut values: Vec<IndirectValue> = Vec::new();
        let mut rest = new_data;
        let total = rest.len();
        while rest.len() > 0
            invariant
                values@.len() + rest@.len() == total,
                total == new_data@.len(),
            decreases rest.len(),
        {
            let item = rest.remove(0);
            let mut writer = PseudoSerial::new_writer();
            if let Err(e) = item.stream_serialize(&mut writer) {
                return Err(PersistenceError::SerialError(e));
            }
            match writer.flush() {
                Err(e) => return Err(PersistenceError::SerialError(e)),
                Ok(SerialValue::Pseudo(value)) => values.push(value),
                Ok(SerialValue::Buffer(_)) => {
                    assert(false);
                },
            }
        }
        let ghost start = items@;
        let mut k: usize = 0;
        while k < values.len()
            invariant
                k <= values.len(),
                items@.len() == start.len() + k,
                items@.subrange(0, start.len() as int) == start,
            decreases values.len() - k,
        {
            let ghost before = items@;
            items.push(values[k].duplicate());
            assert(items@.subrange(0, start.len() as int) =~= before.subrange(0, start.len() as int));
            k = k + 1;
        }
        proof {
            if new_data@.len() == 0 {
                assert(items@ =~= items@.subrange(0, start.len() as int));
            }
        }
        Ok(())
    }
}

} // verus!
