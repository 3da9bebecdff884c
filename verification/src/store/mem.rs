//! The data logic of the in-memory store: loading, updating, deleting and inserting the
//! values held in memory under a store's name.
use vstd::prelude::*;
use crate::text::string_from_str;
use crate::schema::errors::SpecSchemaError;
use crate::schema::primitives::{Value, SpecValue, value_list_view};
use crate::schema::expr::{Expression, SpecExpression, expression_evaluates, expression_wf};
use crate::schema::mutation::{Mutation, SpecMutation, mutation_applies, mutation_wf, lemma_mutation_applies_wf};
use super::errors::{StoreError, SpecStoreError};

verus! {

/// Every value is well-formed.
pub open spec fn all_wf(items: Seq<SpecValue>) -> bool {
    forall|k: int| 0 <= k < items.len() ==> (#[trigger] items[k]).wf()
}

/// Whether `item` passes an optional filter: always without one.
pub open spec fn passes(filter: Option<SpecExpression>, item: SpecValue) -> Result<bool, SpecSchemaError> {
    match filter {
        None => Ok(true),
        Some(f) => expression_evaluates(f, item),
    }
}

/// Loading from position `i` on, with `skipped` passing items already skipped and `found`
/// already taken. Items are visited in order; a filter error stops the load; the first
/// `offset` passing items are skipped; each further one is taken, and the load ends as soon
/// as the number taken equals the limit.
pub open spec fn load_from(
    items: Seq<SpecValue>,
    filter: Option<SpecExpression>,
    offset: nat,
    limit: Option<nat>,
    i: int,
    skipped: nat,
    found: Seq<SpecValue>,
) -> Result<Seq<SpecValue>, SpecSchemaError>
    decreases items.len() - i,
{
    if i < 0 || i >= items.len() {
        Ok(found)
    } else {
        match passes(filter, items[i]) {
            Err(e) => Err(e),
            Ok(false) => load_from(items, filter, offset, limit, i + 1, skipped, found),
            Ok(true) => if skipped < offset {
                load_from(items, filter, offset, limit, i + 1, skipped + 1, found)
            } else if limit == Some(found.len() + 1) {
                Ok(found.push(items[i]))
            } else {
                load_from(items, filter, offset, limit, i + 1, skipped, found.push(items[i]))
            },
        }
    }
}

/// What a load of `items` gives (see `load_from`).
pub open spec fn mem_load(items: Seq<SpecValue>, filter: Option<SpecExpression>, offset: nat, limit: Option<nat>) -> Result<
    Seq<SpecValue>,
    SpecSchemaError,
> {
    load_from(items, filter, offset, limit, 0, 0, Seq::empty())
}

/// Updating from position `i` on: each item the filter passes is replaced by the outcome of
/// the mutation on it, the others kept; also the number of items replaced. The first filter
/// or mutation error, in item order, stops the update.
pub open spec fn update_from(items: Seq<SpecValue>, filter: SpecExpression, m: SpecMutation, i: int) -> Result<
    (Seq<SpecValue>, nat),
    SpecSchemaError,
>
    decreases items.len() - i,
{
    if i < 0 || i >= items.len() {
        Ok((Seq::empty(), 0))
    } else {
        match expression_evaluates(filter, items[i]) {
            Err(e) => Err(e),
            Ok(hit) => {
                let first = if hit { mutation_applies(m, items[i]) } else { Ok(items[i]) };
                match first {
                    Err(e) => Err(e),
                    Ok(v) => match update_from(items, filter, m, i + 1) {
                        Err(e) => Err(e),
                        Ok((rest, n)) => Ok((seq![v] + rest, if hit { n + 1 } else { n })),
                    },
                }
            },
        }
    }
}

/// Prepends already updated items, and their count, to an update's outcome.
pub open spec fn prepend_update(
    done: Seq<SpecValue>,
    count: nat,
    r: Result<(Seq<SpecValue>, nat), SpecSchemaError>,
) -> Result<(Seq<SpecValue>, nat), SpecSchemaError> {
    match r {
        Ok((rest, n)) => Ok((done + rest, count + n)),
        Err(e) => Err(e),
    }
}

/// The positions, from `i` on and in ascending order, of the items the filter passes; the
/// first filter error, in item order, stops the search.
pub open spec fn matching_from(items: Seq<SpecValue>, filter: SpecExpression, i: int) -> Result<Seq<int>, SpecSchemaError>
    decreases items.len() - i,
{
    if i < 0 || i >= items.len() {
        Ok(Seq::empty())
    } else {
        match expression_evaluates(filter, items[i]) {
            Err(e) => Err(e),
            Ok(hit) => match matching_from(items, filter, i + 1) {
                Err(e) => Err(e),
                Ok(rest) => Ok(if hit { seq![i] + rest } else { rest }),
            },
        }
    }
}

/// Prepends already found positions to a search's outcome.
pub open spec fn prepend_matches(done: Seq<int>, r: Result<Seq<int>, SpecSchemaError>) -> Result<Seq<int>, SpecSchemaError> {
    match r {
        Ok(rest) => Ok(done + rest),
        Err(e) => Err(e),
    }
}

/// The items left after removing, one after the other, the item at each position in `rs`
/// from what the removals before it left.
pub open spec fn remove_in_turn(items: Seq<SpecValue>, rs: Seq<int>) -> Seq<SpecValue>
    decreases rs.len(),
{
    if rs.len() == 0 {
        items
    } else {
        remove_in_turn(items.remove(rs[0]), rs.drop_first())
    }
}

/// Whether removing, one after the other, the positions in `rs` from `n` items stays in
/// bounds: the `j`-th removal (from 0) acts on `n - j` items.
pub open spec fn removals_fit(rs: Seq<int>, n: int) -> bool {
    forall|j: int| 0 <= j < rs.len() ==> 0 <= #[trigger] rs[j] < n - j
}

/// Whether a deletion by `filter` from `items` stays in bounds (see `MemStore::delete_items`).
pub open spec fn deletion_fits(items: Seq<SpecValue>, filter: SpecExpression) -> bool {
    match matching_from(items, filter, 0) {
        Ok(rs) => removals_fit(rs, items.len() as int),
        Err(_) => true,
    }
}

/// An in-memory store: the values held in memory under its name.
pub struct MemStore {
    name: String,
}

impl Clone for MemStore {
    /// Another handle on the same store.
    fn clone(&self) -> (r: Self)
        ensures
            r.spec_name() == self.spec_name(),
    {
        self.duplicate()
    }
}

impl MemStore {
    /// The name the store's values are held under.
    pub closed spec fn spec_name(&self) -> Seq<char> {
        self.name@
    }

    /// A store for the values held under `name`.
    pub fn new(name: &str) -> (r: Self)
        ensures
            r.spec_name() == name@,
    {
        Self { name: string_from_str(name) }
    }

    /// The name the store's values are held under.
    pub fn name(&self) -> (r: &str)
        ensures
            r@ == self.spec_name(),
    {
        self.name.as_str()
    }

    /// Another handle on the same store.
    pub fn duplicate(&self) -> (r: Self)
        ensures
            r.spec_name() == self.spec_name(),
    {
        Self { name: string_from_str(self.name.as_str()) }
    }

    /// Loads copies of the items that pass `filter` (see `mem_load`); a filter error is
    /// reported as a schema error of the store.
    pub fn load_items(items: &Vec<Value>, filter: Option<&Expression>, offset: usize, limit: Option<usize>) -> (r: Result<Vec<Value>, StoreError>)
        requires
            all_wf(value_list_view(items@)),
            filter matches Some(f) ==> expression_wf(f@),
        ensures
            match mem_load(
                value_list_view(items@),
                match filter { Some(f) => Some(f@), None => None },
                offset as nat,
                match limit { Some(l) => Some(l as nat), None => None },
            ) {
                Ok(s) => r matches Ok(v) && value_list_view(v@) == s,
                Err(e) => r matches Err(re) && re@ == SpecStoreError::Schema(e),
            },
    {
        let ghost iv = value_list_view(items@);
        let ghost fv = match filter { Some(f) => Some(f@), None => None };
        let ghost lv = match limit { Some(l) => Some(l as nat), None => None };
        let mut until_offs: usize = 0;
        let mut found: Vec<Value> = Vec::new();
        let mut i: usize = 0;
        assert(value_list_view(found@) =~= Seq::<SpecValue>::empty());
        while i < items.len()
            invariant
                i <= items.len(),
                until_offs <= i,
                found@.len() <= i,
                iv == value_list_view(items@),
                all_wf(iv),
                filter matches Some(f) ==> expression_wf(f@),
                fv == match filter { Some(f) => Some(f@), None => None },
                lv == match limit { Some(l) => Some(l as nat), None => None },
                mem_load(iv, fv, offset as nat, lv) == load_from(iv, fv, offset as nat, lv, i as int, until_offs as nat, value_list_view(found@)),
            decreases items.len() - i,
        {
            assert(iv[i as int] == items@[i as int]@);
            assert(iv[i as int].wf());
            if let Some(filter_expr) = filter {
                match filter_expr.evaluate(&items[i]) {
                    Err(e) => return Err(StoreError::Schema(e)),
                    Ok(hit) => {
                        if !hit {
                            i = i + 1;
                            continue;
                        }
                    },
                }
            }
            if until_offs < offset {
                until_offs = until_offs + 1;
                i = i + 1;
                continue;
            }
            let ghost before = value_list_view(found@);
            found.push(items[i].duplicate());
            assert(value_list_view(found@) =~= before.push(iv[i as int]));
            if let Some(limit_value) = limit {
                if found.len() == limit_value {
                    return Ok(found);
                }
            }
            i = i + 1;
        }
        Ok(found)
    }

    /// Replaces each item that passes `filter` by the outcome of `update` on it (see
    /// `update_from`) and gives the number replaced. On an error no item changes.
    pub fn update_items(items: &mut Vec<Value>, filter: &Expression, update: &Mutation) -> (r: Result<usize, StoreError>)
        requires
            all_wf(value_list_view(old(items)@)),
            expression_wf(filter@),
            mutation_wf(update@),
        ensures
            match update_from(value_list_view(old(items)@), filter@, update@, 0) {
                Ok((s, n)) => r == Ok::<usize, StoreError>(n as usize) && value_list_view(final(items)@) == s,
                Err(e) => r matches Err(re) && re@ == SpecStoreError::Schema(e) && final(items)@ == old(items)@,
            },
            all_wf(value_list_view(final(items)@)),
    {
        let ghost iv = value_list_view(items@);
        let mut out: Vec<Value> = Vec::new();
        let mut count: usize = 0;
        let mut i: usize = 0;
        while i < items.len()
            invariant
                i <= items.len(),
                count <= i,
                out@.len() == i,
                iv == value_list_view(items@),
                all_wf(iv),
                all_wf(value_list_view(out@)),
                expression_wf(filter@),
                mutation_wf(update@),
                update_from(iv, filter@, update@, 0) == prepend_update(value_list_view(out@), count as nat, update_from(iv, filter@, update@, i as int)),
            decreases items.len() - i,
        {
            assert(iv[i as int] == items@[i as int]@);
            assert(iv[i as int].wf());
            let hit = match filter.evaluate(&items[i]) {
                Err(e) => return Err(StoreError::Schema(e)),
                Ok(hit) => hit,
            };
            let v = if hit {
                proof {
                    lemma_mutation_applies_wf(update@, iv[i as int]);
                }
                match update.execute(&items[i]) {
                    Err(e) => return Err(StoreError::Schema(e)),
                    Ok(v) => v,
                }
            } else {
                items[i].duplicate()
            };
            let ghost before = value_list_view(out@);
            out.push(v);
            proof {
                assert(value_list_view(out@) =~= before.push(v@));
                match update_from(iv, filter@, update@, i + 1) {
                    Ok((rest, n)) => {
                        assert(before + (seq![v@] + rest) =~= before.push(v@) + rest);
                    },
                    Err(_) => {},
                }
            }
            if hit {
                count = count + 1;
            }
            i = i + 1;
        }
        assert(value_list_view(out@) + Seq::<SpecValue>::empty() =~= value_list_view(out@));
        *items = out;
        Ok(count)
    }

    /// The positions of the items that pass `filter`, in ascending order (see `matching_from`).
    pub fn matching_items(items: &Vec<Value>, filter: &Expression) -> (r: Result<Vec<usize>, StoreError>)
        requires
            all_wf(value_list_view(items@)),
            expression_wf(filter@),
        ensures
            match matching_from(value_list_view(items@), filter@, 0) {
                Ok(rs) => r matches Ok(v) && v@.len() == rs.len() && forall|j: int| 0 <= j < rs.len() ==> v@[j] as int == #[trigger] rs[j],
                Err(e) => r matches Err(re) && re@ == SpecStoreError::Schema(e),
            },
    {
        let ghost iv = value_list_view(items@);
        let mut out: Vec<usize> = Vec::new();
        let mut i: usize = 0;
        while i < items.len()
            invariant
                i <= items.len(),
                iv == value_list_view(items@),
                all_wf(iv),
                expression_wf(filter@),
                forall|j: int| 0 <= j < out@.len() ==> out@[j] < i,
                matching_from(iv, filter@, 0) == prepend_matches(Seq::new(out@.len(), |j: int| out@[j] as int), matching_from(iv, filter@, i as int)),
            decreases items.len() - i,
        {
            assert(iv[i as int] == items@[i as int]@);
            assert(iv[i as int].wf());
            let hit = match filter.evaluate(&items[i]) {
                Err(e) => return Err(StoreError::Schema(e)),
                Ok(hit) => hit,
            };
            let ghost before = Seq::new(out@.len(), |j: int| out@[j] as int);
            if hit {
                out.push(i);
                proof {
                    assert(Seq::new(out@.len(), |j: int| out@[j] as int) =~= before.push(i as int));
                    match matching_from(iv, filter@, i + 1) {
                        Ok(rest) => {
                            assert(before + (seq![i as int] + rest) =~= before.push(i as int) + rest);
                        },
                        Err(_) => {},
                    }
                }
            }
            i = i + 1;
        }
        proof {
            let fin = Seq::new(out@.len(), |j: int| out@[j] as int);
            assert(fin + Seq::<int>::empty() =~= fin);
        }
        Ok(out)
    }

    /// Whether removing, one after the other, the positions in `rs` from `n` items stays
    /// in bounds (see `removals_fit`).
    pub fn removals_in_bounds(rs: &Vec<usize>, n: usize) -> (r: bool)
        ensures
            r == removals_fit(Seq::new(rs@.len(), |j: int| rs@[j] as int), n as int),
    {
        let ghost rv = Seq::new(rs@.len(), |j: int| rs@[j] as int);
        let mut j: usize = 0;
        while j < rs.len()
            invariant
                j <= rs.len(),
                rv == Seq::new(rs@.len(), |k: int| rs@[k] as int),
                forall|k: int| 0 <= k < j ==> 0 <= #[trigger] rv[k] < n - k,
            decreases rs.len() - j,
        {
            if j >= n || rs[j] >= n - j {
                assert(!(0 <= rv[j as int] < n - j));
                return false;
            }
            j = j + 1;
        }
        true
    }

    /// Whether deleting the items that pass `filter` from `items` stays in bounds (see
    /// `deletion_fits`).
    pub fn deletion_in_bounds(items: &Vec<Value>, filter: &Expression) -> (r: bool)
        requires
            all_wf(value_list_view(items@)),
            expression_wf(filter@),
        ensures
            r == deletion_fits(value_list_view(items@), filter@),
    {
        match Self::matching_items(items, filter) {
            Err(_) => true,
            Ok(rs) => {
                proof {
                    if let Ok(s) = matching_from(value_list_view(items@), filter@, 0) {
                        assert(Seq::new(rs@.len(), |j: int| rs@[j] as int) =~= s);
                    }
                }
                Self::removals_in_bounds(&rs, items.len())
            },
        }
    }

    /// Deletes the items that pass `filter` and gives their number: the positions found are
    /// removed one after the other, each from what the removals before it left (see
    /// `remove_in_turn`). On a filter error no item is removed.
    pub fn delete_items(items: &mut Vec<Value>, filter: &Expression) -> (r: Result<usize, StoreError>)
        requires
            all_wf(value_list_view(old(items)@)),
            expression_wf(filter@),
            deletion_fits(value_list_view(old(items)@), filter@),
        ensures
            match matching_from(value_list_view(old(items)@), filter@, 0) {
                Ok(rs) => r == Ok::<usize, StoreError>(rs.len() as usize)
                    && value_list_view(final(items)@) == remove_in_turn(value_list_view(old(items)@), rs),
                Err(e) => r matches Err(re) && re@ == SpecStoreError::Schema(e) && final(items)@ == old(items)@,
            },
    {
        let removals = Self::matching_items(items, filter)?;
        let ghost rs = Seq::new(removals@.len(), |j: int| removals@[j] as int);
        proof {
            if let Ok(s) = matching_from(value_list_view(items@), filter@, 0) {
                assert(rs =~= s);
            }
        }
        let removal_count = removals.len();
        let mut j: usize = 0;
        assert(rs.skip(0) =~= rs);
        while j < removals.len()
            invariant
                j <= removals.len(),
                removal_count == removals.len(),
                rs == Seq::new(removals@.len(), |k: int| removals@[k] as int),
                removals_fit(rs, old(items)@.len() as int),
                items@.len() == old(items)@.len() - j,
                remove_in_turn(value_list_view(old(items)@), rs) == remove_in_turn(value_list_view(items@), rs.skip(j as int)),
            decreases removals.len() - j,
        {
            let i = removals[j];
            assert(0 <= rs[j as int] < old(items)@.len() - j);
            let ghost before = value_list_view(items@);
            items.remove(i);
            proof {
                assert(value_list_view(items@) =~= before.remove(i as int));
                assert(rs.skip(j as int).drop_first() =~= rs.skip(j + 1));
                assert(rs.skip(j as int)[0] == i as int);
            }
            j = j + 1;
        }
        assert(rs.skip(removals.len() as int) =~= Seq::<int>::empty());
        Ok(removal_count)
    }

    /// Appends `new_data` to the items, in order.
    pub fn insert_items(items: &mut Vec<Value>, new_data: Vec<Value>)
        ensures
            value_list_view(final(items)@) == value_list_view(old(items)@) + value_list_view(new_data@),
    {
        let ghost start = value_list_view(items@);
        let mut rest = new_data;
        let ghost all = value_list_view(rest@);
        let mut n: usize = 0;
        let total = rest.len();
        assert(all.skip(0) =~= all);
        assert(start + all.subrange(0, 0) =~= start);
        while rest.len() > 0
            invariant
                n <= total,
                total == all.len(),
                value_list_view(rest@) == all.skip(n as int),
                value_list_view(items@) == start + all.subrange(0, n as int),
            decreases rest.len(),
        {
            let ghost rest_before = rest@;
            assert(value_list_view(rest_before).len() == rest_before.len());
            assert(n < total);
            let item = rest.remove(0);
            let ghost before = value_list_view(items@);
            assert(value_list_view(rest_before)[0] == item@);
            assert(all[n as int] == all.skip(n as int)[0]);
            items.push(item);
            proof {
                assert(value_list_view(items@) =~= before.push(item@));
                assert(all.subrange(0, n + 1) =~= all.subrange(0, n as int).push(all[n as int]));
                assert(value_list_view(rest@) =~= value_list_view(rest_before).drop_first());
                assert(all.skip(n as int).drop_first() =~= all.skip(n + 1));
            }
            n = n + 1;
        }
        assert(all.subrange(0, total as int) =~= all);
    }
}

} // verus!

verus! {

/// Loading without filter, offset or limit from position `i` on, having taken the items
/// before it, gives every item.
proof fn lemma_load_all_from(items: Seq<SpecValue>, i: int)
    requires
        0 <= i <= items.len(),
    ensures
        load_from(items, None, 0, None, i, 0, items.subrange(0, i)) == Ok::<Seq<SpecValue>, SpecSchemaError>(items),
    decreases items.len() - i,
{
    if i == items.len() {
        assert(items.subrange(0, i) =~= items);
    } else {
        assert(items.subrange(0, i).push(items[i]) =~= items.subrange(0, i + 1));
        lemma_load_all_from(items, i + 1);
    }
}

/// Law: a load with no filter, no offset and no limit gives every item, in order.
pub proof fn law_load_everything(items: Seq<SpecValue>)
    ensures
        mem_load(items, None, 0, None) == Ok::<Seq<SpecValue>, SpecSchemaError>(items),
{
    assert(items.subrange(0, 0) =~= Seq::<SpecValue>::empty());
    lemma_load_all_from(items, 0);
}

/// Past the offset, a load without filter or limit takes every remaining item.
proof fn lemma_load_rest(items: Seq<SpecValue>, offset: nat, i: int)
    requires
        offset <= i <= items.len(),
    ensures
        load_from(items, None, offset, None, i, offset, items.subrange(offset as int, i))
            == Ok::<Seq<SpecValue>, SpecSchemaError>(items.subrange(offset as int, items.len() as int)),
    decreases items.len() - i,
{
    if i < items.len() {
        assert(items.subrange(offset as int, i).push(items[i]) =~= items.subrange(offset as int, i + 1));
        lemma_load_rest(items, offset, i + 1);
    }
}

/// Before the offset is used up, a load without filter or limit skips each item it meets and
/// then takes every remaining one.
proof fn lemma_load_skipping(items: Seq<SpecValue>, offset: nat, i: int)
    requires
        0 <= i <= offset,
        i <= items.len(),
    ensures
        load_from(items, None, offset, None, i, i as nat, Seq::empty())
            == Ok::<Seq<SpecValue>, SpecSchemaError>(if offset <= items.len() {
                items.subrange(offset as int, items.len() as int)
            } else {
                Seq::empty()
            }),
    decreases items.len() - i,
{
    if i < items.len() {
        if i < offset {
            lemma_load_skipping(items, offset, i + 1);
        } else {
            assert(Seq::<SpecValue>::empty().push(items[i]) =~= items.subrange(offset as int, i + 1));
            lemma_load_rest(items, offset, i + 1);
        }
    } else if offset <= items.len() {
        assert(items.subrange(offset as int, items.len() as int) =~= Seq::<SpecValue>::empty());
    }
}

/// Law: a load with no filter and no limit skips the first `offset` items and gives all the
/// others, in order (nothing when the offset reaches past the end).
pub proof fn law_load_skips_offset(items: Seq<SpecValue>, offset: nat)
    ensures
        mem_load(items, None, offset, None) == Ok::<Seq<SpecValue>, SpecSchemaError>(
            if offset <= items.len() { items.skip(offset as int) } else { Seq::empty() },
        ),
{
    lemma_load_skipping(items, offset, 0);
    if offset <= items.len() {
        assert(items.skip(offset as int) =~= items.subrange(offset as int, items.len() as int));
    }
}

/// A load under a positive limit, with fewer items taken than the limit, never takes more.
proof fn lemma_load_within_limit(
    items: Seq<SpecValue>,
    filter: Option<SpecExpression>,
    offset: nat,
    limit: nat,
    i: int,
    skipped: nat,
    found: Seq<SpecValue>,
)
    requires
        found.len() < limit,
    ensures
        load_from(items, filter, offset, Some(limit), i, skipped, found) matches Ok(r) ==> r.len() <= limit,
    decreases items.len() - i,
{
    if 0 <= i < items.len() {
        if let Ok(true) = passes(filter, items[i]) {
            if skipped < offset {
                lemma_load_within_limit(items, filter, offset, limit, i + 1, skipped + 1, found);
            } else if Some(limit) != Some((found.len() + 1) as nat) {
                lemma_load_within_limit(items, filter, offset, limit, i + 1, skipped, found.push(items[i]));
            }
        } else if let Ok(false) = passes(filter, items[i]) {
            lemma_load_within_limit(items, filter, offset, limit, i + 1, skipped, found);
        }
    }
}

/// Law: a load under a positive limit gives at most that many items. (Under a limit of
/// zero, the load is not limited at all: the count is compared only after an item is taken.)
pub proof fn law_load_respects_limit(items: Seq<SpecValue>, filter: Option<SpecExpression>, offset: nat, limit: nat)
    requires
        limit >= 1,
    ensures
        mem_load(items, filter, offset, Some(limit)) matches Ok(r) ==> r.len() <= limit,
{
    lemma_load_within_limit(items, filter, offset, limit, 0, 0, Seq::empty());
}

/// An update from position `i` on gives one item for each item from there, and replaces at
/// most that many.
proof fn lemma_update_count_from(items: Seq<SpecValue>, filter: SpecExpression, m: SpecMutation, i: int)
    requires
        0 <= i <= items.len(),
    ensures
        update_from(items, filter, m, i) matches Ok((r, n)) ==> r.len() == items.len() - i && n <= items.len() - i,
    decreases items.len() - i,
{
    if i < items.len() {
        lemma_update_count_from(items, filter, m, i + 1);
    }
}

/// Law: an update keeps the number of items, and replaces at most all of them.
pub proof fn law_update_keeps_count(items: Seq<SpecValue>, filter: SpecExpression, m: SpecMutation)
    ensures
        update_from(items, filter, m, 0) matches Ok((r, n)) ==> r.len() == items.len() && n <= items.len(),
{
    lemma_update_count_from(items, filter, m, 0);
}

} // verus!
