//! Typed state: string-keyed cells, each holding a value together with the identifier of
//! its type. Cells are held as entries in ascending key order.
use vstd::prelude::*;
use std::any::TypeId;
use crate::text::string_from_str;
use crate::schema::entries::{
    key_seq, string_keys, sorted_keys, index_of_key, member_of, insert_entry, insert_string_entry,
    lemma_index_of_key, lemma_index_of_sorted, lemma_insert_entry_sorted, find_entry, insert_sorted,
};
use super::errors::{StateError, SpecStateError};
use super::payload::{Payload, payload_of, payload_get, payload_share, type_id_of, same_type_id};

verus! {

/// A stored value and the identifier of its type.
pub struct StateCell {
    type_id: TypeId,
    value: Payload,
}

impl StateCell {
    /// The identifier of the stored value's type.
    pub closed spec fn tag(&self) -> TypeId {
        self.type_id
    }

    /// The holder of the stored value.
    pub closed spec fn payload(&self) -> Payload {
        self.value
    }

    /// A cell holding `value`, tagged with `type_id`.
    pub fn new(type_id: TypeId, value: Payload) -> (r: Self)
        ensures
            r.tag() == type_id,
            r.payload() == value,
    {
        Self { type_id, value }
    }

    /// The identifier of the stored value's type.
    pub fn type_id(&self) -> (r: TypeId)
        ensures
            r == self.tag(),
    {
        self.type_id
    }

    /// The holder of the stored value.
    pub fn value(&self) -> (r: &Payload)
        ensures
            *r == self.payload(),
    {
        &self.value
    }
}

impl Clone for StateCell {
    /// Another cell with the same tag and the same shared value.
    fn clone(&self) -> (r: Self)
        ensures
            r == *self,
    {
        StateCell { type_id: self.type_id, value: payload_share(&self.value) }
    }
}

/// The spec-level entries of executable keyed entries.
pub open spec fn entries_of<V>(es: Seq<(String, V)>) -> Seq<(Seq<char>, V)> {
    Seq::new(es.len(), |i: int| (es[i].0@, es[i].1))
}

/// The map that keyed entries hold.
pub open spec fn table_of<V>(es: Seq<(String, V)>) -> Map<Seq<char>, V> {
    Map::new(
        |k: Seq<char>| member_of(entries_of(es), k) is Some,
        |k: Seq<char>| member_of(entries_of(es), k)->0,
    )
}

/// The keys of executable entries are the keys of their spec-level entries.
pub proof fn lemma_entries_keys<V>(es: Seq<(String, V)>)
    ensures
        key_seq(entries_of(es)) == string_keys(es),
{
    assert(key_seq(entries_of(es)) =~= string_keys(es));
}

/// A key found in ascending entries is bound to the member found there.
pub proof fn lemma_table_at<V>(es: Seq<(String, V)>, key: Seq<char>)
    ensures
        index_of_key(string_keys(es), key) matches Some(i) ==> table_of(es).contains_key(key)
            && table_of(es)[key] == es[i].1,
        index_of_key(string_keys(es), key) is None ==> !table_of(es).contains_key(key),
{
    lemma_entries_keys(es);
    lemma_index_of_key(string_keys(es), key);
}

/// Binding a key in ascending entries keeps them ascending and binds it in their map.
pub proof fn lemma_table_insert<V>(es: Seq<(String, V)>, key: String, v: V)
    requires
        sorted_keys(string_keys(es)),
    ensures
        sorted_keys(string_keys(insert_string_entry(es, key, v))),
        table_of(insert_string_entry(es, key, v)) == table_of(es).insert(key@, v),
{
    lemma_entries_keys(es);
    let r = insert_string_entry(es, key, v);
    lemma_entries_keys(r);
    lemma_index_of_key(string_keys(es), key@);
    match index_of_key(string_keys(es), key@) {
        Some(i) => {
            assert(entries_of(r) =~= entries_of(es).update(i, (key@, v)));
        },
        None => {
            let p = crate::schema::entries::insert_index(string_keys(es), key@);
            crate::schema::entries::lemma_insert_index(string_keys(es), key@);
            assert(entries_of(r) =~= entries_of(es).insert(p, (key@, v)));
        },
    }
    assert(entries_of(r) =~= insert_entry(entries_of(es), key@, v));
    lemma_insert_entry_sorted(entries_of(es), key@, v);
    assert(table_of(r) =~= table_of(es).insert(key@, v));
}

/// Removing the entry at `i` from ascending entries keeps them ascending.
proof fn lemma_remove_sorted<V>(es: Seq<(String, V)>, i: int)
    requires
        sorted_keys(string_keys(es)),
        0 <= i < es.len(),
    ensures
        sorted_keys(string_keys(es.remove(i))),
{
    let keys = string_keys(es);
    let rkeys = string_keys(es.remove(i));
    assert forall|a: int, b: int| 0 <= a < b < rkeys.len() implies crate::text::seq_lt(#[trigger] rkeys[a], #[trigger] rkeys[b]) by {
        let a0 = if a < i { a } else { a + 1 };
        let b0 = if b < i { b } else { b + 1 };
        assert(rkeys[a] == keys[a0]);
        assert(rkeys[b] == keys[b0]);
    }
}

/// After removing the entry at `i` from ascending entries, a key other than the removed one
/// is bound as before, and the removed one is unbound.
proof fn lemma_remove_at<V>(es: Seq<(String, V)>, i: int, k: Seq<char>)
    requires
        sorted_keys(string_keys(es)),
        0 <= i < es.len(),
    ensures
        table_of(es.remove(i)).contains_key(k) == (table_of(es).contains_key(k) && k != es[i].0@),
        table_of(es.remove(i)).contains_key(k) ==> table_of(es.remove(i))[k] == table_of(es)[k],
{
    let keys = string_keys(es);
    let r = es.remove(i);
    let rkeys = string_keys(r);
    lemma_remove_sorted(es, i);
    assert(rkeys.len() == keys.len() - 1);
    lemma_table_at(es, k);
    lemma_table_at(r, k);
    lemma_index_of_key(keys, k);
    lemma_index_of_key(rkeys, k);
    match index_of_key(keys, k) {
        Some(j) => {
            if j != i {
                let rj = if j < i { j } else { j - 1 };
                assert(rkeys[rj] == k);
                lemma_index_of_sorted(rkeys, k, rj);
                assert(r[rj] == es[j]);
                lemma_index_of_sorted(keys, es[i].0@, i);
            } else {
                if let Some(rj) = index_of_key(rkeys, k) {
                    let j0 = if rj < i { rj } else { rj + 1 };
                    assert(keys[j0] == k);
                    lemma_index_of_sorted(keys, k, j0);
                }
            }
        },
        None => {
            if let Some(rj) = index_of_key(rkeys, k) {
                let j0 = if rj < i { rj } else { rj + 1 };
                assert(keys[j0] == k);
            }
        },
    }
}

/// Removing the entry at `i` from ascending entries keeps them ascending and unbinds its key.
pub proof fn lemma_table_remove<V>(es: Seq<(String, V)>, i: int)
    requires
        sorted_keys(string_keys(es)),
        0 <= i < es.len(),
    ensures
        sorted_keys(string_keys(es.remove(i))),
        table_of(es.remove(i)) == table_of(es).remove(es[i].0@),
{
    lemma_remove_sorted(es, i);
    assert forall|k: Seq<char>| #[trigger] table_of(es.remove(i)).contains_key(k) == table_of(es).remove(es[i].0@).contains_key(k) by {
        lemma_remove_at(es, i, k);
    }
    assert forall|k: Seq<char>| #[trigger] table_of(es.remove(i)).contains_key(k) implies table_of(es.remove(i))[k] == table_of(es).remove(es[i].0@)[k] by {
        lemma_remove_at(es, i, k);
    }
    assert(table_of(es.remove(i)) =~= table_of(es).remove(es[i].0@));
}

/// What reading `key` at the type identified by `type_id` gives: the holder of the value
/// stored there when its tag is `type_id`; `Empty` when nothing is stored there;
/// `InvalidType` when it has another tag.
pub open spec fn cell_lookup(cells: Map<Seq<char>, StateCell>, key: Seq<char>, type_id: TypeId) -> Result<Payload, SpecStateError> {
    if !cells.contains_key(key) {
        Err(SpecStateError::Empty(key))
    } else if cells[key].tag() != type_id {
        Err(SpecStateError::InvalidType(key))
    } else {
        Ok(cells[key].payload())
    }
}

/// Law: reading a key just written, at the written cell's type, gives back the written
/// value; reading any other key gives what it gave before the write.
pub proof fn law_read_after_write(cells: Map<Seq<char>, StateCell>, key: Seq<char>, cell: StateCell, other: Seq<char>, type_id: TypeId)
    requires
        other != key,
    ensures
        cell_lookup(cells.insert(key, cell), key, cell.tag()) == Ok::<Payload, SpecStateError>(cell.payload()),
        cell_lookup(cells.insert(key, cell), other, type_id) == cell_lookup(cells, other, type_id),
{
}

/// Copy-on-write typed state: cells bound to string keys.
pub struct State {
    cells: Vec<(String, StateCell)>,
}

impl State {
    /// Cells are held in ascending key order.
    #[verifier::type_invariant]
    spec fn well_formed(&self) -> bool {
        sorted_keys(string_keys(self.cells@))
    }

    /// The cells, by key.
    pub closed spec fn table(&self) -> Map<Seq<char>, StateCell> {
        table_of(self.cells@)
    }
}

impl View for State {
    type V = Map<Seq<char>, StateCell>;

    open spec fn view(&self) -> Map<Seq<char>, StateCell> {
        self.table()
    }
}

impl State {
    /// An empty state.
    pub fn new() -> (r: Self)
        ensures
            r@ == Map::<Seq<char>, StateCell>::empty(),
    {
        let r = Self { cells: Vec::new() };
        assert(r@ =~= Map::<Seq<char>, StateCell>::empty());
        r
    }

    /// The holder of the value under `key`, when it is tagged `type_id`: `Empty` when
    /// nothing is stored there, `InvalidType` when it has another tag.
    pub fn lookup_cell(&self, key: &str, type_id: &TypeId) -> (r: Result<&Payload, StateError>)
        ensures
            match cell_lookup(self@, key@, *type_id) {
                Ok(p) => r matches Ok(rp) && *rp == p,
                Err(e) => r matches Err(re) && re@ == e,
            },
    {
        proof {
            use_type_invariant(self);
            lemma_entries_keys(self.cells@);
            lemma_table_at(self.cells@, key@);
            lemma_index_of_key(string_keys(self.cells@), key@);
        }
        match find_entry(&self.cells, key) {
            None => Err(StateError::Empty(string_from_str(key))),
            Some(i) => {
                let cell = &self.cells[i].1;
                if !same_type_id(&cell.type_id, type_id) {
                    return Err(StateError::InvalidType(string_from_str(key)));
                }
                Ok(&cell.value)
            },
        }
    }

    /// The value of type `T` under `key`: `Empty` when nothing is stored there,
    /// `InvalidType` when what is stored there has another type.
    pub fn get<T: Send + Sync + 'static>(&self, key: &str) -> (r: Result<&T, StateError>)
        ensures
            !self@.contains_key(key@) ==> (r matches Err(StateError::Empty(k)) && k@ == key@),
            self@.contains_key(key@) ==> (r is Ok || (r matches Err(StateError::InvalidType(k)) && k@ == key@)),
    {
        let type_id = type_id_of::<T>();
        let payload = self.lookup_cell(key, &type_id)?;
        match payload_get::<T>(payload) {
            Some(value) => Ok(value),
            None => Err(StateError::InvalidType(string_from_str(key))),
        }
    }

    /// Binds `key` to `cell`, replacing any cell stored there.
    pub fn insert_cell(&mut self, key: String, cell: StateCell)
        ensures
            final(self)@ == old(self)@.insert(key@, cell),
    {
        proof {
            use_type_invariant(&*self);
            lemma_table_insert(self.cells@, key, cell);
        }
        let mut cells = Vec::new();
        std::mem::swap(&mut cells, &mut self.cells);
        insert_sorted(&mut cells, key, cell);
        self.cells = cells;
    }

    /// Stores `value` under `key`, tagged with its type, replacing whatever was there.
    pub fn set<T: Send + Sync + 'static>(&mut self, key: &str, value: T) -> (r: Result<(), StateError>)
        ensures
            r is Ok,
            final(self)@ == old(self)@.insert(key@, final(self)@[key@]),
    {
        let cell = StateCell::new(type_id_of::<T>(), payload_of(value));
        self.insert_cell(string_from_str(key), cell);
        Ok(())
    }

    /// Another state holding the same cells.
    pub fn duplicate(&self) -> (r: Self)
        ensures
            r@ == self@,
    {
        proof {
            use_type_invariant(self);
        }
        let mut out: Vec<(String, StateCell)> = Vec::new();
        let mut i: usize = 0;
        while i < self.cells.len()
            invariant
                i <= self.cells.len(),
                out@.len() == i,
                forall|k: int| 0 <= k < i ==> (#[trigger] out@[k]).0@ == self.cells@[k].0@ && out@[k].1 == self.cells@[k].1,
            decreases self.cells.len() - i,
        {
            out.push((string_from_str(self.cells[i].0.as_str()), self.cells[i].1.clone()));
            i = i + 1;
        }
        assert(string_keys(out@) =~= string_keys(self.cells@));
        assert(entries_of(out@) =~= entries_of(self.cells@));
        Self { cells: out }
    }
}

impl Clone for State {
    fn clone(&self) -> (r: Self)
        ensures
            r@ == self@,
    {
        self.duplicate()
    }
}

} // verus!
