//! Type-safe state for progressive evolution through logical flow: string-keyed cells
//! whose type, once set, a later write may not change.
use vstd::prelude::*;
use std::any::TypeId;
use crate::text::string_from_str;
use crate::schema::entries::{string_keys, sorted_keys, index_of_key, lemma_index_of_key, find_entry, insert_sorted};
use crate::state::payload::{Payload, payload_of, payload_get, type_id_of, same_type_id};
use crate::state::cells::{StateCell, table_of, lemma_table_at, lemma_table_insert, lemma_table_remove, lemma_entries_keys};

verus! {

/// The model of a `StateError`.
pub enum SpecStateError {
    Empty(Seq<char>),
    InvalidType(Seq<char>),
    Poisoned,
}

/// A failed state access: nothing is stored under the key, what is stored there has
/// another type than the one asked for, or a lock guarding the state was poisoned.
#[derive(Debug, PartialEq)]
pub enum StateError {
    Empty(String),
    InvalidType(String),
    Poisoned,
}

impl View for StateError {
    type V = SpecStateError;

    open spec fn view(&self) -> SpecStateError {
        match self {
            StateError::Empty(k) => SpecStateError::Empty(k@),
            StateError::InvalidType(k) => SpecStateError::InvalidType(k@),
            StateError::Poisoned => SpecStateError::Poisoned,
        }
    }
}

/// What reading `key` at the type identified by `type_id` gives: the holder of the value
/// stored there when its tag is `type_id`; `Empty` when nothing is stored there;
/// `InvalidType` when it has another tag.
pub open spec fn cell_read(cells: Map<Seq<char>, StateCell>, key: Seq<char>, type_id: TypeId) -> Result<Payload, SpecStateError> {
    if !cells.contains_key(key) {
        Err(SpecStateError::Empty(key))
    } else if cells[key].tag() != type_id {
        Err(SpecStateError::InvalidType(key))
    } else {
        Ok(cells[key].payload())
    }
}

/// What writing `cell` under `key` gives: the cells with `key` bound to `cell`, unless a
/// cell with another tag is stored there (`InvalidType`).
pub open spec fn cell_write(cells: Map<Seq<char>, StateCell>, key: Seq<char>, cell: StateCell) -> Result<Map<Seq<char>, StateCell>, SpecStateError> {
    if cells.contains_key(key) && cells[key].tag() != cell.tag() {
        Err(SpecStateError::InvalidType(key))
    } else {
        Ok(cells.insert(key, cell))
    }
}

/// Law: a write to a free key, or to a key holding the same type, succeeds; reading the key
/// back at that type then gives the written value, and every other key reads as before. A
/// write that would change the type of a key fails.
pub proof fn law_write_then_read(cells: Map<Seq<char>, StateCell>, key: Seq<char>, cell: StateCell, other: Seq<char>, type_id: TypeId)
    requires
        other != key,
    ensures
        !cells.contains_key(key) || cells[key].tag() == cell.tag() ==> (cell_write(cells, key, cell) matches Ok(after)
            && cell_read(after, key, cell.tag()) == Ok::<Payload, SpecStateError>(cell.payload())
            && cell_read(after, other, type_id) == cell_read(cells, other, type_id)),
        cells.contains_key(key) && cells[key].tag() != cell.tag() ==> cell_write(cells, key, cell) == Err::<Map<Seq<char>, StateCell>, SpecStateError>(
            SpecStateError::InvalidType(key)),
{
}

/// Typed state: cells bound to string keys, a key keeping the type it was first given.
pub struct State {
    cells: Vec<(String, StateCell)>,
}

impl State {
    /// Cells are held in ascending key order.
    #[verifier::type_invariant]
    spec fn well_formed(&self) -> bool {
        sorted_keys(string_keys(self.cells@))
    }

    /// The cells, by key.
    pub closed spec fn table(&self) -> Map<Seq<char>, StateCell> {
        table_of(self.cells@)
    }
}

impl View for State {
    type V = Map<Seq<char>, StateCell>;

    open spec fn view(&self) -> Map<Seq<char>, StateCell> {
        self.table()
    }
}

impl State {
    /// An empty state.
    pub fn new() -> (r: Self)
        ensures
            r@ == Map::<Seq<char>, StateCell>::empty(),
    {
        let r = Self { cells: Vec::new() };
        assert(r@ =~= Map::<Seq<char>, StateCell>::empty());
        r
    }

    /// Reads `key` at the type identified by `type_id` (see `cell_read`).
    pub fn read_cell(&self, key: &str, type_id: &TypeId) -> (r: Result<&Payload, StateError>)
        ensures
            match cell_read(self@, key@, *type_id) {
                Ok(p) => r matches Ok(rp) && *rp == p,
                Err(e) => r matches Err(re) && re@ == e,
            },
    {
        proof {
            use_type_invariant(self);
            lemma_table_at(self.cells@, key@);
            lemma_index_of_key(string_keys(self.cells@), key@);
        }
        match find_entry(&self.cells, key) {
            None => Err(StateError::Empty(string_from_str(key))),
            Some(i) => {
                let cell = &self.cells[i].1;
                if !same_type_id(&cell.type_id(), type_id) {
                    return Err(StateError::InvalidType(string_from_str(key)));
                }
                Ok(cell.value())
            },
        }
    }

    /// The value of type `T` under `key`: `Empty` when nothing is stored there,
    /// `InvalidType` when what is stored there has another type.
    pub fn get<T: Send + Sync + 'static>(&self, key: &str) -> (r: Result<&T, StateError>)
        ensures
            !self@.contains_key(key@) ==> (r matches Err(StateError::Empty(k)) && k@ == key@),
            self@.contains_key(key@) ==> (r is Ok || (r matches Err(StateError::InvalidType(k)) && k@ == key@)),
    {
        let type_id = type_id_of::<T>();
        let payload = self.read_cell(key, &type_id)?;
        match payload_get::<T>(payload) {
            Some(value) => Ok(value),
            None => Err(StateError::InvalidType(string_from_str(key))),
        }
    }

    /// Writes `cell` under `key` (see `cell_write`); a failed write changes nothing.
    pub fn write_cell(&mut self, key: String, cell: StateCell) -> (r: Result<(), StateError>)
        ensures
            match cell_write(old(self)@, key@, cell) {
                Ok(after) => r is Ok && final(self)@ == after,
                Err(e) => r matches Err(re) && re@ == e && final(self)@ == old(self)@,
            },
    {
        proof {
            use_type_invariant(&*self);
            lemma_table_at(self.cells@, key@);
            lemma_index_of_key(string_keys(self.cells@), key@);
            lemma_table_insert(self.cells@, key, cell);
        }
        if let Some(i) = find_entry(&self.cells, key.as_str()) {
            if !same_type_id(&self.cells[i].1.type_id(), &cell.type_id()) {
                return Err(StateError::InvalidType(key));
            }
        }
        let mut cells = Vec::new();
        std::mem::swap(&mut cells, &mut self.cells);
        insert_sorted(&mut cells, key, cell);
        self.cells = cells;
        Ok(())
    }

    /// Stores `value` under `key`: fails with `InvalidType`, changing nothing, when a value
    /// of another type is stored there; otherwise replaces whatever was there.
    pub fn set<T: Send + Sync + 'static>(&mut self, key: &str, value: T) -> (r: Result<(), StateError>)
        ensures
            !old(self)@.contains_key(key@) ==> r is Ok,
            r is Ok ==> final(self)@ == old(self)@.insert(key@, final(self)@[key@]),
            r is Err ==> (r matches Err(StateError::InvalidType(k)) && k@ == key@) && old(self)@.contains_key(key@)
                && final(self)@ == old(self)@,
    {
        let cell = StateCell::new(type_id_of::<T>(), payload_of(value));
        self.write_cell(string_from_str(key), cell)
    }

    /// Removes the cell under `key`, if any.
    pub fn take_cell(&mut self, key: &str) -> (r: Option<StateCell>)
        ensures
            r == old(self)@.get(key@),
            final(self)@ == old(self)@.remove(key@),
    {
        proof {
            use_type_invariant(&*self);
            lemma_table_at(self.cells@, key@);
            lemma_index_of_key(string_keys(self.cells@), key@);
        }
        match find_entry(&self.cells, key) {
            None => {
                assert(self@ =~= self@.remove(key@));
                None
            },
            Some(i) => {
                proof {
                    lemma_table_remove(self.cells@, i as int);
                }
                let mut cells = Vec::new();
                std::mem::swap(&mut cells, &mut self.cells);
                let (_, cell) = cells.remove(i);
                self.cells = cells;
                Some(cell)
            },
        }
    }

    /// Removes the value under `key` and gives a copy of it as type `T`: `Empty` when
    /// nothing is stored there, `InvalidType` when what was stored there has another type.
    /// The key is unbound whatever the outcome.
    pub fn take<T: Send + Sync + Clone + 'static>(&mut self, key: &str) -> (r: Result<T, StateError>)
        ensures
            final(self)@ == old(self)@.remove(key@),
            !old(self)@.contains_key(key@) ==> (r matches Err(StateError::Empty(k)) && k@ == key@),
            old(self)@.contains_key(key@) ==> (r is Ok || (r matches Err(StateError::InvalidType(k)) && k@ == key@)),
    {
        let cell = match self.take_cell(key) {
            None => return Err(StateError::Empty(string_from_str(key))),
            Some(cell) => cell,
        };
        if !same_type_id(&type_id_of::<T>(), &cell.type_id()) {
            return Err(StateError::InvalidType(string_from_str(key)));
        }
        match payload_get::<T>(cell.value()) {
            Some(value) => Ok(value.clone()),
            None => Err(StateError::InvalidType(string_from_str(key))),
        }
    }
}

} // verus!
