//! Persistence errors.
use vstd::prelude::*;
use crate::indirect::errors::{IndirectSchemaError, SpecIndirectError};
use crate::indirect_serial::errors::{SerialError, SpecSerialError};

verus! {

/// The model of a `PersistenceError`.
pub enum SpecPersistenceError {
    SchemaError(SpecIndirectError),
    SerialError(SpecSerialError),
    QueryInvalid(Seq<char>),
    Poisoned,
}

/// A failed persistence operation: a schema or serialisation error, an invalid query, or a
/// poisoned lock.
#[derive(Debug, PartialEq)]
pub enum PersistenceError {
    SchemaError(IndirectSchemaError),
    SerialError(SerialError),
    QueryInvalid(String),
    Poisoned,
}

impl View for PersistenceError {
    type V = SpecPersistenceError;

    open spec fn view(&self) -> SpecPersistenceError {
        match self {
            PersistenceError::SchemaError(e) => SpecPersistenceError::SchemaError(e@),
            PersistenceError::SerialError(e) => SpecPersistenceError::SerialError(e@),
            PersistenceError::QueryInvalid(m) => SpecPersistenceError::QueryInvalid(m@),
            PersistenceError::Poisoned => SpecPersistenceError::Poisoned,
        }
    }
}

impl From<IndirectSchemaError> for PersistenceError {
    fn from(err: IndirectSchemaError) -> (r: Self) {
        PersistenceError::SchemaError(err)
    }
}

impl vstd::std_specs::convert::FromSpecImpl<IndirectSchemaError> for PersistenceError {
    open spec fn obeys_from_spec() -> bool {
        true
    }

    open spec fn from_spec(err: IndirectSchemaError) -> Self {
        PersistenceError::SchemaError(err)
    }
}

impl From<SerialError> for PersistenceError {
    fn from(err: SerialError) -> (r: Self) {
        PersistenceError::SerialError(err)
    }
}

impl vstd::std_specs::convert::FromSpecImpl<SerialError> for PersistenceError {
    open spec fn obeys_from_spec() -> bool {
        true
    }

    open spec fn from_spec(err: SerialError) -> Self {
        PersistenceError::SerialError(err)
    }
}

} // verus!
