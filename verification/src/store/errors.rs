//! Store errors.
use vstd::prelude::*;
use crate::schema::errors::{SchemaError, SpecSchemaError};

verus! {

/// The model of a `StoreError`.
pub enum SpecStoreError {
    Schema(SpecSchemaError),
    Query(Seq<char>),
    Backend(Seq<char>),
}

/// A failed store operation: a schema error in a filter or mutation, an invalid query, or a
/// failure of the backend.
#[derive(Debug, PartialEq)]
pub enum StoreError {
    Schema(SchemaError),
    Query(String),
    Backend(String),
}

impl View for StoreError {
    type V = SpecStoreError;

    open spec fn view(&self) -> SpecStoreError {
        match self {
            StoreError::Schema(e) => SpecStoreError::Schema(e@),
            StoreError::Query(m) => SpecStoreError::Query(m@),
            StoreError::Backend(m) => SpecStoreError::Backend(m@),
        }
    }
}

impl From<SchemaError> for StoreError {
    fn from(err: SchemaError) -> (r: Self) {
        StoreError::Schema(err)
    }
}

impl vstd::std_specs::convert::FromSpecImpl<SchemaError> for StoreError {
    open spec fn obeys_from_spec() -> bool {
        true
    }

    open spec fn from_spec(err: SchemaError) -> Self {
        StoreError::Schema(err)
    }
}

} // verus!
