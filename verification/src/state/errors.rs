//! State errors.
use vstd::prelude::*;

verus! {

/// The model of a `StateError`.
pub enum SpecStateError {
    Empty(Seq<char>),
    InvalidType(Seq<char>),
}

/// A failed state access: nothing is stored under the key, or what is stored there has
/// another type than the one asked for.
#[derive(Debug, Clone, PartialEq)]
pub enum StateError {
    Empty(String),
    InvalidType(String),
}

impl View for StateError {
    type V = SpecStateError;

    open spec fn view(&self) -> SpecStateError {
        match self {
            StateError::Empty(k) => SpecStateError::Empty(k@),
            StateError::InvalidType(k) => SpecStateError::InvalidType(k@),
        }
    }
}

} // verus!
