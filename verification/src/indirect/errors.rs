//! Errors of the indirect schema.
use vstd::prelude::*;

verus! {

/// The model of an `IndirectSchemaError`.
pub enum SpecIndirectError {
    UnknownableType,
    Message(Seq<char>),
}

/// A schema error: a value whose type cannot be known, or a failure described by a message.
#[derive(Debug, Clone, PartialEq)]
pub enum IndirectSchemaError {
    UnknownableType,
    Message(String),
}

impl View for IndirectSchemaError {
    type V = SpecIndirectError;

    open spec fn view(&self) -> SpecIndirectError {
        match self {
            IndirectSchemaError::UnknownableType => SpecIndirectError::UnknownableType,
            IndirectSchemaError::Message(m) => SpecIndirectError::Message(m@),
        }
    }
}

} // verus!
