//! Serialisation errors of indirect values.
use vstd::prelude::*;
use crate::indirect::errors::{IndirectSchemaError, SpecIndirectError};

verus! {

/// The model of a `SerialError`.
pub enum SpecSerialError {
    Schema(SpecIndirectError),
    DataFormat(Seq<char>),
    DataContent(Seq<char>),
    NotImplemented(Seq<char>),
}

/// A failed serialisation: a schema error, data in the wrong format, data with the wrong
/// content, or an unsupported operation.
#[derive(Debug, Clone, PartialEq)]
pub enum SerialError {
    Schema(IndirectSchemaError),
    DataFormat(String),
    DataContent(String),
    NotImplemented(String),
}

impl View for SerialError {
    type V = SpecSerialError;

    open spec fn view(&self) -> SpecSerialError {
        match self {
            SerialError::Schema(e) => SpecSerialError::Schema(e@),
            SerialError::DataFormat(m) => SpecSerialError::DataFormat(m@),
            SerialError::DataContent(m) => SpecSerialError::DataContent(m@),
            SerialError::NotImplemented(m) => SpecSerialError::NotImplemented(m@),
        }
    }
}

impl From<IndirectSchemaError> for SerialError {
    fn from(err: IndirectSchemaError) -> (r: Self) {
        SerialError::Schema(err)
    }
}

impl vstd::std_specs::convert::FromSpecImpl<IndirectSchemaError> for SerialError {
    open spec fn obeys_from_spec() -> bool {
        true
    }

    open spec fn from_spec(err: IndirectSchemaError) -> Self {
        SerialError::Schema(err)
    }
}

} // verus!
