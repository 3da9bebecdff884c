//! Schema errors.
use vstd::prelude::*;
use super::primitives::{Type, SpecType};
use super::expr::Comparator;

verus! {

/// The model of a `SchemaError`.
pub enum SpecSchemaError {
    UnknownableType,
    InvalidComparison(Comparator, SpecType, SpecType),
    InvalidLookup(Option<SpecType>, Seq<char>),
    InvalidIndex(Option<SpecType>, Option<usize>),
    InvalidCast(SpecType),
    MissingKey(Seq<char>),
    InvalidType(SpecType, SpecType),
    NotImplemented(Seq<char>),
}

/// Errors in typing, looking up, comparing or mutating indirect values.
#[derive(Debug, Clone, PartialEq)]
pub enum SchemaError {
    UnknownableType,
    InvalidComparison(Comparator, Type, Type),
    InvalidLookup(Option<Type>, String),
    InvalidIndex(Option<Type>, Option<usize>),
    InvalidCast(Type),
    MissingKey(String),
    InvalidType(Type, Type),
    NotImplemented(String),
}

/// The model of an optional type.
pub open spec fn option_type_view(t: Option<Type>) -> Option<SpecType> {
    match t {
        Some(t) => Some(t@),
        None => None,
    }
}

impl View for SchemaError {
    type V = SpecSchemaError;

    open spec fn view(&self) -> SpecSchemaError {
        match self {
            SchemaError::UnknownableType => SpecSchemaError::UnknownableType,
            SchemaError::InvalidComparison(c, a, b) => SpecSchemaError::InvalidComparison(*c, a@, b@),
            SchemaError::InvalidLookup(t, k) => SpecSchemaError::InvalidLookup(option_type_view(*t), k@),
            SchemaError::InvalidIndex(t, i) => SpecSchemaError::InvalidIndex(option_type_view(*t), *i),
            SchemaError::InvalidCast(t) => SpecSchemaError::InvalidCast(t@),
            SchemaError::MissingKey(k) => SpecSchemaError::MissingKey(k@),
            SchemaError::InvalidType(a, b) => SpecSchemaError::InvalidType(a@, b@),
            SchemaError::NotImplemented(m) => SpecSchemaError::NotImplemented(m@),
        }
    }
}

} // verus!
