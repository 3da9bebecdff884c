//! Schema representation via indirection: types, values, expressions and mutations.
pub mod entries;
pub mod decimal;
pub mod errors;
pub mod primitives;
pub mod expr;
pub mod mutation;
pub mod convert;
