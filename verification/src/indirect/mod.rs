//! The indirect schema: types, values, references, expressions and mutations whose
//! errors carry messages. Its values share their mathematical model with those of
//! `crate::schema`, so both are specified over `SpecType` and `SpecValue`; its comparator
//! and its errors differ.
pub mod errors;
pub mod primitives;
pub mod expr;
pub mod mutation;
