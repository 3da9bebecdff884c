//! (De)serialization of indirect values.
pub mod errors;
pub mod json_spec;
pub mod json_parser;
pub mod json_writer;
pub mod value;
pub mod format;
pub mod json;
pub mod json_laws;
