//! Serialisation of indirect values: serial containers, reader and writer
//! abstractions, and the pseudo format, which carries values as they are.
pub mod errors;
pub mod value;
pub mod format;
pub mod pseudo;
