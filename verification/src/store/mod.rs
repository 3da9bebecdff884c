//! Persistent storage, generic against a backend: the errors of stores and the data logic
//! of the in-memory backend.
pub mod errors;
pub mod mem;
