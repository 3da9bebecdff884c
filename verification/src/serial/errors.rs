//! Serialization errors.
use vstd::prelude::*;

verus! {

/// Errors in serializing or parsing serial data.
#[derive(Debug, Clone, PartialEq)]
pub enum SerialError {
    Format(String),
    Parse(String),
}

} // verus!
