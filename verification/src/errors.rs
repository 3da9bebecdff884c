//! Initialisation errors.
use vstd::prelude::*;

verus! {

/// A failed initialisation: of an archetype, of configuration, or of state.
#[derive(Debug, PartialEq)]
pub enum InitError {
    Archetype(String),
    Config(String),
    State(String),
}

} // verus!
