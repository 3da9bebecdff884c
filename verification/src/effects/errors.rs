//! Effect errors.
use vstd::prelude::*;
use crate::schema::errors::SchemaError;
use crate::serial::errors::SerialError;
use crate::store::errors::StoreError;
use crate::state::errors::StateError;

verus! {

/// A failed effect: a missing or duplicate effect, an error of state, serialisation, a
/// store or the schema, an internal failure, or the failure of a named effect run from
/// another one.
#[derive(Debug, PartialEq)]
pub enum EffectError {
    Missing(String),
    Duplicate(String),
    Stack(String, Box<EffectError>),
    State(StateError),
    Serial(SerialError),
    Store(StoreError),
    Schema(SchemaError),
    Internal(String),
}

impl From<StateError> for EffectError {
    fn from(err: StateError) -> (r: Self) {
        EffectError::State(err)
    }
}

impl vstd::std_specs::convert::FromSpecImpl<StateError> for EffectError {
    open spec fn obeys_from_spec() -> bool {
        true
    }

    open spec fn from_spec(err: StateError) -> Self {
        EffectError::State(err)
    }
}

impl From<SerialError> for EffectError {
    fn from(err: SerialError) -> (r: Self) {
        EffectError::Serial(err)
    }
}

impl vstd::std_specs::convert::FromSpecImpl<SerialError> for EffectError {
    open spec fn obeys_from_spec() -> bool {
        true
    }

    open spec fn from_spec(err: SerialError) -> Self {
        EffectError::Serial(err)
    }
}

impl From<StoreError> for EffectError {
    fn from(err: StoreError) -> (r: Self) {
        EffectError::Store(err)
    }
}

impl vstd::std_specs::convert::FromSpecImpl<StoreError> for EffectError {
    open spec fn obeys_from_spec() -> bool {
        true
    }

    open spec fn from_spec(err: StoreError) -> Self {
        EffectError::Store(err)
    }
}

impl From<SchemaError> for EffectError {
    fn from(err: SchemaError) -> (r: Self) {
        EffectError::Schema(err)
    }
}

impl vstd::std_specs::convert::FromSpecImpl<SchemaError> for EffectError {
    open spec fn obeys_from_spec() -> bool {
        true
    }

    open spec fn from_spec(err: SchemaError) -> Self {
        EffectError::Schema(err)
    }
}

impl EffectError {
    /// The failure `err` of the effect named `effect_name`, run from another effect.
    pub fn stacked(effect_name: String, err: EffectError) -> (r: Self)
        ensures
            r matches EffectError::Stack(n, e) && n@ == effect_name@ && *e == err,
    {
        EffectError::Stack(effect_name, Box::new(err))
    }

    /// An internal error carrying the rendering of an initialisation error.
    pub fn internal(rendering: String) -> (r: Self)
        ensures
            r matches EffectError::Internal(m) && m@ == rendering@,
    {
        EffectError::Internal(rendering)
    }
}

} // verus!
