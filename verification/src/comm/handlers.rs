//! Handler errors.
use vstd::prelude::*;
use crate::errors::InitError;
use crate::logic::state::StateError;
use crate::effects::errors::EffectError;
use crate::serial::errors::SerialError;
use crate::schema::errors::SchemaError;

verus! {

/// A failed handler: an error of serialisation, the schema, state, initialisation or an
/// effect, or an internal failure.
#[derive(Debug, PartialEq)]
pub enum HandlerError {
    Serial(SerialError),
    Schema(SchemaError),
    State(StateError),
    Init(InitError),
    Effect(EffectError),
    Internal,
}

impl From<SchemaError> for HandlerError {
    fn from(err: SchemaError) -> (r: Self) {
        HandlerError::Schema(err)
    }
}

impl vstd::std_specs::convert::FromSpecImpl<SchemaError> for HandlerError {
    open spec fn obeys_from_spec() -> bool {
        true
    }

    open spec fn from_spec(err: SchemaError) -> Self {
        HandlerError::Schema(err)
    }
}

impl From<SerialError> for HandlerError {
    fn from(err: SerialError) -> (r: Self) {
        HandlerError::Serial(err)
    }
}

impl vstd::std_specs::convert::FromSpecImpl<SerialError> for HandlerError {
    open spec fn obeys_from_spec() -> bool {
        true
    }

    open spec fn from_spec(err: SerialError) -> Self {
        HandlerError::Serial(err)
    }
}

impl From<StateError> for HandlerError {
    fn from(err: StateError) -> (r: Self) {
        HandlerError::State(err)
    }
}

impl vstd::std_specs::convert::FromSpecImpl<StateError> for HandlerError {
    open spec fn obeys_from_spec() -> bool {
        true
    }

    open spec fn from_spec(err: StateError) -> Self {
        HandlerError::State(err)
    }
}

impl From<InitError> for HandlerError {
    fn from(err: InitError) -> (r: Self) {
        HandlerError::Init(err)
    }
}

impl vstd::std_specs::convert::FromSpecImpl<InitError> for HandlerError {
    open spec fn obeys_from_spec() -> bool {
        true
    }

    open spec fn from_spec(err: InitError) -> Self {
        HandlerError::Init(err)
    }
}

impl From<EffectError> for HandlerError {
    fn from(err: EffectError) -> (r: Self) {
        HandlerError::Effect(err)
    }
}

impl vstd::std_specs::convert::FromSpecImpl<EffectError> for HandlerError {
    open spec fn obeys_from_spec() -> bool {
        true
    }

    open spec fn from_spec(err: EffectError) -> Self {
        HandlerError::Effect(err)
    }
}

} // verus!
