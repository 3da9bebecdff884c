//! Serial formats.
use vstd::prelude::*;
use crate::schema::primitives::Value;
use super::errors::SerialError;
use super::value::SerialValue;

verus! {

/// A serial format: reads values from, and writes values to, serial data.
pub trait SerialFormat {
    /// Reads the value held in serial data.
    fn parse(&self, serial: SerialValue) -> Result<Value, SerialError>;

    /// Writes a value as serial data.
    fn write(&self, value: &Value) -> Result<SerialValue, SerialError>;
}

} // verus!
