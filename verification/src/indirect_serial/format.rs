//! Serialisation format abstractions for indirect values.
use vstd::prelude::*;
use crate::indirect::primitives::{IndirectType, IndirectValue};
use super::errors::SerialError;
use super::value::SerialValue;

verus! {

/// Writes one indirect value into serial data.
pub trait SerialWriter: Sized {
    /// A writer holding `value`.
    fn from_value(value: IndirectValue) -> Result<Self, SerialError>;

    /// Replaces what the writer holds with `value`.
    fn write(&mut self, value: IndirectValue) -> Result<(), SerialError>;

    /// The serial data written.
    fn flush(self) -> Result<SerialValue, SerialError>;
}

/// Reads indirect values out of serial data.
pub trait SerialReader: Sized {
    /// A reader of `serial`.
    fn from_serial(serial: SerialValue) -> Self;

    /// The value read.
    fn into_value(self) -> Result<IndirectValue, SerialError>;

    /// A reader of the member under `key`.
    fn lookup(&self, key: &str) -> Result<Self, SerialError>;

    /// Readers of the elements, in order.
    fn elements(&self) -> Result<Vec<Self>, SerialError>;
}

/// A serialisation format: its reader and writer.
pub trait SerialFormat {
    type Writer: SerialWriter;
    type Reader: SerialReader;

    /// A new, empty writer.
    fn new_writer() -> Self::Writer;

    /// A reader of `value`.
    fn new_reader(value: SerialValue) -> Self::Reader;
}

/// A concrete data model that streams itself through readers and writers.
pub trait StreamSerial: Sized + Send + Sync {
    /// The type of the data model.
    fn schema() -> IndirectType;

    /// Reads a value of the data model.
    fn stream_deserialize<R: SerialReader>(reader: &mut R) -> Result<Self, SerialError>;

    /// Writes this value of the data model.
    fn stream_serialize<W: SerialWriter>(self, writer: &mut W) -> Result<(), SerialError>;
}

/// Reads a data model out of serial data of format `F`.
pub fn deserialize<T: StreamSerial, F: SerialFormat>(serial: SerialValue) -> Result<T, SerialError> {
    let mut reader = F::new_reader(serial);
    T::stream_deserialize(&mut reader)
}

/// Writes a data model as serial data of format `F`.
pub fn serialize<T: StreamSerial, F: SerialFormat>(value: T) -> Result<SerialValue, SerialError> {
    let mut writer = F::new_writer();
    value.stream_serialize(&mut writer)?;
    writer.flush()
}

} // verus!
