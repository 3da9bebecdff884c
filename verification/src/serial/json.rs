//! The JSON serial format.
use vstd::prelude::*;
use vstd::utf8::{encode_utf8, decode_utf8, valid_utf8};
use crate::text::string_from_str;
use crate::schema::primitives::{Value, SpecValue};
use super::errors::SerialError;
use super::value::{SerialValue, bytes_into_vec, string_from_utf8};
use super::format::SerialFormat;
use super::json_spec::{json_parse, fault_text};
use super::json_parser::JsonParser;
use super::json_writer::{JsonWriter, json_write};

verus! {

/// JSON as a serial format (see `json_spec` and `json_writer`).
pub struct JsonSerial;

impl JsonSerial {
    /// The JSON format.
    pub fn new() -> (r: Self) {
        Self {}
    }

    /// The value JSON serial data holds, or the message of the `Parse` error it gives: its
    /// bytes must be UTF-8 (else "Invalid JSON string encoding"); the text is then read as
    /// JSON, and a fault names the reader's position (see `fault_text`).
    pub open spec fn parses(serial: Seq<u8>) -> Result<SpecValue, Seq<char>> {
        if !valid_utf8(serial) {
            Err("Invalid JSON string encoding"@)
        } else {
            match json_parse(decode_utf8(serial)) {
                Ok(v) => Ok(v),
                Err(f) => Err(fault_text(f)),
            }
        }
    }

    /// Reads the value held in JSON serial data (see `parses`).
    pub fn parse_json(&self, serial: SerialValue) -> (r: Result<Value, SerialError>)
        ensures
            match Self::parses(serial.content()) {
                Ok(v) => r matches Ok(rv) && rv@ == v,
                Err(m) => r matches Err(SerialError::Parse(rm)) && rm@ == m,
            },
    {
        let bytes = serial.try_into_bytes()?;
        let string = match string_from_utf8(bytes_into_vec(bytes)) {
            Ok(string) => string,
            Err(_) => return Err(SerialError::Parse(string_from_str("Invalid JSON string encoding"))),
        };
        let mut parser = JsonParser::new(string.as_str());
        parser.parse()
    }

    /// Writes a value as JSON serial data: the UTF-8 encoding of its JSON text.
    pub fn write_json(&self, value: &Value) -> (r: Result<SerialValue, SerialError>)
        ensures
            r matches Ok(s) && s.content() == encode_utf8(json_write(value@)),
    {
        let string = JsonWriter::new(value).write()?;
        assert(Seq::<char>::empty() + json_write(value@) =~= json_write(value@));
        Ok(SerialValue::from_string(string))
    }
}

impl SerialFormat for JsonSerial {
    fn parse(&self, serial: SerialValue) -> (r: Result<Value, SerialError>)
        ensures
            match Self::parses(serial.content()) {
                Ok(v) => r matches Ok(rv) && rv@ == v,
                Err(m) => r matches Err(SerialError::Parse(rm)) && rm@ == m,
            },
    {
        self.parse_json(serial)
    }

    fn write(&self, value: &Value) -> (r: Result<SerialValue, SerialError>)
        ensures
            r matches Ok(s) && s.content() == encode_utf8(json_write(value@)),
    {
        self.write_json(value)
    }
}

} // verus!

verus! {

/// Law: JSON serial data written for a clean, well-formed value (see `json_clean`) reads
/// back as that value.
pub proof fn law_json_serial_round_trip(v: SpecValue)
    requires
        v.wf(),
        super::json_laws::json_clean(v),
    ensures
        JsonSerial::parses(encode_utf8(json_write(v))) == Ok::<SpecValue, Seq<char>>(v),
{
    vstd::utf8::encode_utf8_valid_utf8(json_write(v));
    vstd::utf8::encode_utf8_decode_utf8(json_write(v));
    super::json_laws::law_json_round_trip(v);
}

} // verus!
