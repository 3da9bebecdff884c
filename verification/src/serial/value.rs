//! Intermediate containers for serial data.
use vstd::prelude::*;
use vstd::utf8::{encode_utf8, decode_utf8, valid_utf8};
use bytes::Bytes;
use std::string::FromUtf8Error;
use super::errors::SerialError;

verus! {

/// `bytes::Bytes`, a shared immutable byte buffer.
#[verifier::external_type_specification]
#[verifier::external_body]
pub struct ExBytes(Bytes);

/// The bytes a `Bytes` buffer holds, in order.
pub uninterp spec fn bytes_content(b: Bytes) -> Seq<u8>;

/// `Bytes::new`: an empty buffer.
#[verifier::external_body]
pub(crate) fn bytes_new() -> (r: Bytes)
    ensures
        bytes_content(r) == Seq::<u8>::empty(),
{
    Bytes::new()
}

/// `Bytes::from(String)`: a buffer holding the string's UTF-8 encoding.
#[verifier::external_body]
fn bytes_from_string(s: String) -> (r: Bytes)
    ensures
        bytes_content(r) == encode_utf8(s@),
{
    Bytes::from(s)
}

/// `Vec::<u8>::from(Bytes)`: the buffer's bytes in a vector.
#[verifier::external_body]
pub(crate) fn bytes_into_vec(b: Bytes) -> (r: Vec<u8>)
    ensures
        r@ == bytes_content(b),
{
    Vec::from(b)
}

/// `Bytes::clone`: another handle on the same bytes.
#[verifier::external_body]
fn bytes_clone(b: &Bytes) -> (r: Bytes)
    ensures
        bytes_content(r) == bytes_content(*b),
{
    b.clone()
}

/// `std::string::FromUtf8Error`: the error of decoding bytes that are not UTF-8.
#[verifier::external_type_specification]
#[verifier::external_body]
pub struct ExFromUtf8Error(FromUtf8Error);

/// `String::from_utf8`: the string the bytes encode when they are valid UTF-8, else an error.
#[verifier::external_body]
pub(crate) fn string_from_utf8(v: Vec<u8>) -> (r: Result<String, FromUtf8Error>)
    ensures
        r is Ok <==> valid_utf8(v@),
        r matches Ok(s) ==> s@ == decode_utf8(v@),
{
    String::from_utf8(v)
}

/// Serial data held in a buffer.
pub enum SerialValue {
    Buffer(Bytes),
}

impl SerialValue {
    /// The bytes held.
    pub open spec fn content(&self) -> Seq<u8> {
        match self {
            SerialValue::Buffer(b) => bytes_content(*b),
        }
    }

    /// Serial data holding `bytes`.
    pub fn from_bytes(bytes: Bytes) -> (r: Self)
        ensures
            r.content() == bytes_content(bytes),
    {
        SerialValue::Buffer(bytes)
    }

    /// Serial data holding the UTF-8 encoding of `string`.
    pub fn from_string(string: String) -> (r: Self)
        ensures
            r.content() == encode_utf8(string@),
    {
        Self::from_bytes(bytes_from_string(string))
    }

    /// Serial data holding nothing.
    pub fn empty() -> (r: Self)
        ensures
            r.content() == Seq::<u8>::empty(),
    {
        SerialValue::Buffer(bytes_new())
    }

    /// The buffer of bytes held.
    pub fn try_into_bytes(self) -> (r: Result<Bytes, SerialError>)
        ensures
            r matches Ok(b) && bytes_content(b) == self.content(),
    {
        match self {
            SerialValue::Buffer(data) => Ok(data),
        }
    }

    /// Another handle on the same serial data.
    pub fn duplicate(&self) -> (r: Self)
        ensures
            r.content() == self.content(),
    {
        match self {
            SerialValue::Buffer(data) => SerialValue::Buffer(bytes_clone(data)),
        }
    }
}

impl Clone for SerialValue {
    fn clone(&self) -> (r: Self)
        ensures
            r.content() == self.content(),
    {
        self.duplicate()
    }
}

} // verus!
