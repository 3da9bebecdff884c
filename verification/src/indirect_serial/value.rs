//! Serial containers of indirect values.
use vstd::prelude::*;
use bytes::Bytes;
use crate::schema::primitives::SpecValue;
use crate::indirect::primitives::IndirectValue;
use crate::serial::value::{bytes_content, bytes_new};

verus! {

/// Serial data: an indirect value carried as it is, or a buffer of bytes.
pub enum SerialValue {
    Pseudo(IndirectValue),
    Buffer(Bytes),
}

impl SerialValue {
    /// The value carried as it is, if any.
    pub open spec fn carried(&self) -> Option<SpecValue> {
        match self {
            SerialValue::Pseudo(v) => Some(v@),
            SerialValue::Buffer(_) => None,
        }
    }

    /// The bytes of a buffer, if any.
    pub open spec fn buffered(&self) -> Option<Seq<u8>> {
        match self {
            SerialValue::Pseudo(_) => None,
            SerialValue::Buffer(b) => Some(bytes_content(*b)),
        }
    }

    /// An empty buffer.
    pub fn empty() -> (r: Self)
        ensures
            r.buffered() == Some(Seq::<u8>::empty()),
    {
        SerialValue::Buffer(bytes_new())
    }

    /// An empty buffer to write into.
    pub fn new_write_buffer() -> (r: Self)
        ensures
            r.buffered() == Some(Seq::<u8>::empty()),
    {
        SerialValue::Buffer(bytes_new())
    }
}

} // verus!
