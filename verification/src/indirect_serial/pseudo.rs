//! The pseudo format: serial data that carries an indirect value as it is.
use vstd::prelude::*;
use crate::text::{string_from_str, concat2};
use crate::schema::primitives::SpecValue;
use crate::schema::entries::{string_keys, index_of_key, lemma_index_of_key, find_entry};
use crate::indirect::primitives::{IndirectValue, ivalue_list_view, ivalue_entries_view, lemma_ivalue_keys};
use super::errors::{SerialError, SpecSerialError};
use super::value::SerialValue;
use super::format::{SerialWriter, SerialReader, SerialFormat};

verus! {

/// A writer of the pseudo format: holds the value written last.
pub struct PseudoSerialWriter {
    value: IndirectValue,
}

impl PseudoSerialWriter {
    /// The value written last.
    pub closed spec fn held(&self) -> SpecValue {
        self.value@
    }

    /// Serial data carrying the value held.
    pub fn into_serial(self) -> (r: SerialValue)
        ensures
            r.carried() == Some(self.held()),
    {
        SerialValue::Pseudo(self.value)
    }
}

impl SerialWriter for PseudoSerialWriter {
    fn from_value(value: IndirectValue) -> (r: Result<Self, SerialError>)
        ensures
            r matches Ok(w) && w.held() == value@,
    {
        Ok(PseudoSerialWriter { value })
    }

    fn write(&mut self, value: IndirectValue) -> (r: Result<(), SerialError>)
        ensures
            r is Ok,
            final(self).held() == value@,
    {
        self.value = value;
        Ok(())
    }

    fn flush(self) -> (r: Result<SerialValue, SerialError>)
        ensures
            r matches Ok(s) && s.carried() == Some(self.held()),
    {
        Ok(SerialValue::Pseudo(self.value))
    }
}

/// A reader of the pseudo format: the value carried, when the serial data carried one.
pub struct PseudoSerialReader {
    value: Option<IndirectValue>,
}

/// The error of a reader whose serial data carried no value.
pub open spec fn wrong_format() -> SpecSerialError {
    SpecSerialError::DataFormat("Invalid serial format for this reader"@)
}

impl PseudoSerialReader {
    /// The value read, if the serial data carried one.
    pub closed spec fn read(&self) -> Option<SpecValue> {
        match self.value {
            Some(v) => Some(v@),
            None => None,
        }
    }
}

impl SerialReader for PseudoSerialReader {
    fn from_serial(serial: SerialValue) -> (r: Self)
        ensures
            r.read() == serial.carried(),
    {
        let value = match serial {
            SerialValue::Pseudo(value) => Some(value),
            _ => None,
        };
        Self { value }
    }

    fn into_value(self) -> (r: Result<IndirectValue, SerialError>)
        ensures
            match self.read() {
                Some(v) => r matches Ok(rv) && rv@ == v,
                None => r matches Err(e) && e@ == wrong_format(),
            },
    {
        match self.value {
            None => Err(SerialError::DataFormat(string_from_str("Invalid serial format for this reader"))),
            Some(value) => Ok(value),
        }
    }

    fn elements(&self) -> (r: Result<Vec<Self>, SerialError>)
        ensures
            match self.read() {
                None => r matches Err(e) && e@ == wrong_format(),
                Some(SpecValue::List(ms)) => r matches Ok(v) && v@.len() == ms.len()
                    && forall|i: int| 0 <= i < ms.len() ==> (#[trigger] v@[i]).read() == Some(ms[i]),
                Some(_) => r matches Err(e) && e@ == SpecSerialError::DataContent("Elements lookup on non-list"@),
            },
    {
        match &self.value {
            None => Err(SerialError::DataFormat(string_from_str("Invalid serial format for this reader"))),
            Some(IndirectValue::List(contents)) => {
                let ghost cv = ivalue_list_view(contents@);
                let mut out: Vec<Self> = Vec::new();
                let mut i: usize = 0;
                while i < contents.len()
                    invariant
                        i <= contents.len(),
                        cv == ivalue_list_view(contents@),
                        out@.len() == i,
                        forall|k: int| 0 <= k < i ==> (#[trigger] out@[k]).read() == Some(cv[k]),
                    decreases contents.len() - i,
                {
                    out.push(Self::from_serial(SerialValue::Pseudo(contents[i].duplicate())));
                    i = i + 1;
                }
                Ok(out)
            },
            Some(_) => Err(SerialError::DataContent(string_from_str("Elements lookup on non-list"))),
        }
    }

    fn lookup(&self, key: &str) -> (r: Result<Self, SerialError>)
        ensures
            match self.read() {
                None => r matches Err(e) && e@ == wrong_format(),
                Some(SpecValue::Dict(es)) => match SpecValue::Dict(es).member(key@) {
                    Some(m) => r matches Ok(rr) && rr.read() == Some(m),
                    None => r matches Err(e) && e@ == SpecSerialError::DataContent("Key not present: "@ + key@),
                },
                Some(_) => r matches Err(e) && e@ == SpecSerialError::DataContent("Key lookup on non-map"@),
            },
    {
        match &self.value {
            None => Err(SerialError::DataFormat(string_from_str("Invalid serial format for this reader"))),
            Some(IndirectValue::Dict(contents)) => {
                proof {
                    lemma_ivalue_keys(contents@);
                    lemma_index_of_key(string_keys(contents@), key@);
                }
                match find_entry(contents, key) {
                    None => Err(SerialError::DataContent(concat2("Key not present: ", key))),
                    Some(i) => {
                        assert(ivalue_entries_view(contents@)[i as int].1 == contents@[i as int].1@);
                        Ok(Self::from_serial(SerialValue::Pseudo(contents[i].1.duplicate())))
                    },
                }
            },
            Some(_) => Err(SerialError::DataContent(string_from_str("Key lookup on non-map"))),
        }
    }
}

/// The pseudo format.
pub struct PseudoSerial;

impl SerialFormat for PseudoSerial {
    type Writer = PseudoSerialWriter;
    type Reader = PseudoSerialReader;

    fn new_writer() -> (r: PseudoSerialWriter)
        ensures
            r.held() == SpecValue::Null,
    {
        PseudoSerialWriter { value: IndirectValue::Null }
    }

    fn new_reader(value: SerialValue) -> (r: PseudoSerialReader)
        ensures
            r.read() == value.carried(),
    {
        let value_option = match value {
            SerialValue::Pseudo(inner) => Some(inner),
            _ => None,
        };
        PseudoSerialReader { value: value_option }
    }
}

} // verus!
