//! Conversions between indirect values and plain Rust values.
use vstd::prelude::*;
use crate::text::string_from_str;
use super::decimal::Decimal;
use super::errors::{SchemaError, SpecSchemaError};
use super::primitives::{Value, SpecValue};

verus! {

/// The error of a failed cast to the named target type.
pub open spec fn cast_error(target: Seq<char>) -> SpecSchemaError {
    SpecSchemaError::NotImplemented(target)
}

impl Value {
    /// The flag of a `Bool` value.
    pub fn try_into_bool(self) -> (r: Result<bool, SchemaError>)
        ensures
            match self@ {
                SpecValue::Bool(b) => r == Ok::<bool, SchemaError>(b),
                _ => r matches Err(e) && e@ == cast_error("Indirect cast to bool failed"@),
            },
    {
        match self {
            Value::Bool(b) => Ok(b),
            _ => Err(SchemaError::NotImplemented(string_from_str("Indirect cast to bool failed"))),
        }
    }

    /// The number of an `Int32` value.
    pub fn try_into_i32(self) -> (r: Result<i32, SchemaError>)
        ensures
            match self@ {
                SpecValue::Int32(n) => r == Ok::<i32, SchemaError>(n),
                _ => r matches Err(e) && e@ == cast_error("Indirect cast to i32 failed"@),
            },
    {
        match self {
            Value::Int32(n) => Ok(n),
            _ => Err(SchemaError::NotImplemented(string_from_str("Indirect cast to i32 failed"))),
        }
    }

    /// The number of a `Uint32` value, or of a non-negative `Int32` value.
    pub fn try_into_u32(self) -> (r: Result<u32, SchemaError>)
        ensures
            match self@ {
                SpecValue::Uint32(n) => r == Ok::<u32, SchemaError>(n),
                SpecValue::Int32(n) => if n >= 0 {
                    r == Ok::<u32, SchemaError>(n as u32)
                } else {
                    r matches Err(e) && e@ == cast_error("Cast of i32 -> u32 failed"@)
                },
                _ => r matches Err(e) && e@ == cast_error("Indirect cast to u32 failed"@),
            },
    {
        match self {
            Value::Uint32(n) => Ok(n),
            Value::Int32(n) => {
                if n >= 0 {
                    Ok(n as u32)
                } else {
                    Err(SchemaError::NotImplemented(string_from_str("Cast of i32 -> u32 failed")))
                }
            },
            _ => Err(SchemaError::NotImplemented(string_from_str("Indirect cast to u32 failed"))),
        }
    }

    /// The number of a `Float64` value.
    pub fn try_into_decimal(self) -> (r: Result<Decimal, SchemaError>)
        ensures
            match self@ {
                SpecValue::Float64(d) => r == Ok::<Decimal, SchemaError>(d),
                _ => r matches Err(e) && e@ == cast_error("Indirect cast to f64 failed"@),
            },
    {
        match self {
            Value::Float64(d) => Ok(d),
            _ => Err(SchemaError::NotImplemented(string_from_str("Indirect cast to f64 failed"))),
        }
    }

    /// The text of a `String` value.
    pub fn try_into_string(self) -> (r: Result<String, SchemaError>)
        ensures
            match self@ {
                SpecValue::String(s) => r matches Ok(rs) && rs@ == s,
                _ => r matches Err(e) && e@ == cast_error("Indirect cast to String failed"@),
            },
    {
        match self {
            Value::String(s) => Ok(s),
            _ => Err(SchemaError::NotImplemented(string_from_str("Indirect cast to String failed"))),
        }
    }

    /// `None` for `Null`, otherwise the flag of a `Bool` value.
    pub fn try_into_optional_bool(self) -> (r: Result<Option<bool>, SchemaError>)
        ensures
            match self@ {
                SpecValue::Null => r == Ok::<Option<bool>, SchemaError>(None),
                SpecValue::Bool(b) => r == Ok::<Option<bool>, SchemaError>(Some(b)),
                _ => r matches Err(e) && e@ == cast_error("Indirect cast to bool failed"@),
            },
    {
        match self {
            Value::Null => Ok(None),
            other => Ok(Some(other.try_into_bool()?)),
        }
    }

    /// `None` for `Null`, otherwise the number of an `Int32` value.
    pub fn try_into_optional_i32(self) -> (r: Result<Option<i32>, SchemaError>)
        ensures
            match self@ {
                SpecValue::Null => r == Ok::<Option<i32>, SchemaError>(None),
                SpecValue::Int32(n) => r == Ok::<Option<i32>, SchemaError>(Some(n)),
                _ => r matches Err(e) && e@ == cast_error("Indirect cast to i32 failed"@),
            },
    {
        match self {
            Value::Null => Ok(None),
            other => Ok(Some(other.try_into_i32()?)),
        }
    }

    /// `None` for `Null`, otherwise as `try_into_u32`.
    pub fn try_into_optional_u32(self) -> (r: Result<Option<u32>, SchemaError>)
        ensures
            match self@ {
                SpecValue::Null => r == Ok::<Option<u32>, SchemaError>(None),
                SpecValue::Uint32(n) => r == Ok::<Option<u32>, SchemaError>(Some(n)),
                SpecValue::Int32(n) => if n >= 0 {
                    r == Ok::<Option<u32>, SchemaError>(Some(n as u32))
                } else {
                    r matches Err(e) && e@ == cast_error("Cast of i32 -> u32 failed"@)
                },
                _ => r matches Err(e) && e@ == cast_error("Indirect cast to u32 failed"@),
            },
    {
        match self {
            Value::Null => Ok(None),
            other => Ok(Some(other.try_into_u32()?)),
        }
    }

    /// `None` for `Null`, otherwise the text of a `String` value.
    pub fn try_into_optional_string(self) -> (r: Result<Option<String>, SchemaError>)
        ensures
            match self@ {
                SpecValue::Null => r matches Ok(None),
                SpecValue::String(s) => r matches Ok(Some(rs)) && rs@ == s,
                _ => r matches Err(e) && e@ == cast_error("Indirect cast to String failed"@),
            },
    {
        match self {
            Value::Null => Ok(None),
            other => Ok(Some(other.try_into_string()?)),
        }
    }

    /// `Null` for `None`, otherwise a `Bool` value.
    pub fn from_optional_bool(v: Option<bool>) -> (r: Value)
        ensures
            r@ == match v { Some(b) => SpecValue::Bool(b), None => SpecValue::Null },
    {
        match v {
            Some(b) => Value::Bool(b),
            None => Value::Null,
        }
    }

    /// `Null` for `None`, otherwise an `Int32` value.
    pub fn from_optional_i32(v: Option<i32>) -> (r: Value)
        ensures
            r@ == match v { Some(n) => SpecValue::Int32(n), None => SpecValue::Null },
    {
        match v {
            Some(n) => Value::Int32(n),
            None => Value::Null,
        }
    }

    /// `Null` for `None`, otherwise a `Uint32` value.
    pub fn from_optional_u32(v: Option<u32>) -> (r: Value)
        ensures
            r@ == match v { Some(n) => SpecValue::Uint32(n), None => SpecValue::Null },
    {
        match v {
            Some(n) => Value::Uint32(n),
            None => Value::Null,
        }
    }

    /// `Null` for `None`, otherwise a `String` value.
    pub fn from_optional_string(v: Option<String>) -> (r: Value)
        ensures
            r@ == match v { Some(s) => SpecValue::String(s@), None => SpecValue::Null },
    {
        match v {
            Some(s) => Value::String(s),
            None => Value::Null,
        }
    }
}

} // verus!
