//! Indirect types and values.
use vstd::prelude::*;
use crate::text::{string_from_str, concat2, concat3};
use crate::schema::entries::{
    key_seq, string_keys, sorted_keys, index_of_key, lemma_index_of_key, find_entry, insert_index, insert_entry,
    insert_string_entry, lemma_insert_index, insert_sorted, entries_from_pairs, lemma_insert_entry_sorted,
};
use crate::schema::decimal::Decimal;
use crate::schema::primitives::{SpecType, SpecValue, type_of, types_of_entries, prefix_types};
use super::errors::{IndirectSchemaError, SpecIndirectError};

verus! {

/// The member type bound to `key` in a map type; a map type without the key gives
/// "missing key in itype lookup <key>", any other type "invalid itype lookup <key>".
pub open spec fn itype_lookup(t: SpecType, key: Seq<char>) -> Result<SpecType, SpecIndirectError> {
    match t.member(key) {
        Some(m) => Ok(m),
        None => Err(SpecIndirectError::Message(
            if t is Dict { "missing key in itype lookup "@ + key } else { "invalid itype lookup "@ + key },
        )),
    }
}

/// The member bound to `key` in a map value; a map value without the key gives
/// "lookup indirect <key> map key missing", any other value "lookup indirect <key>".
pub open spec fn ivalue_lookup(v: SpecValue, key: Seq<char>) -> Result<SpecValue, SpecIndirectError> {
    match v.member(key) {
        Some(m) => Ok(m),
        None => Err(SpecIndirectError::Message(
            if v is Dict { "lookup indirect "@ + key + " map key missing"@ } else { "lookup indirect "@ + key },
        )),
    }
}

/// The type of a value (see `type_of`), an unknowable type giving `UnknownableType`.
pub open spec fn itype_of(v: SpecValue) -> Result<SpecType, SpecIndirectError> {
    match type_of(v) {
        Ok(t) => Ok(t),
        Err(_) => Err(SpecIndirectError::UnknownableType),
    }
}

/// The type of an indirect value. `Dict` is a string-keyed map of member
/// types, held as entries in ascending key order.
#[derive(Debug, PartialEq)]
pub enum IndirectType {
    Bool,
    Int32,
    Uint32,
    Float64,
    String,
    List(Box<IndirectType>),
    Dict(Vec<(String, IndirectType)>),
}

/// The model of executable indirect type entries.
pub open spec fn itype_entries_view(es: Seq<(String, IndirectType)>) -> Seq<(Seq<char>, SpecType)>
    decreases es,
{
    Seq::new(
        es.len(),
        |i: int| (es[i].0@, if 0 <= i < es.len() { es[i].1.model() } else { SpecType::Bool }),
    )
}

impl IndirectType {
    /// The mathematical model of this type.
    pub open spec fn model(&self) -> SpecType
        decreases self,
    {
        match self {
            IndirectType::Bool => SpecType::Bool,
            IndirectType::Int32 => SpecType::Int32,
            IndirectType::Uint32 => SpecType::Uint32,
            IndirectType::Float64 => SpecType::Float64,
            IndirectType::String => SpecType::String,
            IndirectType::List(inner) => SpecType::List(Box::new(inner.model())),
            IndirectType::Dict(es) => SpecType::Dict(itype_entries_view(es@)),
        }
    }
}

impl View for IndirectType {
    type V = SpecType;

    open spec fn view(&self) -> SpecType {
        self.model()
    }
}

/// The keys of indirect type entries are the keys of their model.
pub proof fn lemma_itype_keys(es: Seq<(String, IndirectType)>)
    ensures
        key_seq(itype_entries_view(es)) == string_keys(es),
{
    assert(key_seq(itype_entries_view(es)) =~= string_keys(es));
}

impl Clone for IndirectType {
    fn clone(&self) -> (r: Self)
        ensures
            r@ == self@,
    {
        self.duplicate()
    }
}

impl IndirectType {
    /// A copy of this type.
    #[verifier::loop_isolation(false)]
    pub fn duplicate(&self) -> (r: IndirectType)
        ensures
            r@ == self@,
        decreases self,
    {
        match self {
            IndirectType::Bool => IndirectType::Bool,
            IndirectType::Int32 => IndirectType::Int32,
            IndirectType::Uint32 => IndirectType::Uint32,
            IndirectType::Float64 => IndirectType::Float64,
            IndirectType::String => IndirectType::String,
            IndirectType::List(inner) => IndirectType::List(Box::new(inner.duplicate())),
            IndirectType::Dict(es) => {
                let mut out: Vec<(String, IndirectType)> = Vec::new();
                let mut i: usize = 0;
                while i < es.len()
                    invariant
                        i <= es.len(),
                        out.len() == i,
                        forall|k: int| 0 <= k < i ==> (#[trigger] out@[k]).0@ == es@[k].0@ && out@[k].1@ == es@[k].1@,
                    decreases es.len() - i,
                {
                    let k = string_from_str(es[i].0.as_str());
                    let t = es[i].1.duplicate();
                    out.push((k, t));
                    i = i + 1;
                }
                let r = IndirectType::Dict(out);
                assert(itype_entries_view(out@) =~= itype_entries_view(es@));
                r
            },
        }
    }

    /// The member type bound to `key`, when this is a map type that has the key; a map type
    /// without the key gives "missing key in itype lookup <key>", any other type
    /// "invalid itype lookup <key>".
    pub fn lookup(&self, key: &str) -> (r: Result<IndirectType, IndirectSchemaError>)
        ensures
            match itype_lookup(self@, key@) {
                Ok(t) => r matches Ok(rt) && rt@ == t,
                Err(e) => r matches Err(re) && re@ == e,
            },
    {
        match self {
            IndirectType::Dict(es) => {
                proof {
                    lemma_itype_keys(es@);
                    lemma_index_of_key(string_keys(es@), key@);
                }
                match find_entry(es, key) {
                    Some(i) => {
                        let t = es[i].1.duplicate();
                        assert(itype_entries_view(es@)[i as int].1 == es@[i as int].1@);
                        Ok(t)
                    },
                    None => Err(IndirectSchemaError::Message(concat2("missing key in itype lookup ", key))),
                }
            },
            _ => Err(IndirectSchemaError::Message(concat2("invalid itype lookup ", key))),
        }
    }

    /// Equality of primitive types; composite types (lists, maps) are never primitively equal.
    pub fn primitive_eq(&self, other: &IndirectType) -> (r: bool)
        ensures
            r == self@.primitive_eq(other@),
    {
        match self {
            IndirectType::Bool => matches!(other, IndirectType::Bool),
            IndirectType::Int32 => matches!(other, IndirectType::Int32),
            IndirectType::Uint32 => matches!(other, IndirectType::Uint32),
            IndirectType::Float64 => matches!(other, IndirectType::Float64),
            IndirectType::String => matches!(other, IndirectType::String),
            IndirectType::List(_) => false,
            IndirectType::Dict(_) => false,
        }
    }
}

} // verus!

verus! {

/// Indirectly represented data. `Dict` is a string-keyed map of members,
/// held as entries in ascending key order; `Float64` holds a fractional number as a `Decimal`.
#[derive(Debug, PartialEq)]
pub enum IndirectValue {
    Null,
    Bool(bool),
    Int32(i32),
    Uint32(u32),
    Float64(Decimal),
    String(String),
    List(Vec<IndirectValue>),
    Dict(Vec<(String, IndirectValue)>),
}

/// The model of executable indirect list members.
pub open spec fn ivalue_list_view(ms: Seq<IndirectValue>) -> Seq<SpecValue>
    decreases ms,
{
    Seq::new(ms.len(), |i: int| if 0 <= i < ms.len() { ms[i].model() } else { SpecValue::Null })
}

/// The model of executable indirect value entries.
pub open spec fn ivalue_entries_view(es: Seq<(String, IndirectValue)>) -> Seq<(Seq<char>, SpecValue)>
    decreases es,
{
    Seq::new(
        es.len(),
        |i: int| (es[i].0@, if 0 <= i < es.len() { es[i].1.model() } else { SpecValue::Null }),
    )
}

/// The keys of indirect value entries are the keys of their model.
pub proof fn lemma_ivalue_keys(es: Seq<(String, IndirectValue)>)
    ensures
        key_seq(ivalue_entries_view(es)) == string_keys(es),
{
    assert(key_seq(ivalue_entries_view(es)) =~= string_keys(es));
}

impl IndirectValue {
    /// The mathematical model of this value.
    pub open spec fn model(&self) -> SpecValue
        decreases self,
    {
        match self {
            IndirectValue::Null => SpecValue::Null,
            IndirectValue::Bool(b) => SpecValue::Bool(*b),
            IndirectValue::Int32(n) => SpecValue::Int32(*n),
            IndirectValue::Uint32(n) => SpecValue::Uint32(*n),
            IndirectValue::Float64(d) => SpecValue::Float64(*d),
            IndirectValue::String(s) => SpecValue::String(s@),
            IndirectValue::List(ms) => SpecValue::List(ivalue_list_view(ms@)),
            IndirectValue::Dict(es) => SpecValue::Dict(ivalue_entries_view(es@)),
        }
    }
}

impl View for IndirectValue {
    type V = SpecValue;

    open spec fn view(&self) -> SpecValue {
        self.model()
    }
}

impl Clone for IndirectValue {
    fn clone(&self) -> (r: Self)
        ensures
            r@ == self@,
    {
        self.duplicate()
    }
}

impl IndirectValue {
    /// A copy of this value.
    #[verifier::loop_isolation(false)]
    pub fn duplicate(&self) -> (r: IndirectValue)
        ensures
            r@ == self@,
        decreases self,
    {
        match self {
            IndirectValue::Null => IndirectValue::Null,
            IndirectValue::Bool(b) => IndirectValue::Bool(*b),
            IndirectValue::Int32(n) => IndirectValue::Int32(*n),
            IndirectValue::Uint32(n) => IndirectValue::Uint32(*n),
            IndirectValue::Float64(d) => IndirectValue::Float64(*d),
            IndirectValue::String(s) => IndirectValue::String(string_from_str(s.as_str())),
            IndirectValue::List(ms) => {
                let mut out: Vec<IndirectValue> = Vec::new();
                let mut i: usize = 0;
                while i < ms.len()
                    invariant
                        i <= ms.len(),
                        out.len() == i,
                        forall|k: int| 0 <= k < i ==> (#[trigger] out@[k])@ == ms@[k]@,
                    decreases ms.len() - i,
                {
                    let v = ms[i].duplicate();
                    out.push(v);
                    i = i + 1;
                }
                let r = IndirectValue::List(out);
                assert(ivalue_list_view(out@) =~= ivalue_list_view(ms@));
                r
            },
            IndirectValue::Dict(es) => {
                let mut out: Vec<(String, IndirectValue)> = Vec::new();
                let mut i: usize = 0;
                while i < es.len()
                    invariant
                        i <= es.len(),
                        out.len() == i,
                        forall|k: int| 0 <= k < i ==> (#[trigger] out@[k]).0@ == es@[k].0@ && out@[k].1@ == es@[k].1@,
                    decreases es.len() - i,
                {
                    let k = string_from_str(es[i].0.as_str());
                    let v = es[i].1.duplicate();
                    out.push((k, v));
                    i = i + 1;
                }
                let r = IndirectValue::Dict(out);
                assert(ivalue_entries_view(out@) =~= ivalue_entries_view(es@));
                r
            },
        }
    }

    /// The member bound to `key`, when this is a map value that has the key; a map value
    /// without the key gives "lookup indirect <key> map key missing", any other value
    /// "lookup indirect <key>".
    pub fn lookup(&self, key: &str) -> (r: Result<IndirectValue, IndirectSchemaError>)
        ensures
            match ivalue_lookup(self@, key@) {
                Ok(v) => r matches Ok(rv) && rv@ == v,
                Err(e) => r matches Err(re) && re@ == e,
            },
    {
        match self {
            IndirectValue::Dict(es) => {
                proof {
                    lemma_ivalue_keys(es@);
                    lemma_index_of_key(string_keys(es@), key@);
                }
                match find_entry(es, key) {
                    Some(i) => {
                        let v = es[i].1.duplicate();
                        assert(ivalue_entries_view(es@)[i as int].1 == es@[i as int].1@);
                        Ok(v)
                    },
                    None => Err(IndirectSchemaError::Message(concat3("lookup indirect ", key, " map key missing"))),
                }
            },
            _ => Err(IndirectSchemaError::Message(concat2("lookup indirect ", key))),
        }
    }
}

impl IndirectType {
    /// The type of a value (see `type_of`); a value whose type is unknowable (null, an empty
    /// list, or one holding such a value where its type is read) gives `UnknownableType`.
    #[verifier::loop_isolation(false)]
    pub fn try_from_value(value: &IndirectValue) -> (r: Result<IndirectType, IndirectSchemaError>)
        ensures
            match itype_of(value@) {
                Ok(t) => r matches Ok(rt) && rt@ == t,
                Err(e) => r matches Err(re) && re@ == e,
            },
        decreases value,
    {
        match value {
            IndirectValue::Null => Err(IndirectSchemaError::UnknownableType),
            IndirectValue::Bool(_) => Ok(IndirectType::Bool),
            IndirectValue::Int32(_) => Ok(IndirectType::Int32),
            IndirectValue::Uint32(_) => Ok(IndirectType::Uint32),
            IndirectValue::Float64(_) => Ok(IndirectType::Float64),
            IndirectValue::String(_) => Ok(IndirectType::String),
            IndirectValue::List(ms) => {
                if ms.len() == 0 {
                    return Err(IndirectSchemaError::UnknownableType);
                }
                assert(ivalue_list_view(ms@)[0] == ms@[0]@);
                let inner = IndirectType::try_from_value(&ms[0])?;
                Ok(IndirectType::List(Box::new(inner)))
            },
            IndirectValue::Dict(es) => {
                let ghost esv = ivalue_entries_view(es@);
                let mut out: Vec<(String, IndirectType)> = Vec::new();
                let mut i: usize = 0;
                while i < es.len()
                    invariant
                        i <= es.len(),
                        esv == ivalue_entries_view(es@),
                        types_of_entries(esv, 0) == prefix_types(itype_entries_view(out@), types_of_entries(esv, i as int)),
                    decreases es.len() - i,
                {
                    assert(esv[i as int].1 == es@[i as int].1@);
                    let t = IndirectType::try_from_value(&es[i].1)?;
                    let k = string_from_str(es[i].0.as_str());
                    let ghost before = itype_entries_view(out@);
                    out.push((k, t));
                    proof {
                        assert(itype_entries_view(out@) =~= before + seq![(esv[i as int].0, t@)]);
                        match types_of_entries(esv, i + 1) {
                            Ok(rest) => {
                                assert(before + (seq![(esv[i as int].0, t@)] + rest) =~= (before + seq![(esv[i as int].0, t@)]) + rest);
                            },
                            Err(_) => {},
                        }
                    }
                    i = i + 1;
                }
                assert(itype_entries_view(out@) + Seq::<(Seq<char>, SpecType)>::empty() =~= itype_entries_view(out@));
                Ok(IndirectType::Dict(out))
            },
        }
    }
}

} // verus!

verus! {

/// The error of a failed conversion of an indirect value to the named Rust type.
pub open spec fn conversion_error(target: Seq<char>) -> SpecIndirectError {
    SpecIndirectError::Message("try from indirect -> "@ + target)
}

impl IndirectValue {
    /// The flag of a `Bool` value.
    pub fn try_into_bool(self) -> (r: Result<bool, IndirectSchemaError>)
        ensures
            match self@ {
                SpecValue::Bool(b) => r == Ok::<bool, IndirectSchemaError>(b),
                _ => r matches Err(e) && e@ == conversion_error("bool"@),
            },
    {
        match self {
            IndirectValue::Bool(b) => Ok(b),
            _ => Err(IndirectSchemaError::Message(concat2("try from indirect -> ", "bool"))),
        }
    }

    /// The number of an `Int32` value.
    pub fn try_into_i32(self) -> (r: Result<i32, IndirectSchemaError>)
        ensures
            match self@ {
                SpecValue::Int32(n) => r == Ok::<i32, IndirectSchemaError>(n),
                _ => r matches Err(e) && e@ == conversion_error("i32"@),
            },
    {
        match self {
            IndirectValue::Int32(n) => Ok(n),
            _ => Err(IndirectSchemaError::Message(concat2("try from indirect -> ", "i32"))),
        }
    }

    /// The number of a `Uint32` value, or of a non-negative `Int32` value.
    pub fn try_into_u32(self) -> (r: Result<u32, IndirectSchemaError>)
        ensures
            match self@ {
                SpecValue::Uint32(n) => r == Ok::<u32, IndirectSchemaError>(n),
                SpecValue::Int32(n) => if n >= 0 {
                    r == Ok::<u32, IndirectSchemaError>(n as u32)
                } else {
                    r matches Err(e) && e@ == SpecIndirectError::Message("i32 -> u32 failed"@)
                },
                _ => r matches Err(e) && e@ == conversion_error("u32"@),
            },
    {
        match self {
            IndirectValue::Uint32(n) => Ok(n),
            IndirectValue::Int32(n) => {
                if n >= 0 {
                    Ok(n as u32)
                } else {
                    Err(IndirectSchemaError::Message(string_from_str("i32 -> u32 failed")))
                }
            },
            _ => Err(IndirectSchemaError::Message(concat2("try from indirect -> ", "u32"))),
        }
    }

    /// The number of a `Float64` value.
    pub fn try_into_decimal(self) -> (r: Result<Decimal, IndirectSchemaError>)
        ensures
            match self@ {
                SpecValue::Float64(d) => r == Ok::<Decimal, IndirectSchemaError>(d),
                _ => r matches Err(e) && e@ == conversion_error("f64"@),
            },
    {
        match self {
            IndirectValue::Float64(d) => Ok(d),
            _ => Err(IndirectSchemaError::Message(concat2("try from indirect -> ", "f64"))),
        }
    }

    /// The text of a `String` value.
    pub fn try_into_string(self) -> (r: Result<String, IndirectSchemaError>)
        ensures
            match self@ {
                SpecValue::String(s) => r matches Ok(rs) && rs@ == s,
                _ => r matches Err(e) && e@ == conversion_error("String"@),
            },
    {
        match self {
            IndirectValue::String(s) => Ok(s),
            _ => Err(IndirectSchemaError::Message(concat2("try from indirect -> ", "String"))),
        }
    }

    /// `None` for `Null`, else the flag of a `Bool` value.
    pub fn try_into_optional_bool(self) -> (r: Result<Option<bool>, IndirectSchemaError>)
        ensures
            match self@ {
                SpecValue::Null => r == Ok::<Option<bool>, IndirectSchemaError>(None),
                SpecValue::Bool(b) => r == Ok::<Option<bool>, IndirectSchemaError>(Some(b)),
                _ => r matches Err(e) && e@ == conversion_error("bool"@),
            },
    {
        match self {
            IndirectValue::Null => Ok(None),
            other => Ok(Some(other.try_into_bool()?)),
        }
    }

    /// `None` for `Null`, else the number of an `Int32` value.
    pub fn try_into_optional_i32(self) -> (r: Result<Option<i32>, IndirectSchemaError>)
        ensures
            match self@ {
                SpecValue::Null => r == Ok::<Option<i32>, IndirectSchemaError>(None),
                SpecValue::Int32(n) => r == Ok::<Option<i32>, IndirectSchemaError>(Some(n)),
                _ => r matches Err(e) && e@ == conversion_error("i32"@),
            },
    {
        match self {
            IndirectValue::Null => Ok(None),
            other => Ok(Some(other.try_into_i32()?)),
        }
    }

    /// `None` for `Null`, else the number of a `Uint32` or non-negative `Int32` value.
    pub fn try_into_optional_u32(self) -> (r: Result<Option<u32>, IndirectSchemaError>)
        ensures
            match self@ {
                SpecValue::Null => r == Ok::<Option<u32>, IndirectSchemaError>(None),
                SpecValue::Uint32(n) => r == Ok::<Option<u32>, IndirectSchemaError>(Some(n)),
                SpecValue::Int32(n) => if n >= 0 {
                    r == Ok::<Option<u32>, IndirectSchemaError>(Some(n as u32))
                } else {
                    r matches Err(e) && e@ == SpecIndirectError::Message("i32 -> u32 failed"@)
                },
                _ => r matches Err(e) && e@ == conversion_error("u32"@),
            },
    {
        match self {
            IndirectValue::Null => Ok(None),
            other => Ok(Some(other.try_into_u32()?)),
        }
    }

    /// `None` for `Null`, else the number of a `Float64` value.
    pub fn try_into_optional_decimal(self) -> (r: Result<Option<Decimal>, IndirectSchemaError>)
        ensures
            match self@ {
                SpecValue::Null => r == Ok::<Option<Decimal>, IndirectSchemaError>(None),
                SpecValue::Float64(d) => r == Ok::<Option<Decimal>, IndirectSchemaError>(Some(d)),
                _ => r matches Err(e) && e@ == conversion_error("f64"@),
            },
    {
        match self {
            IndirectValue::Null => Ok(None),
            other => Ok(Some(other.try_into_decimal()?)),
        }
    }

    /// `None` for `Null`, else the text of a `String` value.
    pub fn try_into_optional_string(self) -> (r: Result<Option<String>, IndirectSchemaError>)
        ensures
            match self@ {
                SpecValue::Null => r matches Ok(None),
                SpecValue::String(s) => r matches Ok(Some(rs)) && rs@ == s,
                _ => r matches Err(e) && e@ == conversion_error("String"@),
            },
    {
        match self {
            IndirectValue::Null => Ok(None),
            other => Ok(Some(other.try_into_string()?)),
        }
    }

    /// `Null` for `None`, else a `Bool` value.
    pub fn from_optional_bool(v: Option<bool>) -> (r: IndirectValue)
        ensures
            r@ == match v { Some(b) => SpecValue::Bool(b), None => SpecValue::Null },
    {
        match v {
            Some(b) => IndirectValue::Bool(b),
            None => IndirectValue::Null,
        }
    }

    /// `Null` for `None`, else an `Int32` value.
    pub fn from_optional_i32(v: Option<i32>) -> (r: IndirectValue)
        ensures
            r@ == match v { Some(n) => SpecValue::Int32(n), None => SpecValue::Null },
    {
        match v {
            Some(n) => IndirectValue::Int32(n),
            None => IndirectValue::Null,
        }
    }

    /// `Null` for `None`, else a `Uint32` value.
    pub fn from_optional_u32(v: Option<u32>) -> (r: IndirectValue)
        ensures
            r@ == match v { Some(n) => SpecValue::Uint32(n), None => SpecValue::Null },
    {
        match v {
            Some(n) => IndirectValue::Uint32(n),
            None => IndirectValue::Null,
        }
    }

    /// `Null` for `None`, else a `Float64` value.
    pub fn from_optional_decimal(v: Option<Decimal>) -> (r: IndirectValue)
        ensures
            r@ == match v { Some(d) => SpecValue::Float64(d), None => SpecValue::Null },
    {
        match v {
            Some(d) => IndirectValue::Float64(d),
            None => IndirectValue::Null,
        }
    }

    /// `Null` for `None`, else a `String` value.
    pub fn from_optional_string(v: Option<String>) -> (r: IndirectValue)
        ensures
            r@ == match v { Some(s) => SpecValue::String(s@), None => SpecValue::Null },
    {
        match v {
            Some(s) => IndirectValue::String(s),
            None => IndirectValue::Null,
        }
    }
}

} // verus!

verus! {

impl IndirectValue {
    /// Whether this value is well-formed (see `SpecValue::wf`).
    #[verifier::loop_isolation(false)]
    pub fn is_wf(&self) -> (r: bool)
        ensures
            r == self@.wf(),
        decreases self,
    {
        match self {
            IndirectValue::Float64(d) => d.is_wf(),
            IndirectValue::List(ms) => {
                let ghost msv = ivalue_list_view(ms@);
                proof {
                    crate::schema::primitives::lemma_items_wf(msv, 0);
                }
                let mut i: usize = 0;
                while i < ms.len()
                    invariant
                        i <= ms.len(),
                        msv == ivalue_list_view(ms@),
                        forall|k: int| 0 <= k < i ==> (#[trigger] msv[k]).wf(),
                    decreases ms.len() - i,
                {
                    assert(msv[i as int] == ms@[i as int]@);
                    if !ms[i].is_wf() {
                        return false;
                    }
                    i = i + 1;
                }
                true
            },
            IndirectValue::Dict(es) => {
                let ghost esv = ivalue_entries_view(es@);
                proof {
                    lemma_ivalue_keys(es@);
                }
                if !crate::schema::entries::entries_sorted(es) {
                    return false;
                }
                let mut i: usize = 0;
                while i < es.len()
                    invariant
                        i <= es.len(),
                        esv == ivalue_entries_view(es@),
                        forall|k: int| 0 <= k < i ==> (#[trigger] esv[k]).1.wf(),
                    decreases es.len() - i,
                {
                    assert(esv[i as int].1 == es@[i as int].1@);
                    if !es[i].1.is_wf() {
                        return false;
                    }
                    i = i + 1;
                }
                true
            },
            _ => true,
        }
    }
}

} // verus!

verus! {

impl IndirectValue {
    /// A map value binding each pair's key to its value, in order (a later pair with the same
    /// key replaces an earlier one).
    pub fn dict_from_pairs(pairs: Vec<(String, IndirectValue)>) -> (r: IndirectValue)
        ensures
            r@ == SpecValue::Dict(entries_from_pairs(ivalue_entries_view(pairs@))),
    {
        let ghost all = pairs@;
        let ghost allv = ivalue_entries_view(pairs@);
        let total = pairs.len();
        let mut rest = pairs;
        let mut out: Vec<(String, IndirectValue)> = Vec::new();
        let mut n: usize = 0;
        assert(all.skip(0) =~= all);
        assert(allv.subrange(0, 0) =~= Seq::<(Seq<char>, SpecValue)>::empty());
        while rest.len() > 0
            invariant
                n <= all.len(),
                all.len() == total,
                rest@ == all.skip(n as int),
                allv == ivalue_entries_view(all),
                ivalue_entries_view(out@) == entries_from_pairs(allv.subrange(0, n as int)),
                sorted_keys(string_keys(out@)),
            decreases rest.len(),
        {
            let (k, v) = rest.remove(0);
            assert(all[n as int] == (k, v));
            let ghost before = out@;
            proof {
                lemma_ivalue_keys(before);
                lemma_ivalue_entries_insert(before, k, v);
                lemma_insert_entry_sorted(ivalue_entries_view(before), k@, v@);
                let pre = allv.subrange(0, n as int);
                let post = allv.subrange(0, n + 1);
                assert(post.drop_last() =~= pre);
                assert(post.last() == (k@, v@));
            }
            insert_sorted(&mut out, k, v);
            proof {
                lemma_ivalue_keys(out@);
            }
            n = n + 1;
            assert(all.skip(n as int) =~= all.skip((n - 1) as int).drop_first());
        }
        assert(allv.subrange(0, n as int) =~= allv);
        IndirectValue::Dict(out)
    }
}

/// Binding a key in executable indirect entries binds it in their model.
pub proof fn lemma_ivalue_entries_insert(es: Seq<(String, IndirectValue)>, key: String, v: IndirectValue)
    requires
        sorted_keys(string_keys(es)),
    ensures
        ivalue_entries_view(insert_string_entry(es, key, v)) == insert_entry(ivalue_entries_view(es), key@, v@),
{
    lemma_ivalue_keys(es);
    let lhs = ivalue_entries_view(insert_string_entry(es, key, v));
    let rhs = insert_entry(ivalue_entries_view(es), key@, v@);
    lemma_index_of_key(string_keys(es), key@);
    match index_of_key(string_keys(es), key@) {
        Some(i) => {
            assert forall|k: int| 0 <= k < lhs.len() implies lhs[k] == rhs[k] by {
                if k != i {
                    assert(es.update(i, (key, v))[k] == es[k]);
                }
            }
            assert(lhs =~= rhs);
        },
        None => {
            let p = insert_index(string_keys(es), key@);
            lemma_insert_index(string_keys(es), key@);
            assert forall|k: int| 0 <= k < lhs.len() implies lhs[k] == rhs[k] by {
                if k < p {
                } else if k == p {
                } else {
                    assert(es.insert(p, (key, v))[k] == es[k - 1]);
                }
            }
            assert(lhs =~= rhs);
        },
    }
}

} // verus!
