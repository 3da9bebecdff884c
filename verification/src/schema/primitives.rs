//! Indirect representations of types and data.
use vstd::prelude::*;
use crate::text::{string_from_str};
use super::entries::{
    key_seq, string_keys, sorted_keys, index_of_key, member_of, lemma_index_of_key, find_entry,
    insert_index, insert_entry, insert_string_entry, lemma_insert_index, insert_sorted, entries_from_pairs,
    lemma_insert_entry_all,
    lemma_insert_entry_sorted, lemma_index_of_sorted,
};
use super::decimal::Decimal;
use super::errors::{SchemaError, SpecSchemaError};

verus! {

/// The mathematical model of a `Type`.
pub enum SpecType {
    Bool,
    Int32,
    Uint32,
    Float64,
    String,
    List(Box<SpecType>),
    Dict(Seq<(Seq<char>, SpecType)>),
}

/// The type of an indirectly represented value. `Dict` is a string-keyed map of member
/// types, held as entries in ascending key order.
#[derive(Debug, PartialEq)]
pub enum Type {
    Bool,
    Int32,
    Uint32,
    Float64,
    String,
    List(Box<Type>),
    Dict(Vec<(String, Type)>),
}

/// The model of executable type entries.
pub open spec fn type_entries_view(es: Seq<(String, Type)>) -> Seq<(Seq<char>, SpecType)>
    decreases es,
{
    Seq::new(
        es.len(),
        |i: int| (es[i].0@, if 0 <= i < es.len() { es[i].1.model() } else { SpecType::Bool }),
    )
}

impl View for Type {
    type V = SpecType;

    open spec fn view(&self) -> SpecType {
        self.model()
    }
}

impl Type {
    /// The mathematical model of this type.
    pub open spec fn model(&self) -> SpecType
        decreases self,
    {
        match self {
            Type::Bool => SpecType::Bool,
            Type::Int32 => SpecType::Int32,
            Type::Uint32 => SpecType::Uint32,
            Type::Float64 => SpecType::Float64,
            Type::String => SpecType::String,
            Type::List(inner) => SpecType::List(Box::new(inner.model())),
            Type::Dict(es) => SpecType::Dict(type_entries_view(es@)),
        }
    }
}

impl Clone for Type {
    fn clone(&self) -> (r: Self)
        ensures
            r@ == self@,
    {
        self.duplicate()
    }
}

/// The keys of type entries are the keys of their model.
pub proof fn lemma_type_keys(es: Seq<(String, Type)>)
    ensures
        key_seq(type_entries_view(es)) == string_keys(es),
{
    assert(key_seq(type_entries_view(es)) =~= string_keys(es));
}

impl SpecType {
    /// Equality of primitive types; composite types (lists, maps) are never primitively equal.
    pub open spec fn primitive_eq(self, other: SpecType) -> bool {
        match self {
            SpecType::Bool => other is Bool,
            SpecType::Int32 => other is Int32,
            SpecType::Uint32 => other is Uint32,
            SpecType::Float64 => other is Float64,
            SpecType::String => other is String,
            SpecType::List(_) => false,
            SpecType::Dict(_) => false,
        }
    }

    /// The member type bound to `key` in a map type.
    pub open spec fn member(self, key: Seq<char>) -> Option<SpecType> {
        match self {
            SpecType::Dict(es) => member_of(es, key),
            _ => None,
        }
    }

    /// Well-formed: map keys ascending at every level.
    pub open spec fn wf(self) -> bool
        decreases self,
    {
        match self {
            SpecType::List(inner) => inner.wf(),
            SpecType::Dict(es) => sorted_keys(key_seq(es)) && forall|i: int|
                0 <= i < es.len() ==> (#[trigger] es[i]).1.wf(),
            _ => true,
        }
    }
}

impl Type {
    /// A copy of this type.
    #[verifier::loop_isolation(false)]
    pub fn duplicate(&self) -> (r: Type)
        ensures
            r@ == self@,
        decreases self,
    {
        match self {
            Type::Bool => Type::Bool,
            Type::Int32 => Type::Int32,
            Type::Uint32 => Type::Uint32,
            Type::Float64 => Type::Float64,
            Type::String => Type::String,
            Type::List(inner) => Type::List(Box::new(inner.duplicate())),
            Type::Dict(es) => {
                let mut out: Vec<(String, Type)> = Vec::new();
                let mut i: usize = 0;
                while i < es.len()
                    invariant
                        i <= es.len(),
                        out.len() == i,
                        forall|k: int| 0 <= k < i ==> (#[trigger] out@[k]).0@ == es@[k].0@ && out@[k].1@ == es@[k].1@,
                    decreases es.len() - i,
                {
                    let k = string_from_str(es[i].0.as_str());
                    let t = es[i].1.duplicate();
                    out.push((k, t));
                    i = i + 1;
                }
                let r = Type::Dict(out);
                assert(type_entries_view(out@) =~= type_entries_view(es@));
                r
            },
        }
    }

    /// The member type bound to `key`, when this is a map type that has the key.
    pub fn lookup(&self, key: &str) -> (r: Result<Type, SchemaError>)
        ensures
            match self@.member(key@) {
                Some(t) => r matches Ok(rt) && rt@ == t,
                None => r matches Err(e) && e@ == SpecSchemaError::InvalidLookup(Some(self@), key@),
            },
    {
        if let Type::Dict(es) = self {
            proof {
                lemma_type_keys(es@);
                lemma_index_of_key(string_keys(es@), key@);
            }
            if let Some(i) = find_entry(es, key) {
                let t = es[i].1.duplicate();
                assert(self@ == SpecType::Dict(type_entries_view(es@)));
                assert(index_of_key(key_seq(type_entries_view(es@)), key@) == Some(i as int));
                assert(self@.member(key@) == Some(type_entries_view(es@)[i as int].1));
                assert(type_entries_view(es@)[i as int].1 == es@[i as int].1@);
                return Ok(t);
            }
        }
        Err(SchemaError::InvalidLookup(Some(self.duplicate()), string_from_str(key)))
    }

    /// Equality of primitive types; composite types (lists, maps) are never primitively equal.
    pub fn primitive_eq(&self, other: &Type) -> (r: bool)
        ensures
            r == self@.primitive_eq(other@),
    {
        match self {
            Type::Bool => matches!(other, Type::Bool),
            Type::Int32 => matches!(other, Type::Int32),
            Type::Uint32 => matches!(other, Type::Uint32),
            Type::Float64 => matches!(other, Type::Float64),
            Type::String => matches!(other, Type::String),
            Type::List(_) => false,
            Type::Dict(_) => false,
        }
    }
}

} // verus!

verus! {

/// The mathematical model of a `Value`.
pub enum SpecValue {
    Null,
    Bool(bool),
    Int32(i32),
    Uint32(u32),
    Float64(Decimal),
    String(Seq<char>),
    List(Seq<SpecValue>),
    Dict(Seq<(Seq<char>, SpecValue)>),
}

/// Indirectly represented data. `Dict` is a string-keyed map of members, held as entries
/// in ascending key order; `Float64` holds a fractional number as a `Decimal`.
#[derive(Debug, PartialEq)]
pub enum Value {
    Null,
    Bool(bool),
    Int32(i32),
    Uint32(u32),
    Float64(Decimal),
    String(String),
    List(Vec<Value>),
    Dict(Vec<(String, Value)>),
}

/// The model of executable list members.
pub open spec fn value_list_view(ms: Seq<Value>) -> Seq<SpecValue>
    decreases ms,
{
    Seq::new(ms.len(), |i: int| if 0 <= i < ms.len() { ms[i].model() } else { SpecValue::Null })
}

/// The model of executable value entries.
pub open spec fn value_entries_view(es: Seq<(String, Value)>) -> Seq<(Seq<char>, SpecValue)>
    decreases es,
{
    Seq::new(
        es.len(),
        |i: int| (es[i].0@, if 0 <= i < es.len() { es[i].1.model() } else { SpecValue::Null }),
    )
}

/// The keys of value entries are the keys of their model.
pub proof fn lemma_value_keys(es: Seq<(String, Value)>)
    ensures
        key_seq(value_entries_view(es)) == string_keys(es),
{
    assert(key_seq(value_entries_view(es)) =~= string_keys(es));
}

impl Value {
    /// The mathematical model of this value.
    pub open spec fn model(&self) -> SpecValue
        decreases self,
    {
        match self {
            Value::Null => SpecValue::Null,
            Value::Bool(b) => SpecValue::Bool(*b),
            Value::Int32(n) => SpecValue::Int32(*n),
            Value::Uint32(n) => SpecValue::Uint32(*n),
            Value::Float64(d) => SpecValue::Float64(*d),
            Value::String(s) => SpecValue::String(s@),
            Value::List(ms) => SpecValue::List(value_list_view(ms@)),
            Value::Dict(es) => SpecValue::Dict(value_entries_view(es@)),
        }
    }
}

impl View for Value {
    type V = SpecValue;

    open spec fn view(&self) -> SpecValue {
        self.model()
    }
}

impl Clone for Value {
    fn clone(&self) -> (r: Self)
        ensures
            r@ == self@,
    {
        self.duplicate()
    }
}

/// The successful result, if any.
pub open spec fn ok_type(r: Result<SpecType, SpecSchemaError>) -> Option<SpecType> {
    match r {
        Ok(t) => Some(t),
        Err(_) => None,
    }
}

impl SpecValue {
    /// Well-formed: map keys ascending and decimals well-formed, at every level.
    pub open spec fn wf(self) -> bool
        decreases self,
    {
        match self {
            SpecValue::Float64(d) => d.wf(),
            SpecValue::List(ms) => items_wf(ms, 0),
            SpecValue::Dict(es) => sorted_keys(key_seq(es)) && forall|i: int|
                0 <= i < es.len() ==> (#[trigger] es[i]).1.wf(),
            _ => true,
        }
    }

    /// The member bound to `key` in a map value.
    pub open spec fn member(self, key: Seq<char>) -> Option<SpecValue> {
        match self {
            SpecValue::Dict(es) => member_of(es, key),
            _ => None,
        }
    }
}

/// Every list member from position `i` on is well-formed.
pub open spec fn items_wf(ms: Seq<SpecValue>, i: int) -> bool
    decreases ms, ms.len() - i,
{
    if i < 0 || i >= ms.len() {
        true
    } else {
        ms[i].wf() && items_wf(ms, i + 1)
    }
}

/// `items_wf` holds exactly when every member from position `i` on is well-formed.
pub proof fn lemma_items_wf(ms: Seq<SpecValue>, i: int)
    requires
        0 <= i,
    ensures
        items_wf(ms, i) <==> forall|k: int| i <= k < ms.len() ==> (#[trigger] ms[k]).wf(),
    decreases ms.len() - i,
{
    if i < ms.len() {
        lemma_items_wf(ms, i + 1);
    }
}

/// The type of a value: a list takes the type of its first member, a map the types of all
/// of its members. Null and empty lists have no knowable type.
pub open spec fn type_of(v: SpecValue) -> Result<SpecType, SpecSchemaError>
    decreases v, 0int,
{
    match v {
        SpecValue::Null => Err(SpecSchemaError::UnknownableType),
        SpecValue::Bool(_) => Ok(SpecType::Bool),
        SpecValue::Int32(_) => Ok(SpecType::Int32),
        SpecValue::Uint32(_) => Ok(SpecType::Uint32),
        SpecValue::Float64(_) => Ok(SpecType::Float64),
        SpecValue::String(_) => Ok(SpecType::String),
        SpecValue::List(ms) => if ms.len() == 0 {
            Err(SpecSchemaError::UnknownableType)
        } else {
            match type_of(ms[0]) {
                Ok(t) => Ok(SpecType::List(Box::new(t))),
                Err(e) => Err(e),
            }
        },
        SpecValue::Dict(es) => match types_of_entries(es, 0) {
            Ok(ts) => Ok(SpecType::Dict(ts)),
            Err(e) => Err(e),
        },
    }
}

/// The types of the members from position `i` on, keyed as they are; the first member
/// (in key order) whose type is unknowable gives the error.
pub open spec fn types_of_entries(es: Seq<(Seq<char>, SpecValue)>, i: int) -> Result<
    Seq<(Seq<char>, SpecType)>,
    SpecSchemaError,
>
    decreases es, es.len() - i,
{
    if i < 0 || i >= es.len() {
        Ok(Seq::empty())
    } else {
        match type_of(es[i].1) {
            Err(e) => Err(e),
            Ok(t) => match types_of_entries(es, i + 1) {
                Ok(rest) => Ok(seq![(es[i].0, t)] + rest),
                Err(e) => Err(e),
            },
        }
    }
}

} // verus!

verus! {

/// Prepends known results onto a fold's outcome.
pub open spec fn prefix_types(
    prefix: Seq<(Seq<char>, SpecType)>,
    r: Result<Seq<(Seq<char>, SpecType)>, SpecSchemaError>,
) -> Result<Seq<(Seq<char>, SpecType)>, SpecSchemaError> {
    match r {
        Ok(rest) => Ok(prefix + rest),
        Err(e) => Err(e),
    }
}

/// Whether `v` conforms to `t`. The value's own type must be knowable; a list conforms when
/// every member conforms to the member type; a map conforms when each key of the map type
/// (in key order) is present and its member conforms; a primitive conforms when the types
/// are primitively equal. The first failure gives the error.
pub open spec fn validate_against(t: SpecType, v: SpecValue) -> Result<(), SpecSchemaError>
    decreases t, 0int,
{
    match type_of(v) {
        Err(e) => Err(e),
        Ok(vt) => match t {
            SpecType::List(inner) => match v {
                SpecValue::List(ms) => validate_list(*inner, ms, 0),
                _ => Err(SpecSchemaError::InvalidType(t, vt)),
            },
            SpecType::Dict(ts) => match v {
                SpecValue::Dict(es) => validate_dict(ts, es, 0),
                _ => Err(SpecSchemaError::InvalidType(t, vt)),
            },
            _ => if t.primitive_eq(vt) {
                Ok(())
            } else {
                Err(SpecSchemaError::InvalidType(t, vt))
            },
        },
    }
}

/// Whether the list members from position `i` on conform to `t`.
pub open spec fn validate_list(t: SpecType, ms: Seq<SpecValue>, i: int) -> Result<(), SpecSchemaError>
    decreases t, ms.len() - i,
{
    if i < 0 || i >= ms.len() {
        Ok(())
    } else {
        match validate_against(t, ms[i]) {
            Err(e) => Err(e),
            Ok(_) => validate_list(t, ms, i + 1),
        }
    }
}

/// Whether the members named by the map type's keys from position `i` on are present
/// and conform.
pub open spec fn validate_dict(
    ts: Seq<(Seq<char>, SpecType)>,
    es: Seq<(Seq<char>, SpecValue)>,
    i: int,
) -> Result<(), SpecSchemaError>
    decreases ts, ts.len() - i,
{
    if i < 0 || i >= ts.len() {
        Ok(())
    } else {
        match member_of(es, ts[i].0) {
            None => Err(SpecSchemaError::MissingKey(ts[i].0)),
            Some(m) => match validate_against(ts[i].1, m) {
                Err(e) => Err(e),
                Ok(_) => validate_dict(ts, es, i + 1),
            },
        }
    }
}

impl Value {
    /// A copy of this value.
    #[verifier::loop_isolation(false)]
    pub fn duplicate(&self) -> (r: Value)
        ensures
            r@ == self@,
        decreases self,
    {
        match self {
            Value::Null => Value::Null,
            Value::Bool(b) => Value::Bool(*b),
            Value::Int32(n) => Value::Int32(*n),
            Value::Uint32(n) => Value::Uint32(*n),
            Value::Float64(d) => Value::Float64(*d),
            Value::String(s) => Value::String(string_from_str(s.as_str())),
            Value::List(ms) => {
                let mut out: Vec<Value> = Vec::new();
                let mut i: usize = 0;
                while i < ms.len()
                    invariant
                        i <= ms.len(),
                        out.len() == i,
                        forall|k: int| 0 <= k < i ==> (#[trigger] out@[k])@ == ms@[k]@,
                    decreases ms.len() - i,
                {
                    let v = ms[i].duplicate();
                    out.push(v);
                    i = i + 1;
                }
                let r = Value::List(out);
                assert(value_list_view(out@) =~= value_list_view(ms@));
                r
            },
            Value::Dict(es) => {
                let mut out: Vec<(String, Value)> = Vec::new();
                let mut i: usize = 0;
                while i < es.len()
                    invariant
                        i <= es.len(),
                        out.len() == i,
                        forall|k: int| 0 <= k < i ==> (#[trigger] out@[k]).0@ == es@[k].0@ && out@[k].1@ == es@[k].1@,
                    decreases es.len() - i,
                {
                    let k = string_from_str(es[i].0.as_str());
                    let v = es[i].1.duplicate();
                    out.push((k, v));
                    i = i + 1;
                }
                let r = Value::Dict(out);
                assert(value_entries_view(out@) =~= value_entries_view(es@));
                r
            },
        }
    }

    /// The member bound to `key`, when this is a map value that has the key; otherwise an
    /// `InvalidLookup` error naming this value's type (when knowable) and the key.
    pub fn lookup(&self, key: &str) -> (r: Result<Value, SchemaError>)
        ensures
            match self@.member(key@) {
                Some(v) => r matches Ok(rv) && rv@ == v,
                None => r matches Err(e) && e@ == SpecSchemaError::InvalidLookup(ok_type(type_of(self@)), key@),
            },
    {
        if let Value::Dict(es) = self {
            proof {
                lemma_value_keys(es@);
                lemma_index_of_key(string_keys(es@), key@);
            }
            if let Some(i) = find_entry(es, key) {
                let v = es[i].1.duplicate();
                assert(value_entries_view(es@)[i as int].1 == es@[i as int].1@);
                return Ok(v);
            }
        }
        let t = match Type::try_from_value(self) {
            Ok(t) => Some(t),
            Err(_) => None,
        };
        Err(SchemaError::InvalidLookup(t, string_from_str(key)))
    }
}

impl Type {
    /// The type of a value (see `type_of`).
    #[verifier::loop_isolation(false)]
    pub fn try_from_value(value: &Value) -> (r: Result<Type, SchemaError>)
        ensures
            match type_of(value@) {
                Ok(t) => r matches Ok(rt) && rt@ == t,
                Err(e) => r matches Err(re) && re@ == e,
            },
        decreases value,
    {
        match value {
            Value::Null => Err(SchemaError::UnknownableType),
            Value::Bool(_) => Ok(Type::Bool),
            Value::Int32(_) => Ok(Type::Int32),
            Value::Uint32(_) => Ok(Type::Uint32),
            Value::Float64(_) => Ok(Type::Float64),
            Value::String(_) => Ok(Type::String),
            Value::List(ms) => {
                if ms.len() == 0 {
                    return Err(SchemaError::UnknownableType);
                }
                assert(value_list_view(ms@)[0] == ms@[0]@);
                let inner = Type::try_from_value(&ms[0])?;
                Ok(Type::List(Box::new(inner)))
            },
            Value::Dict(es) => {
                let ghost esv = value_entries_view(es@);
                let mut out: Vec<(String, Type)> = Vec::new();
                let mut i: usize = 0;
                while i < es.len()
                    invariant
                        i <= es.len(),
                        esv == value_entries_view(es@),
                        types_of_entries(esv, 0) == prefix_types(type_entries_view(out@), types_of_entries(esv, i as int)),
                    decreases es.len() - i,
                {
                    assert(esv[i as int].1 == es@[i as int].1@);
                    let t = Type::try_from_value(&es[i].1)?;
                    let k = string_from_str(es[i].0.as_str());
                    let ghost before = type_entries_view(out@);
                    out.push((k, t));
                    proof {
                        assert(type_entries_view(out@) =~= before + seq![(esv[i as int].0, t@)]);
                        match types_of_entries(esv, i + 1) {
                            Ok(rest) => {
                                assert(before + (seq![(esv[i as int].0, t@)] + rest) =~= (before + seq![(esv[i as int].0, t@)]) + rest);
                            },
                            Err(_) => {},
                        }
                    }
                    i = i + 1;
                }
                assert(type_entries_view(out@) + Seq::<(Seq<char>, SpecType)>::empty() =~= type_entries_view(out@));
                Ok(Type::Dict(out))
            },
        }
    }
}

} // verus!

verus! {

impl Type {
    /// Checks that `value` conforms to this type (see `validate_against`).
    #[verifier::loop_isolation(false)]
    pub fn validate(&self, value: &Value) -> (r: Result<(), SchemaError>)
        ensures
            match validate_against(self@, value@) {
                Ok(_) => r is Ok,
                Err(e) => r matches Err(re) && re@ == e,
            },
        decreases self,
    {
        let value_t = Type::try_from_value(value)?;
        match self {
            Type::List(inner_t) => {
                match value {
                    Value::List(ms) => {
                        let ghost msv = value_list_view(ms@);
                        let mut i: usize = 0;
                        while i < ms.len()
                            invariant
                                i <= ms.len(),
                                msv == value_list_view(ms@),
                                validate_list(inner_t@, msv, 0) == validate_list(inner_t@, msv, i as int),
                            decreases ms.len() - i,
                        {
                            assert(msv[i as int] == ms@[i as int]@);
                            inner_t.validate(&ms[i])?;
                            i = i + 1;
                        }
                        Ok(())
                    },
                    _ => Err(SchemaError::InvalidType(self.duplicate(), value_t)),
                }
            },
            Type::Dict(ts) => {
                match value {
                    Value::Dict(es) => {
                        let ghost tsv = type_entries_view(ts@);
                        let ghost esv = value_entries_view(es@);
                        proof {
                            lemma_value_keys(es@);
                        }
                        let mut i: usize = 0;
                        while i < ts.len()
                            invariant
                                i <= ts.len(),
                                tsv == type_entries_view(ts@),
                                esv == value_entries_view(es@),
                                key_seq(esv) == string_keys(es@),
                                validate_dict(tsv, esv, 0) == validate_dict(tsv, esv, i as int),
                            decreases ts.len() - i,
                        {
                            assert(tsv[i as int].0 == ts@[i as int].0@);
                            assert(tsv[i as int].1 == ts@[i as int].1@);
                            proof {
                                lemma_index_of_key(string_keys(es@), ts@[i as int].0@);
                            }
                            match find_entry(es, ts[i].0.as_str()) {
                                None => {
                                    return Err(SchemaError::MissingKey(string_from_str(ts[i].0.as_str())));
                                },
                                Some(j) => {
                                    assert(esv[j as int].1 == es@[j as int].1@);
                                    ts[i].1.validate(&es[j].1)?;
                                },
                            }
                            i = i + 1;
                        }
                        Ok(())
                    },
                    _ => Err(SchemaError::InvalidType(self.duplicate(), value_t)),
                }
            },
            _ => {
                if self.primitive_eq(&value_t) {
                    Ok(())
                } else {
                    Err(SchemaError::InvalidType(self.duplicate(), value_t))
                }
            },
        }
    }
}

} // verus!

verus! {

/// Binding a key in executable value entries binds it in their model.
pub proof fn lemma_value_entries_insert(es: Seq<(String, Value)>, key: String, v: Value)
    requires
        sorted_keys(string_keys(es)),
    ensures
        value_entries_view(insert_string_entry(es, key, v)) == insert_entry(value_entries_view(es), key@, v@),
{
    lemma_value_keys(es);
    let lhs = value_entries_view(insert_string_entry(es, key, v));
    let rhs = insert_entry(value_entries_view(es), key@, v@);
    lemma_index_of_key(string_keys(es), key@);
    match index_of_key(string_keys(es), key@) {
        Some(i) => {
            assert forall|k: int| 0 <= k < lhs.len() implies lhs[k] == rhs[k] by {
                if k != i {
                    assert(es.update(i, (key, v))[k] == es[k]);
                }
            }
            assert(lhs =~= rhs);
        },
        None => {
            let p = insert_index(string_keys(es), key@);
            lemma_insert_index(string_keys(es), key@);
            assert forall|k: int| 0 <= k < lhs.len() implies lhs[k] == rhs[k] by {
                if k < p {
                } else if k == p {
                } else {
                    assert(es.insert(p, (key, v))[k] == es[k - 1]);
                }
            }
            assert(lhs =~= rhs);
        },
    }
}

impl Value {
    /// A map value binding each pair's key to its value, in order (a later pair with the same
    /// key replaces an earlier one).
    pub fn dict_from_pairs(pairs: Vec<(String, Value)>) -> (r: Value)
        ensures
            r@ == SpecValue::Dict(entries_from_pairs(value_entries_view(pairs@))),
            (forall|i: int| 0 <= i < pairs@.len() ==> (#[trigger] pairs@[i]).1@.wf()) ==> r@.wf(),
    {
        let ghost all = pairs@;
        let ghost allv = value_entries_view(pairs@);
        let total = pairs.len();
        let mut rest = pairs;
        let mut out: Vec<(String, Value)> = Vec::new();
        let mut n: usize = 0;
        assert(all.skip(0) =~= all);
        assert(allv.subrange(0, 0) =~= Seq::<(Seq<char>, SpecValue)>::empty());
        while rest.len() > 0
            invariant
                n <= all.len(),
                all.len() <= usize::MAX,
                rest@ == all.skip(n as int),
                allv == value_entries_view(all),
                value_entries_view(out@) == entries_from_pairs(allv.subrange(0, n as int)),
                sorted_keys(string_keys(out@)),
                (forall|i: int| 0 <= i < all.len() ==> (#[trigger] all[i]).1@.wf()) ==> forall|i: int|
                    0 <= i < out@.len() ==> (#[trigger] out@[i]).1@.wf(),
            decreases rest.len(),
        {
            let (k, v) = rest.remove(0);
            assert(all[n as int] == (k, v));
            let ghost before = out@;
            proof {
                lemma_value_keys(before);
                lemma_value_entries_insert(before, k, v);
                lemma_insert_entry_sorted(value_entries_view(before), k@, v@);
                let pre = allv.subrange(0, n as int);
                let post = allv.subrange(0, n + 1);
                assert(post.drop_last() =~= pre);
                assert(post.last() == (k@, v@));
            }
            insert_sorted(&mut out, k, v);
            proof {
                lemma_value_keys(out@);
                if forall|i: int| 0 <= i < all.len() ==> (#[trigger] all[i]).1@.wf() {
                    let nv = value_entries_view(out@);
                    let ov = value_entries_view(before);
                    assert(v@.wf());
                    assert forall|j: int| 0 <= j < ov.len() implies (#[trigger] ov[j]).1.wf() by {
                        assert(ov[j].1 == before[j].1@);
                    }
                    lemma_insert_entry_all(ov, k@, v@, |x: SpecValue| x.wf());
                    assert forall|i: int| 0 <= i < out@.len() implies (#[trigger] out@[i]).1@.wf() by {
                        assert(nv[i].1 == out@[i].1@);
                    }
                }
            }
            n = n + 1;
            assert(all.skip(n as int) =~= all.skip((n - 1) as int).drop_first());
        }
        assert(allv.subrange(0, n as int) =~= allv);
        proof {
            lemma_value_keys(out@);
        }
        Value::Dict(out)
    }
}

} // verus!

verus! {

impl Value {
    /// Whether this value is well-formed (see `SpecValue::wf`).
    #[verifier::loop_isolation(false)]
    pub fn is_wf(&self) -> (r: bool)
        ensures
            r == self@.wf(),
        decreases self,
    {
        match self {
            Value::Float64(d) => d.is_wf(),
            Value::List(ms) => {
                let ghost msv = value_list_view(ms@);
                proof {
                    lemma_items_wf(msv, 0);
                }
                let mut i: usize = 0;
                while i < ms.len()
                    invariant
                        i <= ms.len(),
                        msv == value_list_view(ms@),
                        forall|k: int| 0 <= k < i ==> (#[trigger] msv[k]).wf(),
                    decreases ms.len() - i,
                {
                    assert(msv[i as int] == ms@[i as int]@);
                    if !ms[i].is_wf() {
                        return false;
                    }
                    i = i + 1;
                }
                true
            },
            Value::Dict(es) => {
                let ghost esv = value_entries_view(es@);
                proof {
                    lemma_value_keys(es@);
                }
                if !super::entries::entries_sorted(es) {
                    return false;
                }
                let mut i: usize = 0;
                while i < es.len()
                    invariant
                        i <= es.len(),
                        esv == value_entries_view(es@),
                        forall|k: int| 0 <= k < i ==> (#[trigger] esv[k]).1.wf(),
                    decreases es.len() - i,
                {
                    assert(esv[i as int].1 == es@[i as int].1@);
                    if !es[i].1.is_wf() {
                        return false;
                    }
                    i = i + 1;
                }
                true
            },
            _ => true,
        }
    }
}

} // verus!

verus! {

/// Every list inside the value, at every level, has members whose types are knowable and
/// all equal to that of its first member.
pub open spec fn uniform_lists(v: SpecValue) -> bool
    decreases v,
{
    match v {
        SpecValue::List(ms) => forall|i: int|
            0 <= i < ms.len() ==> type_of(#[trigger] ms[i]) is Ok && type_of(ms[i]) == type_of(ms[0]) && uniform_lists(ms[i]),
        SpecValue::Dict(es) => forall|i: int| 0 <= i < es.len() ==> uniform_lists((#[trigger] es[i]).1),
        _ => true,
    }
}

/// The types of the members from position `i` on are all knowable, each keyed as its member.
proof fn lemma_types_of_entries(es: Seq<(Seq<char>, SpecValue)>, i: int)
    requires
        0 <= i <= es.len(),
        types_of_entries(es, i) is Ok,
    ensures
        types_of_entries(es, i)->Ok_0.len() == es.len() - i,
        forall|k: int| 0 <= k < es.len() - i ==> type_of(#[trigger] es[i + k].1) is Ok
            && types_of_entries(es, i)->Ok_0[k] == (es[i + k].0, type_of(es[i + k].1)->Ok_0),
    decreases es.len() - i,
{
    if i < es.len() {
        lemma_types_of_entries(es, i + 1);
        let rest = types_of_entries(es, i + 1)->Ok_0;
        assert forall|k: int| 0 <= k < es.len() - i implies type_of(#[trigger] es[i + k].1) is Ok
            && types_of_entries(es, i)->Ok_0[k] == (es[i + k].0, type_of(es[i + k].1)->Ok_0) by {
            if k > 0 {
                assert(es[i + 1 + (k - 1)] == es[i + k]);
            }
        }
    }
}

/// A list whose members from position `i` on all conform to `t` passes validation from `i` on.
proof fn lemma_validate_list_ok(t: SpecType, ms: Seq<SpecValue>, i: int)
    requires
        0 <= i,
        forall|k: int| i <= k < ms.len() ==> validate_against(t, #[trigger] ms[k]) is Ok,
    ensures
        validate_list(t, ms, i) is Ok,
    decreases ms.len() - i,
{
    if i < ms.len() {
        lemma_validate_list_ok(t, ms, i + 1);
    }
}

/// A map holding, for each key of `ts` from position `i` on, a member that conforms to the
/// key's type passes validation from `i` on.
proof fn lemma_validate_dict_ok(ts: Seq<(Seq<char>, SpecType)>, es: Seq<(Seq<char>, SpecValue)>, i: int)
    requires
        0 <= i,
        forall|k: int| i <= k < ts.len() ==> (member_of(es, (#[trigger] ts[k]).0) matches Some(m)
            && validate_against(ts[k].1, m) is Ok),
    ensures
        validate_dict(ts, es, i) is Ok,
    decreases ts.len() - i,
{
    if i < ts.len() {
        lemma_validate_dict_ok(ts, es, i + 1);
    }
}

/// A map that passes validation from position `i` on holds, for each key of `ts` from there,
/// a member that conforms to the key's type.
proof fn lemma_validate_dict_members(ts: Seq<(Seq<char>, SpecType)>, es: Seq<(Seq<char>, SpecValue)>, i: int)
    requires
        0 <= i,
        validate_dict(ts, es, i) is Ok,
    ensures
        forall|k: int| i <= k < ts.len() ==> (member_of(es, (#[trigger] ts[k]).0) matches Some(m)
            && validate_against(ts[k].1, m) is Ok),
    decreases ts.len() - i,
{
    if i < ts.len() {
        lemma_validate_dict_members(ts, es, i + 1);
    }
}

/// A list that passes validation from position `i` on has every member from there conforming.
proof fn lemma_validate_list_members(t: SpecType, ms: Seq<SpecValue>, i: int)
    requires
        0 <= i,
        validate_list(t, ms, i) is Ok,
    ensures
        forall|k: int| i <= k < ms.len() ==> validate_against(t, #[trigger] ms[k]) is Ok,
    decreases ms.len() - i,
{
    if i < ms.len() {
        lemma_validate_list_members(t, ms, i + 1);
    }
}

/// Law: validation checks every member. A map value that conforms to a map type holds, for
/// every key of the type, a member that conforms to the key's type; a list value that
/// conforms to a list type has every member conforming to the member type; and a value that
/// conforms to a primitive type has that type.
pub proof fn law_conformance_checks_members(t: SpecType, v: SpecValue)
    requires
        validate_against(t, v) is Ok,
    ensures
        t matches SpecType::Dict(ts) ==> (v matches SpecValue::Dict(es) && forall|k: int| 0 <= k < ts.len()
            ==> (member_of(es, (#[trigger] ts[k]).0) matches Some(m) && validate_against(ts[k].1, m) is Ok)),
        t matches SpecType::List(inner) ==> (v matches SpecValue::List(ms) && forall|k: int| 0 <= k < ms.len()
            ==> validate_against(*inner, #[trigger] ms[k]) is Ok),
        !(t is Dict) && !(t is List) ==> type_of(v) == Ok::<SpecType, SpecSchemaError>(t),
{
    match (t, v) {
        (SpecType::Dict(ts), SpecValue::Dict(es)) => lemma_validate_dict_members(ts, es, 0),
        (SpecType::List(inner), SpecValue::List(ms)) => lemma_validate_list_members(*inner, ms, 0),
        _ => {},
    }
}

/// Law: a map value conforms to a map type when, for each key of the type, it holds a member
/// that conforms to the key's type, whatever other keys it holds besides (its own type must
/// be knowable).
pub proof fn law_map_conforms_with_extra_keys(ts: Seq<(Seq<char>, SpecType)>, es: Seq<(Seq<char>, SpecValue)>)
    requires
        type_of(SpecValue::Dict(es)) is Ok,
        forall|k: int| 0 <= k < ts.len() ==> (member_of(es, (#[trigger] ts[k]).0) matches Some(m)
            && validate_against(ts[k].1, m) is Ok),
    ensures
        validate_against(SpecType::Dict(ts), SpecValue::Dict(es)) is Ok,
{
    lemma_validate_dict_ok(ts, es, 0);
}

/// Law: a value conforms to its own type: where the type of a well-formed value is knowable and
/// every list in it has members of one knowable type, validating the value against that
/// type succeeds.
pub proof fn law_value_conforms_to_own_type(v: SpecValue)
    requires
        v.wf(),
        uniform_lists(v),
        type_of(v) is Ok,
    ensures
        validate_against(type_of(v)->Ok_0, v) is Ok,
    decreases v,
{
    match v {
        SpecValue::List(ms) => {
            let t0 = type_of(ms[0])->Ok_0;
            lemma_items_wf(ms, 0);
            assert forall|k: int| 0 <= k < ms.len() implies validate_against(t0, #[trigger] ms[k]) is Ok by {
                law_value_conforms_to_own_type(ms[k]);
            }
            lemma_validate_list_ok(t0, ms, 0);
        },
        SpecValue::Dict(es) => {
            let ts = types_of_entries(es, 0)->Ok_0;
            lemma_types_of_entries(es, 0);
            assert forall|k: int| 0 <= k < ts.len() implies (member_of(es, (#[trigger] ts[k]).0) matches Some(m)
                && validate_against(ts[k].1, m) is Ok) by {
                assert(es[0 + k] == es[k]);
                assert(key_seq(es)[k] == es[k].0);
                lemma_index_of_sorted(key_seq(es), es[k].0, k);
                law_value_conforms_to_own_type(es[k].1);
            }
            lemma_validate_dict_ok(ts, es, 0);
        },
        _ => {},
    }
}

} // verus!
