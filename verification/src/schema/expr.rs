//! Indirect expressions applied to indirectly represented types or data.
use vstd::prelude::*;
use crate::text::{seq_lt, chars_of, chars_lt, str_eq, string_from_str, lemma_seq_lt_irreflexive, lemma_seq_lt_trichotomy};
use super::decimal::Decimal;
use super::errors::{SchemaError, SpecSchemaError};
use super::primitives::{Type, SpecType, Value, SpecValue, type_of, ok_type};

verus! {

/// A binary comparison between two values.
#[derive(Debug, Clone, Copy, PartialEq, Eq, Structural)]
pub enum Comparator {
    Eq,
    Neq,
    Lt,
    Gt,
}

/// Values that can be compared for equality and order.
pub trait Ordered {
    /// Whether the two values are equal.
    spec fn spec_same(&self, other: &Self) -> bool;

    /// Whether `self` precedes `other`.
    spec fn spec_less(&self, other: &Self) -> bool;

    /// Whether the two values are equal.
    fn same(&self, other: &Self) -> (r: bool)
        ensures
            r == self.spec_same(other),
    ;

    /// Whether `self` precedes `other`.
    fn less(&self, other: &Self) -> (r: bool)
        ensures
            r == self.spec_less(other),
    ;
}

impl Ordered for i32 {
    open spec fn spec_same(&self, other: &Self) -> bool {
        *self == *other
    }

    open spec fn spec_less(&self, other: &Self) -> bool {
        *self < *other
    }

    fn same(&self, other: &Self) -> (r: bool) {
        *self == *other
    }

    fn less(&self, other: &Self) -> (r: bool) {
        *self < *other
    }
}

impl Ordered for u32 {
    open spec fn spec_same(&self, other: &Self) -> bool {
        *self == *other
    }

    open spec fn spec_less(&self, other: &Self) -> bool {
        *self < *other
    }

    fn same(&self, other: &Self) -> (r: bool) {
        *self == *other
    }

    fn less(&self, other: &Self) -> (r: bool) {
        *self < *other
    }
}

impl Ordered for String {
    open spec fn spec_same(&self, other: &Self) -> bool {
        self@ == other@
    }

    open spec fn spec_less(&self, other: &Self) -> bool {
        seq_lt(self@, other@)
    }

    fn same(&self, other: &Self) -> (r: bool) {
        str_eq(self.as_str(), other.as_str())
    }

    fn less(&self, other: &Self) -> (r: bool) {
        let a = chars_of(self.as_str());
        let b = chars_of(other.as_str());
        chars_lt(&a, &b)
    }
}

impl Comparator {
    /// The outcome of an equality-only comparison (ordering comparators give false).
    pub open spec fn eq_outcome(self, same: bool) -> bool {
        match self {
            Comparator::Eq => same,
            Comparator::Neq => !same,
            _ => false,
        }
    }

    /// The outcome of an order-only comparison (equality comparators give false).
    pub open spec fn ord_outcome(self, less: bool, greater: bool) -> bool {
        match self {
            Comparator::Lt => less,
            Comparator::Gt => greater,
            _ => false,
        }
    }

    /// The outcome of a comparison that supports equality and order.
    pub open spec fn full_outcome(self, same: bool, less: bool, greater: bool) -> bool {
        match self {
            Comparator::Eq => same,
            Comparator::Neq => !same,
            Comparator::Lt => less,
            Comparator::Gt => greater,
        }
    }

    /// The outcome of comparing two values: nulls are equal to each other; booleans compare
    /// for equality only, fractional numbers for order only; strings and integers of the same
    /// kind compare fully; any other pairing is false.
    pub open spec fn evaluates(self, left: SpecValue, right: SpecValue) -> bool {
        match (left, right) {
            (SpecValue::Null, SpecValue::Null) => true,
            (SpecValue::Bool(a), SpecValue::Bool(b)) => self.eq_outcome(a == b),
            (SpecValue::Float64(a), SpecValue::Float64(b)) => self.ord_outcome(a.less_than(b), b.less_than(a)),
            (SpecValue::String(a), SpecValue::String(b)) => self.full_outcome(a == b, seq_lt(a, b), seq_lt(b, a)),
            (SpecValue::Int32(a), SpecValue::Int32(b)) => self.full_outcome(a == b, a < b, a > b),
            (SpecValue::Uint32(a), SpecValue::Uint32(b)) => self.full_outcome(a == b, a < b, a > b),
            _ => false,
        }
    }

    /// Equality-only comparison.
    pub fn compare_eq(&self, a: bool, b: bool) -> (r: bool)
        ensures
            r == self.eq_outcome(a == b),
    {
        match self {
            Comparator::Eq => a == b,
            Comparator::Neq => a != b,
            _ => false,
        }
    }

    /// Order-only comparison of fractional numbers.
    pub fn compare_ord(&self, a: &Decimal, b: &Decimal) -> (r: bool)
        requires
            a.wf(),
            b.wf(),
        ensures
            r == self.ord_outcome(a.less_than(*b), b.less_than(*a)),
    {
        match self {
            Comparator::Lt => a.lt(b),
            Comparator::Gt => b.lt(a),
            _ => false,
        }
    }

    /// Comparison supporting equality and order.
    pub fn compare_full<T: Ordered>(&self, a: &T, b: &T) -> (r: bool)
        ensures
            r == self.full_outcome(a.spec_same(b), a.spec_less(b), b.spec_less(a)),
    {
        match self {
            Comparator::Eq => a.same(b),
            Comparator::Neq => !a.same(b),
            Comparator::Lt => a.less(b),
            Comparator::Gt => b.less(a),
        }
    }

    /// Compares two values (see `evaluates`).
    pub fn evaluate(&self, left: &Value, right: &Value) -> (r: bool)
        requires
            left@.wf(),
            right@.wf(),
        ensures
            r == self.evaluates(left@, right@),
    {
        match (left, right) {
            (Value::Null, Value::Null) => true,
            (Value::Bool(a), Value::Bool(b)) => self.compare_eq(*a, *b),
            (Value::Float64(a), Value::Float64(b)) => self.compare_ord(a, b),
            (Value::String(a), Value::String(b)) => self.compare_full(a, b),
            (Value::Int32(a), Value::Int32(b)) => self.compare_full(a, b),
            (Value::Uint32(a), Value::Uint32(b)) => self.compare_full(a, b),
            _ => false,
        }
    }

    /// Whether the two references may be compared under `typ`: both types knowable and
    /// primitively equal.
    pub open spec fn validates(self, typ: SpecType, left: SpecValueReference, right: SpecValueReference) -> Result<(), SpecSchemaError> {
        match reference_type(left, typ) {
            Err(e) => Err(e),
            Ok(a) => match reference_type(right, typ) {
                Err(e) => Err(e),
                Ok(b) => if a.primitive_eq(b) {
                    Ok(())
                } else {
                    Err(SpecSchemaError::InvalidComparison(self, a, b))
                },
            },
        }
    }

    /// Checks that the two references may be compared under `typ` (see `validates`).
    pub fn validate(&self, typ: &Type, left: &ValueReference, right: &ValueReference) -> (r: Result<(), SchemaError>)
        ensures
            match self.validates(typ@, left@, right@) {
                Ok(_) => r is Ok,
                Err(e) => r matches Err(re) && re@ == e,
            },
    {
        let a = left.lookup_type(typ)?;
        let b = right.lookup_type(typ)?;
        if !a.primitive_eq(&b) {
            Err(SchemaError::InvalidComparison(*self, a, b))
        } else {
            Ok(())
        }
    }
}

/// How the parts of a conjunctive expression combine.
#[derive(Debug, Clone, Copy, PartialEq, Eq, Structural)]
pub enum Conjunctive {
    And,
    Or,
}

/// The model of a `ValueReference`.
pub enum SpecValueReference {
    Value(SpecValue),
    Reference(Seq<char>),
}

/// A literal value, or a reference by key to a member of the value under evaluation.
#[derive(Debug)]
pub enum ValueReference {
    Value(Value),
    Reference(String),
}

impl View for ValueReference {
    type V = SpecValueReference;

    open spec fn view(&self) -> SpecValueReference {
        match self {
            ValueReference::Value(v) => SpecValueReference::Value(v@),
            ValueReference::Reference(k) => SpecValueReference::Reference(k@),
        }
    }
}

/// The type a reference has under `typ`: a literal's own type, or the member type the key names.
pub open spec fn reference_type(r: SpecValueReference, typ: SpecType) -> Result<SpecType, SpecSchemaError> {
    match r {
        SpecValueReference::Value(v) => type_of(v),
        SpecValueReference::Reference(k) => match typ.member(k) {
            Some(t) => Ok(t),
            None => Err(SpecSchemaError::InvalidLookup(Some(typ), k)),
        },
    }
}

/// The value a reference has in `value`: a literal itself, or the member the key names.
pub open spec fn reference_value(r: SpecValueReference, value: SpecValue) -> Result<SpecValue, SpecSchemaError> {
    match r {
        SpecValueReference::Value(v) => Ok(v),
        SpecValueReference::Reference(k) => match value.member(k) {
            Some(m) => Ok(m),
            None => Err(SpecSchemaError::InvalidLookup(ok_type(type_of(value)), k)),
        },
    }
}

impl ValueReference {
    /// A reference holding a literal value.
    pub fn from_value(value: Value) -> (r: ValueReference)
        ensures
            r@ == SpecValueReference::Value(value@),
    {
        ValueReference::Value(value)
    }

    /// The type of this reference under `typ` (see `reference_type`).
    pub fn lookup_type(&self, typ: &Type) -> (r: Result<Type, SchemaError>)
        ensures
            match reference_type(self@, typ@) {
                Ok(t) => r matches Ok(rt) && rt@ == t,
                Err(e) => r matches Err(re) && re@ == e,
            },
    {
        match self {
            ValueReference::Value(v) => Type::try_from_value(v),
            ValueReference::Reference(k) => typ.lookup(k.as_str()),
        }
    }

    /// The value of this reference in `value` (see `reference_value`).
    pub fn lookup_value(&self, value: &Value) -> (r: Result<Value, SchemaError>)
        ensures
            match reference_value(self@, value@) {
                Ok(v) => r matches Ok(rv) && rv@ == v,
                Err(e) => r matches Err(re) && re@ == e,
            },
    {
        match self {
            ValueReference::Value(v) => Ok(v.duplicate()),
            ValueReference::Reference(k) => value.lookup(k.as_str()),
        }
    }
}

} // verus!

verus! {

/// A condition on values: an expression.
pub type Condition = Expression;

/// The model of an `Expression`.
pub enum SpecExpression {
    Comparison(Comparator, SpecValueReference, SpecValueReference),
    Conjunctive(Conjunctive, Seq<SpecExpression>),
}

/// An evaluatable indirect expression.
#[derive(Debug)]
pub enum Expression {
    Comparison(Comparator, ValueReference, ValueReference),
    Conjunctive(Conjunctive, Vec<Expression>),
}

/// The model of executable expression parts.
pub open spec fn expression_parts_view(ps: Seq<Expression>) -> Seq<SpecExpression>
    decreases ps,
{
    Seq::new(
        ps.len(),
        |i: int| if 0 <= i < ps.len() { ps[i].model() } else { SpecExpression::Conjunctive(Conjunctive::And, Seq::empty()) },
    )
}

impl Expression {
    /// The mathematical model of this expression.
    pub open spec fn model(&self) -> SpecExpression
        decreases self,
    {
        match self {
            Expression::Comparison(op, a, b) => SpecExpression::Comparison(*op, a@, b@),
            Expression::Conjunctive(op, ps) => SpecExpression::Conjunctive(*op, expression_parts_view(ps@)),
        }
    }
}

impl View for Expression {
    type V = SpecExpression;

    open spec fn view(&self) -> SpecExpression {
        self.model()
    }
}

/// Whether an expression is valid under `typ`: each comparison's references may be compared,
/// and each conjunctive has at least one part, all valid. The first failure gives the error.
pub open spec fn expression_validates(e: SpecExpression, typ: SpecType) -> Result<(), SpecSchemaError>
    decreases e, 0int,
{
    match e {
        SpecExpression::Comparison(op, a, b) => op.validates(typ, a, b),
        SpecExpression::Conjunctive(_, parts) => if parts.len() == 0 {
            Err(SpecSchemaError::NotImplemented("Empty conjunctive"@))
        } else {
            parts_validate(parts, typ, 0)
        },
    }
}

/// Whether the parts from position `i` on are valid under `typ`.
pub open spec fn parts_validate(parts: Seq<SpecExpression>, typ: SpecType, i: int) -> Result<(), SpecSchemaError>
    decreases parts, parts.len() - i,
{
    if i < 0 || i >= parts.len() {
        Ok(())
    } else {
        match expression_validates(parts[i], typ) {
            Err(e) => Err(e),
            Ok(_) => parts_validate(parts, typ, i + 1),
        }
    }
}

/// The truth of an expression for `value`. A comparison compares the values its references
/// have in `value`. A conjunctive evaluates its parts in order: an error stops evaluation; under
/// `And` a false part makes the whole false at once; otherwise the result is whether any part
/// was true (so `And` of no parts is false).
pub open spec fn expression_evaluates(e: SpecExpression, value: SpecValue) -> Result<bool, SpecSchemaError>
    decreases e, 0int,
{
    match e {
        SpecExpression::Comparison(op, a, b) => match reference_value(a, value) {
            Err(err) => Err(err),
            Ok(x) => match reference_value(b, value) {
                Err(err) => Err(err),
                Ok(y) => Ok(op.evaluates(x, y)),
            },
        },
        SpecExpression::Conjunctive(op, parts) => parts_evaluate(op == Conjunctive::And, parts, value, 0, false),
    }
}

/// The conjunctive evaluation of the parts from position `i` on, `any` recording whether an
/// earlier part was true.
pub open spec fn parts_evaluate(is_and: bool, parts: Seq<SpecExpression>, value: SpecValue, i: int, any: bool) -> Result<bool, SpecSchemaError>
    decreases parts, parts.len() - i,
{
    if i < 0 || i >= parts.len() {
        Ok(any)
    } else {
        match expression_evaluates(parts[i], value) {
            Err(err) => Err(err),
            Ok(sub) => if !sub && is_and {
                Ok(false)
            } else {
                parts_evaluate(is_and, parts, value, i + 1, any || sub)
            },
        }
    }
}

/// Every literal value in an expression is well-formed.
pub open spec fn expression_wf(e: SpecExpression) -> bool
    decreases e, 0int,
{
    match e {
        SpecExpression::Comparison(_, a, b) => reference_wf(a) && reference_wf(b),
        SpecExpression::Conjunctive(_, parts) => expression_parts_wf(parts, 0),
    }
}

/// Whether the parts from position `i` on are all well-formed.
pub open spec fn expression_parts_wf(parts: Seq<SpecExpression>, i: int) -> bool
    decreases parts, parts.len() - i,
{
    if i < 0 || i >= parts.len() {
        true
    } else {
        expression_wf(parts[i]) && expression_parts_wf(parts, i + 1)
    }
}

/// `expression_parts_wf` holds exactly when every part from position `i` on is well-formed.
pub proof fn lemma_expression_parts_wf(parts: Seq<SpecExpression>, i: int)
    requires
        0 <= i,
    ensures
        expression_parts_wf(parts, i) <==> forall|k: int| i <= k < parts.len() ==> expression_wf(#[trigger] parts[k]),
    decreases parts.len() - i,
{
    if i < parts.len() {
        lemma_expression_parts_wf(parts, i + 1);
    }
}

/// A literal reference holds a well-formed value.
pub open spec fn reference_wf(r: SpecValueReference) -> bool {
    match r {
        SpecValueReference::Value(v) => v.wf(),
        SpecValueReference::Reference(_) => true,
    }
}

/// A reference in a well-formed value, with a well-formed literal, yields a well-formed value.
pub proof fn lemma_reference_value_wf(r: SpecValueReference, value: SpecValue)
    requires
        reference_wf(r),
        value.wf(),
    ensures
        reference_value(r, value) matches Ok(v) ==> v.wf(),
{
    if let SpecValueReference::Reference(k) = r {
        if let SpecValue::Dict(es) = value {
            super::entries::lemma_index_of_key(super::entries::key_seq(es), k);
            if let Some(i) = super::entries::index_of_key(super::entries::key_seq(es), k) {
                assert(es[i].1.wf());
            }
        }
    }
}

impl Expression {
    /// Checks that this expression is valid under `typ` (see `expression_validates`).
    #[verifier::loop_isolation(false)]
    pub fn validate(&self, typ: &Type) -> (r: Result<(), SchemaError>)
        ensures
            match expression_validates(self@, typ@) {
                Ok(_) => r is Ok,
                Err(e) => r matches Err(re) && re@ == e,
            },
        decreases self,
    {
        match self {
            Expression::Comparison(op, a, b) => op.validate(typ, a, b),
            Expression::Conjunctive(_, parts) => {
                if parts.len() == 0 {
                    return Err(SchemaError::NotImplemented(string_from_str("Empty conjunctive")));
                }
                let ghost pv = expression_parts_view(parts@);
                let mut i: usize = 0;
                while i < parts.len()
                    invariant
                        i <= parts.len(),
                        pv == expression_parts_view(parts@),
                        parts_validate(pv, typ@, 0) == parts_validate(pv, typ@, i as int),
                    decreases parts.len() - i,
                {
                    assert(pv[i as int] == parts@[i as int]@);
                    parts[i].validate(typ)?;
                    i = i + 1;
                }
                Ok(())
            },
        }
    }

    /// Evaluates this expression for `value` (see `expression_evaluates`).
    #[verifier::loop_isolation(false)]
    pub fn evaluate(&self, value: &Value) -> (r: Result<bool, SchemaError>)
        requires
            value@.wf(),
            expression_wf(self@),
        ensures
            match expression_evaluates(self@, value@) {
                Ok(b) => r == Ok::<bool, SchemaError>(b),
                Err(e) => r matches Err(re) && re@ == e,
            },
        decreases self,
    {
        match self {
            Expression::Comparison(op, a, b) => {
                proof {
                    lemma_reference_value_wf(a@, value@);
                    lemma_reference_value_wf(b@, value@);
                }
                let x = a.lookup_value(value)?;
                let y = b.lookup_value(value)?;
                Ok(op.evaluate(&x, &y))
            },
            Expression::Conjunctive(op, parts) => {
                let is_and = match op {
                    Conjunctive::Or => false,
                    Conjunctive::And => true,
                };
                let ghost pv = expression_parts_view(parts@);
                let mut any = false;
                let mut i: usize = 0;
                while i < parts.len()
                    invariant
                        i <= parts.len(),
                        pv == expression_parts_view(parts@),
                        is_and == (*op == Conjunctive::And),
                        parts_evaluate(is_and, pv, value@, 0, false) == parts_evaluate(is_and, pv, value@, i as int, any),
                    decreases parts.len() - i,
                {
                    assert(pv[i as int] == parts@[i as int]@);
                    proof {
                        lemma_expression_parts_wf(pv, 0);
                    }
                    assert(expression_wf(pv[i as int]));
                    let sub = parts[i].evaluate(value)?;
                    if !sub && is_and {
                        return Ok(false);
                    }
                    any = any || sub;
                    i = i + 1;
                }
                Ok(any)
            },
        }
    }
}

/// Law: when no part of a conjunctive fails, `And` is true exactly when there is at least one
/// part and every part is true, and `Or` is true exactly when some part is true.
pub proof fn law_conjunctive_truth(op: Conjunctive, parts: Seq<SpecExpression>, value: SpecValue)
    requires
        forall|i: int| 0 <= i < parts.len() ==> expression_evaluates(#[trigger] parts[i], value) is Ok,
    ensures
        op == Conjunctive::And ==> expression_evaluates(SpecExpression::Conjunctive(op, parts), value) == Ok::<bool, SpecSchemaError>(
            parts.len() > 0 && forall|i: int| 0 <= i < parts.len() ==> expression_evaluates(#[trigger] parts[i], value) == Ok::<bool, SpecSchemaError>(true)),
        op == Conjunctive::Or ==> expression_evaluates(SpecExpression::Conjunctive(op, parts), value) == Ok::<bool, SpecSchemaError>(
            exists|i: int| 0 <= i < parts.len() && expression_evaluates(#[trigger] parts[i], value) == Ok::<bool, SpecSchemaError>(true)),
{
    lemma_parts_evaluate(op == Conjunctive::And, parts, value, 0, false);
}

/// The conjunctive fold over the parts from `i` on, when none of them fails.
proof fn lemma_parts_evaluate(is_and: bool, parts: Seq<SpecExpression>, value: SpecValue, i: int, any: bool)
    requires
        0 <= i <= parts.len(),
        forall|k: int| 0 <= k < parts.len() ==> expression_evaluates(#[trigger] parts[k], value) is Ok,
    ensures
        is_and ==> parts_evaluate(is_and, parts, value, i, any) == Ok::<bool, SpecSchemaError>(
            (any || i < parts.len()) && forall|k: int| i <= k < parts.len() ==> expression_evaluates(#[trigger] parts[k], value) == Ok::<bool, SpecSchemaError>(true)),
        !is_and ==> parts_evaluate(is_and, parts, value, i, any) == Ok::<bool, SpecSchemaError>(
            any || exists|k: int| i <= k < parts.len() && expression_evaluates(#[trigger] parts[k], value) == Ok::<bool, SpecSchemaError>(true)),
    decreases parts.len() - i,
{
    if i < parts.len() {
        assert(expression_evaluates(parts[i], value) is Ok);
        let sub = expression_evaluates(parts[i], value)->Ok_0;
        lemma_parts_evaluate(is_and, parts, value, i + 1, any || sub);
        if !is_and {
            if sub {
                assert(exists|k: int| i <= k < parts.len() && expression_evaluates(#[trigger] parts[k], value) == Ok::<bool, SpecSchemaError>(true));
            }
            if exists|k: int| i <= k < parts.len() && expression_evaluates(#[trigger] parts[k], value) == Ok::<bool, SpecSchemaError>(true) {
                let k = choose|k: int| i <= k < parts.len() && expression_evaluates(#[trigger] parts[k], value) == Ok::<bool, SpecSchemaError>(true);
                if k > i {
                    assert(i + 1 <= k);
                }
            }
        } else {
            if !sub {
                assert(!(expression_evaluates(parts[i], value) == Ok::<bool, SpecSchemaError>(true)));
            }
        }
    }
}

} // verus!

verus! {

impl Expression {
    /// Whether every literal value in this expression is well-formed (see `expression_wf`).
    #[verifier::loop_isolation(false)]
    pub fn is_wf(&self) -> (r: bool)
        ensures
            r == expression_wf(self@),
        decreases self,
    {
        match self {
            Expression::Comparison(_, a, b) => {
                let a_wf = match a {
                    ValueReference::Value(v) => v.is_wf(),
                    ValueReference::Reference(_) => true,
                };
                let b_wf = match b {
                    ValueReference::Value(v) => v.is_wf(),
                    ValueReference::Reference(_) => true,
                };
                a_wf && b_wf
            },
            Expression::Conjunctive(_, parts) => {
                let ghost pv = expression_parts_view(parts@);
                proof {
                    lemma_expression_parts_wf(pv, 0);
                }
                let mut i: usize = 0;
                while i < parts.len()
                    invariant
                        i <= parts.len(),
                        pv == expression_parts_view(parts@),
                        forall|k: int| 0 <= k < i ==> expression_wf(#[trigger] pv[k]),
                    decreases parts.len() - i,
                {
                    assert(pv[i as int] == parts@[i as int]@);
                    if !parts[i].is_wf() {
                        assert(!expression_wf(pv[i as int]));
                        return false;
                    }
                    i = i + 1;
                }
                true
            },
        }
    }
}

} // verus!

verus! {

/// Whether two values are of the same kind (variant).
pub open spec fn same_kind(a: SpecValue, b: SpecValue) -> bool {
    match (a, b) {
        (SpecValue::Null, SpecValue::Null) => true,
        (SpecValue::Bool(_), SpecValue::Bool(_)) => true,
        (SpecValue::Int32(_), SpecValue::Int32(_)) => true,
        (SpecValue::Uint32(_), SpecValue::Uint32(_)) => true,
        (SpecValue::Float64(_), SpecValue::Float64(_)) => true,
        (SpecValue::String(_), SpecValue::String(_)) => true,
        (SpecValue::List(_), SpecValue::List(_)) => true,
        (SpecValue::Dict(_), SpecValue::Dict(_)) => true,
        _ => false,
    }
}

/// Law: a comparison that cannot be made is false rather than an error: values of
/// different kinds, and lists or maps, never compare true under any comparator.
pub proof fn law_impossible_comparisons_are_false(op: Comparator, a: SpecValue, b: SpecValue)
    requires
        !same_kind(a, b) || a is List || a is Dict,
    ensures
        !op.evaluates(a, b),
{
}

/// Law: unsigned and signed integers compare by their numeric order, and strings by the
/// lexicographic order of their characters: `Lt` holds exactly when the left one is strictly
/// smaller, `Gt` exactly when it is strictly larger, `Eq` exactly when they are equal and
/// `Neq` exactly when they differ.
pub proof fn law_ordered_comparisons(a: u32, b: u32, x: i32, y: i32, s: Seq<char>, t: Seq<char>)
    ensures
        Comparator::Lt.evaluates(SpecValue::Uint32(a), SpecValue::Uint32(b)) == (a < b),
        Comparator::Gt.evaluates(SpecValue::Uint32(a), SpecValue::Uint32(b)) == (a > b),
        Comparator::Eq.evaluates(SpecValue::Uint32(a), SpecValue::Uint32(b)) == (a == b),
        Comparator::Neq.evaluates(SpecValue::Uint32(a), SpecValue::Uint32(b)) == (a != b),
        Comparator::Lt.evaluates(SpecValue::Int32(x), SpecValue::Int32(y)) == (x < y),
        Comparator::Gt.evaluates(SpecValue::Int32(x), SpecValue::Int32(y)) == (x > y),
        Comparator::Eq.evaluates(SpecValue::Int32(x), SpecValue::Int32(y)) == (x == y),
        Comparator::Neq.evaluates(SpecValue::Int32(x), SpecValue::Int32(y)) == (x != y),
        Comparator::Lt.evaluates(SpecValue::String(s), SpecValue::String(t)) == seq_lt(s, t),
        Comparator::Gt.evaluates(SpecValue::String(s), SpecValue::String(t)) == seq_lt(t, s),
        Comparator::Eq.evaluates(SpecValue::String(s), SpecValue::String(t)) == (s == t),
        Comparator::Neq.evaluates(SpecValue::String(s), SpecValue::String(t)) == (s != t),
{
}

/// Law: no value other than null (which compares true with null under every comparator) is
/// strictly less or strictly greater than itself; of two such values at most one is strictly
/// less than the other, and the left one is less exactly when the right one is greater.
pub proof fn law_strict_comparisons(a: SpecValue, b: SpecValue)
    requires
        !(a is Null),
    ensures
        !Comparator::Lt.evaluates(a, a),
        !Comparator::Gt.evaluates(a, a),
        !(Comparator::Lt.evaluates(a, b) && Comparator::Lt.evaluates(b, a)),
        Comparator::Lt.evaluates(a, b) == Comparator::Gt.evaluates(b, a),
{
    if let SpecValue::String(s) = a {
        lemma_seq_lt_irreflexive(s);
        if let SpecValue::String(t) = b {
            lemma_seq_lt_trichotomy(s, t);
        }
    }
}

} // verus!
