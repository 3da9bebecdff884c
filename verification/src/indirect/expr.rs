//! Indirect expressions: comparisons of referenced values, combined by
//! conjunctives.
use vstd::prelude::*;
use crate::text::{seq_lt, string_from_str};
use crate::schema::expr::Ordered;
use crate::schema::entries::{key_seq, index_of_key, lemma_index_of_key};
use crate::schema::primitives::{SpecType, SpecValue};
use super::errors::{IndirectSchemaError, SpecIndirectError};
use super::primitives::{IndirectType, IndirectValue, itype_lookup, ivalue_lookup, itype_of};

verus! {

/// A binary comparison between two indirect values.
#[derive(Debug, Clone, Copy, PartialEq, Eq, Structural)]
pub enum IndirectComparator {
    Eq,
    Neq,
    Lt,
    Gt,
}

impl IndirectComparator {
    /// The outcome of this comparison given whether the operands are equal, and whether the
    /// left one precedes or follows the right one.
    pub open spec fn outcome(self, same: bool, less: bool, greater: bool) -> bool {
        match self {
            IndirectComparator::Eq => same,
            IndirectComparator::Neq => !same,
            IndirectComparator::Lt => less,
            IndirectComparator::Gt => greater,
        }
    }

    /// The outcome of comparing two values: a null equals only a null, and booleans are
    /// true exactly when equal, whatever the comparator; numbers (fractional ones by their
    /// numeric value) and strings of the same kind compare by the comparator; lists, maps and pairs of different kinds give false.
    pub open spec fn evaluates(self, left: SpecValue, right: SpecValue) -> bool {
        match left {
            SpecValue::Null => right is Null,
            SpecValue::Bool(a) => match right {
                SpecValue::Bool(b) => a == b,
                _ => false,
            },
            SpecValue::Uint32(a) => match right {
                SpecValue::Uint32(b) => self.outcome(a == b, a < b, a > b),
                _ => false,
            },
            SpecValue::Int32(a) => match right {
                SpecValue::Int32(b) => self.outcome(a == b, a < b, a > b),
                _ => false,
            },
            SpecValue::Float64(a) => match right {
                SpecValue::Float64(b) => self.outcome(a.numerator() == b.numerator(), a.less_than(b), b.less_than(a)),
                _ => false,
            },
            SpecValue::String(a) => match right {
                SpecValue::String(b) => self.outcome(a == b, seq_lt(a, b), seq_lt(b, a)),
                _ => false,
            },
            SpecValue::List(_) => false,
            SpecValue::Dict(_) => false,
        }
    }

    /// Applies this comparison to two ordered operands.
    fn apply<T: Ordered>(&self, a: &T, b: &T) -> (r: bool)
        ensures
            r == self.outcome(a.spec_same(b), a.spec_less(b), b.spec_less(a)),
    {
        match self {
            IndirectComparator::Eq => a.same(b),
            IndirectComparator::Neq => !a.same(b),
            IndirectComparator::Lt => a.less(b),
            IndirectComparator::Gt => b.less(a),
        }
    }

    /// Compares two values (see `evaluates`).
    pub fn evaluate(&self, left: &IndirectValue, right: &IndirectValue) -> (r: bool)
        requires
            left@.wf(),
            right@.wf(),
        ensures
            r == self.evaluates(left@, right@),
    {
        match left {
            IndirectValue::Null => matches!(right, IndirectValue::Null),
            IndirectValue::Bool(a) => match right {
                IndirectValue::Bool(b) => *a == *b,
                _ => false,
            },
            IndirectValue::Uint32(a) => match right {
                IndirectValue::Uint32(b) => self.apply(a, b),
                _ => false,
            },
            IndirectValue::Int32(a) => match right {
                IndirectValue::Int32(b) => self.apply(a, b),
                _ => false,
            },
            IndirectValue::Float64(a) => match right {
                IndirectValue::Float64(b) => match self {
                    IndirectComparator::Eq => a.num_eq(b),
                    IndirectComparator::Neq => !a.num_eq(b),
                    IndirectComparator::Lt => a.lt(b),
                    IndirectComparator::Gt => b.lt(a),
                },
                _ => false,
            },
            IndirectValue::String(a) => match right {
                IndirectValue::String(b) => self.apply(a, b),
                _ => false,
            },
            IndirectValue::List(_) => false,
            IndirectValue::Dict(_) => false,
        }
    }

    /// Whether the two references may be compared under `typ`: both types knowable and
    /// primitively equal, else "not prim eq".
    pub open spec fn validates(self, typ: SpecType, left: SpecIndirectRef, right: SpecIndirectRef) -> Result<(), SpecIndirectError> {
        match ref_type(left, typ) {
            Err(e) => Err(e),
            Ok(a) => match ref_type(right, typ) {
                Err(e) => Err(e),
                Ok(b) => if a.primitive_eq(b) {
                    Ok(())
                } else {
                    Err(SpecIndirectError::Message("not prim eq"@))
                },
            },
        }
    }

    /// Checks that the two references may be compared under `typ` (see `validates`).
    pub fn validate(&self, typ: &IndirectType, left: &IndirectRef, right: &IndirectRef) -> (r: Result<(), IndirectSchemaError>)
        ensures
            match self.validates(typ@, left@, right@) {
                Ok(_) => r is Ok,
                Err(e) => r matches Err(re) && re@ == e,
            },
    {
        let left_type = left.lookup_type(typ)?;
        let right_type = right.lookup_type(typ)?;
        if !left_type.primitive_eq(&right_type) {
            Err(IndirectSchemaError::Message(string_from_str("not prim eq")))
        } else {
            Ok(())
        }
    }
}

/// How the parts of a conjunctive expression combine.
#[derive(Debug, Clone, Copy, PartialEq, Eq, Structural)]
pub enum IndirectConjunctive {
    And,
    Or,
}

/// The model of an `IndirectRef`.
pub enum SpecIndirectRef {
    Value(SpecValue),
    AttrRef(Seq<char>),
}

/// A literal value, or a reference by key to a member of the value under evaluation.
#[derive(Debug)]
pub enum IndirectRef {
    Value(IndirectValue),
    AttrRef(String),
}

impl View for IndirectRef {
    type V = SpecIndirectRef;

    open spec fn view(&self) -> SpecIndirectRef {
        match self {
            IndirectRef::Value(v) => SpecIndirectRef::Value(v@),
            IndirectRef::AttrRef(k) => SpecIndirectRef::AttrRef(k@),
        }
    }
}

/// The type a reference has under `typ`: a literal's own type, or the member type the key names.
pub open spec fn ref_type(r: SpecIndirectRef, typ: SpecType) -> Result<SpecType, SpecIndirectError> {
    match r {
        SpecIndirectRef::Value(v) => itype_of(v),
        SpecIndirectRef::AttrRef(k) => itype_lookup(typ, k),
    }
}

/// The value a reference has in `value`: a literal itself, or the member the key names.
pub open spec fn ref_value(r: SpecIndirectRef, value: SpecValue) -> Result<SpecValue, SpecIndirectError> {
    match r {
        SpecIndirectRef::Value(v) => Ok(v),
        SpecIndirectRef::AttrRef(k) => ivalue_lookup(value, k),
    }
}

impl IndirectRef {
    /// A reference holding a literal value.
    pub fn from_value(value: IndirectValue) -> (r: IndirectRef)
        ensures
            r@ == SpecIndirectRef::Value(value@),
    {
        IndirectRef::Value(value)
    }

    /// The type of this reference under `typ` (see `ref_type`).
    pub fn lookup_type(&self, typ: &IndirectType) -> (r: Result<IndirectType, IndirectSchemaError>)
        ensures
            match ref_type(self@, typ@) {
                Ok(t) => r matches Ok(rt) && rt@ == t,
                Err(e) => r matches Err(re) && re@ == e,
            },
    {
        match self {
            IndirectRef::Value(value) => IndirectType::try_from_value(value),
            IndirectRef::AttrRef(lookup) => typ.lookup(lookup.as_str()),
        }
    }

    /// The value of this reference in `value` (see `ref_value`).
    pub fn lookup_value(&self, value: &IndirectValue) -> (r: Result<IndirectValue, IndirectSchemaError>)
        ensures
            match ref_value(self@, value@) {
                Ok(v) => r matches Ok(rv) && rv@ == v,
                Err(e) => r matches Err(re) && re@ == e,
            },
    {
        match self {
            IndirectRef::Value(v) => Ok(v.duplicate()),
            IndirectRef::AttrRef(lookup) => value.lookup(lookup.as_str()),
        }
    }
}

} // verus!

verus! {

/// The model of an `IndirectExpression`.
pub enum SpecIndirectExpression {
    Comparison(IndirectComparator, SpecIndirectRef, SpecIndirectRef),
    Conjunctive(IndirectConjunctive, Seq<SpecIndirectExpression>),
}

/// An evaluatable indirect expression.
#[derive(Debug)]
pub enum IndirectExpression {
    Comparison(IndirectComparator, IndirectRef, IndirectRef),
    Conjunctive(IndirectConjunctive, Vec<IndirectExpression>),
}

/// The model of executable expression parts.
pub open spec fn iexpression_parts_view(ps: Seq<IndirectExpression>) -> Seq<SpecIndirectExpression>
    decreases ps,
{
    Seq::new(
        ps.len(),
        |i: int| if 0 <= i < ps.len() { ps[i].model() } else {
            SpecIndirectExpression::Conjunctive(IndirectConjunctive::And, Seq::empty())
        },
    )
}

impl IndirectExpression {
    /// The mathematical model of this expression.
    pub open spec fn model(&self) -> SpecIndirectExpression
        decreases self,
    {
        match self {
            IndirectExpression::Comparison(op, a, b) => SpecIndirectExpression::Comparison(*op, a@, b@),
            IndirectExpression::Conjunctive(op, ps) => SpecIndirectExpression::Conjunctive(*op, iexpression_parts_view(ps@)),
        }
    }
}

impl View for IndirectExpression {
    type V = SpecIndirectExpression;

    open spec fn view(&self) -> SpecIndirectExpression {
        self.model()
    }
}

/// Whether an expression is valid under `typ`: each comparison's references may be compared,
/// and each conjunctive has at least one part ("empty conjunctive" otherwise), all valid. The
/// first failure gives the error.
pub open spec fn iexpression_validates(e: SpecIndirectExpression, typ: SpecType) -> Result<(), SpecIndirectError>
    decreases e, 0int,
{
    match e {
        SpecIndirectExpression::Comparison(op, a, b) => op.validates(typ, a, b),
        SpecIndirectExpression::Conjunctive(_, parts) => if parts.len() == 0 {
            Err(SpecIndirectError::Message("empty conjunctive"@))
        } else {
            iparts_validate(parts, typ, 0)
        },
    }
}

/// Whether the parts from position `i` on are valid under `typ`.
pub open spec fn iparts_validate(parts: Seq<SpecIndirectExpression>, typ: SpecType, i: int) -> Result<(), SpecIndirectError>
    decreases parts, parts.len() - i,
{
    if i < 0 || i >= parts.len() {
        Ok(())
    } else {
        match iexpression_validates(parts[i], typ) {
            Err(e) => Err(e),
            Ok(_) => iparts_validate(parts, typ, i + 1),
        }
    }
}

/// The truth of an expression for `value`. A comparison compares the values its references
/// have in `value`. A conjunctive evaluates its parts in order: an error stops evaluation; under
/// `And` a false part makes the whole false at once; otherwise the result is whether any part
/// was true (so `And` of no parts is false).
pub open spec fn iexpression_evaluates(e: SpecIndirectExpression, value: SpecValue) -> Result<bool, SpecIndirectError>
    decreases e, 0int,
{
    match e {
        SpecIndirectExpression::Comparison(op, a, b) => match ref_value(a, value) {
            Err(err) => Err(err),
            Ok(x) => match ref_value(b, value) {
                Err(err) => Err(err),
                Ok(y) => Ok(op.evaluates(x, y)),
            },
        },
        SpecIndirectExpression::Conjunctive(op, parts) => iparts_evaluate(op == IndirectConjunctive::And, parts, value, 0, false),
    }
}

/// The conjunctive evaluation of the parts from position `i` on, `any` recording whether an
/// earlier part was true.
pub open spec fn iparts_evaluate(is_and: bool, parts: Seq<SpecIndirectExpression>, value: SpecValue, i: int, any: bool) -> Result<bool, SpecIndirectError>
    decreases parts, parts.len() - i,
{
    if i < 0 || i >= parts.len() {
        Ok(any)
    } else {
        match iexpression_evaluates(parts[i], value) {
            Err(err) => Err(err),
            Ok(sub) => if !sub && is_and {
                Ok(false)
            } else {
                iparts_evaluate(is_and, parts, value, i + 1, any || sub)
            },
        }
    }
}

/// Every literal value in an expression is well-formed.
pub open spec fn iexpression_wf(e: SpecIndirectExpression) -> bool
    decreases e, 0int,
{
    match e {
        SpecIndirectExpression::Comparison(_, a, b) => iref_wf(a) && iref_wf(b),
        SpecIndirectExpression::Conjunctive(_, parts) => iexpression_parts_wf(parts, 0),
    }
}

/// Whether the parts from position `i` on are all well-formed.
pub open spec fn iexpression_parts_wf(parts: Seq<SpecIndirectExpression>, i: int) -> bool
    decreases parts, parts.len() - i,
{
    if i < 0 || i >= parts.len() {
        true
    } else {
        iexpression_wf(parts[i]) && iexpression_parts_wf(parts, i + 1)
    }
}

/// `iexpression_parts_wf` holds exactly when every part from position `i` on is well-formed.
pub proof fn lemma_iexpression_parts_wf(parts: Seq<SpecIndirectExpression>, i: int)
    requires
        0 <= i,
    ensures
        iexpression_parts_wf(parts, i) <==> forall|k: int| i <= k < parts.len() ==> iexpression_wf(#[trigger] parts[k]),
    decreases parts.len() - i,
{
    if i < parts.len() {
        lemma_iexpression_parts_wf(parts, i + 1);
    }
}

/// A literal reference holds a well-formed value.
pub open spec fn iref_wf(r: SpecIndirectRef) -> bool {
    match r {
        SpecIndirectRef::Value(v) => v.wf(),
        SpecIndirectRef::AttrRef(_) => true,
    }
}

/// A reference in a well-formed value, with a well-formed literal, yields a well-formed value.
pub proof fn lemma_ref_value_wf(r: SpecIndirectRef, value: SpecValue)
    requires
        iref_wf(r),
        value.wf(),
    ensures
        ref_value(r, value) matches Ok(v) ==> v.wf(),
{
    if let SpecIndirectRef::AttrRef(k) = r {
        if let SpecValue::Dict(es) = value {
            lemma_index_of_key(key_seq(es), k);
            if let Some(i) = index_of_key(key_seq(es), k) {
                assert(es[i].1.wf());
            }
        }
    }
}

impl IndirectExpression {
    /// Checks that this expression is valid under `typ` (see `iexpression_validates`).
    #[verifier::loop_isolation(false)]
    pub fn validate(&self, typ: &IndirectType) -> (r: Result<(), IndirectSchemaError>)
        ensures
            match iexpression_validates(self@, typ@) {
                Ok(_) => r is Ok,
                Err(e) => r matches Err(re) && re@ == e,
            },
        decreases self,
    {
        match self {
            IndirectExpression::Comparison(op, a, b) => op.validate(typ, a, b),
            IndirectExpression::Conjunctive(_, parts) => {
                if parts.len() == 0 {
                    return Err(IndirectSchemaError::Message(string_from_str("empty conjunctive")));
                }
                let ghost pv = iexpression_parts_view(parts@);
                let mut i: usize = 0;
                while i < parts.len()
                    invariant
                        i <= parts.len(),
                        pv == iexpression_parts_view(parts@),
                        iparts_validate(pv, typ@, 0) == iparts_validate(pv, typ@, i as int),
                    decreases parts.len() - i,
                {
                    assert(pv[i as int] == parts@[i as int]@);
                    match parts[i].validate(typ) {
                        Err(err) => return Err(err),
                        _ => {},
                    }
                    i = i + 1;
                }
                Ok(())
            },
        }
    }

    /// Evaluates this expression for `value` (see `iexpression_evaluates`).
    #[verifier::loop_isolation(false)]
    pub fn evaluate(&self, value: &IndirectValue) -> (r: Result<bool, IndirectSchemaError>)
        requires
            value@.wf(),
            iexpression_wf(self@),
        ensures
            match iexpression_evaluates(self@, value@) {
                Ok(b) => r == Ok::<bool, IndirectSchemaError>(b),
                Err(e) => r matches Err(re) && re@ == e,
            },
        decreases self,
    {
        match self {
            IndirectExpression::Comparison(op, a, b) => {
                proof {
                    lemma_ref_value_wf(a@, value@);
                    lemma_ref_value_wf(b@, value@);
                }
                let x = a.lookup_value(value)?;
                let y = b.lookup_value(value)?;
                Ok(op.evaluate(&x, &y))
            },
            IndirectExpression::Conjunctive(op, parts) => {
                let is_and = match op {
                    IndirectConjunctive::Or => false,
                    IndirectConjunctive::And => true,
                };
                let ghost pv = iexpression_parts_view(parts@);
                let mut any = false;
                let mut i: usize = 0;
                while i < parts.len()
                    invariant
                        i <= parts.len(),
                        pv == iexpression_parts_view(parts@),
                        is_and == (*op == IndirectConjunctive::And),
                        iparts_evaluate(is_and, pv, value@, 0, false) == iparts_evaluate(is_and, pv, value@, i as int, any),
                    decreases parts.len() - i,
                {
                    assert(pv[i as int] == parts@[i as int]@);
                    proof {
                        lemma_iexpression_parts_wf(pv, 0);
                    }
                    assert(iexpression_wf(pv[i as int]));
                    match parts[i].evaluate(value) {
                        Err(err) => return Err(err),
                        Ok(sub) => {
                            if !sub && is_and {
                                return Ok(false);
                            }
                            any = any || sub;
                        },
                    }
                    i = i + 1;
                }
                Ok(any)
            },
        }
    }
}

} // verus!

verus! {

impl IndirectExpression {
    /// Whether every literal value in this expression is well-formed (see `iexpression_wf`).
    #[verifier::loop_isolation(false)]
    pub fn is_wf(&self) -> (r: bool)
        ensures
            r == iexpression_wf(self@),
        decreases self,
    {
        match self {
            IndirectExpression::Comparison(_, a, b) => {
                let a_wf = match a {
                    IndirectRef::Value(v) => v.is_wf(),
                    IndirectRef::AttrRef(_) => true,
                };
                let b_wf = match b {
                    IndirectRef::Value(v) => v.is_wf(),
                    IndirectRef::AttrRef(_) => true,
                };
                a_wf && b_wf
            },
            IndirectExpression::Conjunctive(_, parts) => {
                let ghost pv = iexpression_parts_view(parts@);
                proof {
                    lemma_iexpression_parts_wf(pv, 0);
                }
                let mut i: usize = 0;
                while i < parts.len()
                    invariant
                        i <= parts.len(),
                        pv == iexpression_parts_view(parts@),
                        forall|k: int| 0 <= k < i ==> iexpression_wf(#[trigger] pv[k]),
                    decreases parts.len() - i,
                {
                    assert(pv[i as int] == parts@[i as int]@);
                    if !parts[i].is_wf() {
                        assert(!iexpression_wf(pv[i as int]));
                        return false;
                    }
                    i = i + 1;
                }
                true
            },
        }
    }
}

} // verus!

verus! {

/// Law: values of different kinds, and lists or maps, never compare true under any
/// indirect comparator.
pub proof fn law_indirect_impossible_comparisons_are_false(op: IndirectComparator, a: SpecValue, b: SpecValue)
    requires
        !crate::schema::expr::same_kind(a, b) || a is List || a is Dict,
    ensures
        !op.evaluates(a, b),
{
}

} // verus!
