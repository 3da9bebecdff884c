use progenitor::indirect::errors::IndirectSchemaError;
use progenitor::indirect::expr::{IndirectComparator, IndirectConjunctive, IndirectExpression, IndirectRef};
use progenitor::indirect::mutation::IndirectMutation;
use progenitor::indirect::primitives::{IndirectType, IndirectValue};
use progenitor::schema::decimal::Decimal;

fn dict(pairs: Vec<(&str, IndirectValue)>) -> IndirectValue {
    IndirectValue::dict_from_pairs(pairs.into_iter().map(|(k, v)| (k.to_string(), v)).collect())
}

fn message(m: &str) -> IndirectSchemaError {
    IndirectSchemaError::Message(m.to_string())
}

fn sample() -> IndirectValue {
    dict(vec![("a", IndirectValue::Int32(1)), ("l", IndirectValue::List(vec![IndirectValue::Bool(true)]))])
}

#[test]
fn indirect_type_lookup_messages() {
    let t = IndirectType::try_from_value(&sample()).unwrap();
    assert_eq!(t.lookup("a"), Ok(IndirectType::Int32));
    assert_eq!(t.lookup("b"), Err(message("missing key in itype lookup b")));
    assert_eq!(IndirectType::Bool.lookup("b"), Err(message("invalid itype lookup b")));
    assert!(IndirectType::String.primitive_eq(&IndirectType::String));
    assert!(!IndirectType::Dict(vec![]).primitive_eq(&IndirectType::Dict(vec![])));
}

#[test]
fn indirect_value_lookup_messages() {
    assert_eq!(sample().lookup("a"), Ok(IndirectValue::Int32(1)));
    assert_eq!(sample().lookup("z"), Err(message("lookup indirect z map key missing")));
    assert_eq!(IndirectValue::Null.lookup("z"), Err(message("lookup indirect z")));
    assert_eq!(IndirectType::try_from_value(&IndirectValue::Null), Err(IndirectSchemaError::UnknownableType));
}

#[test]
fn indirect_comparator_semantics() {
    let t = IndirectValue::Bool(true);
    assert!(IndirectComparator::Lt.evaluate(&t, &IndirectValue::Bool(true)));
    assert!(!IndirectComparator::Neq.evaluate(&t, &IndirectValue::Bool(false)));
    let a = IndirectValue::Float64(Decimal { negative: false, whole: 1, fraction: 5, fraction_digits: 1 });
    let b = IndirectValue::Float64(Decimal { negative: false, whole: 2, fraction: 0, fraction_digits: 0 });
    assert!(IndirectComparator::Lt.evaluate(&a, &b));
    assert!(IndirectComparator::Eq.evaluate(&a, &a));
    let zero = IndirectValue::Float64(Decimal { negative: false, whole: 0, fraction: 0, fraction_digits: 0 });
    let minus_zero = IndirectValue::Float64(Decimal { negative: true, whole: 0, fraction: 0, fraction_digits: 0 });
    assert!(IndirectComparator::Eq.evaluate(&zero, &minus_zero));
    assert!(IndirectComparator::Eq.evaluate(&IndirectValue::Null, &IndirectValue::Null));
    assert!(!IndirectComparator::Eq.evaluate(&IndirectValue::List(vec![]), &IndirectValue::List(vec![])));
}

#[test]
fn indirect_expressions() {
    let t = IndirectType::try_from_value(&sample()).unwrap();
    let cmp = IndirectExpression::Comparison(IndirectComparator::Eq, IndirectRef::AttrRef("a".into()), IndirectRef::from_value(IndirectValue::Int32(1)));
    assert_eq!(cmp.validate(&t), Ok(()));
    assert_eq!(cmp.evaluate(&sample()), Ok(true));
    let bad = IndirectExpression::Comparison(IndirectComparator::Eq, IndirectRef::AttrRef("a".into()), IndirectRef::from_value(IndirectValue::Bool(true)));
    assert_eq!(bad.validate(&t), Err(message("not prim eq")));
    let empty = IndirectExpression::Conjunctive(IndirectConjunctive::Or, vec![]);
    assert_eq!(empty.validate(&t), Err(message("empty conjunctive")));
    let or = IndirectExpression::Conjunctive(IndirectConjunctive::Or, vec![bad, cmp]);
    assert_eq!(or.evaluate(&sample()), Ok(true));
}

#[test]
fn indirect_mutation_messages() {
    assert_eq!(
        IndirectMutation::Assign("a".into(), IndirectValue::Int32(9)).apply(&sample()).unwrap().lookup("a"),
        Ok(IndirectValue::Int32(9))
    );
    assert_eq!(IndirectMutation::Assign("q".into(), IndirectValue::Null).apply(&sample()), Err(message("invalid map member key")));
    assert_eq!(IndirectMutation::Assign("l.3.x".into(), IndirectValue::Null).apply(&sample()), Err(message("index lookup oob")));
    assert_eq!(IndirectMutation::Assign("l.k".into(), IndirectValue::Null).apply(&sample()), Err(message("invalid lookup idx fmt")));
    assert_eq!(IndirectMutation::Assign("l.0".into(), IndirectValue::Null).apply(&sample()), Err(message("object key mut apply below ary idx")));
}

#[test]
fn indirect_conversions() {
    assert_eq!(IndirectValue::Int32(-2).try_into_u32(), Err(message("i32 -> u32 failed")));
    assert_eq!(IndirectValue::Null.try_into_bool(), Err(message("try from indirect -> bool")));
    assert_eq!(IndirectValue::Null.try_into_optional_i32(), Ok(None));
    assert_eq!(IndirectValue::from_optional_u32(None), IndirectValue::Null);
}
