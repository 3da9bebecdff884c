use progenitor::schema::decimal::Decimal;
use progenitor::schema::errors::SchemaError;
use progenitor::schema::expr::{Comparator, Conjunctive, Expression, ValueReference};
use progenitor::schema::mutation::Mutation;
use progenitor::schema::primitives::{Type, Value};

fn dict(pairs: Vec<(&str, Value)>) -> Value {
    Value::dict_from_pairs(pairs.into_iter().map(|(k, v)| (k.to_string(), v)).collect())
}

fn record() -> Value {
    dict(vec![
        ("name", Value::String("ada".into())),
        ("age", Value::Uint32(36)),
        ("tags", Value::List(vec![Value::String("x".into())])),
    ])
}

fn record_type() -> Type {
    Type::try_from_value(&record()).unwrap()
}

#[test]
fn type_lookup_and_primitive_eq() {
    let t = record_type();
    assert_eq!(t.lookup("age"), Ok(Type::Uint32));
    assert_eq!(t.lookup("missing"), Err(SchemaError::InvalidLookup(Some(record_type()), "missing".into())));
    assert!(Type::Int32.primitive_eq(&Type::Int32));
    assert!(!Type::Int32.primitive_eq(&Type::Uint32));
    assert!(!Type::List(Box::new(Type::Bool)).primitive_eq(&Type::List(Box::new(Type::Bool))));
}

#[test]
fn type_of_values() {
    assert_eq!(Type::try_from_value(&Value::Null), Err(SchemaError::UnknownableType));
    assert_eq!(Type::try_from_value(&Value::List(vec![])), Err(SchemaError::UnknownableType));
    assert_eq!(Type::try_from_value(&Value::List(vec![Value::Bool(true)])), Ok(Type::List(Box::new(Type::Bool))));
}

#[test]
fn validate_values_against_types() {
    let t = record_type();
    assert_eq!(t.validate(&record()), Ok(()));
    let missing = dict(vec![("name", Value::String("b".into()))]);
    assert_eq!(t.validate(&missing), Err(SchemaError::MissingKey("age".into())));
    assert_eq!(Type::Bool.validate(&Value::Uint32(1)), Err(SchemaError::InvalidType(Type::Bool, Type::Uint32)));
}

#[test]
fn comparators() {
    let one = Decimal { negative: false, whole: 1, fraction: 0, fraction_digits: 0 };
    let half = Decimal { negative: false, whole: 0, fraction: 5, fraction_digits: 1 };
    assert!(Comparator::Lt.evaluate(&Value::Int32(-3), &Value::Int32(2)));
    assert!(Comparator::Eq.evaluate(&Value::String("a".into()), &Value::String("a".into())));
    assert!(Comparator::Gt.evaluate(&Value::Float64(one), &Value::Float64(half)));
    assert!(!Comparator::Eq.evaluate(&Value::Float64(one), &Value::Float64(one)));
    assert!(!Comparator::Lt.evaluate(&Value::Bool(false), &Value::Bool(true)));
    assert!(Comparator::Neq.evaluate(&Value::Bool(false), &Value::Bool(true)));
    assert!(Comparator::Eq.evaluate(&Value::Null, &Value::Null));
    assert!(!Comparator::Eq.evaluate(&Value::Uint32(1), &Value::Int32(1)));
}

#[test]
fn expressions() {
    let older = Expression::Comparison(Comparator::Gt, ValueReference::Reference("age".into()), ValueReference::Value(Value::Uint32(30)));
    let named = Expression::Comparison(Comparator::Eq, ValueReference::Reference("name".into()), ValueReference::Value(Value::String("bob".into())));
    assert_eq!(older.evaluate(&record()), Ok(true));
    assert_eq!(named.evaluate(&record()), Ok(false));
    let both = Expression::Conjunctive(Conjunctive::And, vec![older, named]);
    assert_eq!(both.evaluate(&record()), Ok(false));
    assert_eq!(Expression::Conjunctive(Conjunctive::And, vec![]).evaluate(&record()), Ok(false));
    assert_eq!(
        Expression::Conjunctive(Conjunctive::Or, vec![]).validate(&record_type()),
        Err(SchemaError::NotImplemented("Empty conjunctive".into()))
    );
    let bad = Expression::Comparison(Comparator::Eq, ValueReference::Reference("age".into()), ValueReference::Value(Value::String("x".into())));
    assert_eq!(bad.validate(&record_type()), Err(SchemaError::InvalidComparison(Comparator::Eq, Type::Uint32, Type::String)));
}

#[test]
fn mutations() {
    let set_age = Mutation::Assign("age".into(), Value::Uint32(37));
    let updated = set_age.execute(&record()).unwrap();
    assert_eq!(updated.lookup("age"), Ok(Value::Uint32(37)));
    assert_eq!(updated.lookup("name"), Ok(Value::String("ada".into())));
    assert_eq!(
        Mutation::Assign("nope".into(), Value::Null).execute(&record()),
        Err(SchemaError::InvalidLookup(Some(record_type()), "nope".into()))
    );
    assert_eq!(
        Mutation::Assign("tags.0".into(), Value::Null).execute(&record()),
        Err(SchemaError::NotImplemented("Object key mutation of array element".into()))
    );
    assert_eq!(
        Mutation::Assign("tags.5.x".into(), Value::Null).execute(&record()),
        Err(SchemaError::InvalidIndex(Some(Type::List(Box::new(Type::String))), Some(5)))
    );
    assert_eq!(
        Mutation::Assign("tags.z".into(), Value::Null).execute(&record()),
        Err(SchemaError::InvalidIndex(Some(Type::List(Box::new(Type::String))), None))
    );
    let bulk = Mutation::Bulk(vec![Mutation::Assign("age".into(), Value::Uint32(1)), Mutation::Assign("name".into(), Value::Null)]);
    let out = bulk.execute(&record()).unwrap();
    assert_eq!(out.lookup("age"), Ok(Value::Uint32(1)));
    assert_eq!(out.lookup("name"), Ok(Value::Null));
    assert_eq!(Mutation::Assign("x".into(), Value::Bool(true)).execute(&Value::Uint32(3)), Ok(Value::Bool(true)));
}

#[test]
fn conversions() {
    assert_eq!(Value::Bool(true).try_into_bool(), Ok(true));
    assert_eq!(Value::Int32(-1).try_into_u32(), Err(SchemaError::NotImplemented("Cast of i32 -> u32 failed".into())));
    assert_eq!(Value::Int32(5).try_into_u32(), Ok(5));
    assert_eq!(Value::Null.try_into_optional_string(), Ok(None));
    assert_eq!(Value::from_optional_i32(Some(3)), Value::Int32(3));
}

#[test]
fn well_formedness_checks() {
    assert!(record().is_wf());
    let unsorted = Value::Dict(vec![("b".into(), Value::Null), ("a".into(), Value::Null)]);
    assert!(!unsorted.is_wf());
    let trailing_zero = Value::Float64(Decimal { negative: false, whole: 0, fraction: 50, fraction_digits: 2 });
    assert!(!trailing_zero.is_wf());
    assert!(Mutation::Assign("a".into(), record()).is_wf());
}

#[test]
fn value_conforms_to_its_own_type() {
    let value = Value::List(vec![
        dict(vec![("id", Value::Uint32(1)), ("scores", Value::List(vec![Value::Int32(-2), Value::Int32(5)]))]),
        dict(vec![("id", Value::Uint32(2)), ("scores", Value::List(vec![Value::Int32(7)]))]),
    ]);
    let t = Type::try_from_value(&value).unwrap();
    assert_eq!(t.validate(&value), Ok(()));
    // A list whose later members differ in type falls outside the law.
    let mixed = Value::List(vec![Value::Int32(1), Value::Bool(true)]);
    let mt = Type::try_from_value(&mixed).unwrap();
    assert_eq!(mt.validate(&mixed), Err(SchemaError::InvalidType(Type::Int32, Type::Bool)));
}

#[test]
fn map_with_extra_keys_conforms() {
    let t = Type::try_from_value(&dict(vec![("a", Value::Uint32(1))])).unwrap();
    assert_eq!(t.validate(&dict(vec![("a", Value::Uint32(2)), ("b", Value::String("x".into()))])), Ok(()));
}
