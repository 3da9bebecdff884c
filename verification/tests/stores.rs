use progenitor::indirect::expr::{IndirectComparator, IndirectExpression, IndirectRef};
use progenitor::indirect::mutation::IndirectMutation;
use progenitor::indirect::primitives::{IndirectType, IndirectValue};
use progenitor::indirect_serial::format::{SerialFormat, SerialReader, SerialWriter};
use progenitor::indirect_serial::pseudo::PseudoSerial;
use progenitor::indirect_serial::value::SerialValue;
use progenitor::persistence::inmem::InMemoryPersistenceDriver;
use progenitor::persistence::store::PersistentStore;
use progenitor::schema::expr::{Comparator, Expression, ValueReference};
use progenitor::schema::mutation::Mutation;
use progenitor::schema::primitives::Value;
use progenitor::store::errors::StoreError;
use progenitor::store::mem::MemStore;
use progenitor::schema::errors::SchemaError;

fn items() -> Vec<Value> {
    vec![Value::Uint32(1), Value::Uint32(5), Value::Uint32(2), Value::Uint32(7)]
}

fn above(n: u32) -> Expression {
    Expression::Comparison(Comparator::Gt, ValueReference::Value(Value::Uint32(0)), ValueReference::Value(Value::Uint32(0)))
        .clone_with(n)
}

trait WithBound {
    fn clone_with(self, n: u32) -> Expression;
}

impl WithBound for Expression {
    fn clone_with(self, n: u32) -> Expression {
        let _ = self;
        Expression::Comparison(Comparator::Gt, ValueReference::Reference("v".into()), ValueReference::Value(Value::Uint32(n)))
    }
}

fn wrapped(vs: Vec<u32>) -> Vec<Value> {
    vs.into_iter()
        .map(|v| Value::dict_from_pairs(vec![("v".to_string(), Value::Uint32(v))]))
        .collect()
}

#[test]
fn mem_store_load_with_offset_and_limit() {
    let data = wrapped(vec![1, 5, 2, 7, 9]);
    let all = MemStore::load_items(&data, None, 0, None).unwrap();
    assert_eq!(all, data);
    let filter = above(3);
    let found = MemStore::load_items(&data, Some(&filter), 1, Some(1)).unwrap();
    assert_eq!(found, wrapped(vec![7]));
    let none_limit = MemStore::load_items(&data, Some(&filter), 0, Some(0)).unwrap();
    assert_eq!(none_limit, wrapped(vec![5, 7, 9]));
}

#[test]
fn mem_store_load_reports_filter_errors() {
    let data = items();
    let filter = above(3);
    assert!(matches!(MemStore::load_items(&data, Some(&filter), 0, None), Err(StoreError::Schema(SchemaError::InvalidLookup(_, _)))));
}

#[test]
fn mem_store_update_and_insert() {
    let mut data = wrapped(vec![1, 5]);
    let set = Mutation::Assign("v".into(), Value::Uint32(0));
    assert_eq!(MemStore::update_items(&mut data, &above(3), &set), Ok(1));
    assert_eq!(data, wrapped(vec![1, 0]));
    MemStore::insert_items(&mut data, wrapped(vec![4]));
    assert_eq!(data, wrapped(vec![1, 0, 4]));
}

#[test]
fn mem_store_delete_removes_in_turn() {
    let mut data = wrapped(vec![5, 6, 1, 1]);
    let filter = above(3);
    assert!(MemStore::deletion_in_bounds(&data, &filter));
    assert_eq!(MemStore::delete_items(&mut data, &filter), Ok(2));
    assert_eq!(data, wrapped(vec![6, 1]));
    let tail = wrapped(vec![1, 5, 6]);
    assert!(!MemStore::deletion_in_bounds(&tail, &filter));
}

#[test]
fn mem_store_name() {
    let store = MemStore::new("people");
    assert_eq!(store.name(), "people");
    assert_eq!(store.clone().name(), "people");
}

fn ivalue(v: i32) -> IndirectValue {
    IndirectValue::dict_from_pairs(vec![("v".to_string(), IndirectValue::Int32(v))])
}

fn iabove(n: i32) -> IndirectExpression {
    IndirectExpression::Comparison(IndirectComparator::Gt, IndirectRef::AttrRef("v".into()), IndirectRef::Value(IndirectValue::Int32(n)))
}

#[test]
fn inmem_driver_select_update_delete() {
    let mut data = vec![ivalue(1), ivalue(4), ivalue(8)];
    assert_eq!(InMemoryPersistenceDriver::select_items(&data, &iabove(2), 1, 0), Ok(vec![ivalue(4)]));
    assert_eq!(InMemoryPersistenceDriver::select_items(&data, &iabove(2), 5, 1), Ok(vec![ivalue(8)]));
    let set = IndirectMutation::Assign("v".into(), IndirectValue::Int32(0));
    assert_eq!(InMemoryPersistenceDriver::update_items(&mut data, &iabove(5), &set), Ok(1));
    assert_eq!(data, vec![ivalue(1), ivalue(4), ivalue(0)]);
    assert_eq!(InMemoryPersistenceDriver::delete_items(&mut data, &iabove(3)), Ok(1));
    assert_eq!(data, vec![ivalue(1), ivalue(0)]);
}

#[test]
fn persistent_store_checks_filters() {
    let schema = IndirectType::try_from_value(&ivalue(0)).unwrap();
    let store: PersistentStore<i32, InMemoryPersistenceDriver> = PersistentStore::new(schema, InMemoryPersistenceDriver::new());
    assert!(store.check_filter(&iabove(1)).is_ok());
    let bad = IndirectExpression::Comparison(IndirectComparator::Eq, IndirectRef::AttrRef("w".into()), IndirectRef::Value(IndirectValue::Int32(1)));
    assert!(store.check_filter(&bad).is_err());
}

#[test]
fn pseudo_format_round_trip() {
    let mut writer = PseudoSerial::new_writer();
    writer.write(ivalue(3)).unwrap();
    let serial = writer.flush().unwrap();
    let reader = PseudoSerial::new_reader(serial);
    let inner = reader.lookup("v").unwrap();
    assert_eq!(inner.into_value(), Ok(IndirectValue::Int32(3)));
    let list = <PseudoSerial as SerialFormat>::Reader::from_serial(SerialValue::Pseudo(IndirectValue::List(vec![IndirectValue::Null, ivalue(1)])));
    let parts = list.elements().unwrap();
    assert_eq!(parts.len(), 2);
    let empty = PseudoSerial::new_reader(SerialValue::empty());
    assert!(empty.into_value().is_err());
}
