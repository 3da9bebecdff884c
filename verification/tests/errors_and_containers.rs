use progenitor::comm::handlers::HandlerError;
use progenitor::effects::errors::EffectError;
use progenitor::errors::InitError;
use progenitor::indirect::errors::IndirectSchemaError;
use progenitor::indirect::primitives::IndirectValue;
use progenitor::indirect_serial::errors::SerialError as IndirectSerialError;
use progenitor::indirect_serial::format::{SerialFormat, SerialReader, SerialWriter, StreamSerial};
use progenitor::indirect_serial::pseudo::{PseudoSerial, PseudoSerialReader};
use progenitor::indirect_serial::value::SerialValue as IndirectSerialValue;
use progenitor::indirect::primitives::IndirectType;
use progenitor::persistence::errors::PersistenceError;
use progenitor::persistence::inmem::InMemoryPersistenceDriver;
use progenitor::indirect::expr::{IndirectComparator, IndirectExpression, IndirectRef};
use progenitor::schema::errors::SchemaError;
use progenitor::serial::errors::SerialError;
use progenitor::serial::value::SerialValue;
use progenitor::store::errors::StoreError;

#[test]
fn serial_value_containers() {
    assert!(SerialValue::empty().try_into_bytes().unwrap().is_empty());
    let value = SerialValue::from_string("héllo".to_string());
    let copy = value.clone();
    assert_eq!(&copy.try_into_bytes().unwrap()[..], "héllo".as_bytes());
    assert_eq!(&value.try_into_bytes().unwrap()[..], "héllo".as_bytes());
    assert!(matches!(IndirectSerialValue::empty(), IndirectSerialValue::Buffer(b) if b.is_empty()));
}

#[test]
fn error_conversions() {
    assert_eq!(StoreError::from(SchemaError::UnknownableType), StoreError::Schema(SchemaError::UnknownableType));
    assert_eq!(
        EffectError::from(SerialError::Parse("p".into())),
        EffectError::Serial(SerialError::Parse("p".into()))
    );
    assert_eq!(
        HandlerError::from(InitError::Config("c".into())),
        HandlerError::Init(InitError::Config("c".into()))
    );
    assert_eq!(
        EffectError::stacked("outer".into(), EffectError::Missing("inner".into())),
        EffectError::Stack("outer".into(), Box::new(EffectError::Missing("inner".into())))
    );
    assert_eq!(EffectError::internal("x".into()), EffectError::Internal("x".into()));
    assert_eq!(
        PersistenceError::from(IndirectSchemaError::UnknownableType),
        PersistenceError::SchemaError(IndirectSchemaError::UnknownableType)
    );
    assert_eq!(
        IndirectSerialError::from(IndirectSchemaError::Message("m".into())),
        IndirectSerialError::Schema(IndirectSchemaError::Message("m".into()))
    );
}

#[test]
fn pseudo_reader_errors() {
    let reader = PseudoSerialReader::from_serial(IndirectSerialValue::Pseudo(IndirectValue::Int32(1)));
    assert!(matches!(reader.lookup("a"), Err(IndirectSerialError::DataContent(m)) if m == "Key lookup on non-map"));
    assert!(matches!(reader.elements(), Err(IndirectSerialError::DataContent(m)) if m == "Elements lookup on non-list"));
    let map = PseudoSerialReader::from_serial(IndirectSerialValue::Pseudo(IndirectValue::Dict(vec![])));
    assert!(matches!(map.lookup("k"), Err(IndirectSerialError::DataContent(m)) if m == "Key not present: k"));
    let none = PseudoSerial::new_reader(IndirectSerialValue::empty());
    assert!(matches!(none.lookup("k"), Err(IndirectSerialError::DataFormat(_))));
}

#[derive(Clone, Debug, PartialEq)]
struct Count(i32);

impl StreamSerial for Count {
    fn schema() -> IndirectType {
        IndirectType::Int32
    }

    fn stream_deserialize<R: SerialReader>(reader: &mut R) -> Result<Self, IndirectSerialError> {
        let value = std::mem::replace(reader, R::from_serial(IndirectSerialValue::empty())).into_value()?;
        Ok(Count(value.try_into_i32()?))
    }

    fn stream_serialize<W: SerialWriter>(self, writer: &mut W) -> Result<(), IndirectSerialError> {
        writer.write(IndirectValue::Int32(self.0))
    }
}

#[test]
fn inmem_driver_reads_and_writes_data_models() {
    let mut data: Vec<IndirectValue> = Vec::new();
    assert!(InMemoryPersistenceDriver::insert_items(&mut data, vec![Count(3), Count(9)]).is_ok());
    assert_eq!(data, vec![IndirectValue::Int32(3), IndirectValue::Int32(9)]);
    let all = IndirectExpression::Comparison(IndirectComparator::Eq, IndirectRef::Value(IndirectValue::Null), IndirectRef::Value(IndirectValue::Null));
    let loaded: Vec<Count> = InMemoryPersistenceDriver::load_items(&data, &all, 10, 1).unwrap();
    assert_eq!(loaded, vec![Count(9)]);
    data.push(IndirectValue::Bool(true));
    let failed: Result<Vec<Count>, PersistenceError> = InMemoryPersistenceDriver::load_items(&data, &all, 10, 0);
    assert!(matches!(failed, Err(PersistenceError::SerialError(_))));
}

#[test]
fn inmem_driver_succeeds_when_nothing_is_read_or_written() {
    let mut data = vec![IndirectValue::Int32(1), IndirectValue::Bool(true)];
    assert!(InMemoryPersistenceDriver::insert_items(&mut data, Vec::<Count>::new()).is_ok());
    assert_eq!(data, vec![IndirectValue::Int32(1), IndirectValue::Bool(true)]);
    let all = IndirectExpression::Comparison(IndirectComparator::Eq, IndirectRef::Value(IndirectValue::Null), IndirectRef::Value(IndirectValue::Null));
    let skipped: Vec<Count> = InMemoryPersistenceDriver::load_items(&data, &all, 0, 2).unwrap();
    assert!(skipped.is_empty());
}
