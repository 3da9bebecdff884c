use progenitor::schema::decimal::Decimal;
use progenitor::schema::primitives::Value;
use progenitor::serial::errors::SerialError;
use progenitor::serial::json::JsonSerial;
use progenitor::serial::json_parser::JsonParser;
use progenitor::serial::json_writer::JsonWriter;
use progenitor::serial::value::SerialValue;

fn dec(negative: bool, whole: u32, fraction: u32, fraction_digits: u32) -> Decimal {
    Decimal { negative, whole, fraction, fraction_digits }
}

fn dict(pairs: Vec<(&str, Value)>) -> Value {
    Value::dict_from_pairs(pairs.into_iter().map(|(k, v)| (k.to_string(), v)).collect())
}

#[test]
fn parse_number() {
    assert_eq!(
        JsonParser::new("1.145").parse(),
        Ok(Value::Float64(dec(false, 1, 145, 3)))
    );
}

#[test]
fn parse_string() {
    assert_eq!(
        JsonParser::new("\"foo bar\"").parse(),
        Ok(Value::String("foo bar".into()))
    );
}

#[test]
fn parse_array() {
    assert_eq!(
        JsonParser::new("[1, 2, 3]").parse(),
        Ok(Value::List(Vec::from([
            Value::Uint32(1),
            Value::Uint32(2),
            Value::Uint32(3)
        ])))
    );

    assert_eq!(
        JsonParser::new("[\"foo\", \"bar\"]").parse(),
        Ok(Value::List(Vec::from([
            Value::String("foo".into()),
            Value::String("bar".into())
        ])))
    );
}

#[test]
fn parse_object() {
    assert_eq!(
        JsonParser::new("{\"a\": 1, \"b\": \"foo\"}").parse(),
        Ok(dict(vec![
            ("a", Value::Uint32(1)),
            ("b", Value::String("foo".into()))
        ]))
    );
}

#[test]
fn parse_complex() {
    assert_eq!(
        JsonParser::new("{\"foo\": [1, -2, -1.5, \"bar\"]}").parse(),
        Ok(dict(vec![
            ("foo", Value::List(Vec::from([
                Value::Uint32(1),
                Value::Int32(-2),
                Value::Float64(dec(true, 1, 5, 1)),
                Value::String("bar".into())
            ])))
        ]))
    );
}

#[test]
fn write_null() {
    assert_eq!(
        JsonWriter::new(&Value::Null).write(),
        Ok("null".into())
    );
}

#[test]
fn write_number() {
    assert_eq!(
        JsonWriter::new(&Value::Uint32(4)).write(),
        Ok("4".into())
    );

    assert_eq!(
        JsonWriter::new(&Value::Int32(-4)).write(),
        Ok("-4".into())
    );

    assert_eq!(
        JsonWriter::new(&Value::Float64(dec(true, 4, 2, 1))).write(),
        Ok("-4.2".into())
    );
}

#[test]
fn write_string() {
    assert_eq!(
        JsonWriter::new(&Value::String("foo \"bar\"".into())).write(),
        Ok("\"foo \\\"bar\\\"\"".into())
    );

    assert_eq!(
        JsonWriter::new(&Value::String("foo \"bar\"\\".into())).write(),
        Ok("\"foo \\\"bar\\\"\\\\\"".into())
    );
}

#[test]
fn write_array() {
    assert_eq!(
        JsonWriter::new(&Value::List(Vec::from([
            Value::String("foo".into()),
            Value::Float64(dec(true, 2, 2, 1)),
            Value::Null
        ]))).write(),
        Ok("[\"foo\",-2.2,null]".into())
    );
}

#[test]
fn write_object() {
    assert_eq!(
        JsonWriter::new(&dict(vec![
            ("foo", Value::String("bar".into())),
            ("a", Value::List(Vec::from([
                Value::Null,
                Value::Int32(-5)
            ])))
        ])).write(),
        Ok("{\"a\":[null,-5],\"foo\":\"bar\"}".into())
    );
}

#[test]
fn parse_errors_name_the_position() {
    assert_eq!(
        JsonParser::new("").parse(),
        Err(SerialError::Parse("Syntax error at position 1: Unterminated value".into()))
    );
    assert!(matches!(JsonParser::new("x").parse(), Err(SerialError::Parse(_))));
    assert!(matches!(JsonParser::new("\"open").parse(), Err(SerialError::Parse(_))));
    assert!(matches!(JsonParser::new("1.2.3").parse(), Err(SerialError::Parse(_))));
}

#[test]
fn parse_whitespace_and_nesting() {
    assert_eq!(
        JsonParser::new(" [ [ ] , [ 7 ] ] ").parse(),
        Ok(Value::List(vec![Value::List(vec![]), Value::List(vec![Value::Uint32(7)])]))
    );
}

#[test]
fn json_serial_round_trip() {
    let format = JsonSerial::new();
    let value = dict(vec![
        ("b", Value::Int32(-12)),
        ("a", Value::List(vec![Value::String("x y".into()), Value::Uint32(3)])),
        ("c", Value::Float64(dec(false, 0, 25, 2))),
    ]);
    let serial = format.write_json(&value).unwrap();
    assert_eq!(format.parse_json(serial), Ok(value));
}

#[test]
fn json_serial_rejects_invalid_utf8() {
    let format = JsonSerial::new();
    let serial = SerialValue::from_bytes(bytes::Bytes::from(vec![0xffu8, 0xfe]));
    assert_eq!(
        format.parse_json(serial),
        Err(SerialError::Parse("Invalid JSON string encoding".into()))
    );
}

#[test]
fn json_serial_writes_utf8_text() {
    let format = JsonSerial::new();
    let serial = format.write_json(&Value::Bool(true)).unwrap();
    let bytes = serial.try_into_bytes().unwrap();
    assert_eq!(&bytes[..], b"true");
}

#[test]
fn parse_errors_give_message_and_position() {
    assert_eq!(
        JsonParser::new("1.2.3").parse(),
        Err(SerialError::Parse("Syntax error at position 4: Repeat decimal token".into()))
    );
    assert_eq!(
        JsonParser::new("x").parse(),
        Err(SerialError::Parse("Syntax error at position 1: Invalid token in value position".into()))
    );
    assert_eq!(
        JsonParser::new("\"open").parse(),
        Err(SerialError::Parse("Syntax error at position 6: Unterminated string".into()))
    );
    assert_eq!(
        JsonParser::new("[1").parse(),
        Err(SerialError::Parse("Syntax error at position 3: Unterminated value".into()))
    );
    assert_eq!(
        JsonParser::new("[1 x]").parse(),
        Err(SerialError::Parse("Syntax error at position 4: Invalid token after array element position".into()))
    );
    assert_eq!(
        JsonParser::new("{\"a\" 1}").parse(),
        Err(SerialError::Parse("Syntax error at position 6: Object key without trailing :".into()))
    );
    assert_eq!(
        JsonParser::new("-3000000000").parse(),
        Err(SerialError::Parse("Syntax error at position 12: Numeric overflow".into()))
    );
    assert_eq!(
        JsonParser::new("0.1234567891").parse(),
        Err(SerialError::Parse("Syntax error at position 12: Numeric overflow".into()))
    );
}

#[test]
fn writer_sorts_map_keys() {
    let value = Value::Dict(vec![
        ("b".to_string(), Value::Uint32(2)),
        ("a".to_string(), Value::Uint32(1)),
        ("c".to_string(), Value::List(vec![Value::Dict(vec![("z".to_string(), Value::Null), ("y".to_string(), Value::Bool(true))])])),
    ]);
    assert_eq!(
        JsonWriter::new(&value).write(),
        Ok("{\"a\":1,\"b\":2,\"c\":[{\"y\":true,\"z\":null}]}".into())
    );
}
