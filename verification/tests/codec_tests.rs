use kdump::argument::{Argument, Value};
use kdump::errors::DumpError;
use kdump::ksm::get_info;
use kdump::ksm_reader::KSMFileReader;

fn reader_over(payload: &[u8]) -> KSMFileReader {
    // Four placeholder bytes stand for the file magic that precedes every
    // argument stream; the cursor is advanced past them.
    let mut bytes = vec![0u8, 0, 0, 0];
    bytes.extend_from_slice(payload);
    let mut reader = KSMFileReader::from_bytes(bytes);
    reader.pop(4).unwrap();
    reader
}

fn encode_value(v: &Value) -> Vec<u8> {
    let mut buf: Vec<u8> = Vec::new();
    v.encode(&mut buf);
    buf
}

fn round_trip(v: Value) {
    let encoded = encode_value(&v);
    let mut reader = reader_over(&encoded);
    let arg = Argument::read(&mut reader).unwrap();
    // Decoding what was encoded yields the value back ...
    assert_eq!(encode_value(arg.get_value()), encoded);
    // ... and the reported length is exactly the bytes consumed.
    assert_eq!(reader.get_current_index(), 4 + encoded.len());
}

#[test]
fn round_trip_every_variant() {
    round_trip(Value::NULL);
    round_trip(Value::Boolean(true));
    round_trip(Value::Boolean(false));
    round_trip(Value::Byte(-7));
    round_trip(Value::Int16(-12345));
    round_trip(Value::Int32(123456789));
    round_trip(Value::Float(0x4048f5c3));
    round_trip(Value::Double(0x400921f9f01b866e));
    round_trip(Value::String(String::from("hello")));
    round_trip(Value::ARGMARKER);
    round_trip(Value::ScalarIntValue(-1267));
    round_trip(Value::ScalarDoubleValue(0x3ff0000000000000));
    round_trip(Value::BooleanValue(true));
    round_trip(Value::StringValue(String::from("$x")));
    round_trip(Value::String(String::new()));
}

#[test]
fn truncated_value_is_end_of_input() {
    let variants = vec![
        Value::Boolean(true),
        Value::Byte(1),
        Value::Int16(2),
        Value::Int32(3),
        Value::Float(4),
        Value::Double(5),
        Value::String(String::from("abc")),
        Value::ScalarIntValue(6),
        Value::ScalarDoubleValue(7),
        Value::BooleanValue(false),
        Value::StringValue(String::from("d")),
    ];
    for v in variants {
        let mut encoded = encode_value(&v);
        encoded.pop();
        let mut reader = reader_over(&encoded);
        assert_eq!(
            Argument::read(&mut reader).unwrap_err(),
            DumpError::UnexpectedEndOfInput
        );
    }
}

#[test]
fn unknown_constant_type_tag() {
    let mut reader = reader_over(&[13u8]);
    assert_eq!(
        Argument::read(&mut reader).unwrap_err(),
        DumpError::UnknownConstantType(13)
    );
}

#[test]
fn representations_are_canonical() {
    let cases = vec![
        (Value::NULL, "NULL"),
        (Value::Boolean(true), "true"),
        (Value::BooleanValue(false), "false"),
        (Value::Byte(-3), "-3"),
        (Value::Int16(1000), "1000"),
        (Value::Int32(-2000000), "-2000000"),
        (Value::ScalarIntValue(42), "42"),
        (Value::String(String::from("abc")), "abc"),
        (Value::StringValue(String::from("$v")), "$v"),
        (Value::ARGMARKER, "ARGM"),
    ];
    for (v, expected) in cases {
        let arg = Argument::new(0, 0, v);
        assert_eq!(arg.get_repr().unwrap(), expected);
    }
    // The float variants have no canonical text in the library.
    assert!(Argument::new(5, 0, Value::Float(1)).get_repr().is_none());
    assert!(Argument::new(6, 0, Value::Double(1)).get_repr().is_none());
}

#[test]
fn variable_classification() {
    assert!(Argument::new(7, 0, Value::String(String::from("$var"))).is_variable());
    assert!(Argument::new(12, 0, Value::StringValue(String::from("$x"))).is_variable());
    assert!(!Argument::new(7, 0, Value::String(String::from("var"))).is_variable());
    assert!(!Argument::new(4, 0, Value::Int32(36)).is_variable());
    assert!(!Argument::new(7, 0, Value::String(String::new())).is_variable());
}

#[test]
fn official_info() {
    let value = Value::String(String::from("@0001"));
    assert_eq!(
        get_info(Some(&value)),
        String::from("Compiled using official kOS compiler.")
    );
}

#[test]
fn arbitrary_info() {
    let info = String::from("My favorite compiler");
    let value = Value::String(info.clone());
    assert_eq!(get_info(Some(&value)), info);
}

#[test]
fn info_of_missing_and_nonstring_values() {
    assert_eq!(get_info(None), String::from("Unknown compiler"));
    assert_eq!(
        get_info(Some(&Value::Int32(1))),
        String::from("Unknown compiler 2")
    );
    assert_eq!(
        get_info(Some(&Value::String(String::from("ka`boom")))),
        String::from("Compiled using official kOS compiler.")
    );
}
