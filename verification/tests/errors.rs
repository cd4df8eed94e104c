//! Every error, on an input that gives it, and the edges of the format.

use bytes::{Bytes, BytesMut};
use compactr::codec::buffer::{decode_binary, decode_string, encode_string};
use compactr::formats::datetime::{decode_date, decode_datetime};
use compactr::{
    Decode, DecodeError, Decoder, Encode, EncodeError, Encoder, Error, IntegerFormat,
    NumberFormat, Property, SchemaError, SchemaRegistry, SchemaType, StringFormat, Value,
};

fn encode(value: &Value, schema: &SchemaType) -> Result<Vec<u8>, Error> {
    let mut encoder = Encoder::new();
    encoder.encode(value, schema)?;
    Ok(encoder.as_bytes().to_vec())
}

fn decode(bytes: &[u8], schema: &SchemaType) -> Result<Value, Error> {
    let mut buf = Bytes::copy_from_slice(bytes);
    Decoder::decode(&mut buf, schema)
}

fn mismatch(expected: &str, actual: &str) -> Error {
    Error::Encode(EncodeError::TypeMismatch {
        expected: expected.to_owned(),
        actual: actual.to_owned(),
    })
}

fn invalid_data(detail: &str) -> Error {
    Error::Decode(DecodeError::InvalidData(detail.to_owned()))
}

fn eof() -> Error {
    Error::Decode(DecodeError::UnexpectedEof)
}

#[test]
fn type_mismatch_names_both_kinds() {
    let int = Value::Integer(1);
    let text = Value::String("t".to_owned());
    assert_eq!(encode(&int, &SchemaType::boolean()).unwrap_err(), mismatch("boolean", "integer"));
    assert_eq!(encode(&text, &SchemaType::int32()).unwrap_err(), mismatch("integer", "string"));
    assert_eq!(encode(&int, &SchemaType::float()).unwrap_err(), mismatch("float", "integer"));
    assert_eq!(encode(&int, &SchemaType::double()).unwrap_err(), mismatch("double", "integer"));
    assert_eq!(encode(&int, &SchemaType::string()).unwrap_err(), mismatch("string", "integer"));
    assert_eq!(encode(&int, &SchemaType::string_uuid()).unwrap_err(), mismatch("uuid", "integer"));
    assert_eq!(
        encode(&int, &SchemaType::string_datetime()).unwrap_err(),
        mismatch("datetime", "integer")
    );
    assert_eq!(encode(&int, &SchemaType::string_date()).unwrap_err(), mismatch("date", "integer"));
    assert_eq!(encode(&int, &SchemaType::string_ipv4()).unwrap_err(), mismatch("ipv4", "integer"));
    assert_eq!(encode(&int, &SchemaType::string_ipv6()).unwrap_err(), mismatch("ipv6", "integer"));
    assert_eq!(encode(&text, &SchemaType::binary()).unwrap_err(), mismatch("binary", "string"));
    assert_eq!(encode(&Value::Null, &SchemaType::array(SchemaType::null())).unwrap_err(), mismatch("array", "null"));
    assert_eq!(
        encode(&Value::Array(vec![]), &SchemaType::object(vec![])).unwrap_err(),
        mismatch("object", "array")
    );
    assert_eq!(
        encode(&Value::Object(vec![]), &SchemaType::null()).unwrap_err(),
        mismatch("null", "object")
    );
    assert_eq!(
        encode(&Value::Boolean(true), &SchemaType::array(SchemaType::null())).unwrap_err(),
        mismatch("array", "boolean")
    );
    assert_eq!(
        encode(&Value::Binary(vec![]), &SchemaType::int64()).unwrap_err(),
        mismatch("integer", "binary")
    );
    assert_eq!(
        encode(&Value::Float(0), &SchemaType::int64()).unwrap_err(),
        mismatch("integer", "float")
    );
    assert_eq!(
        encode(&Value::Double(0), &SchemaType::int64()).unwrap_err(),
        mismatch("integer", "double")
    );
    assert_eq!(
        encode(&Value::DateTime(0), &SchemaType::int64()).unwrap_err(),
        mismatch("integer", "datetime")
    );
    assert_eq!(
        encode(&Value::Date(0), &SchemaType::int64()).unwrap_err(),
        mismatch("integer", "date")
    );
}

#[test]
fn integer_out_of_range() {
    let schema = SchemaType::int32();
    assert_eq!(encode(&Value::Integer(i32::MIN.into()), &schema).unwrap(), vec![128, 0, 0, 0]);
    assert_eq!(encode(&Value::Integer(-2), &schema).unwrap(), vec![255, 255, 255, 254]);
    for out in [i64::from(i32::MAX) + 1, i64::from(i32::MIN) - 1, i64::MAX, i64::MIN] {
        assert_eq!(
            encode(&Value::Integer(out), &schema).unwrap_err(),
            Error::Encode(EncodeError::InvalidFormat("Integer out of range for int32".to_owned()))
        );
    }
    let schema = SchemaType::int64();
    assert_eq!(
        encode(&Value::Integer(-2), &schema).unwrap(),
        vec![255, 255, 255, 255, 255, 255, 255, 254]
    );
    assert_eq!(
        encode(&Value::Integer(0x0102_0304_0506_0708), &schema).unwrap(),
        vec![1, 2, 3, 4, 5, 6, 7, 8]
    );
    assert_eq!(decode(&[128, 0, 0, 0, 0, 0, 0, 0], &schema).unwrap(), Value::Integer(i64::MIN));
    assert_eq!(decode(&[255, 255, 255, 254], &SchemaType::int32()).unwrap(), Value::Integer(-2));
}

#[test]
fn missing_required_field() {
    let schema = SchemaType::object(vec![
        ("a".to_owned(), Property::optional(SchemaType::int32())),
        ("b".to_owned(), Property::required(SchemaType::int32())),
        ("c".to_owned(), Property::required(SchemaType::int32())),
    ]);
    let value = Value::Object(vec![("a".to_owned(), Value::Integer(1))]);
    assert_eq!(
        encode(&value, &schema).unwrap_err(),
        Error::Schema(SchemaError::MissingField("b".to_owned()))
    );
    // On the wire: one property present, the optional one.
    assert_eq!(
        decode(&[1, 0, 4, 0, 0, 0, 1], &schema).unwrap_err(),
        Error::Schema(SchemaError::MissingField("b".to_owned()))
    );
    assert_eq!(
        decode(&[1, 1, 4, 0, 0, 0, 1], &schema).unwrap_err(),
        Error::Schema(SchemaError::MissingField("c".to_owned()))
    );
}

#[test]
fn references_that_do_not_resolve() {
    let mut registry = SchemaRegistry::new();
    registry.register("Dangling", SchemaType::reference("#/Gone")).unwrap();
    registry.register("Empty", SchemaType::reference("#/")).unwrap();
    assert_eq!(
        registry.resolve_ref("#/Missing").unwrap_err(),
        Error::Schema(SchemaError::UnresolvedReference("Missing".to_owned()))
    );
    assert_eq!(
        registry.resolve_ref("Dangling").unwrap_err(),
        Error::Schema(SchemaError::UnresolvedReference("Gone".to_owned()))
    );
    assert_eq!(
        registry.resolve_ref("#/").unwrap_err(),
        Error::Schema(SchemaError::InvalidReference("#/".to_owned()))
    );
    assert_eq!(
        registry.resolve_ref("").unwrap_err(),
        Error::Schema(SchemaError::InvalidReference("".to_owned()))
    );
    assert_eq!(
        registry.resolve_ref("Empty").unwrap_err(),
        Error::Schema(SchemaError::InvalidReference("#/".to_owned()))
    );
    // Without a registry every reference is unresolved.
    assert_eq!(
        encode(&Value::Null, &SchemaType::reference("#/X")).unwrap_err(),
        Error::Schema(SchemaError::UnresolvedReference("X".to_owned()))
    );
    assert_eq!(
        decode(&[0], &SchemaType::reference("X")).unwrap_err(),
        Error::Schema(SchemaError::UnresolvedReference("X".to_owned()))
    );
    // A name is taken whole after one leading `#/`.
    registry.register("#/Odd", SchemaType::null()).unwrap();
    assert_eq!(registry.resolve_ref("#/#/Odd").unwrap(), SchemaType::null());
    assert!(registry.resolve_ref("#/Odd").is_err());
}

#[test]
fn registering_again_replaces() {
    let mut registry = SchemaRegistry::new();
    assert_eq!(registry.get("T").unwrap(), None);
    registry.register("T", SchemaType::int32()).unwrap();
    registry.register("U", SchemaType::boolean()).unwrap();
    registry.register("T", SchemaType::string()).unwrap();
    assert_eq!(registry.get("T").unwrap(), Some(SchemaType::string()));
    assert_eq!(registry.get("U").unwrap(), Some(SchemaType::boolean()));
    assert_eq!(registry.get("#/T").unwrap(), None);
}

#[test]
fn bytes_that_are_no_encoding() {
    assert_eq!(decode(&[], &SchemaType::boolean()).unwrap_err(), eof());
    assert_eq!(decode(&[0], &SchemaType::boolean()).unwrap(), Value::Boolean(false));
    assert_eq!(decode(&[1], &SchemaType::boolean()).unwrap(), Value::Boolean(true));
    assert_eq!(
        decode(&[2], &SchemaType::boolean()).unwrap_err(),
        invalid_data("Invalid boolean value")
    );
    assert_eq!(decode(&[], &SchemaType::null()).unwrap_err(), eof());
    assert_eq!(decode(&[0], &SchemaType::null()).unwrap(), Value::Null);
    assert_eq!(decode(&[1], &SchemaType::null()).unwrap_err(), invalid_data("Invalid null value"));
    assert_eq!(decode(&[0, 0, 0], &SchemaType::int32()).unwrap_err(), eof());
    assert_eq!(decode(&[0; 7], &SchemaType::int64()).unwrap_err(), eof());
    assert_eq!(decode(&[0; 3], &SchemaType::float()).unwrap_err(), eof());
    assert_eq!(decode(&[0; 7], &SchemaType::double()).unwrap_err(), eof());
    assert_eq!(decode(&[0; 15], &SchemaType::string_uuid()).unwrap_err(), eof());
    assert_eq!(decode(&[0; 3], &SchemaType::string_ipv4()).unwrap_err(), eof());
    assert_eq!(decode(&[0; 15], &SchemaType::string_ipv6()).unwrap_err(), eof());
    assert_eq!(decode(&[0; 7], &SchemaType::string_datetime()).unwrap_err(), eof());
    assert_eq!(decode(&[0; 3], &SchemaType::string_date()).unwrap_err(), eof());
    // A string: no length, a length without its bytes, bytes that are no UTF-8.
    assert_eq!(decode(&[0], &SchemaType::string()).unwrap_err(), eof());
    assert_eq!(decode(&[0, 2, b'a'], &SchemaType::string()).unwrap_err(), eof());
    assert_eq!(
        decode(&[0, 2, 0xC3, 0x28], &SchemaType::string()).unwrap_err(),
        invalid_data("Invalid UTF-8 in string")
    );
    assert_eq!(decode(&[0, 2, 0xC3, 0xA9], &SchemaType::string()).unwrap(), Value::String("é".to_owned()));
    // Binary data: no length, a length without its bytes.
    assert_eq!(decode(&[0, 0, 0], &SchemaType::binary()).unwrap_err(), eof());
    assert_eq!(decode(&[0, 0, 0, 2, 9], &SchemaType::binary()).unwrap_err(), eof());
    assert_eq!(decode(&[0, 0, 0, 1, 9], &SchemaType::binary()).unwrap(), Value::Binary(vec![9]));
    // An array: an element shorter than its size says, an element that is no value.
    let strings = SchemaType::array(SchemaType::string());
    assert_eq!(decode(&[2, b'a'], &strings).unwrap_err(), eof());
    assert_eq!(decode(&[1, 0xFF], &strings).unwrap_err(), invalid_data("Invalid UTF-8 in string"));
    let numbers = SchemaType::array(SchemaType::int32());
    assert_eq!(decode(&[3, 0, 0, 0], &numbers).unwrap_err(), eof());
    assert_eq!(decode(&[], &numbers).unwrap(), Value::Array(vec![]));
    // What a payload holds past its value is passed over.
    assert_eq!(
        decode(&[5, 0, 0, 0, 7, 99], &numbers).unwrap(),
        Value::Array(vec![Value::Integer(7)])
    );
}

#[test]
fn objects_that_are_no_encoding() {
    let schema = SchemaType::object(vec![
        ("a".to_owned(), Property::required(SchemaType::int32())),
        ("b".to_owned(), Property::optional(SchemaType::string())),
    ]);
    assert_eq!(decode(&[], &schema).unwrap_err(), eof());
    assert_eq!(decode(&[1], &schema).unwrap_err(), eof());
    assert_eq!(decode(&[1, 0], &schema).unwrap_err(), eof());
    assert_eq!(decode(&[1, 0, 4], &schema).unwrap_err(), eof());
    assert_eq!(decode(&[1, 0, 4, 0, 0, 0], &schema).unwrap_err(), eof());
    assert_eq!(decode(&[1, 2, 0], &schema).unwrap_err(), invalid_data("Property index out of range"));
    // The place of a property is looked at before the entries after it.
    assert_eq!(decode(&[2, 9, 0], &schema).unwrap_err(), invalid_data("Property index out of range"));
    assert_eq!(decode(&[2, 0, 4, 1], &schema).unwrap_err(), eof());
    // A property at the size of no bytes: the payload ends before the value.
    assert_eq!(decode(&[1, 0, 0], &schema).unwrap_err(), eof());
    // No properties at all: the required one is missing.
    assert_eq!(
        decode(&[0], &schema).unwrap_err(),
        Error::Schema(SchemaError::MissingField("a".to_owned()))
    );
    // The entries may come in any order; the payloads follow the entries.
    assert_eq!(
        decode(&[2, 1, 2, 0, 4, b'h', b'i', 0, 0, 0, 5], &schema).unwrap(),
        Value::Object(vec![
            ("b".to_owned(), Value::String("hi".to_owned())),
            ("a".to_owned(), Value::Integer(5)),
        ])
    );
    // A property given twice keeps its place and takes the later value.
    assert_eq!(
        decode(&[3, 0, 4, 1, 0, 0, 4, 0, 0, 0, 1, 0, 0, 0, 2], &schema).unwrap(),
        Value::Object(vec![
            ("a".to_owned(), Value::Integer(2)),
            ("b".to_owned(), Value::String("".to_owned())),
        ])
    );
    // What follows the object is left in the buffer.
    let mut buf = Bytes::from_static(&[1, 0, 4, 0, 0, 0, 9, 77, 78]);
    assert_eq!(
        Decoder::decode(&mut buf, &schema).unwrap(),
        Value::Object(vec![("a".to_owned(), Value::Integer(9))])
    );
    assert_eq!(&buf[..], &[77, 78]);
    // An object without properties.
    let empty = SchemaType::object(vec![]);
    assert_eq!(encode(&Value::Object(vec![]), &empty).unwrap(), vec![0]);
    assert_eq!(decode(&[0], &empty).unwrap(), Value::Object(vec![]));
    // A field that the schema does not know is not written.
    assert_eq!(
        encode(&Value::Object(vec![("zz".to_owned(), Value::Null)]), &empty).unwrap(),
        vec![0]
    );
}

#[test]
fn a_string_stands_bare_inside_a_payload() {
    let text = Value::String("Hi".to_owned());
    assert_eq!(encode(&text, &SchemaType::string()).unwrap(), vec![0, 2, b'H', b'i']);
    assert_eq!(
        encode(&Value::Array(vec![text.clone()]), &SchemaType::array(SchemaType::string())).unwrap(),
        vec![2, b'H', b'i']
    );
    let schema = SchemaType::object(vec![("s".to_owned(), Property::required(SchemaType::string()))]);
    assert_eq!(
        encode(&Value::Object(vec![("s".to_owned(), text.clone())]), &schema).unwrap(),
        vec![1, 0, 2, b'H', b'i']
    );
    // Through a reference as well.
    let mut registry = SchemaRegistry::new();
    registry.register("S", SchemaType::string()).unwrap();
    let schema = SchemaType::array(SchemaType::reference("#/S"));
    let mut encoder = Encoder::new();
    encoder.encode_with_registry(&Value::Array(vec![text.clone()]), &schema, &registry).unwrap();
    assert_eq!(encoder.as_bytes(), &[2, b'H', b'i']);
    // Binary data keeps its length inside a payload.
    assert_eq!(
        encode(&Value::Array(vec![Value::Binary(vec![7])]), &SchemaType::array(SchemaType::binary()))
            .unwrap(),
        vec![5, 0, 0, 0, 1, 7]
    );
    // An array inside an array: each inner array is a payload of the outer one.
    let nested = SchemaType::array(SchemaType::array(SchemaType::boolean()));
    let value = Value::Array(vec![
        Value::Array(vec![Value::Boolean(true), Value::Boolean(false)]),
        Value::Array(vec![]),
    ]);
    let bytes = encode(&value, &nested).unwrap();
    assert_eq!(bytes, vec![4, 1, 1, 1, 0, 0]);
    assert_eq!(decode(&bytes, &nested).unwrap(), value);
}

#[test]
fn texts_are_read_for_the_formats() {
    let uuid = Value::String("550e8400-e29b-41d4-a716-446655440000".to_owned());
    assert_eq!(
        encode(&uuid, &SchemaType::string_uuid()).unwrap(),
        vec![0x55, 0x0e, 0x84, 0x00, 0xe2, 0x9b, 0x41, 0xd4, 0xa7, 0x16, 0x44, 0x66, 0x55, 0x44, 0, 0]
    );
    assert_eq!(
        encode(&Value::String("nope".to_owned()), &SchemaType::string_uuid()).unwrap_err(),
        Error::Encode(EncodeError::InvalidFormat("Invalid UUID: nope".to_owned()))
    );
    assert_eq!(
        encode(&Value::String("1970-01-01T00:00:01Z".to_owned()), &SchemaType::string_datetime())
            .unwrap(),
        vec![0, 0, 0, 0, 0, 0, 3, 232]
    );
    assert_eq!(
        encode(&Value::String("1970-01-01T01:00:00.5+01:00".to_owned()), &SchemaType::string_datetime())
            .unwrap(),
        vec![0, 0, 0, 0, 0, 0, 1, 244]
    );
    assert_eq!(
        encode(&Value::String("today".to_owned()), &SchemaType::string_datetime()).unwrap_err(),
        Error::Encode(EncodeError::InvalidFormat("Invalid datetime: today".to_owned()))
    );
    assert_eq!(
        encode(&Value::String("1970-01-02".to_owned()), &SchemaType::string_date()).unwrap(),
        vec![0, 0, 0, 1]
    );
    assert_eq!(
        encode(&Value::String("1969-12-31".to_owned()), &SchemaType::string_date()).unwrap(),
        vec![255, 255, 255, 255]
    );
    assert_eq!(
        encode(&Value::String("1970-02-30".to_owned()), &SchemaType::string_date()).unwrap_err(),
        Error::Encode(EncodeError::InvalidFormat("Invalid date: 1970-02-30".to_owned()))
    );
    assert_eq!(
        encode(&Value::String("127.0.0.1".to_owned()), &SchemaType::string_ipv4()).unwrap(),
        vec![127, 0, 0, 1]
    );
    assert_eq!(
        encode(&Value::String("127.0.0.256".to_owned()), &SchemaType::string_ipv4()).unwrap_err(),
        Error::Encode(EncodeError::InvalidFormat("Invalid IPv4 address: 127.0.0.256".to_owned()))
    );
    assert_eq!(
        encode(&Value::String("::1".to_owned()), &SchemaType::string_ipv6()).unwrap(),
        vec![0, 0, 0, 0, 0, 0, 0, 0, 0, 0, 0, 0, 0, 0, 0, 1]
    );
    assert_eq!(
        encode(&Value::String(":1".to_owned()), &SchemaType::string_ipv6()).unwrap_err(),
        Error::Encode(EncodeError::InvalidFormat("Invalid IPv6 address: :1".to_owned()))
    );
}

#[test]
fn instants_and_days_that_the_calendar_lacks() {
    assert_eq!(
        decode(&i64::MAX.to_be_bytes(), &SchemaType::string_datetime()).unwrap_err(),
        invalid_data("Invalid timestamp")
    );
    assert_eq!(
        decode(&i64::MIN.to_be_bytes(), &SchemaType::string_datetime()).unwrap_err(),
        invalid_data("Invalid timestamp")
    );
    assert_eq!(
        decode(&i32::MAX.to_be_bytes(), &SchemaType::string_date()).unwrap_err(),
        invalid_data("Invalid date offset")
    );
    assert_eq!(
        decode(&i32::MIN.to_be_bytes(), &SchemaType::string_date()).unwrap_err(),
        invalid_data("Invalid date offset")
    );
    assert_eq!(
        decode(&(-1i64).to_be_bytes(), &SchemaType::string_datetime()).unwrap(),
        Value::DateTime(-1)
    );
    assert_eq!(decode(&(-1i32).to_be_bytes(), &SchemaType::string_date()).unwrap(), Value::Date(-1));
    let mut buf = Bytes::copy_from_slice(&1_700_000_000_123i64.to_be_bytes());
    assert_eq!(decode_datetime(&mut buf).unwrap(), 1_700_000_000_123);
    let mut buf = Bytes::copy_from_slice(&19_000i32.to_be_bytes());
    assert_eq!(decode_date(&mut buf).unwrap(), 19_000);
    let mut buf = Bytes::copy_from_slice(&100_000_000i32.to_be_bytes());
    assert_eq!(
        decode_date(&mut buf).unwrap_err(),
        DecodeError::InvalidData("Invalid date offset".to_owned())
    );
}

#[test]
fn primitives_on_their_own() {
    let mut buf = BytesMut::new();
    encode_string(&mut buf, "ab").unwrap();
    encode_string(&mut buf, "").unwrap();
    assert_eq!(&buf[..], &[0, 2, b'a', b'b', 0, 0]);
    assert_eq!(
        encode_string(&mut buf, &"q".repeat(65536)).unwrap_err(),
        EncodeError::InvalidFormat("String too long: more than 65535 bytes".to_owned())
    );
    assert_eq!(&buf[..], &[0, 2, b'a', b'b', 0, 0]);
    let mut input = buf.freeze();
    assert_eq!(decode_string(&mut input).unwrap(), "ab");
    assert_eq!(input.len(), 2);
    assert_eq!(decode_string(&mut input).unwrap(), "");
    assert_eq!(decode_string(&mut input).unwrap_err(), DecodeError::UnexpectedEof);
    let mut input = Bytes::from_static(&[0, 0, 1, 0]);
    assert_eq!(decode_binary(&mut input).unwrap_err(), DecodeError::UnexpectedEof);

    let mut buf = BytesMut::new();
    true.encode(&mut buf).unwrap();
    false.encode(&mut buf).unwrap();
    (-2i32).encode(&mut buf).unwrap();
    0x0102_0304_0506_0708i64.encode(&mut buf).unwrap();
    assert_eq!(&buf[..], &[1, 0, 255, 255, 255, 254, 1, 2, 3, 4, 5, 6, 7, 8]);
    assert_eq!(true.encoded_size() + 7i32.encoded_size() + 7i64.encoded_size(), 13);
    let mut input = buf.freeze();
    assert!(bool::decode(&mut input).unwrap());
    assert!(!bool::decode(&mut input).unwrap());
    assert_eq!(i32::decode(&mut input).unwrap(), -2);
    assert_eq!(i64::decode(&mut input).unwrap(), 0x0102_0304_0506_0708);
    assert_eq!(input.len(), 0);
    assert_eq!(bool::decode(&mut input).unwrap_err(), DecodeError::UnexpectedEof);
    assert_eq!(i32::decode(&mut Bytes::from_static(&[1, 2, 3])).unwrap_err(), DecodeError::UnexpectedEof);
    assert_eq!(i64::decode(&mut Bytes::from_static(&[1; 7])).unwrap_err(), DecodeError::UnexpectedEof);
    assert_eq!(
        bool::decode(&mut Bytes::from_static(&[9])).unwrap_err(),
        DecodeError::InvalidData("Invalid boolean value".to_owned())
    );
}

#[test]
fn encoder_keeps_what_it_encoded() {
    let mut encoder = Encoder::with_capacity(64);
    assert_eq!(encoder.as_bytes(), &[] as &[u8]);
    encoder.encode(&Value::Boolean(true), &SchemaType::boolean()).unwrap();
    encoder.encode(&Value::Null, &SchemaType::null()).unwrap();
    encoder.encode(&Value::String("a".to_owned()), &SchemaType::string()).unwrap();
    assert_eq!(encoder.as_bytes(), &[1, 0, 0, 1, b'a']);
    let bytes = encoder.finish();
    assert_eq!(&bytes[..], &[1, 0, 0, 1, b'a']);
    assert_eq!(Encoder::default().as_bytes(), &[] as &[u8]);
    let _ = Decoder::new();
    let _ = Decoder::default();
    let mut registry = SchemaRegistry::default();
    assert_eq!(registry.get("A").unwrap(), None);
    registry.register("A", SchemaType::null()).unwrap();
    let copy = registry.clone();
    registry.register("A", SchemaType::boolean()).unwrap();
    registry.register("B", SchemaType::reference("A")).unwrap();
    assert_eq!(copy.get("A").unwrap(), Some(SchemaType::null()));
    assert_eq!(copy.get("B").unwrap(), None);
    assert_eq!(registry.resolve_ref("#/B").unwrap(), SchemaType::boolean());
}

#[test]
fn messages_of_errors() {
    assert_eq!(
        Error::Schema(SchemaError::UnresolvedReference("X".to_owned())).to_string(),
        "Unresolved reference: X"
    );
    assert_eq!(SchemaError::InvalidReference("#/".to_owned()).to_string(), "Invalid reference: #/");
    assert_eq!(SchemaError::InvalidSchema("bad".to_owned()).to_string(), "Invalid schema: bad");
    assert_eq!(
        SchemaError::CircularReference("A".to_owned()).to_string(),
        "Circular reference detected: A"
    );
    assert_eq!(SchemaError::MissingField("f".to_owned()).to_string(), "Missing required field: f");
    assert_eq!(
        Error::Encode(EncodeError::TypeMismatch {
            expected: "boolean".to_owned(),
            actual: "null".to_owned()
        })
        .to_string(),
        "Type mismatch: expected boolean, got null"
    );
    assert_eq!(EncodeError::MissingField("f".to_owned()).to_string(), "Missing required field: f");
    assert_eq!(EncodeError::InvalidFormat("x".to_owned()).to_string(), "Invalid format: x");
    assert_eq!(EncodeError::BufferOverflow.to_string(), "Buffer overflow");
    assert_eq!(Error::Decode(DecodeError::UnexpectedEof).to_string(), "Unexpected end of input");
    assert_eq!(DecodeError::InvalidData("x".to_owned()).to_string(), "Invalid data: x");
    assert_eq!(DecodeError::SchemaMismatch("x".to_owned()).to_string(), "Schema mismatch: x");
    assert_eq!(DecodeError::BufferUnderflow.to_string(), "Buffer underflow");
    assert_eq!(Error::from(DecodeError::UnexpectedEof), Error::Decode(DecodeError::UnexpectedEof));
    assert_eq!(Error::from(EncodeError::BufferOverflow), Error::Encode(EncodeError::BufferOverflow));
    assert_eq!(
        Error::from(SchemaError::MissingField("f".to_owned())),
        Error::Schema(SchemaError::MissingField("f".to_owned()))
    );
}

#[test]
fn texts_of_schemas() {
    assert_eq!(SchemaType::boolean().to_string(), "boolean");
    assert_eq!(SchemaType::int32().to_string(), "integer(Int32)");
    assert_eq!(SchemaType::int64().to_string(), "integer(Int64)");
    assert_eq!(SchemaType::float().to_string(), "number(Float)");
    assert_eq!(SchemaType::double().to_string(), "number(Double)");
    assert_eq!(SchemaType::string().to_string(), "string(Plain)");
    assert_eq!(SchemaType::string_uuid().to_string(), "string(Uuid)");
    assert_eq!(SchemaType::string_datetime().to_string(), "string(DateTime)");
    assert_eq!(SchemaType::string_date().to_string(), "string(Date)");
    assert_eq!(SchemaType::string_ipv4().to_string(), "string(Ipv4)");
    assert_eq!(SchemaType::string_ipv6().to_string(), "string(Ipv6)");
    assert_eq!(SchemaType::binary().to_string(), "string(Binary)");
    assert_eq!(
        SchemaType::array(SchemaType::array(SchemaType::null())).to_string(),
        "array[array[null]]"
    );
    assert_eq!(SchemaType::object(vec![]).to_string(), "object");
    assert_eq!(SchemaType::reference("#/User").to_string(), "ref(#/User)");
    assert_eq!(SchemaType::int32(), SchemaType::Integer(IntegerFormat::Int32));
    assert_eq!(SchemaType::double(), SchemaType::Number(NumberFormat::Double));
    assert_eq!(SchemaType::string_ipv6(), SchemaType::String(StringFormat::Ipv6));
    let property = Property::optional(SchemaType::null());
    assert!(!property.required);
    assert!(Property::required(SchemaType::null()).required);
    assert_eq!(property.clone(), property);
}
