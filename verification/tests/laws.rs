//! What should hold of every value, on chosen values.

use bytes::Bytes;
use compactr::formats::ipaddr::{Ipv4Addr, Ipv6Addr};
use compactr::formats::uuid::Uuid;
use compactr::{
    DecodeError, Decoder, EncodeError, Encoder, Error, Property, SchemaError, SchemaRegistry,
    SchemaType, Value,
};

fn encode(value: &Value, schema: &SchemaType) -> Result<Vec<u8>, Error> {
    let mut encoder = Encoder::new();
    encoder.encode(value, schema)?;
    Ok(encoder.as_bytes().to_vec())
}

fn encode_with(value: &Value, schema: &SchemaType, registry: &SchemaRegistry) -> Result<Vec<u8>, Error> {
    let mut encoder = Encoder::new();
    encoder.encode_with_registry(value, schema, registry)?;
    Ok(encoder.as_bytes().to_vec())
}

fn decode(bytes: &[u8], schema: &SchemaType) -> Result<Value, Error> {
    let mut buf = Bytes::copy_from_slice(bytes);
    Decoder::decode(&mut buf, schema)
}

fn field(name: &str, value: Value) -> (String, Value) {
    (name.to_owned(), value)
}

fn required(name: &str, schema: SchemaType) -> (String, Property) {
    (name.to_owned(), Property::required(schema))
}

fn optional(name: &str, schema: SchemaType) -> (String, Property) {
    (name.to_owned(), Property::optional(schema))
}

fn everything_schema() -> SchemaType {
    SchemaType::object(vec![
        required("flag", SchemaType::boolean()),
        required("small", SchemaType::int32()),
        required("large", SchemaType::int64()),
        required("single", SchemaType::float()),
        required("double", SchemaType::double()),
        required("text", SchemaType::string()),
        required("id", SchemaType::string_uuid()),
        required("at", SchemaType::string_datetime()),
        required("day", SchemaType::string_date()),
        required("v4", SchemaType::string_ipv4()),
        required("v6", SchemaType::string_ipv6()),
        required("blob", SchemaType::binary()),
        optional("nothing", SchemaType::null()),
        optional("absent", SchemaType::string()),
        required("list", SchemaType::array(SchemaType::array(SchemaType::int32()))),
        required(
            "inner",
            SchemaType::object(vec![
                required("names", SchemaType::array(SchemaType::string())),
                optional("note", SchemaType::string()),
            ]),
        ),
    ])
}

fn everything_value() -> Value {
    Value::Object(vec![
        field("flag", Value::Boolean(true)),
        field("small", Value::Integer(-123_456)),
        field("large", Value::Integer(i64::MIN)),
        field("single", Value::Float(2.5f32.to_bits())),
        field("double", Value::Double((-1e300f64).to_bits())),
        field("text", Value::String("héllo wörld".to_owned())),
        field("id", Value::Uuid(Uuid::from_bytes([7; 16]))),
        field("at", Value::DateTime(-1_000)),
        field("day", Value::Date(-365)),
        field("v4", Value::Ipv4(Ipv4Addr::new(10, 0, 0, 1))),
        field("v6", Value::Ipv6(Ipv6Addr::new(0xfe80, 0, 0, 0, 0, 0, 0, 0x1234))),
        field("blob", Value::Binary(vec![0, 255, 1, 254])),
        field("nothing", Value::Null),
        field(
            "list",
            Value::Array(vec![
                Value::Array(vec![Value::Integer(1), Value::Integer(2)]),
                Value::Array(vec![]),
                Value::Array(vec![Value::Integer(3)]),
            ]),
        ),
        field(
            "inner",
            Value::Object(vec![field(
                "names",
                Value::Array(vec![Value::String("a".to_owned()), Value::String("".to_owned())]),
            )]),
        ),
    ])
}

#[test]
fn round_trip_of_a_value_of_every_kind() {
    let schema = everything_schema();
    let value = everything_value();
    let bytes = encode(&value, &schema).unwrap();
    assert_eq!(decode(&bytes, &schema).unwrap(), value);
}

#[test]
fn round_trip_uses_up_the_bytes() {
    let schema = SchemaType::int32();
    let mut encoder = Encoder::new();
    encoder.encode(&Value::Integer(5), &schema).unwrap();
    encoder.encode(&Value::Integer(6), &schema).unwrap();
    let mut buf = encoder.finish();
    assert_eq!(Decoder::decode(&mut buf, &schema).unwrap(), Value::Integer(5));
    assert_eq!(buf.len(), 4);
    assert_eq!(Decoder::decode(&mut buf, &schema).unwrap(), Value::Integer(6));
    assert_eq!(buf.len(), 0);
}

#[test]
fn round_trip_through_references() {
    let mut registry = SchemaRegistry::new();
    registry
        .register(
            "Node",
            SchemaType::object(vec![
                required("value", SchemaType::int32()),
                optional("next", SchemaType::reference("#/Node")),
            ]),
        )
        .unwrap();
    registry.register("Alias", SchemaType::reference("Node")).unwrap();
    let schema = SchemaType::reference("#/Alias");
    let value = Value::Object(vec![
        field("value", Value::Integer(1)),
        field(
            "next",
            Value::Object(vec![
                field("value", Value::Integer(2)),
                field("next", Value::Object(vec![field("value", Value::Integer(3))])),
            ]),
        ),
    ]);
    let bytes = encode_with(&value, &schema, &registry).unwrap();
    let mut buf = Bytes::from(bytes);
    let decoded = Decoder::decode_with_registry(&mut buf, &schema, &registry).unwrap();
    assert_eq!(decoded, value);
}

#[test]
fn decoding_gives_fields_in_the_order_of_the_schema() {
    let schema = SchemaType::object(vec![
        required("a", SchemaType::int32()),
        required("b", SchemaType::int32()),
    ]);
    let value = Value::Object(vec![field("b", Value::Integer(2)), field("a", Value::Integer(1))]);
    let bytes = encode(&value, &schema).unwrap();
    assert_eq!(bytes, vec![2, 0, 4, 1, 4, 0, 0, 0, 1, 0, 0, 0, 2]);
    assert_eq!(
        decode(&bytes, &schema).unwrap(),
        Value::Object(vec![field("a", Value::Integer(1)), field("b", Value::Integer(2))])
    );
}

#[test]
fn encoding_is_determined() {
    let schema = everything_schema();
    let value = everything_value();
    let first = encode(&value, &schema).unwrap();
    let second = encode(&value.clone(), &schema.clone()).unwrap();
    assert_eq!(first, second);
}

#[test]
fn a_failed_encoding_leaves_the_encoder_as_it_was() {
    let mut encoder = Encoder::new();
    encoder.encode(&Value::Integer(1), &SchemaType::int32()).unwrap();
    let schema = SchemaType::array(SchemaType::int32());
    let value = Value::Array(vec![Value::Integer(2), Value::Boolean(true)]);
    assert!(encoder.encode(&value, &schema).is_err());
    assert_eq!(encoder.as_bytes(), &[0, 0, 0, 1]);
}

#[test]
fn an_omitted_property_makes_the_encoding_shorter() {
    let schema = SchemaType::object(vec![
        required("id", SchemaType::int32()),
        optional("name", SchemaType::string()),
        optional("empty", SchemaType::string()),
    ]);
    let without = Value::Object(vec![field("id", Value::Integer(1))]);
    let with = Value::Object(vec![
        field("id", Value::Integer(1)),
        field("name", Value::String("Alice".to_owned())),
    ]);
    let with_empty = Value::Object(vec![
        field("id", Value::Integer(1)),
        field("empty", Value::String("".to_owned())),
    ]);
    let short = encode(&without, &schema).unwrap();
    let long = encode(&with, &schema).unwrap();
    assert_eq!(long.len(), short.len() + 2 + 5);
    assert_eq!(long, vec![2, 0, 4, 1, 5, 0, 0, 0, 1, b'A', b'l', b'i', b'c', b'e']);
    // Even a payload of no bytes costs its header entry.
    let long = encode(&with_empty, &schema).unwrap();
    assert_eq!(long.len(), short.len() + 2);
    assert_eq!(long, vec![2, 0, 4, 2, 0, 0, 0, 0, 1]);
    assert_eq!(decode(&long, &schema).unwrap(), with_empty);
}

#[test]
fn the_order_of_the_properties_shows_where_the_payloads_differ() {
    let forth = SchemaType::object(vec![
        required("x", SchemaType::int32()),
        required("y", SchemaType::int32()),
    ]);
    let back = SchemaType::object(vec![
        required("y", SchemaType::int32()),
        required("x", SchemaType::int32()),
    ]);
    let differing = Value::Object(vec![field("x", Value::Integer(10)), field("y", Value::Integer(20))]);
    assert_ne!(encode(&differing, &forth).unwrap(), encode(&differing, &back).unwrap());
    let same = Value::Object(vec![field("x", Value::Integer(10)), field("y", Value::Integer(10))]);
    assert_eq!(encode(&same, &forth).unwrap(), encode(&same, &back).unwrap());
}

#[test]
fn a_reference_encodes_as_what_it_stands_for() {
    let mut registry = SchemaRegistry::new();
    let target = SchemaType::array(SchemaType::string());
    registry.register("Tags", target.clone()).unwrap();
    registry.register("Again", SchemaType::reference("#/Tags")).unwrap();
    let value = Value::Array(vec![Value::String("a".to_owned()), Value::String("bc".to_owned())]);
    let direct = encode_with(&value, &target, &registry).unwrap();
    assert_eq!(direct, vec![1, b'a', 2, b'b', b'c']);
    for reference in ["#/Tags", "Tags", "#/Again", "Again"] {
        let resolved = registry.resolve_ref(reference).unwrap();
        assert_eq!(resolved, target);
        let through = encode_with(&value, &SchemaType::reference(reference), &registry).unwrap();
        assert_eq!(through, direct);
        assert_eq!(encode_with(&value, &resolved, &registry).unwrap(), direct);
    }
}

#[test]
fn a_circle_of_references_is_an_error() {
    let mut registry = SchemaRegistry::new();
    registry.register("A", SchemaType::reference("#/B")).unwrap();
    registry.register("B", SchemaType::reference("#/C")).unwrap();
    registry.register("C", SchemaType::reference("#/A")).unwrap();
    registry.register("Self", SchemaType::reference("Self")).unwrap();
    let value = Value::Integer(1);
    assert_eq!(
        encode_with(&value, &SchemaType::reference("#/A"), &registry).unwrap_err(),
        Error::Schema(SchemaError::CircularReference("A".to_owned()))
    );
    assert_eq!(
        encode_with(&value, &SchemaType::reference("B"), &registry).unwrap_err(),
        Error::Schema(SchemaError::CircularReference("B".to_owned()))
    );
    assert_eq!(
        registry.resolve_ref("Self").unwrap_err(),
        Error::Schema(SchemaError::CircularReference("Self".to_owned()))
    );
    let mut buf = Bytes::from_static(&[0, 0, 0, 1]);
    assert_eq!(
        Decoder::decode_with_registry(&mut buf, &SchemaType::reference("#/A"), &registry)
            .unwrap_err(),
        Error::Schema(SchemaError::CircularReference("A".to_owned()))
    );
}

fn invalid_format(result: Result<Vec<u8>, Error>) -> bool {
    matches!(result, Err(Error::Encode(EncodeError::InvalidFormat(_))))
}

#[test]
fn limits_of_size() {
    // A property payload of 255 bytes fits, one of 256 bytes does not.
    let schema = SchemaType::object(vec![required("text", SchemaType::string())]);
    let fits = Value::Object(vec![field("text", Value::String("x".repeat(255)))]);
    let bytes = encode(&fits, &schema).unwrap();
    assert_eq!(bytes.len(), 3 + 255);
    assert_eq!(&bytes[..3], &[1, 0, 255]);
    assert_eq!(decode(&bytes, &schema).unwrap(), fits);
    let too_long = Value::Object(vec![field("text", Value::String("x".repeat(256)))]);
    assert!(invalid_format(encode(&too_long, &schema)));

    // The same for an element of an array.
    let schema = SchemaType::array(SchemaType::string());
    let fits = Value::Array(vec![Value::String("y".repeat(255))]);
    let bytes = encode(&fits, &schema).unwrap();
    assert_eq!(bytes.len(), 1 + 255);
    assert_eq!(bytes[0], 255);
    assert_eq!(decode(&bytes, &schema).unwrap(), fits);
    let too_long = Value::Array(vec![Value::String("y".repeat(256))]);
    assert!(invalid_format(encode(&too_long, &schema)));

    // A text of 65535 bytes fits on its own, one of 65536 bytes does not.
    let schema = SchemaType::string();
    let bytes = encode(&Value::String("z".repeat(65535)), &schema).unwrap();
    assert_eq!(bytes.len(), 2 + 65535);
    assert_eq!(&bytes[..2], &[255, 255]);
    assert!(invalid_format(encode(&Value::String("z".repeat(65536)), &schema)));
    // The limit counts bytes, not characters.
    assert!(invalid_format(encode(&Value::String("é".repeat(32768)), &schema)));
    assert!(encode(&Value::String("é".repeat(32767)), &schema).is_ok());
}

#[test]
fn limit_on_the_number_of_properties() {
    let mut properties = Vec::new();
    let mut fields = Vec::new();
    for i in 0..256 {
        properties.push(optional(&format!("p{i}"), SchemaType::boolean()));
        fields.push(field(&format!("p{i}"), Value::Boolean(i % 2 == 0)));
    }
    let schema = SchemaType::object(properties);
    assert!(invalid_format(encode(&Value::Object(fields.clone()), &schema)));

    // With one of them left out the object has an encoding, whichever it is.
    let mut fewer = fields.clone();
    fewer.remove(0);
    let value = Value::Object(fewer);
    let bytes = encode(&value, &schema).unwrap();
    assert_eq!(bytes.len(), 1 + 255 * 2 + 255);
    assert_eq!(bytes[0], 255);
    assert_eq!(&bytes[1..3], &[1, 1]);
    assert_eq!(&bytes[509..511], &[255, 1]);
    assert_eq!(decode(&bytes, &schema).unwrap(), value);

    // A property in a place past 255 cannot be written, however few there are.
    let mut properties = Vec::new();
    for i in 0..257 {
        properties.push(optional(&format!("p{i}"), SchemaType::boolean()));
    }
    let schema = SchemaType::object(properties);
    let value = Value::Object(vec![field("p256", Value::Boolean(true))]);
    assert!(invalid_format(encode(&value, &schema)));
    let value = Value::Object(vec![field("p255", Value::Boolean(true))]);
    assert_eq!(encode(&value, &schema).unwrap(), vec![1, 255, 1, 1]);
}

#[test]
fn decoding_any_bytes_ends_with_a_value_or_an_error() {
    let schema = everything_schema();
    let bytes = encode(&everything_value(), &schema).unwrap();
    // Every prefix of an encoding.
    for end in 0..bytes.len() {
        let mut buf = Bytes::copy_from_slice(&bytes[..end]);
        let before = buf.len();
        let _ = Decoder::decode(&mut buf, &schema);
        assert!(buf.len() <= before);
    }
    // An encoding with one byte changed, in every place and in several ways.
    for at in 0..bytes.len() {
        for change in [1u8, 0x80, 0xFF] {
            let mut changed = bytes.clone();
            changed[at] ^= change;
            let mut buf = Bytes::from(changed);
            let _ = Decoder::decode(&mut buf, &schema);
        }
    }
    // Bytes of no meaning, under every kind of schema.
    let schemas = [
        SchemaType::boolean(),
        SchemaType::int32(),
        SchemaType::int64(),
        SchemaType::float(),
        SchemaType::double(),
        SchemaType::string(),
        SchemaType::string_uuid(),
        SchemaType::string_datetime(),
        SchemaType::string_date(),
        SchemaType::string_ipv4(),
        SchemaType::string_ipv6(),
        SchemaType::binary(),
        SchemaType::null(),
        SchemaType::array(SchemaType::array(SchemaType::string())),
        SchemaType::reference("#/Nowhere"),
        everything_schema(),
    ];
    let mut state = 12345u32;
    for round in 0..400 {
        let len = round % 40;
        let mut noise = Vec::new();
        for _ in 0..len {
            state = state.wrapping_mul(1664525).wrapping_add(1013904223);
            noise.push((state >> 24) as u8);
        }
        for schema in &schemas {
            let mut buf = Bytes::from(noise.clone());
            let _ = Decoder::decode(&mut buf, schema);
            assert!(buf.len() <= noise.len());
        }
    }
    assert_eq!(
        decode(&[], &SchemaType::int32()).unwrap_err(),
        Error::Decode(DecodeError::UnexpectedEof)
    );
}
