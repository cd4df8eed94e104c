//! Values of every kind, there and back.

use chrono::{NaiveDate, Utc};
use compactr::formats::ipaddr::{Ipv4Addr, Ipv6Addr};
use compactr::formats::uuid::parse_uuid;
use compactr::{Decoder, Encoder, Property, SchemaType, Value};

#[test]
fn test_simple_boolean() {
    let schema = SchemaType::boolean();
    let value = Value::Boolean(true);

    let mut encoder = Encoder::new();
    encoder.encode(&value, &schema).unwrap();
    let bytes = encoder.finish();

    let mut buf = bytes;
    let decoded = Decoder::decode(&mut buf, &schema).unwrap();

    assert_eq!(decoded, value);
}

#[test]
fn test_integers() {
    let schema = SchemaType::int32();
    let value = Value::Integer(42);

    let mut encoder = Encoder::new();
    encoder.encode(&value, &schema).unwrap();
    let bytes = encoder.finish();

    let mut buf = bytes;
    let decoded = Decoder::decode(&mut buf, &schema).unwrap();
    assert_eq!(decoded, value);

    let schema = SchemaType::int64();
    let value = Value::Integer(i64::MAX);

    let mut encoder = Encoder::new();
    encoder.encode(&value, &schema).unwrap();
    let bytes = encoder.finish();

    let mut buf = bytes;
    let decoded = Decoder::decode(&mut buf, &schema).unwrap();
    assert_eq!(decoded, value);
}

#[test]
fn test_floats() {
    let schema = SchemaType::float();
    let value = Value::Float(3.14f32.to_bits());

    let mut encoder = Encoder::new();
    encoder.encode(&value, &schema).unwrap();
    let bytes = encoder.finish();

    let mut buf = bytes;
    let decoded = Decoder::decode(&mut buf, &schema).unwrap();
    assert_eq!(decoded, value);

    let schema = SchemaType::double();
    let value = Value::Double(3.141_592_653_589_793f64.to_bits());

    let mut encoder = Encoder::new();
    encoder.encode(&value, &schema).unwrap();
    let bytes = encoder.finish();

    let mut buf = bytes;
    let decoded = Decoder::decode(&mut buf, &schema).unwrap();
    assert_eq!(decoded, value);
}

#[test]
fn test_string() {
    let schema = SchemaType::string();
    let value = Value::String("Hello, Compactr!".to_owned());

    let mut encoder = Encoder::new();
    encoder.encode(&value, &schema).unwrap();
    let bytes = encoder.finish();

    let mut buf = bytes;
    let decoded = Decoder::decode(&mut buf, &schema).unwrap();
    assert_eq!(decoded, value);
}

#[test]
fn test_uuid() {
    let schema = SchemaType::string_uuid();
    let uuid = parse_uuid("550e8400-e29b-41d4-a716-446655440000").unwrap();
    let value = Value::Uuid(uuid);

    let mut encoder = Encoder::new();
    encoder.encode(&value, &schema).unwrap();
    let bytes = encoder.finish();

    let mut buf = bytes;
    let decoded = Decoder::decode(&mut buf, &schema).unwrap();
    assert_eq!(decoded, value);
}

#[test]
fn test_datetime() {
    let schema = SchemaType::string_datetime();
    let dt = Utc::now();
    let value = Value::DateTime(dt.timestamp_millis());

    let mut encoder = Encoder::new();
    encoder.encode(&value, &schema).unwrap();
    let bytes = encoder.finish();

    let mut buf = bytes;
    let decoded = Decoder::decode(&mut buf, &schema).unwrap();

    if let Value::DateTime(decoded_millis) = decoded {
        assert_eq!(decoded_millis, dt.timestamp_millis());
    } else {
        panic!("Expected DateTime value");
    }
}

#[test]
fn test_date() {
    let schema = SchemaType::string_date();
    let date = NaiveDate::from_ymd_opt(2024, 1, 15).unwrap();
    let value = Value::Date(date.to_epoch_days());

    let mut encoder = Encoder::new();
    encoder.encode(&value, &schema).unwrap();
    let bytes = encoder.finish();

    let mut buf = bytes;
    let decoded = Decoder::decode(&mut buf, &schema).unwrap();
    assert_eq!(decoded, value);
}

#[test]
fn test_ipv4() {
    let schema = SchemaType::string_ipv4();
    let ip = Ipv4Addr::new(192, 168, 1, 1);
    let value = Value::Ipv4(ip);

    let mut encoder = Encoder::new();
    encoder.encode(&value, &schema).unwrap();
    let bytes = encoder.finish();

    let mut buf = bytes;
    let decoded = Decoder::decode(&mut buf, &schema).unwrap();
    assert_eq!(decoded, value);
}

#[test]
fn test_ipv6() {
    let schema = SchemaType::string_ipv6();
    let ip = Ipv6Addr::new(0x2001, 0x0db8, 0, 0, 0, 0, 0, 1);
    let value = Value::Ipv6(ip);

    let mut encoder = Encoder::new();
    encoder.encode(&value, &schema).unwrap();
    let bytes = encoder.finish();

    let mut buf = bytes;
    let decoded = Decoder::decode(&mut buf, &schema).unwrap();
    assert_eq!(decoded, value);
}

#[test]
fn test_binary() {
    let schema = SchemaType::binary();
    let data = vec![0, 1, 2, 3, 255, 128, 64];
    let value = Value::Binary(data);

    let mut encoder = Encoder::new();
    encoder.encode(&value, &schema).unwrap();
    let bytes = encoder.finish();

    let mut buf = bytes;
    let decoded = Decoder::decode(&mut buf, &schema).unwrap();
    assert_eq!(decoded, value);
}

#[test]
fn test_array() {
    let schema = SchemaType::array(SchemaType::int32());
    let value = Value::Array(vec![Value::Integer(1), Value::Integer(2), Value::Integer(3)]);

    let mut encoder = Encoder::new();
    encoder.encode(&value, &schema).unwrap();
    let bytes = encoder.finish();

    let mut buf = bytes;
    let decoded = Decoder::decode(&mut buf, &schema).unwrap();
    assert_eq!(decoded, value);
}

#[test]
fn test_object() {
    let mut properties = Vec::new();
    properties.push(("name".to_owned(), Property::required(SchemaType::string())));
    properties.push(("age".to_owned(), Property::required(SchemaType::int32())));
    properties.push(("active".to_owned(), Property::required(SchemaType::boolean())));

    let schema = SchemaType::object(properties);

    let mut obj = Vec::new();
    obj.push(("name".to_owned(), Value::String("Alice".to_owned())));
    obj.push(("age".to_owned(), Value::Integer(30)));
    obj.push(("active".to_owned(), Value::Boolean(true)));

    let value = Value::Object(obj);

    let mut encoder = Encoder::new();
    encoder.encode(&value, &schema).unwrap();
    let bytes = encoder.finish();

    let mut buf = bytes;
    let decoded = Decoder::decode(&mut buf, &schema).unwrap();
    assert_eq!(decoded, value);
}

#[test]
fn test_nested_object() {
    let mut address_props = Vec::new();
    address_props.push(("street".to_owned(), Property::required(SchemaType::string())));
    address_props.push(("city".to_owned(), Property::required(SchemaType::string())));

    let address_schema = SchemaType::object(address_props);

    let mut user_props = Vec::new();
    user_props.push(("name".to_owned(), Property::required(SchemaType::string())));
    user_props.push(("address".to_owned(), Property::required(address_schema)));

    let schema = SchemaType::object(user_props);

    let mut address = Vec::new();
    address.push(("street".to_owned(), Value::String("123 Main St".to_owned())));
    address.push(("city".to_owned(), Value::String("Springfield".to_owned())));

    let mut user = Vec::new();
    user.push(("name".to_owned(), Value::String("Bob".to_owned())));
    user.push(("address".to_owned(), Value::Object(address)));

    let value = Value::Object(user);

    let mut encoder = Encoder::new();
    encoder.encode(&value, &schema).unwrap();
    let bytes = encoder.finish();

    let mut buf = bytes;
    let decoded = Decoder::decode(&mut buf, &schema).unwrap();
    assert_eq!(decoded, value);
}

#[test]
fn test_complex_structure() {
    let mut properties = Vec::new();
    properties.push(("id".to_owned(), Property::required(SchemaType::string_uuid())));
    properties.push(("name".to_owned(), Property::required(SchemaType::string())));
    properties.push((
        "tags".to_owned(),
        Property::required(SchemaType::array(SchemaType::string())),
    ));
    properties.push(("created_at".to_owned(), Property::required(SchemaType::string_datetime())));

    let schema = SchemaType::object(properties);

    let mut obj = Vec::new();
    obj.push((
        "id".to_owned(),
        Value::Uuid(parse_uuid("550e8400-e29b-41d4-a716-446655440000").unwrap()),
    ));
    obj.push(("name".to_owned(), Value::String("Test Item".to_owned())));
    obj.push((
        "tags".to_owned(),
        Value::Array(vec![
            Value::String("rust".to_owned()),
            Value::String("serialization".to_owned()),
        ]),
    ));
    obj.push(("created_at".to_owned(), Value::DateTime(Utc::now().timestamp_millis())));

    let value = Value::Object(obj);

    let mut encoder = Encoder::new();
    encoder.encode(&value, &schema).unwrap();
    let bytes = encoder.finish();

    let mut json = serde_json::Map::new();
    json.insert(
        "id".to_owned(),
        serde_json::Value::String("550e8400-e29b-41d4-a716-446655440000".to_owned()),
    );
    json.insert("name".to_owned(), serde_json::Value::String("Test Item".to_owned()));
    json.insert(
        "tags".to_owned(),
        serde_json::Value::Array(vec![
            serde_json::Value::String("rust".to_owned()),
            serde_json::Value::String("serialization".to_owned()),
        ]),
    );
    json.insert(
        "created_at".to_owned(),
        serde_json::Value::String("2024-01-15T10:30:00Z".to_owned()),
    );
    let json_size = serde_json::to_string(&serde_json::Value::Object(json)).unwrap().len();

    println!("Binary size: {} bytes", bytes.len());
    println!("JSON size: {} bytes", json_size);
    assert!(bytes.len() < json_size);

    let mut buf = bytes;
    let decoded = Decoder::decode(&mut buf, &schema).unwrap();

    if value.is_object() && decoded.is_object() {
        assert_eq!(value.get("id"), decoded.get("id"));
        assert_eq!(value.get("name"), decoded.get("name"));
        assert_eq!(value.get("tags"), decoded.get("tags"));
    } else {
        panic!("Expected object values");
    }
}
