//! The encoder: from a value and a schema to bytes.

use bytes::{Bytes, BytesMut};
use vstd::prelude::*;

use crate::codec::buffer::{
    append, buffer_bytes, buffer_len, buffer_limit, committed, freeze, new_buffer,
    new_buffer_with_capacity, put_i32, put_i64, put_slice, put_u32, put_u64, put_u8, unread,
    written,
};
use crate::codec::ieee::{narrow, widen};
use crate::codec::wire::{
    boolean_wire, fresh, integer_wire, items_wire, kind_name, null_wire, number_wire, props_wire,
    string_format_wire, value_wire,
};
use crate::error::{EncodeError, EncodeErrorView, Error, ErrorView, SchemaError};
use crate::formats::datetime::{parse_date, parse_datetime};
use crate::formats::ipaddr::{parse_ipv4, parse_ipv6};
use crate::formats::uuid::parse_uuid;
use crate::names::{entry_names, find, lemma_first_unique};
use crate::schema::definition::{
    properties_view, IntegerFormat, NumberFormat, Property, SchemaType, StringFormat,
};
use crate::schema::registry::{lemma_resolve_terminal, SchemaRegistry};
use crate::value::{field_names, fields_view, values_view, Value};

verus! {

/// The encoder: a buffer that encodings are appended to.
#[derive(Debug)]
pub struct Encoder {
    buf: BytesMut,
}

/// An encoding into a buffer of its own came out as `wire` says: the
/// buffer holds the bytes, or the error is the expected one.
pub open spec fn built(outcome: Result<BytesMut, Error>, wire: Result<Seq<u8>, ErrorView>) -> bool {
    match wire {
        Ok(bytes) => outcome matches Ok(buf) && written(buf) == bytes,
        Err(e) => outcome matches Err(x) && x@ == e,
    }
}

/// An encoding that was to be appended to what an encoder holds was: on
/// success the encoder went from `before` to `before` and the bytes, on
/// failure it kept `before` and the error is the expected one, an overflow
/// where the encoder cannot hold both.
pub open spec fn encoded(
    before: Seq<u8>,
    after: Seq<u8>,
    outcome: Result<(), Error>,
    wire: Result<Seq<u8>, ErrorView>,
) -> bool {
    match wire {
        Err(e) => outcome matches Err(x) && x@ == e && after == before,
        Ok(bytes) => if before.len() + bytes.len() > buffer_limit() {
            &&& outcome matches Err(x)
            &&& x@ == ErrorView::Encode(EncodeErrorView::BufferOverflow)
            &&& after == before
        } else {
            outcome is Ok && after == before + bytes
        },
    }
}

/// The name of a value's kind, as errors quote it.
pub fn value_type_name(value: &Value) -> (name: String)
    ensures
        name@ == kind_name(value@),
{
    match value {
        Value::Boolean(_) => "boolean".to_owned(),
        Value::Integer(_) => "integer".to_owned(),
        Value::Float(_) => "float".to_owned(),
        Value::Double(_) => "double".to_owned(),
        Value::String(_) => "string".to_owned(),
        Value::Uuid(_) => "uuid".to_owned(),
        Value::DateTime(_) => "datetime".to_owned(),
        Value::Date(_) => "date".to_owned(),
        Value::Ipv4(_) => "ipv4".to_owned(),
        Value::Ipv6(_) => "ipv6".to_owned(),
        Value::Binary(_) => "binary".to_owned(),
        Value::Array(_) => "array".to_owned(),
        Value::Object(_) => "object".to_owned(),
        Value::Null => "null".to_owned(),
    }
}

/// The error for a value of another kind than `expected`.
fn type_mismatch(expected: &str, value: &Value) -> (e: Error)
    ensures
        e@ == crate::codec::wire::mismatch(expected@, value@),
{
    Error::Encode(
        EncodeError::TypeMismatch { expected: expected.to_owned(), actual: value_type_name(value) },
    )
}

/// The error for an encoding that breaks a limit.
fn format_error(detail: &str) -> (e: Error)
    ensures
        e@ == crate::codec::wire::invalid_format(detail@),
{
    Error::Encode(EncodeError::InvalidFormat(detail.to_owned()))
}

/// A buffer of their own for the given bytes.
fn buffer_of(data: &[u8]) -> (outcome: Result<BytesMut, Error>)
    ensures
        built(outcome, fresh(Ok(data@))),
{
    let mut buf = new_buffer();
    match append(&mut buf, data) {
        Ok(()) => {
            assert(written(buf) =~= data@);
            Ok(buf)
        },
        Err(e) => Err(Error::Encode(e)),
    }
}

/// Encodes a boolean: one byte, 1 for true and 0 for false.
pub fn encode_boolean(value: &Value) -> (outcome: Result<BytesMut, Error>)
    ensures
        built(outcome, boolean_wire(value@)),
{
    match value {
        Value::Boolean(b) => {
            let mut buf = new_buffer();
            put_u8(
                &mut buf,
                if *b {
                    1
                } else {
                    0
                },
            );
            assert(written(buf) =~= seq![if *b {
                1u8
            } else {
                0u8
            }]);
            Ok(buf)
        },
        _ => Err(type_mismatch("boolean", value)),
    }
}

/// Encodes an integer in four or eight bytes, big-endian. A number that
/// does not fit four bytes is refused there.
pub fn encode_integer(value: &Value, format: IntegerFormat) -> (outcome: Result<BytesMut, Error>)
    ensures
        built(outcome, integer_wire(value@, format)),
{
    let number: i64 = match value {
        Value::Integer(i) => *i,
        _ => {
            return Err(type_mismatch("integer", value));
        },
    };
    let mut buf = new_buffer();
    match format {
        IntegerFormat::Int32 => {
            if number < -0x8000_0000 || number > 0x7FFF_FFFF {
                return Err(format_error("Integer out of range for int32"));
            }
            put_i32(&mut buf, number as i32);
        },
        IntegerFormat::Int64 => {
            put_i64(&mut buf, number);
        },
    }
    assert(written(buf) =~= integer_wire(value@, format)->Ok_0);
    Ok(buf)
}

/// Encodes a number as the bytes of its bit pattern, big-endian. A value of
/// the other width is converted first.
pub fn encode_number(value: &Value, format: NumberFormat) -> (outcome: Result<BytesMut, Error>)
    ensures
        built(outcome, number_wire(value@, format)),
{
    let mut buf = new_buffer();
    match format {
        NumberFormat::Float => match value {
            Value::Float(bits) => {
                put_u32(&mut buf, *bits);
            },
            Value::Double(bits) => {
                put_u32(&mut buf, narrow(*bits));
            },
            _ => {
                return Err(type_mismatch("float", value));
            },
        },
        NumberFormat::Double => match value {
            Value::Double(bits) => {
                put_u64(&mut buf, *bits);
            },
            Value::Float(bits) => {
                put_u64(&mut buf, widen(*bits));
            },
            _ => {
                return Err(type_mismatch("double", value));
            },
        },
    }
    assert(written(buf) =~= number_wire(value@, format)->Ok_0);
    Ok(buf)
}

/// Encodes a string of the given format. A value of the format's own kind
/// gives its bytes; for the formats with a textual form, a text is read
/// first. Inside a payload (`nested`) a plain string is its bare UTF-8
/// bytes, on its own it carries a two-byte length.
pub fn encode_string_format(value: &Value, format: StringFormat, nested: bool) -> (outcome:
    Result<BytesMut, Error>)
    ensures
        built(outcome, string_format_wire(value@, format, nested)),
{
    match format {
        StringFormat::Plain => match value {
            Value::String(s) => {
                if nested {
                    buffer_of(s.as_str().as_bytes())
                } else {
                    let mut buf = new_buffer();
                    match crate::codec::buffer::encode_string(&mut buf, s.as_str()) {
                        Ok(()) => {
                            assert(written(buf) =~= crate::codec::buffer::string_wire(s@)->Ok_0);
                            Ok(buf)
                        },
                        Err(e) => Err(Error::Encode(e)),
                    }
                }
            },
            _ => Err(type_mismatch("string", value)),
        },
        StringFormat::Uuid => match value {
            Value::Uuid(u) => buffer_of(u.bytes.as_slice()),
            Value::String(s) => match parse_uuid(s.as_str()) {
                Ok(u) => buffer_of(u.bytes.as_slice()),
                Err(e) => Err(Error::Encode(e)),
            },
            _ => Err(type_mismatch("uuid", value)),
        },
        StringFormat::DateTime => {
            let millis: i64 = match value {
                Value::DateTime(millis) => *millis,
                Value::String(s) => match parse_datetime(s.as_str()) {
                    Ok(millis) => millis,
                    Err(e) => {
                        return Err(Error::Encode(e));
                    },
                },
                _ => {
                    return Err(type_mismatch("datetime", value));
                },
            };
            let mut buf = new_buffer();
            put_i64(&mut buf, millis);
            assert(written(buf) =~= crate::codec::buffer::i64_be(millis as int));
            Ok(buf)
        },
        StringFormat::Date => {
            let days: i32 = match value {
                Value::Date(days) => *days,
                Value::String(s) => match parse_date(s.as_str()) {
                    Ok(days) => days,
                    Err(e) => {
                        return Err(Error::Encode(e));
                    },
                },
                _ => {
                    return Err(type_mismatch("date", value));
                },
            };
            let mut buf = new_buffer();
            put_i32(&mut buf, days);
            assert(written(buf) =~= crate::codec::buffer::i32_be(days as int));
            Ok(buf)
        },
        StringFormat::Ipv4 => match value {
            Value::Ipv4(a) => buffer_of(a.octets.as_slice()),
            Value::String(s) => match parse_ipv4(s.as_str()) {
                Ok(a) => buffer_of(a.octets.as_slice()),
                Err(e) => Err(Error::Encode(e)),
            },
            _ => Err(type_mismatch("ipv4", value)),
        },
        StringFormat::Ipv6 => match value {
            Value::Ipv6(a) => buffer_of(a.octets.as_slice()),
            Value::String(s) => match parse_ipv6(s.as_str()) {
                Ok(a) => buffer_of(a.octets.as_slice()),
                Err(e) => Err(Error::Encode(e)),
            },
            _ => Err(type_mismatch("ipv6", value)),
        },
        StringFormat::Binary => match value {
            Value::Binary(data) => {
                let mut buf = new_buffer();
                match crate::codec::buffer::encode_binary(&mut buf, data.as_slice()) {
                    Ok(()) => {
                        assert(written(buf) =~= crate::codec::buffer::binary_wire(data@)->Ok_0);
                        Ok(buf)
                    },
                    Err(e) => Err(Error::Encode(e)),
                }
            },
            _ => Err(type_mismatch("binary", value)),
        },
    }
}

/// Encodes null: one byte of zero.
pub fn encode_null(value: &Value) -> (outcome: Result<BytesMut, Error>)
    ensures
        built(outcome, null_wire(value@)),
{
    if !value.is_null() {
        return Err(type_mismatch("null", value));
    }
    let mut buf = new_buffer();
    put_u8(&mut buf, 0);
    assert(written(buf) =~= seq![0u8]);
    Ok(buf)
}

/// Encodes an array: each element as the size of its payload in one byte,
/// then the payload. An element of more than 255 bytes is refused.
#[verifier::loop_isolation(false)]
pub fn encode_array(value: &Value, child: &SchemaType, registry: &SchemaRegistry) -> (outcome:
    Result<BytesMut, Error>)
    ensures
        built(
            outcome,
            value_wire(value@, SchemaType::Array(Box::new(*child))@, registry@, false),
        ),
    decreases value, 0int,
{
    proof {
        registry.lemma_finite();
    }
    let items = match value {
        Value::Array(items) => items,
        _ => {
            return Err(type_mismatch("array", value));
        },
    };
    let ghost all = values_view(*items);
    let limit: usize = isize::MAX as usize;
    let mut done = new_buffer();
    let mut i: usize = 0;
    while i < items.len()
        invariant
            i <= items@.len(),
            items_wire(all, child@, registry@, i as int, written(done)) == items_wire(
                all,
                child@,
                registry@,
                0,
                Seq::empty(),
            ),
        decreases items@.len() - i,
    {
        assert(decreases_to!(*value => items@[i as int])) by {
            assert(decreases_to!(*value => value->Array_0));
            assert(decreases_to!(*items => items@));
            assert(decreases_to!(items@ => items@[i as int]));
        }
        let payload = match encode_value(&items[i], child, registry, true) {
            Ok(payload) => payload,
            Err(e) => {
                return Err(e);
            },
        };
        let size: usize = buffer_len(&payload);
        if size > 255 {
            return Err(format_error("Array element too large: more than 255 bytes"));
        }
        let held: usize = buffer_len(&done);
        if held > limit || limit - held < 1 + size {
            return Err(Error::Encode(EncodeError::BufferOverflow));
        }
        put_u8(&mut done, size as u8);
        put_slice(&mut done, buffer_bytes(&payload));
        i += 1;
    }
    Ok(done)
}

/// Encodes an object: the count of its present properties, a header entry
/// for each, which is its place in the schema and the size of its payload,
/// then the payloads. A property without a value is left out, unless it is
/// required. More than 255 present properties, and a payload of more than
/// 255 bytes, are refused.
#[verifier::loop_isolation(false)]
pub fn encode_object(
    value: &Value,
    props: &Vec<(String, Property)>,
    registry: &SchemaRegistry,
) -> (outcome: Result<BytesMut, Error>)
    ensures
        built(outcome, value_wire(value@, SchemaType::Object(*props)@, registry@, false)),
    decreases value, 0int,
{
    proof {
        registry.lemma_finite();
    }
    let fields = match value {
        Value::Object(fields) => fields,
        _ => {
            return Err(type_mismatch("object", value));
        },
    };
    let ghost held = fields_view(*fields);
    let ghost shape = properties_view(*props);
    assert(entry_names(fields@) =~= field_names(held));
    let mut entries = new_buffer();
    let mut content = new_buffer();
    let mut i: usize = 0;
    while i < props.len()
        invariant
            i <= props@.len(),
            written(entries).len() <= 510,
            written(entries).len() % 2 == 0,
            written(content).len() * 2 <= written(entries).len() * 255,
            props_wire(held, shape, registry@, i as int, written(entries), written(content))
                == props_wire(held, shape, registry@, 0, Seq::empty(), Seq::empty()),
        decreases props@.len() - i,
    {
        let prop = &props[i];
        assert(shape[i as int].name == prop.0@);
        assert(shape[i as int].required == prop.1.required);
        assert(shape[i as int].schema == prop.1.schema_type@);
        match find(fields, prop.0.as_str()) {
            None => {
                if prop.1.required {
                    return Err(Error::Schema(SchemaError::MissingField(prop.0.clone())));
                }
            },
            Some(k) => {
                proof {
                    lemma_first_unique(field_names(held), prop.0@, k as int);
                }
                if i > 255 || buffer_len(&entries) >= 510 {
                    return Err(format_error("Too many properties: more than 255"));
                }
                assert(decreases_to!(*value => fields@[k as int].1)) by {
                    assert(decreases_to!(*value => value->Object_0));
                    assert(decreases_to!(*fields => fields@));
                    assert(decreases_to!(fields@ => fields@[k as int]));
                    assert(decreases_to!(fields@[k as int] => fields@[k as int].1));
                }
                let payload = match encode_value(
                    &fields[k].1,
                    &prop.1.schema_type,
                    registry,
                    true,
                ) {
                    Ok(payload) => payload,
                    Err(e) => {
                        return Err(e);
                    },
                };
                let size: usize = buffer_len(&payload);
                if size > 255 {
                    return Err(format_error("Property too large: more than 255 bytes"));
                }
                put_u8(&mut entries, i as u8);
                put_u8(&mut entries, size as u8);
                put_slice(&mut content, buffer_bytes(&payload));
            },
        }
        i += 1;
    }
    let count: usize = buffer_len(&entries) / 2;
    let mut out = new_buffer();
    put_u8(&mut out, count as u8);
    put_slice(&mut out, buffer_bytes(&entries));
    put_slice(&mut out, buffer_bytes(&content));
    assert(written(out) =~= seq![(written(entries).len() / 2) as u8] + written(entries) + written(
        content,
    ));
    Ok(out)
}

/// Encodes a value under a schema into a buffer of its own. Inside a
/// payload (`nested`) a plain string is written bare.
pub fn encode_value(
    value: &Value,
    schema: &SchemaType,
    registry: &SchemaRegistry,
    nested: bool,
) -> (outcome: Result<BytesMut, Error>)
    ensures
        built(outcome, value_wire(value@, schema@, registry@, nested)),
    decreases value,
        (if schema@ is Reference {
            2int
        } else {
            1int
        }),
{
    proof {
        registry.lemma_finite();
    }
    match schema {
        SchemaType::Boolean => encode_boolean(value),
        SchemaType::Integer(format) => encode_integer(value, *format),
        SchemaType::Number(format) => encode_number(value, *format),
        SchemaType::String(format) => encode_string_format(value, *format, nested),
        SchemaType::Array(child) => encode_array(value, child, registry),
        SchemaType::Object(props) => encode_object(value, props, registry),
        SchemaType::Reference(reference) => match registry.resolve_shared(reference.as_str()) {
            Ok(target) => {
                proof {
                    lemma_resolve_terminal(registry@, reference@, Set::empty());
                }
                encode_value(value, target, registry, nested)
            },
            Err(e) => Err(e),
        },
        SchemaType::Null => encode_null(value),
    }
}

impl View for Encoder {
    type V = Seq<u8>;

    closed spec fn view(&self) -> Seq<u8> {
        written(self.buf)
    }
}

impl Default for Encoder {
    fn default() -> (encoder: Encoder)
        ensures
            encoder@ == Seq::<u8>::empty(),
    {
        Encoder::new()
    }
}

impl Encoder {
    /// An encoder that holds nothing.
    pub fn new() -> (encoder: Encoder)
        ensures
            encoder@ == Seq::<u8>::empty(),
    {
        Encoder { buf: new_buffer() }
    }

    /// An encoder that holds nothing, with room set aside for `capacity` bytes.
    pub fn with_capacity(capacity: usize) -> (encoder: Encoder)
        requires
            capacity <= buffer_limit(),
        ensures
            encoder@ == Seq::<u8>::empty(),
    {
        Encoder { buf: new_buffer_with_capacity(capacity) }
    }

    /// Appends the encoding of a value under a schema without references.
    pub fn encode(&mut self, value: &Value, schema: &SchemaType) -> (outcome: Result<(), Error>)
        ensures
            encoded(
                old(self)@,
                final(self)@,
                outcome,
                value_wire(value@, schema@, Map::empty(), false),
            ),
    {
        let registry = SchemaRegistry::new();
        self.encode_with_registry(value, schema, &registry)
    }

    /// Appends the encoding of a value under a schema, its references
    /// resolved through the registry. On an error the encoder holds what it
    /// held before.
    pub fn encode_with_registry(
        &mut self,
        value: &Value,
        schema: &SchemaType,
        registry: &SchemaRegistry,
    ) -> (outcome: Result<(), Error>)
        ensures
            encoded(
                old(self)@,
                final(self)@,
                outcome,
                value_wire(value@, schema@, registry@, false),
            ),
    {
        match encode_value(value, schema, registry, false) {
            Err(e) => Err(e),
            Ok(payload) => match append(&mut self.buf, buffer_bytes(&payload)) {
                Ok(()) => Ok(()),
                Err(e) => Err(Error::Encode(e)),
            },
        }
    }

    /// The bytes encoded so far, as an immutable buffer.
    pub fn finish(self) -> (bytes: Bytes)
        ensures
            unread(bytes) == self@,
    {
        freeze(self.buf)
    }

    /// The bytes encoded so far.
    pub fn as_bytes(&self) -> (bytes: &[u8])
        ensures
            bytes@ == self@,
    {
        buffer_bytes(&self.buf)
    }
}

} // verus!
