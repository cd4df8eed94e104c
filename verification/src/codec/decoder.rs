//! The decoder: from bytes and a schema to a value.

use bytes::Bytes;
use vstd::prelude::*;

use crate::codec::buffer::{
    decode_binary, decode_string, get_i32, get_i64, get_u32, get_u64, get_u8, is_tail,
    lemma_tail_of_tail, remaining, split_to, string_from_utf8, unread, unread_bytes,
};
use crate::codec::wire::{
    boolean_unwire, fields_unwire, header_fault, integer_unwire, items_unwire,
    lemma_header_present, missing_required, null_unwire, number_unwire, put_field,
    string_format_unwire, value_unwire, Unwired,
};
use crate::error::{DecodeError, Error, SchemaError};
use crate::formats::datetime::{decode_date, decode_datetime};
use crate::formats::ipaddr::{decode_ipv4, decode_ipv6};
use crate::formats::uuid::decode_uuid;
use crate::names::{entry_names, find, lemma_first_unique};
use crate::schema::definition::{
    properties_view, IntegerFormat, NumberFormat, Property, SchemaType, StringFormat,
};
use crate::schema::registry::{lemma_resolve_terminal, SchemaRegistry};
use crate::value::{field_names, fields_view, values_view, Value};
use vstd::slice::slice_to_vec;

verus! {

/// The decoder. It holds nothing: a decoding is a function of the bytes,
/// the schema and the registry.
#[derive(Debug)]
pub struct Decoder;

/// A decoding step that was to read `expect` off a buffer did so: on
/// success the value is the expected one and the buffer went from `before`
/// to what the value leaves, on failure the error is the expected one.
/// Either way the buffer holds a tail of what it held.
pub open spec fn unwired(
    before: Seq<u8>,
    after: Seq<u8>,
    outcome: Result<Value, Error>,
    expect: Unwired,
) -> bool {
    &&& is_tail(after, before)
    &&& match expect {
        Ok((v, rest)) => outcome matches Ok(x) && x@ == v && after == rest,
        Err(e) => outcome matches Err(x) && x@ == e,
    }
}

/// Reads a boolean.
pub fn decode_boolean(buf: &mut Bytes) -> (outcome: Result<Value, Error>)
    ensures
        unwired(unread(*old(buf)), unread(*final(buf)), outcome, boolean_unwire(unread(*old(buf)))),
{
    if remaining(buf) < 1 {
        return Err(Error::Decode(DecodeError::UnexpectedEof));
    }
    let byte: u8 = get_u8(buf);
    if byte == 0 {
        Ok(Value::Boolean(false))
    } else if byte == 1 {
        Ok(Value::Boolean(true))
    } else {
        Err(Error::Decode(DecodeError::InvalidData("Invalid boolean value".to_owned())))
    }
}

/// Reads an integer of the given width.
pub fn decode_integer(buf: &mut Bytes, format: IntegerFormat) -> (outcome: Result<Value, Error>)
    ensures
        unwired(
            unread(*old(buf)),
            unread(*final(buf)),
            outcome,
            integer_unwire(unread(*old(buf)), format),
        ),
{
    match format {
        IntegerFormat::Int32 => {
            if remaining(buf) < 4 {
                return Err(Error::Decode(DecodeError::UnexpectedEof));
            }
            let n: i32 = get_i32(buf);
            Ok(Value::Integer(n as i64))
        },
        IntegerFormat::Int64 => {
            if remaining(buf) < 8 {
                return Err(Error::Decode(DecodeError::UnexpectedEof));
            }
            let n: i64 = get_i64(buf);
            Ok(Value::Integer(n))
        },
    }
}

/// Reads the bit pattern of a number of the given width.
pub fn decode_number(buf: &mut Bytes, format: NumberFormat) -> (outcome: Result<Value, Error>)
    ensures
        unwired(
            unread(*old(buf)),
            unread(*final(buf)),
            outcome,
            number_unwire(unread(*old(buf)), format),
        ),
{
    match format {
        NumberFormat::Float => {
            if remaining(buf) < 4 {
                return Err(Error::Decode(DecodeError::UnexpectedEof));
            }
            let bits: u32 = get_u32(buf);
            Ok(Value::Float(bits))
        },
        NumberFormat::Double => {
            if remaining(buf) < 8 {
                return Err(Error::Decode(DecodeError::UnexpectedEof));
            }
            let bits: u64 = get_u64(buf);
            Ok(Value::Double(bits))
        },
    }
}

/// Reads a string of the given format. Inside a payload (`nested`) a plain
/// string is all that is left of the payload.
pub fn decode_string_format(buf: &mut Bytes, format: StringFormat, nested: bool) -> (outcome:
    Result<Value, Error>)
    ensures
        unwired(
            unread(*old(buf)),
            unread(*final(buf)),
            outcome,
            string_format_unwire(unread(*old(buf)), format, nested),
        ),
{
    match format {
        StringFormat::Plain => {
            if nested {
                let n: usize = remaining(buf);
                let body = split_to(buf, n);
                assert(unread(body) =~= unread(*old(buf)));
                assert(unread(*buf) =~= Seq::<u8>::empty());
                match string_from_utf8(slice_to_vec(unread_bytes(&body))) {
                    Some(text) => {
                        proof {
                            vstd::utf8::encode_utf8_decode_utf8(text@);
                        }
                        Ok(Value::String(text))
                    },
                    None => Err(
                        Error::Decode(
                            DecodeError::InvalidData("Invalid UTF-8 in string".to_owned()),
                        ),
                    ),
                }
            } else {
                match decode_string(buf) {
                    Ok(text) => Ok(Value::String(text)),
                    Err(e) => Err(Error::Decode(e)),
                }
            }
        },
        StringFormat::Uuid => match decode_uuid(buf) {
            Ok(uuid) => Ok(Value::Uuid(uuid)),
            Err(e) => Err(Error::Decode(e)),
        },
        StringFormat::DateTime => match decode_datetime(buf) {
            Ok(millis) => Ok(Value::DateTime(millis)),
            Err(e) => Err(Error::Decode(e)),
        },
        StringFormat::Date => match decode_date(buf) {
            Ok(days) => Ok(Value::Date(days)),
            Err(e) => Err(Error::Decode(e)),
        },
        StringFormat::Ipv4 => match decode_ipv4(buf) {
            Ok(addr) => Ok(Value::Ipv4(addr)),
            Err(e) => Err(Error::Decode(e)),
        },
        StringFormat::Ipv6 => match decode_ipv6(buf) {
            Ok(addr) => Ok(Value::Ipv6(addr)),
            Err(e) => Err(Error::Decode(e)),
        },
        StringFormat::Binary => match decode_binary(buf) {
            Ok(data) => Ok(Value::Binary(data)),
            Err(e) => Err(Error::Decode(e)),
        },
    }
}

/// Reads null.
pub fn decode_null(buf: &mut Bytes) -> (outcome: Result<Value, Error>)
    ensures
        unwired(unread(*old(buf)), unread(*final(buf)), outcome, null_unwire(unread(*old(buf)))),
{
    if remaining(buf) < 1 {
        return Err(Error::Decode(DecodeError::UnexpectedEof));
    }
    let byte: u8 = get_u8(buf);
    if byte != 0 {
        return Err(Error::Decode(DecodeError::InvalidData("Invalid null value".to_owned())));
    }
    Ok(Value::Null)
}

/// Puts a value under a name into a list of fields: in the place of the
/// first field of that name, or at the end where there is none.
pub fn put(fields: &mut Vec<(String, Value)>, name: String, value: Value)
    ensures
        fields_view(*final(fields)) == put_field(fields_view(*old(fields)), name@, value@),
{
    let ghost before = fields_view(*fields);
    assert(entry_names(fields@) =~= field_names(before));
    match find(fields, name.as_str()) {
        Some(i) => {
            fields.set(i, (name, value));
            assert(fields_view(*fields) =~= put_field(before, name@, value@)) by {
                lemma_first_unique(field_names(before), name@, i as int);
            }
        },
        None => {
            fields.push((name, value));
            assert(fields_view(*fields) =~= put_field(before, name@, value@));
        },
    }
}

/// Reads the elements of an array to the end of the buffer.
#[verifier::loop_isolation(false)]
pub fn decode_array(buf: &mut Bytes, child: &SchemaType, registry: &SchemaRegistry) -> (outcome:
    Result<Value, Error>)
    ensures
        unwired(
            unread(*old(buf)),
            unread(*final(buf)),
            outcome,
            value_unwire(unread(*old(buf)), SchemaType::Array(Box::new(*child))@, registry@, false),
        ),
    decreases unread(*old(buf)).len(), 0int, 0int,
{
    proof {
        registry.lemma_finite();
    }
    let ghost input = unread(*buf);
    let mut items: Vec<Value> = Vec::new();
    assert(values_view(items) =~= Seq::<crate::value::ValueView>::empty());
    while remaining(buf) > 0
        invariant
            registry@.dom().finite(),
            is_tail(unread(*buf), input),
            items_unwire(unread(*buf), child@, registry@, values_view(items)) == items_unwire(
                input,
                child@,
                registry@,
                Seq::empty(),
            ),
        decreases unread(*buf).len(),
    {
        let ghost here = unread(*buf);
        let size: usize = get_u8(buf) as usize;
        if remaining(buf) < size {
            proof {
                lemma_tail_of_tail(unread(*buf), here, input);
            }
            return Err(Error::Decode(DecodeError::UnexpectedEof));
        }
        let mut region = split_to(buf, size);
        assert(unread(region) =~= here.subrange(1, 1 + size));
        assert(unread(*buf) =~= here.skip(1 + size));
        proof {
            lemma_tail_of_tail(unread(*buf), here, input);
        }
        let ghost before = values_view(items);
        match decode_value(&mut region, child, registry, true) {
            Ok(item) => {
                items.push(item);
                assert(values_view(items) =~= before.push(item@));
            },
            Err(e) => {
                return Err(e);
            },
        }
    }
    assert(unread(*buf) =~= Seq::<u8>::empty());
    Ok(Value::Array(items))
}

/// Reads an object: the count of its present properties, the header entry
/// of each, which names the property by its place in the schema and gives
/// the size of its payload, then the payloads. Every required property
/// must be among them.
#[verifier::loop_isolation(false)]
pub fn decode_object(
    buf: &mut Bytes,
    props: &Vec<(String, Property)>,
    registry: &SchemaRegistry,
) -> (outcome: Result<Value, Error>)
    ensures
        unwired(
            unread(*old(buf)),
            unread(*final(buf)),
            outcome,
            value_unwire(unread(*old(buf)), SchemaType::Object(*props)@, registry@, false),
        ),
    decreases unread(*old(buf)).len(), 0int, 0int,
{
    proof {
        registry.lemma_finite();
    }
    let ghost input = unread(*buf);
    let ghost shape = properties_view(*props);
    if remaining(buf) < 1 {
        return Err(Error::Decode(DecodeError::UnexpectedEof));
    }
    let count: usize = get_u8(buf) as usize;
    let ghost entries = input.skip(1);
    let mut header: Vec<u8> = Vec::new();
    let mut k: usize = 0;
    while k < count
        invariant
            k <= count <= 255,
            shape.len() == props@.len(),
            entries == input.skip(1),
            input.len() >= 1,
            unread(*buf) =~= entries.skip(2 * k),
            2 * k <= entries.len(),
            header@ =~= entries.take(2 * k),
            header_fault(entries, count as int, shape.len() as int, k as int) == header_fault(
                entries,
                count as int,
                shape.len() as int,
                0,
            ),
        decreases count - k,
    {
        if remaining(buf) < 2 {
            return Err(Error::Decode(DecodeError::UnexpectedEof));
        }
        let index: u8 = get_u8(buf);
        let size: u8 = get_u8(buf);
        assert(unread(*buf) =~= entries.skip(2 * k + 2));
        assert(index == entries[2 * k]);
        assert(size == entries[2 * k + 1]);
        if index as usize >= props.len() {
            return Err(
                Error::Decode(DecodeError::InvalidData("Property index out of range".to_owned())),
            );
        }
        header.push(index);
        header.push(size);
        k += 1;
    }
    proof {
        lemma_header_present(entries, count as int, shape.len() as int, 0);
    }
    assert(header@ =~= input.subrange(1, 1 + 2 * count));
    let ghost content = input.skip(1 + 2 * count);
    assert(unread(*buf) =~= content);
    let mut fields: Vec<(String, Value)> = Vec::new();
    assert(fields_view(fields) =~= Seq::<crate::value::FieldView>::empty());
    let mut j: usize = 0;
    while j < count
        invariant
            j <= count <= 255,
            registry@.dom().finite(),
            shape == properties_view(*props),
            shape.len() == props@.len(),
            header@.len() == 2 * count,
            forall|i: int| 0 <= i < count ==> (#[trigger] header@[2 * i]) < props@.len(),
            is_tail(unread(*buf), content),
            content.len() < input.len(),
            fields_unwire(unread(*buf), header@, shape, registry@, j as int, fields_view(fields))
                == fields_unwire(content, header@, shape, registry@, 0, Seq::empty()),
        decreases count - j,
    {
        let ghost here = unread(*buf);
        let index: usize = header[2 * j] as usize;
        let size: usize = header[2 * j + 1] as usize;
        assert(header@[2 * (j as int)] < props@.len());
        if remaining(buf) < size {
            proof {
                lemma_tail_of_tail(unread(*buf), content, input);
            }
            return Err(Error::Decode(DecodeError::UnexpectedEof));
        }
        let mut region = split_to(buf, size);
        assert(unread(region) =~= here.take(size as int));
        assert(unread(*buf) =~= here.skip(size as int));
        proof {
            lemma_tail_of_tail(unread(*buf), here, content);
        }
        let prop = &props[index];
        assert(shape[index as int].schema == prop.1.schema_type@);
        assert(shape[index as int].name == prop.0@);
        match decode_value(&mut region, &prop.1.schema_type, registry, true) {
            Ok(value) => {
                put(&mut fields, prop.0.clone(), value);
            },
            Err(e) => {
                proof {
                    lemma_tail_of_tail(unread(*buf), content, input);
                }
                return Err(e);
            },
        }
        j += 1;
    }
    assert(entry_names(fields@) =~= field_names(fields_view(fields)));
    let mut i: usize = 0;
    while i < props.len()
        invariant
            i <= props.len(),
            shape == properties_view(*props),
            shape.len() == props@.len(),
            entry_names(fields@) == field_names(fields_view(fields)),
            missing_required(shape, fields_view(fields), i as int) == missing_required(
                shape,
                fields_view(fields),
                0,
            ),
        decreases props.len() - i,
    {
        let prop = &props[i];
        assert(shape[i as int].name == prop.0@);
        assert(shape[i as int].required == prop.1.required);
        if prop.1.required {
            if find(&fields, prop.0.as_str()).is_none() {
                proof {
                    lemma_tail_of_tail(unread(*buf), content, input);
                }
                return Err(Error::Schema(SchemaError::MissingField(prop.0.clone())));
            }
        }
        i += 1;
    }
    proof {
        lemma_tail_of_tail(unread(*buf), content, input);
    }
    Ok(Value::Object(fields))
}

/// Reads the value that the buffer holds under a schema. Inside a payload
/// (`nested`) a plain string takes all of the buffer.
pub fn decode_value(
    buf: &mut Bytes,
    schema: &SchemaType,
    registry: &SchemaRegistry,
    nested: bool,
) -> (outcome: Result<Value, Error>)
    ensures
        unwired(
            unread(*old(buf)),
            unread(*final(buf)),
            outcome,
            value_unwire(unread(*old(buf)), schema@, registry@, nested),
        ),
    decreases unread(*old(buf)).len(),
        (if schema@ is Reference {
            2int
        } else {
            1int
        }),
        0int,
{
    proof {
        registry.lemma_finite();
    }
    match schema {
        SchemaType::Boolean => decode_boolean(buf),
        SchemaType::Integer(format) => decode_integer(buf, *format),
        SchemaType::Number(format) => decode_number(buf, *format),
        SchemaType::String(format) => decode_string_format(buf, *format, nested),
        SchemaType::Array(child) => decode_array(buf, child, registry),
        SchemaType::Object(props) => decode_object(buf, props, registry),
        SchemaType::Reference(reference) => match registry.resolve_shared(reference.as_str()) {
            Ok(target) => {
                proof {
                    lemma_resolve_terminal(registry@, reference@, Set::empty());
                }
                decode_value(buf, target, registry, nested)
            },
            Err(e) => Err(e),
        },
        SchemaType::Null => decode_null(buf),
    }
}

impl Default for Decoder {
    fn default() -> Decoder {
        Decoder
    }
}

impl Decoder {
    /// A decoder.
    pub fn new() -> Decoder {
        Decoder
    }

    /// Reads the value that the buffer holds under a schema without references.
    pub fn decode(buf: &mut Bytes, schema: &SchemaType) -> (outcome: Result<Value, Error>)
        ensures
            unwired(
                unread(*old(buf)),
                unread(*final(buf)),
                outcome,
                value_unwire(unread(*old(buf)), schema@, Map::empty(), false),
            ),
    {
        let registry = SchemaRegistry::new();
        decode_value(buf, schema, &registry, false)
    }

    /// Reads the value that the buffer holds under a schema, its references
    /// resolved through the registry.
    pub fn decode_with_registry(
        buf: &mut Bytes,
        schema: &SchemaType,
        registry: &SchemaRegistry,
    ) -> (outcome: Result<Value, Error>)
        ensures
            unwired(
                unread(*old(buf)),
                unread(*final(buf)),
                outcome,
                value_unwire(unread(*old(buf)), schema@, registry@, false),
            ),
    {
        decode_value(buf, schema, registry, false)
    }
}

} // verus!
