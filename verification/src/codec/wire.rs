//! The wire format, as mathematics.
//!
//! [`value_wire`] says which bytes a value has under a schema, or why it has
//! none; [`value_unwire`] says which value a run of bytes holds under a
//! schema, and what is left of the bytes after it. The encoder and the
//! decoder are proved against the two, and the laws of the format are
//! proved of them.
//!
//! An object is a count of its present properties, then for each of them
//! its place in the schema and the size of its payload, then the payloads.
//! An array is its elements, each behind the size of its payload. Inside a
//! payload a plain string stands bare, its size being that of the payload;
//! on its own it carries a two-byte length.

use vstd::prelude::*;
use vstd::utf8::{decode_utf8, encode_utf8, valid_utf8};

use crate::codec::buffer::{
    binary_unwire, binary_wire, buffer_limit, i32_be, i32_from_be, i64_be, i64_from_be,
    string_unwire, string_wire, u32_be, u32_from_be, u64_be, u64_from_be,
};
use crate::codec::ieee::{narrow_bits, widen_bits};
use crate::error::{DecodeErrorView, EncodeErrorView, ErrorView, SchemaErrorView};
use crate::formats::datetime::{
    date_format, date_from_text, date_unwire, datetime_from_text, datetime_unwire, invalid_date,
    invalid_datetime,
};
use crate::formats::ipaddr::{
    invalid_ipv4, invalid_ipv6, ipv4_from_text, ipv6_from_text, octets_unwire,
};
use crate::formats::uuid::{invalid_uuid, uuid_from_text, uuid_unwire};
use crate::names::{first_index, occurs};
use crate::schema::definition::{
    IntegerFormat, NumberFormat, PropertyView, SchemaView, StringFormat,
};
use crate::schema::registry::{lemma_resolve_terminal, resolved};
use crate::value::{field_names, FieldView, ValueView};

verus! {

/// The schemas of a registry, by name.
pub type Schemas = Map<Seq<char>, SchemaView>;

/// The name of a value's kind, as errors quote it.
pub open spec fn kind_name(v: ValueView) -> Seq<char> {
    match v {
        ValueView::Boolean(_) => "boolean"@,
        ValueView::Integer(_) => "integer"@,
        ValueView::Float(_) => "float"@,
        ValueView::Double(_) => "double"@,
        ValueView::String(_) => "string"@,
        ValueView::Uuid(_) => "uuid"@,
        ValueView::DateTime(_) => "datetime"@,
        ValueView::Date(_) => "date"@,
        ValueView::Ipv4(_) => "ipv4"@,
        ValueView::Ipv6(_) => "ipv6"@,
        ValueView::Binary(_) => "binary"@,
        ValueView::Array(_) => "array"@,
        ValueView::Object(_) => "object"@,
        ValueView::Null => "null"@,
    }
}

/// The error for a value of another kind than the schema asks for.
pub open spec fn mismatch(expected: Seq<char>, v: ValueView) -> ErrorView {
    ErrorView::Encode(EncodeErrorView::TypeMismatch { expected, actual: kind_name(v) })
}

/// The error for an encoding that breaks a limit or a malformed text.
pub open spec fn invalid_format(detail: Seq<char>) -> ErrorView {
    ErrorView::Encode(EncodeErrorView::InvalidFormat(detail))
}

/// The error for bytes that are no encoding.
pub open spec fn invalid_data(detail: Seq<char>) -> ErrorView {
    ErrorView::Decode(DecodeErrorView::InvalidData(detail))
}

/// The error for bytes that end too early.
pub open spec fn eof() -> ErrorView {
    ErrorView::Decode(DecodeErrorView::UnexpectedEof)
}

/// Detail of the error for an integer that does not fit four bytes.
pub open spec fn int32_out_of_range() -> Seq<char> {
    "Integer out of range for int32"@
}

/// Detail of the error for an array element of more than 255 bytes.
pub open spec fn element_too_large() -> Seq<char> {
    "Array element too large: more than 255 bytes"@
}

/// Detail of the error for a property payload of more than 255 bytes.
pub open spec fn property_too_large() -> Seq<char> {
    "Property too large: more than 255 bytes"@
}

/// Detail of the error for an object with more properties than a header can list.
pub open spec fn too_many_properties() -> Seq<char> {
    "Too many properties: more than 255"@
}

/// Detail of the error for a byte that is no boolean.
pub open spec fn invalid_boolean() -> Seq<char> {
    "Invalid boolean value"@
}

/// Detail of the error for a byte that is no null.
pub open spec fn invalid_null() -> Seq<char> {
    "Invalid null value"@
}

/// Detail of the error for a header entry that names no property of the schema.
pub open spec fn invalid_index() -> Seq<char> {
    "Property index out of range"@
}

/// Bytes written into a buffer of their own: they are there, unless they
/// are more than a buffer can hold.
pub open spec fn fresh(wire: Result<Seq<u8>, EncodeErrorView>) -> Result<Seq<u8>, ErrorView> {
    match wire {
        Err(e) => Err(ErrorView::Encode(e)),
        Ok(bytes) => if bytes.len() > buffer_limit() {
            Err(ErrorView::Encode(EncodeErrorView::BufferOverflow))
        } else {
            Ok(bytes)
        },
    }
}

/// The bytes read from a text, or the error that quotes the text.
pub open spec fn read_or(read: Option<Seq<u8>>, detail: Seq<char>) -> Result<
    Seq<u8>,
    EncodeErrorView,
> {
    match read {
        Some(bytes) => Ok(bytes),
        None => Err(EncodeErrorView::InvalidFormat(detail)),
    }
}

/// Wire form of a boolean: one byte, 1 for true and 0 for false.
pub open spec fn boolean_wire(v: ValueView) -> Result<Seq<u8>, ErrorView> {
    match v {
        ValueView::Boolean(b) => Ok(
            seq![if b {
                1u8
            } else {
                0u8
            }],
        ),
        _ => Err(mismatch("boolean"@, v)),
    }
}

/// Wire form of an integer: four or eight bytes, two's complement,
/// big-endian. A number that does not fit four bytes is refused there.
pub open spec fn integer_wire(v: ValueView, format: IntegerFormat) -> Result<Seq<u8>, ErrorView> {
    match v {
        ValueView::Integer(i) => match format {
            IntegerFormat::Int32 => if i < -0x8000_0000 || i > 0x7FFF_FFFF {
                Err(invalid_format(int32_out_of_range()))
            } else {
                Ok(i32_be(i as int))
            },
            IntegerFormat::Int64 => Ok(i64_be(i as int)),
        },
        _ => Err(mismatch("integer"@, v)),
    }
}

/// Wire form of a number: the four or eight bytes of its bit pattern,
/// big-endian. A value of the other width is converted.
pub open spec fn number_wire(v: ValueView, format: NumberFormat) -> Result<Seq<u8>, ErrorView> {
    match format {
        NumberFormat::Float => match v {
            ValueView::Float(bits) => Ok(u32_be(bits as int)),
            ValueView::Double(bits) => Ok(u32_be(narrow_bits(bits) as int)),
            _ => Err(mismatch("float"@, v)),
        },
        NumberFormat::Double => match v {
            ValueView::Double(bits) => Ok(u64_be(bits as int)),
            ValueView::Float(bits) => Ok(u64_be(widen_bits(bits) as int)),
            _ => Err(mismatch("double"@, v)),
        },
    }
}

/// Wire form of a string of some format. A value of the format's own kind
/// gives its bytes; for the formats with a textual form, a text is read
/// first. A plain string inside a payload (`nested`) is its bare UTF-8
/// bytes.
pub open spec fn string_format_wire(v: ValueView, format: StringFormat, nested: bool) -> Result<
    Seq<u8>,
    ErrorView,
> {
    match format {
        StringFormat::Plain => match v {
            ValueView::String(s) => if nested {
                fresh(Ok(encode_utf8(s)))
            } else {
                fresh(string_wire(s))
            },
            _ => Err(mismatch("string"@, v)),
        },
        StringFormat::Uuid => match v {
            ValueView::Uuid(bytes) => fresh(Ok(bytes)),
            ValueView::String(s) => fresh(read_or(uuid_from_text(s), invalid_uuid(s))),
            _ => Err(mismatch("uuid"@, v)),
        },
        StringFormat::DateTime => match v {
            ValueView::DateTime(millis) => Ok(i64_be(millis as int)),
            ValueView::String(s) => match datetime_from_text(s) {
                Some(millis) => Ok(i64_be(millis as int)),
                None => Err(invalid_format(invalid_datetime(s))),
            },
            _ => Err(mismatch("datetime"@, v)),
        },
        StringFormat::Date => match v {
            ValueView::Date(days) => Ok(i32_be(days as int)),
            ValueView::String(s) => match date_from_text(s, date_format()) {
                Some(days) => Ok(i32_be(days as int)),
                None => Err(invalid_format(invalid_date(s))),
            },
            _ => Err(mismatch("date"@, v)),
        },
        StringFormat::Ipv4 => match v {
            ValueView::Ipv4(octets) => fresh(Ok(octets)),
            ValueView::String(s) => fresh(read_or(ipv4_from_text(s), invalid_ipv4(s))),
            _ => Err(mismatch("ipv4"@, v)),
        },
        StringFormat::Ipv6 => match v {
            ValueView::Ipv6(octets) => fresh(Ok(octets)),
            ValueView::String(s) => fresh(read_or(ipv6_from_text(s), invalid_ipv6(s))),
            _ => Err(mismatch("ipv6"@, v)),
        },
        StringFormat::Binary => match v {
            ValueView::Binary(data) => fresh(binary_wire(data)),
            _ => Err(mismatch("binary"@, v)),
        },
    }
}

/// Wire form of null: one byte of zero.
pub open spec fn null_wire(v: ValueView) -> Result<Seq<u8>, ErrorView> {
    match v {
        ValueView::Null => Ok(seq![0u8]),
        _ => Err(mismatch("null"@, v)),
    }
}

/// The bytes of `v` under the schema `s`, or the first error met on the way.
pub open spec fn value_wire(v: ValueView, s: SchemaView, schemas: Schemas, nested: bool) -> Result<
    Seq<u8>,
    ErrorView,
>
    decreases v,
        (if s is Reference {
            1int
        } else {
            0int
        }),
    when schemas.dom().finite()
    via value_wire_decreases
{
    match s {
        SchemaView::Boolean => boolean_wire(v),
        SchemaView::Integer(format) => integer_wire(v, format),
        SchemaView::Number(format) => number_wire(v, format),
        SchemaView::String(format) => string_format_wire(v, format, nested),
        SchemaView::Array(child) => match v {
            ValueView::Array(items) => items_wire(items, *child, schemas, 0, Seq::empty()),
            _ => Err(mismatch("array"@, v)),
        },
        SchemaView::Object(props) => match v {
            ValueView::Object(fields) => match props_wire(
                fields,
                props,
                schemas,
                0,
                Seq::empty(),
                Seq::empty(),
            ) {
                Ok((entries, content)) => Ok(seq![(entries.len() / 2) as u8] + entries + content),
                Err(e) => Err(e),
            },
            _ => Err(mismatch("object"@, v)),
        },
        SchemaView::Reference(reference) => match resolved(schemas, reference) {
            Ok(target) => value_wire(v, target, schemas, nested),
            Err(e) => Err(ErrorView::Schema(e)),
        },
        SchemaView::Null => null_wire(v),
    }
}

/// The bytes of an array from its element `i` on, after the bytes `done` of
/// the elements before: each element is the size of its payload in one
/// byte, then the payload. A payload of more than 255 bytes is refused.
pub open spec fn items_wire(
    items: Seq<ValueView>,
    child: SchemaView,
    schemas: Schemas,
    i: int,
    done: Seq<u8>,
) -> Result<Seq<u8>, ErrorView>
    decreases items, items.len() - i,
    when schemas.dom().finite()
    via items_wire_decreases
{
    if i < 0 || i >= items.len() {
        Ok(done)
    } else {
        match value_wire(items[i], child, schemas, true) {
            Err(e) => Err(e),
            Ok(payload) => if payload.len() > 255 {
                Err(invalid_format(element_too_large()))
            } else if done.len() + 1 + payload.len() > buffer_limit() {
                Err(ErrorView::Encode(EncodeErrorView::BufferOverflow))
            } else {
                items_wire(items, child, schemas, i + 1, done.push(payload.len() as u8) + payload)
            },
        }
    }
}

/// The header entries and the payloads of an object from the property `i`
/// of its schema on, after the `entries` and the `content` of the
/// properties before. A property without a value is left out, unless it is
/// required. Neither a place past 255, nor more than 255 entries, nor a
/// payload of more than 255 bytes can be written.
pub open spec fn props_wire(
    fields: Seq<FieldView>,
    props: Seq<PropertyView>,
    schemas: Schemas,
    i: int,
    entries: Seq<u8>,
    content: Seq<u8>,
) -> Result<(Seq<u8>, Seq<u8>), ErrorView>
    decreases fields, props.len() - i,
    when schemas.dom().finite()
    via props_wire_decreases
{
    if i < 0 || i >= props.len() {
        Ok((entries, content))
    } else if !occurs(field_names(fields), props[i].name) {
        if props[i].required {
            Err(ErrorView::Schema(SchemaErrorView::MissingField(props[i].name)))
        } else {
            props_wire(fields, props, schemas, i + 1, entries, content)
        }
    } else if i > 255 || entries.len() >= 510 {
        Err(invalid_format(too_many_properties()))
    } else {
        match value_wire(
            fields[first_index(field_names(fields), props[i].name)].value,
            props[i].schema,
            schemas,
            true,
        ) {
            Err(e) => Err(e),
            Ok(payload) => if payload.len() > 255 {
                Err(invalid_format(property_too_large()))
            } else {
                props_wire(
                    fields,
                    props,
                    schemas,
                    i + 1,
                    entries.push(i as u8).push(payload.len() as u8),
                    content + payload,
                )
            },
        }
    }
}

#[via_fn]
proof fn value_wire_decreases(v: ValueView, s: SchemaView, schemas: Schemas, nested: bool) {
    if let SchemaView::Reference(reference) = s {
        lemma_resolve_terminal(schemas, reference, Set::empty());
    }
}

#[via_fn]
proof fn items_wire_decreases(
    items: Seq<ValueView>,
    child: SchemaView,
    schemas: Schemas,
    i: int,
    done: Seq<u8>,
) {
}

#[via_fn]
proof fn props_wire_decreases(
    fields: Seq<FieldView>,
    props: Seq<PropertyView>,
    schemas: Schemas,
    i: int,
    entries: Seq<u8>,
    content: Seq<u8>,
) {
    if 0 <= i < props.len() && occurs(field_names(fields), props[i].name) {
        let k = first_index(field_names(fields), props[i].name);
        assert(0 <= k < fields.len());
        assert(decreases_to!(fields => fields[k]));
        assert(decreases_to!(fields[k] => fields[k].value));
    }
}

/// What a run of bytes holds: a value and the bytes after it, or an error.
pub type Unwired = Result<(ValueView, Seq<u8>), ErrorView>;

/// Reads a boolean: one byte, which must be 0 or 1.
pub open spec fn boolean_unwire(input: Seq<u8>) -> Unwired {
    if input.len() < 1 {
        Err(eof())
    } else if input[0] == 0 {
        Ok((ValueView::Boolean(false), input.skip(1)))
    } else if input[0] == 1 {
        Ok((ValueView::Boolean(true), input.skip(1)))
    } else {
        Err(invalid_data(invalid_boolean()))
    }
}

/// Reads an integer of four or eight bytes.
pub open spec fn integer_unwire(input: Seq<u8>, format: IntegerFormat) -> Unwired {
    match format {
        IntegerFormat::Int32 => if input.len() < 4 {
            Err(eof())
        } else {
            Ok((ValueView::Integer(i32_from_be(input) as i64), input.skip(4)))
        },
        IntegerFormat::Int64 => if input.len() < 8 {
            Err(eof())
        } else {
            Ok((ValueView::Integer(i64_from_be(input) as i64), input.skip(8)))
        },
    }
}

/// Reads the bit pattern of a number of four or eight bytes.
pub open spec fn number_unwire(input: Seq<u8>, format: NumberFormat) -> Unwired {
    match format {
        NumberFormat::Float => if input.len() < 4 {
            Err(eof())
        } else {
            Ok((ValueView::Float(u32_from_be(input) as u32), input.skip(4)))
        },
        NumberFormat::Double => if input.len() < 8 {
            Err(eof())
        } else {
            Ok((ValueView::Double(u64_from_be(input) as u64), input.skip(8)))
        },
    }
}

/// Reads a string of some format. A plain string inside a payload
/// (`nested`) is all of the payload.
pub open spec fn string_format_unwire(input: Seq<u8>, format: StringFormat, nested: bool) -> Unwired {
    match format {
        StringFormat::Plain => if nested {
            if valid_utf8(input) {
                Ok((ValueView::String(decode_utf8(input)), Seq::empty()))
            } else {
                Err(invalid_data(crate::codec::buffer::invalid_utf8()))
            }
        } else {
            match string_unwire(input) {
                Ok((text, rest)) => Ok((ValueView::String(text), rest)),
                Err(e) => Err(ErrorView::Decode(e)),
            }
        },
        StringFormat::Uuid => match uuid_unwire(input) {
            Ok((bytes, rest)) => Ok((ValueView::Uuid(bytes), rest)),
            Err(e) => Err(ErrorView::Decode(e)),
        },
        StringFormat::DateTime => match datetime_unwire(input) {
            Ok((millis, rest)) => Ok((ValueView::DateTime(millis), rest)),
            Err(e) => Err(ErrorView::Decode(e)),
        },
        StringFormat::Date => match date_unwire(input) {
            Ok((days, rest)) => Ok((ValueView::Date(days), rest)),
            Err(e) => Err(ErrorView::Decode(e)),
        },
        StringFormat::Ipv4 => match octets_unwire(input, 4) {
            Ok((octets, rest)) => Ok((ValueView::Ipv4(octets), rest)),
            Err(e) => Err(ErrorView::Decode(e)),
        },
        StringFormat::Ipv6 => match octets_unwire(input, 16) {
            Ok((octets, rest)) => Ok((ValueView::Ipv6(octets), rest)),
            Err(e) => Err(ErrorView::Decode(e)),
        },
        StringFormat::Binary => match binary_unwire(input) {
            Ok((data, rest)) => Ok((ValueView::Binary(data), rest)),
            Err(e) => Err(ErrorView::Decode(e)),
        },
    }
}

/// Reads null: one byte, which must be zero.
pub open spec fn null_unwire(input: Seq<u8>) -> Unwired {
    if input.len() < 1 {
        Err(eof())
    } else if input[0] != 0 {
        Err(invalid_data(invalid_null()))
    } else {
        Ok((ValueView::Null, input.skip(1)))
    }
}

/// What is wrong with the header entries of an object from entry `k` on,
/// if anything: an entry that the input is too short for, or one whose
/// place is not in the schema's `limit` properties.
pub open spec fn header_fault(input: Seq<u8>, count: int, limit: int, k: int) -> Option<ErrorView>
    decreases count - k,
{
    if k < 0 || k >= count {
        None
    } else if input.len() < 2 * k + 2 {
        Some(eof())
    } else if input[2 * k] >= limit {
        Some(invalid_data(invalid_index()))
    } else {
        header_fault(input, count, limit, k + 1)
    }
}

/// The fields `fields` with `value` under `name`: in the place of the first
/// field of that name, or at the end where there is none.
pub open spec fn put_field(fields: Seq<FieldView>, name: Seq<char>, value: ValueView) -> Seq<
    FieldView,
> {
    if occurs(field_names(fields), name) {
        fields.update(first_index(field_names(fields), name), FieldView { name, value })
    } else {
        fields.push(FieldView { name, value })
    }
}

/// The name of the first required property from `i` on that has no field.
pub open spec fn missing_required(props: Seq<PropertyView>, fields: Seq<FieldView>, i: int) -> Option<
    Seq<char>,
>
    decreases props.len() - i,
{
    if i < 0 || i >= props.len() {
        None
    } else if props[i].required && !occurs(field_names(fields), props[i].name) {
        Some(props[i].name)
    } else {
        missing_required(props, fields, i + 1)
    }
}

/// The value that `input` holds under the schema `s`, and the input after
/// it; or the first error met on the way.
pub open spec fn value_unwire(input: Seq<u8>, s: SchemaView, schemas: Schemas, nested: bool) -> Unwired
    decreases input.len(),
        (if s is Reference {
            2int
        } else {
            1int
        }),
        0int,
    when schemas.dom().finite()
    via value_unwire_decreases
{
    match s {
        SchemaView::Boolean => boolean_unwire(input),
        SchemaView::Integer(format) => integer_unwire(input, format),
        SchemaView::Number(format) => number_unwire(input, format),
        SchemaView::String(format) => string_format_unwire(input, format, nested),
        SchemaView::Array(child) => match items_unwire(input, *child, schemas, Seq::empty()) {
            Ok(items) => Ok((ValueView::Array(items), Seq::empty())),
            Err(e) => Err(e),
        },
        SchemaView::Object(props) => if input.len() < 1 {
            Err(eof())
        } else {
            let count = input[0] as int;
            match header_fault(input.skip(1), count, props.len() as int, 0) {
                Some(e) => Err(e),
                None => match fields_unwire(
                    input.skip(1 + 2 * count),
                    input.subrange(1, 1 + 2 * count),
                    props,
                    schemas,
                    0,
                    Seq::empty(),
                ) {
                    Err(e) => Err(e),
                    Ok((fields, rest)) => match missing_required(props, fields, 0) {
                        Some(name) => Err(ErrorView::Schema(SchemaErrorView::MissingField(name))),
                        None => Ok((ValueView::Object(fields), rest)),
                    },
                },
            }
        },
        SchemaView::Reference(reference) => match resolved(schemas, reference) {
            Ok(target) => value_unwire(input, target, schemas, nested),
            Err(e) => Err(ErrorView::Schema(e)),
        },
        SchemaView::Null => null_unwire(input),
    }
}

/// The elements that `input` holds after the elements `done`, to the end
/// of the input: each is a size in one byte and a payload of that size.
pub open spec fn items_unwire(
    input: Seq<u8>,
    child: SchemaView,
    schemas: Schemas,
    done: Seq<ValueView>,
) -> Result<Seq<ValueView>, ErrorView>
    decreases input.len(), 0int, 0int,
    when schemas.dom().finite()
    via items_unwire_decreases
{
    if input.len() == 0 {
        Ok(done)
    } else if input.len() - 1 < input[0] {
        Err(eof())
    } else {
        match value_unwire(input.subrange(1, 1 + input[0]), child, schemas, true) {
            Err(e) => Err(e),
            Ok((v, _)) => items_unwire(input.skip(1 + input[0]), child, schemas, done.push(v)),
        }
    }
}

/// The fields that `content` holds for the header entries from entry `k`
/// on, after the fields `done`, and the content after them. Entry `k` of
/// the header names a property by its place and gives the size of its
/// payload; the payloads lie in the content in the order of the entries.
pub open spec fn fields_unwire(
    content: Seq<u8>,
    header: Seq<u8>,
    props: Seq<PropertyView>,
    schemas: Schemas,
    k: int,
    done: Seq<FieldView>,
) -> Result<(Seq<FieldView>, Seq<u8>), ErrorView>
    decreases content.len(), 3int, header.len() - 2 * k,
    when schemas.dom().finite()
    via fields_unwire_decreases
{
    if k < 0 || 2 * k + 2 > header.len() {
        Ok((done, content))
    } else if content.len() < header[2 * k + 1] {
        Err(eof())
    } else {
        let prop = props[header[2 * k] as int];
        match value_unwire(content.take(header[2 * k + 1] as int), prop.schema, schemas, true) {
            Err(e) => Err(e),
            Ok((v, _)) => fields_unwire(
                content.skip(header[2 * k + 1] as int),
                header,
                props,
                schemas,
                k + 1,
                put_field(done, prop.name, v),
            ),
        }
    }
}

/// Header entries without a fault are all there.
pub proof fn lemma_header_present(input: Seq<u8>, count: int, limit: int, k: int)
    requires
        0 <= k <= count,
        header_fault(input, count, limit, k) is None,
    ensures
        k < count ==> input.len() >= 2 * count,
        forall|j: int| k <= j < count ==> (#[trigger] input[2 * j]) < limit,
    decreases count - k,
{
    if k < count {
        lemma_header_present(input, count, limit, k + 1);
    }
}

#[via_fn]
proof fn value_unwire_decreases(input: Seq<u8>, s: SchemaView, schemas: Schemas, nested: bool) {
    match s {
        SchemaView::Reference(reference) => {
            lemma_resolve_terminal(schemas, reference, Set::empty());
        },
        SchemaView::Object(props) => {
            if input.len() >= 1 {
                let count = input[0] as int;
                if header_fault(input.skip(1), count, props.len() as int, 0) is None {
                    lemma_header_present(input.skip(1), count, props.len() as int, 0);
                }
            }
        },
        _ => {},
    }
}

#[via_fn]
proof fn items_unwire_decreases(
    input: Seq<u8>,
    child: SchemaView,
    schemas: Schemas,
    done: Seq<ValueView>,
) {
}

#[via_fn]
proof fn fields_unwire_decreases(
    content: Seq<u8>,
    header: Seq<u8>,
    props: Seq<PropertyView>,
    schemas: Schemas,
    k: int,
    done: Seq<FieldView>,
) {
}

} // verus!
