//! Round trip: what is encoded is what decoding gives back.

use vstd::prelude::*;
use vstd::utf8::{encode_utf8, encode_utf8_decode_utf8, encode_utf8_valid_utf8};

use crate::codec::buffer::{
    lemma_i32_round_trip, lemma_i64_round_trip, lemma_u16_round_trip, lemma_u32_round_trip,
    lemma_u64_round_trip, u16_be, u16_from_be, u32_be, u32_from_be,
};
use crate::codec::encoder::encoded;
use crate::codec::laws::conformance::{conforms, distinct_names, schema_fields};
use crate::codec::wire::{
    fields_unwire, header_fault, items_unwire, items_wire, missing_required, props_wire, put_field,
    Schemas, string_format_unwire, string_format_wire, value_unwire, value_wire,
};
use crate::error::ErrorView;
use crate::names::{first_index, occurs};
use crate::schema::definition::{
    IntegerFormat, NumberFormat, PropertyView, SchemaView, StringFormat,
};
use crate::schema::registry::{lemma_resolve_terminal, resolved};
use crate::value::{field_names, FieldView, ValueView};

verus! {

/// A string of any format, encoded and decoded, is the string.
proof fn lemma_string_round_trip(v: ValueView, format: StringFormat, schemas: Schemas, nested: bool)
    requires
        schemas.dom().finite(),
        conforms(v, SchemaView::String(format), schemas),
        string_format_wire(v, format, nested) is Ok,
    ensures
        string_format_unwire(string_format_wire(v, format, nested)->Ok_0, format, nested) == Ok::<
            (ValueView, Seq<u8>),
            ErrorView,
        >((v, Seq::empty())),
{
    let bytes = string_format_wire(v, format, nested)->Ok_0;
    match format {
        StringFormat::Plain => {
            let text = v->String_0;
            let body = encode_utf8(text);
            encode_utf8_valid_utf8(text);
            encode_utf8_decode_utf8(text);
            if !nested {
                lemma_u16_round_trip(body.len() as int);
                assert(bytes.subrange(2, 2 + body.len() as int) =~= body);
                assert(bytes.skip(2 + body.len() as int) =~= Seq::<u8>::empty());
                assert(u16_from_be(bytes) == u16_from_be(u16_be(body.len() as int)));
            }
        },
        StringFormat::Uuid => {
            assert(bytes.take(16) =~= bytes);
            assert(bytes.skip(16) =~= Seq::<u8>::empty());
        },
        StringFormat::DateTime => {
            let millis = v->DateTime_0;
            lemma_i64_round_trip(millis as int);
            assert(bytes.skip(8) =~= Seq::<u8>::empty());
        },
        StringFormat::Date => {
            let days = v->Date_0;
            lemma_i32_round_trip(days as int);
            assert(bytes.skip(4) =~= Seq::<u8>::empty());
        },
        StringFormat::Ipv4 => {
            assert(bytes.take(4) =~= bytes);
            assert(bytes.skip(4) =~= Seq::<u8>::empty());
        },
        StringFormat::Ipv6 => {
            assert(bytes.take(16) =~= bytes);
            assert(bytes.skip(16) =~= Seq::<u8>::empty());
        },
        StringFormat::Binary => {
            let data = v->Binary_0;
            lemma_u32_round_trip(data.len() as int);
            assert(bytes.subrange(4, 4 + data.len() as int) =~= data);
            assert(bytes.skip(4 + data.len() as int) =~= Seq::<u8>::empty());
            assert(u32_from_be(bytes) == u32_from_be(u32_be(data.len() as int)));
        },
    }
}

/// A boolean, an integer, a number or null, encoded and decoded, is itself.
proof fn lemma_plain_round_trip(v: ValueView, s: SchemaView, schemas: Schemas)
    requires
        schemas.dom().finite(),
        conforms(v, s, schemas),
        s is Boolean || s is Integer || s is Number || s is Null,
        value_wire(v, s, schemas, false) is Ok,
    ensures
        value_unwire(value_wire(v, s, schemas, false)->Ok_0, s, schemas, false) == Ok::<
            (ValueView, Seq<u8>),
            ErrorView,
        >((v, Seq::empty())),
{
    let bytes = value_wire(v, s, schemas, false)->Ok_0;
    match s {
        SchemaView::Boolean => {
            assert(bytes.skip(1) =~= Seq::<u8>::empty());
        },
        SchemaView::Integer(IntegerFormat::Int32) => {
            lemma_i32_round_trip(v->Integer_0 as int);
            assert(bytes.skip(4) =~= Seq::<u8>::empty());
        },
        SchemaView::Integer(IntegerFormat::Int64) => {
            lemma_i64_round_trip(v->Integer_0 as int);
            assert(bytes.skip(8) =~= Seq::<u8>::empty());
        },
        SchemaView::Number(NumberFormat::Float) => {
            lemma_u32_round_trip(v->Float_0 as int);
            assert(bytes.skip(4) =~= Seq::<u8>::empty());
        },
        SchemaView::Number(NumberFormat::Double) => {
            lemma_u64_round_trip(v->Double_0 as int);
            assert(bytes.skip(8) =~= Seq::<u8>::empty());
        },
        _ => {
            assert(bytes.skip(1) =~= Seq::<u8>::empty());
        },
    }
}

/// Header entries that are all there, each naming a property of the
/// schema, have no fault.
proof fn lemma_header_sound(input: Seq<u8>, count: int, limit: int, k: int)
    requires
        0 <= k <= count,
        input.len() >= 2 * count,
        forall|j: int| k <= j < count ==> (#[trigger] input[2 * j]) < limit,
    ensures
        header_fault(input, count, limit, k) is None,
    decreases count - k,
{
    if k < count {
        assert(input[2 * k] < limit);
        lemma_header_sound(input, count, limit, k + 1);
    }
}

/// Where every property without a field is optional, no required property is missing.
proof fn lemma_none_missing(props: Seq<PropertyView>, fields: Seq<FieldView>, i: int)
    requires
        0 <= i,
        forall|j: int|
            0 <= j < props.len() && !occurs(field_names(fields), (#[trigger] props[j]).name)
                ==> !props[j].required,
    ensures
        missing_required(props, fields, i) is None,
    decreases props.len() - i,
{
    if i < props.len() {
        assert(props[i].required ==> occurs(field_names(fields), props[i].name));
        lemma_none_missing(props, fields, i + 1);
    }
}

/// The elements of an array from element `i` on, encoded after the bytes
/// `done`, are read back as themselves.
proof fn lemma_items_round_trip(
    items: Seq<ValueView>,
    child: SchemaView,
    schemas: Schemas,
    i: int,
    done: Seq<u8>,
    read: Seq<ValueView>,
)
    requires
        schemas.dom().finite(),
        0 <= i <= items.len(),
        forall|j: int| 0 <= j < items.len() ==> conforms(#[trigger] items[j], child, schemas),
        items_wire(items, child, schemas, i, done) is Ok,
    ensures
        ({
            let bytes = items_wire(items, child, schemas, i, done)->Ok_0;
            &&& bytes.len() >= done.len()
            &&& bytes.take(done.len() as int) == done
            &&& items_unwire(bytes.skip(done.len() as int), child, schemas, read) == Ok::<
                Seq<ValueView>,
                ErrorView,
            >(read + items.skip(i))
        }),
    decreases items, items.len() - i, 0int,
{
    let bytes = items_wire(items, child, schemas, i, done)->Ok_0;
    if i >= items.len() {
        assert(bytes.take(done.len() as int) =~= done);
        assert(bytes.skip(done.len() as int) =~= Seq::<u8>::empty());
        assert(read + items.skip(i) =~= read);
    } else {
        let payload = value_wire(items[i], child, schemas, true)->Ok_0;
        let next = done.push(payload.len() as u8) + payload;
        lemma_round_trip(items[i], child, schemas, true);
        lemma_items_round_trip(items, child, schemas, i + 1, next, read.push(items[i]));
        let tail = bytes.skip(done.len() as int);
        assert(bytes.take(next.len() as int) == next);
        assert(bytes.take(done.len() as int) =~= done) by {
            assert forall|j: int| 0 <= j < done.len() implies bytes[j] == done[j] by {
                assert(bytes.take(next.len() as int)[j] == next[j]);
            }
        }
        assert(tail[0] == payload.len() as u8) by {
            assert(bytes.take(next.len() as int)[done.len() as int] == next[done.len() as int]);
        }
        assert(tail.subrange(1, 1 + payload.len() as int) =~= payload) by {
            assert forall|j: int| 0 <= j < payload.len() implies tail[1 + j] == payload[j] by {
                assert(bytes.take(next.len() as int)[done.len() + 1 + j] == next[done.len() + 1
                    + j]);
            }
        }
        assert(tail.skip(1 + payload.len() as int) =~= bytes.skip(next.len() as int));
        assert(read.push(items[i]) + items.skip(i + 1) =~= read + items.skip(i));
    }
}

/// The properties of an object from property `i` on, encoded after the
/// header entries `entries` and the payloads `content`, are read back as
/// the fields they were taken from, in the order of the schema.
proof fn lemma_props_round_trip(
    fields: Seq<FieldView>,
    props: Seq<PropertyView>,
    schemas: Schemas,
    i: int,
    entries: Seq<u8>,
    content: Seq<u8>,
    read: Seq<FieldView>,
)
    requires
        schemas.dom().finite(),
        0 <= i <= props.len(),
        distinct_names(props),
        entries.len() % 2 == 0,
        entries.len() <= 510,
        forall|j: int|
            0 <= j < props.len() && occurs(field_names(fields), (#[trigger] props[j]).name)
                ==> conforms(
                fields[first_index(field_names(fields), props[j].name)].value,
                props[j].schema,
                schemas,
            ),
        forall|d: int|
            0 <= d < read.len() ==> exists|j: int|
                0 <= j < i && (#[trigger] props[j]).name == (#[trigger] read[d]).name,
        props_wire(fields, props, schemas, i, entries, content) is Ok,
    ensures
        ({
            let (header, payloads) = props_wire(fields, props, schemas, i, entries, content)->Ok_0;
            &&& header.len() % 2 == 0
            &&& entries.len() <= header.len() <= 510
            &&& content.len() <= payloads.len()
            &&& header.take(entries.len() as int) == entries
            &&& payloads.take(content.len() as int) == content
            &&& forall|k: int|
                entries.len() <= 2 * k < header.len() ==> (#[trigger] header[2 * k]) < props.len()
            &&& fields_unwire(
                payloads.skip(content.len() as int),
                header,
                props,
                schemas,
                entries.len() as int / 2,
                read,
            ) == Ok::<(Seq<FieldView>, Seq<u8>), ErrorView>(
                (read + schema_fields(fields, props, i), Seq::empty()),
            )
        }),
    decreases fields, props.len() - i, 0int,
{
    let (header, payloads) = props_wire(fields, props, schemas, i, entries, content)->Ok_0;
    let k = entries.len() as int / 2;
    if i >= props.len() {
        assert(header.take(entries.len() as int) =~= entries);
        assert(payloads.take(content.len() as int) =~= content);
        assert(payloads.skip(content.len() as int) =~= Seq::<u8>::empty());
        assert(read + schema_fields(fields, props, i) =~= read);
    } else if !occurs(field_names(fields), props[i].name) {
        assert forall|d: int| 0 <= d < read.len() implies exists|j: int|
            0 <= j < i + 1 && (#[trigger] props[j]).name == (#[trigger] read[d]).name by {
            let j = choose|j: int| 0 <= j < i && (#[trigger] props[j]).name == read[d].name;
            assert(0 <= j < i + 1 && props[j].name == read[d].name);
        }
        lemma_props_round_trip(fields, props, schemas, i + 1, entries, content, read);
    } else {
        let at = first_index(field_names(fields), props[i].name);
        assert(0 <= at < fields.len());
        let value = fields[at].value;
        let field = FieldView { name: props[i].name, value };
        let payload = value_wire(value, props[i].schema, schemas, true)->Ok_0;
        let longer = entries.push(i as u8).push(payload.len() as u8);
        let fuller = content + payload;
        assert(decreases_to!(fields => value)) by {
            assert(decreases_to!(fields => fields[at]));
            assert(decreases_to!(fields[at] => fields[at].value));
        }
        lemma_round_trip(value, props[i].schema, schemas, true);
        let seen = read.push(field);
        assert forall|d: int| 0 <= d < seen.len() implies exists|j: int|
            0 <= j < i + 1 && (#[trigger] props[j]).name == (#[trigger] seen[d]).name by {
            if d < read.len() {
                let j = choose|j: int| 0 <= j < i && (#[trigger] props[j]).name == read[d].name;
                assert(0 <= j < i + 1 && props[j].name == seen[d].name);
            } else {
                assert(0 <= i < i + 1 && props[i].name == seen[d].name);
            }
        }
        lemma_props_round_trip(fields, props, schemas, i + 1, longer, fuller, seen);
        let rest = payloads.skip(content.len() as int);
        assert(header.take(longer.len() as int) == longer);
        assert(payloads.take(fuller.len() as int) == fuller);
        assert(header.take(entries.len() as int) =~= entries) by {
            assert forall|j: int| 0 <= j < entries.len() implies header[j] == entries[j] by {
                assert(header.take(longer.len() as int)[j] == longer[j]);
            }
        }
        assert(payloads.take(content.len() as int) =~= content) by {
            assert forall|j: int| 0 <= j < content.len() implies payloads[j] == content[j] by {
                assert(payloads.take(fuller.len() as int)[j] == fuller[j]);
            }
        }
        assert(header[2 * k] == i as u8 && header[2 * k + 1] == payload.len() as u8) by {
            assert(header.take(longer.len() as int)[2 * k] == longer[2 * k]);
            assert(header.take(longer.len() as int)[2 * k + 1] == longer[2 * k + 1]);
        }
        assert forall|m: int| entries.len() <= 2 * m < header.len() implies (
        #[trigger] header[2 * m]) < props.len() by {
            if 2 * m < longer.len() {
                assert(m == k);
            }
        }
        assert(rest.take(payload.len() as int) =~= payload) by {
            assert forall|j: int| 0 <= j < payload.len() implies rest[j] == payload[j] by {
                assert(payloads.take(fuller.len() as int)[content.len() + j] == fuller[
                    content.len() + j]);
            }
        }
        assert(rest.skip(payload.len() as int) =~= payloads.skip(fuller.len() as int));
        assert(!occurs(field_names(read), props[i].name)) by {
            if occurs(field_names(read), props[i].name) {
                let d = first_index(field_names(read), props[i].name);
                assert(field_names(read)[d] == props[i].name);
                let j = choose|j: int| 0 <= j < i && (#[trigger] props[j]).name == read[d].name;
                assert(props[j].name == props[i].name);
            }
        }
        assert(put_field(read, props[i].name, value) == seen);
        assert(longer.len() as int / 2 == k + 1);
        assert(seen + schema_fields(fields, props, i + 1) =~= read + schema_fields(
            fields,
            props,
            i,
        ));
    }
}

/// **Round trip.** A value that conforms to a schema and has an encoding
/// under it is what decoding that encoding under the same schema gives,
/// and the decoding uses up the encoding.
pub proof fn lemma_round_trip(v: ValueView, s: SchemaView, schemas: Schemas, nested: bool)
    requires
        schemas.dom().finite(),
        conforms(v, s, schemas),
        value_wire(v, s, schemas, nested) is Ok,
    ensures
        value_unwire(value_wire(v, s, schemas, nested)->Ok_0, s, schemas, nested) == Ok::<
            (ValueView, Seq<u8>),
            ErrorView,
        >((v, Seq::empty())),
    decreases v,
        (if s is Reference {
            1int
        } else {
            0int
        }),
        1int,
{
    let bytes = value_wire(v, s, schemas, nested)->Ok_0;
    match s {
        SchemaView::String(format) => {
            lemma_string_round_trip(v, format, schemas, nested);
        },
        SchemaView::Array(child) => {
            let items = v->Array_0;
            lemma_items_round_trip(items, *child, schemas, 0, Seq::empty(), Seq::empty());
            assert(bytes.skip(0) =~= bytes);
            assert(Seq::<ValueView>::empty() + items.skip(0) =~= items);
        },
        SchemaView::Object(props) => {
            let fields = v->Object_0;
            assert forall|d: int| 0 <= d < Seq::<FieldView>::empty().len() implies exists|j: int|
                0 <= j < 0 && (#[trigger] props[j]).name == (#[trigger] Seq::<
                    FieldView,
                >::empty()[d]).name by {}
            lemma_props_round_trip(
                fields,
                props,
                schemas,
                0,
                Seq::empty(),
                Seq::empty(),
                Seq::empty(),
            );
            let (header, payloads) = props_wire(
                fields,
                props,
                schemas,
                0,
                Seq::empty(),
                Seq::empty(),
            )->Ok_0;
            let count = header.len() as int / 2;
            assert(bytes == seq![count as u8] + header + payloads);
            assert(bytes[0] == count);
            assert(bytes.skip(1) =~= header + payloads);
            assert(bytes.subrange(1, 1 + 2 * count) =~= header);
            assert(bytes.skip(1 + 2 * count) =~= payloads);
            assert(payloads.skip(0) =~= payloads);
            assert forall|j: int| 0 <= j < count implies (#[trigger] bytes.skip(1)[2 * j])
                < props.len() by {
                assert(header[2 * j] < props.len());
            }
            lemma_header_sound(bytes.skip(1), count, props.len() as int, 0);
            assert(Seq::<FieldView>::empty() + schema_fields(fields, props, 0) =~= fields);
            lemma_none_missing(props, fields, 0);
        },
        SchemaView::Reference(reference) => {
            lemma_resolve_terminal(schemas, reference, Set::empty());
            lemma_round_trip(v, resolved(schemas, reference)->Ok_0, schemas, nested);
        },
        _ => {
            lemma_plain_round_trip(v, s, schemas);
        },
    }
}

} // verus!
