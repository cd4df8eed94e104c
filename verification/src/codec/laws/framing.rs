//! What the framing of objects and references shows in the bytes, and
//! what decoding may touch.

use vstd::prelude::*;

use crate::codec::buffer::{is_tail, lemma_tail_of_tail};
use crate::codec::encoder::encoded;
use crate::codec::laws::conformance::property_payload;
use crate::codec::wire::{
    fields_unwire, header_fault, lemma_header_present, props_wire, put_field, Schemas,
    value_unwire, value_wire,
};
use crate::error::{Error, ErrorView};
use crate::names::{first_index, lemma_push_new, lemma_push_other, occurs};
use crate::schema::definition::{PropertyView, SchemaView};
use crate::schema::registry::{lemma_resolve_terminal, resolved};
use crate::value::{field_names, FieldView, ValueView};

verus! {

/// **Determinism.** Two encodings of one value under one schema into
/// encoders that hold the same bytes end alike: with the same bytes, and
/// both well or both with the same error.
pub proof fn lemma_encoding_determined(
    before: Seq<u8>,
    wire: Result<Seq<u8>, ErrorView>,
    first_after: Seq<u8>,
    first: Result<(), Error>,
    second_after: Seq<u8>,
    second: Result<(), Error>,
)
    requires
        encoded(before, first_after, first, wire),
        encoded(before, second_after, second, wire),
    ensures
        first_after == second_after,
        first is Ok <==> second is Ok,
        first is Err ==> first->Err_0@ == second->Err_0@,
{
}

/// **Reference transparency.** Under a reference a value has the bytes it
/// has under the schema that the reference stands for; where the reference
/// does not resolve, a circle among them, the encoding fails with the
/// error of the resolving.
pub proof fn lemma_reference_transparent(
    v: ValueView,
    reference: Seq<char>,
    schemas: Schemas,
    nested: bool,
)
    requires
        schemas.dom().finite(),
    ensures
        value_wire(v, SchemaView::Reference(reference), schemas, nested) == (match resolved(
            schemas,
            reference,
        ) {
            Ok(target) => value_wire(v, target, schemas, nested),
            Err(e) => Err(ErrorView::Schema(e)),
        }),
{
    lemma_resolve_terminal(schemas, reference, Set::empty());
}

/// Decoding under a reference is decoding under the schema that the
/// reference stands for.
pub proof fn lemma_reference_transparent_decoding(
    input: Seq<u8>,
    reference: Seq<char>,
    schemas: Schemas,
    nested: bool,
)
    requires
        schemas.dom().finite(),
    ensures
        value_unwire(input, SchemaView::Reference(reference), schemas, nested) == (match resolved(
            schemas,
            reference,
        ) {
            Ok(target) => value_unwire(input, target, schemas, nested),
            Err(e) => Err(ErrorView::Schema(e)),
        }),
{
    lemma_resolve_terminal(schemas, reference, Set::empty());
}

/// What encoding the properties from `i` on adds to the header and to the
/// payloads is not less for an object with one field more, and more by a
/// header entry where the field is that of one of these properties.
proof fn lemma_props_omission(
    fields: Seq<FieldView>,
    name: Seq<char>,
    value: ValueView,
    props: Seq<PropertyView>,
    schemas: Schemas,
    i: int,
    entries: Seq<u8>,
    content: Seq<u8>,
    more_entries: Seq<u8>,
    more_content: Seq<u8>,
)
    requires
        schemas.dom().finite(),
        0 <= i <= props.len(),
        !occurs(field_names(fields), name),
        props_wire(fields, props, schemas, i, entries, content) is Ok,
        props_wire(
            fields.push(FieldView { name, value }),
            props,
            schemas,
            i,
            more_entries,
            more_content,
        ) is Ok,
    ensures
        ({
            let (short_header, short_payloads) = props_wire(
                fields,
                props,
                schemas,
                i,
                entries,
                content,
            )->Ok_0;
            let (long_header, long_payloads) = props_wire(
                fields.push(FieldView { name, value }),
                props,
                schemas,
                i,
                more_entries,
                more_content,
            )->Ok_0;
            &&& short_header.len() >= entries.len()
            &&& short_payloads.len() >= content.len()
            &&& long_header.len() - more_entries.len() >= short_header.len() - entries.len()
            &&& long_payloads.len() - more_content.len() >= short_payloads.len() - content.len()
            &&& (exists|j: int| i <= j < props.len() && (#[trigger] props[j]).name == name)
                ==> long_header.len() - more_entries.len() >= short_header.len() - entries.len()
                + 2
        }),
    decreases props.len() - i,
{
    let longer = fields.push(FieldView { name, value });
    assert(field_names(longer) =~= field_names(fields).push(name));
    if i < props.len() {
        let prop = props[i];
        if prop.name == name {
            lemma_push_new(field_names(fields), name);
            let payload = value_wire(longer[fields.len() as int].value, prop.schema, schemas, true)
                ->Ok_0;
            lemma_props_omission(
                fields,
                name,
                value,
                props,
                schemas,
                i + 1,
                entries,
                content,
                more_entries.push(i as u8).push(payload.len() as u8),
                more_content + payload,
            );
        } else {
            lemma_push_other(field_names(fields), name, prop.name);
            if occurs(field_names(fields), prop.name) {
                let at = first_index(field_names(fields), prop.name);
                assert(longer[at] == fields[at]);
                let payload = value_wire(fields[at].value, prop.schema, schemas, true)->Ok_0;
                lemma_props_omission(
                    fields,
                    name,
                    value,
                    props,
                    schemas,
                    i + 1,
                    entries.push(i as u8).push(payload.len() as u8),
                    content + payload,
                    more_entries.push(i as u8).push(payload.len() as u8),
                    more_content + payload,
                );
            } else {
                lemma_props_omission(
                    fields,
                    name,
                    value,
                    props,
                    schemas,
                    i + 1,
                    entries,
                    content,
                    more_entries,
                    more_content,
                );
            }
            assert forall|j: int|
                i <= j < props.len() && (#[trigger] props[j]).name == name implies i + 1 <= j by {}
        }
    }
}

/// **Optional omission.** An object that leaves a property of its schema
/// out has a shorter encoding than the same object with a value for that
/// property: shorter by the header entry and the payload of the property.
pub proof fn lemma_omission_is_shorter(
    fields: Seq<FieldView>,
    name: Seq<char>,
    value: ValueView,
    props: Seq<PropertyView>,
    schemas: Schemas,
    nested: bool,
)
    requires
        schemas.dom().finite(),
        !occurs(field_names(fields), name),
        exists|j: int| 0 <= j < props.len() && (#[trigger] props[j]).name == name,
        value_wire(ValueView::Object(fields), SchemaView::Object(props), schemas, nested) is Ok,
        value_wire(
            ValueView::Object(fields.push(FieldView { name, value })),
            SchemaView::Object(props),
            schemas,
            nested,
        ) is Ok,
    ensures
        value_wire(
            ValueView::Object(fields.push(FieldView { name, value })),
            SchemaView::Object(props),
            schemas,
            nested,
        )->Ok_0.len() >= value_wire(
            ValueView::Object(fields),
            SchemaView::Object(props),
            schemas,
            nested,
        )->Ok_0.len() + 2,
{
    lemma_props_omission(
        fields,
        name,
        value,
        props,
        schemas,
        0,
        Seq::empty(),
        Seq::empty(),
        Seq::empty(),
        Seq::empty(),
    );
}

/// An entry of an encoded object: the place of a property in the schema,
/// and the payload of the property.
pub struct Entry {
    pub place: int,
    pub payload: Seq<u8>,
}

/// The entries that an object has for the properties from `i` on, in the
/// order of the schema.
pub open spec fn entries_from(
    fields: Seq<FieldView>,
    props: Seq<PropertyView>,
    schemas: Schemas,
    i: int,
) -> Seq<Entry>
    decreases props.len() - i,
{
    if i < 0 || i >= props.len() {
        Seq::empty()
    } else if occurs(field_names(fields), props[i].name) {
        seq![Entry { place: i, payload: property_payload(fields, props, schemas, i)->Ok_0 }]
            + entries_from(fields, props, schemas, i + 1)
    } else {
        entries_from(fields, props, schemas, i + 1)
    }
}

/// The header bytes of a list of entries: for each its place and the size
/// of its payload.
pub open spec fn header_of(entries: Seq<Entry>) -> Seq<u8>
    decreases entries.len(),
{
    if entries.len() == 0 {
        Seq::empty()
    } else {
        seq![entries[0].place as u8, entries[0].payload.len() as u8] + header_of(entries.skip(1))
    }
}

/// The payloads of a list of entries, one after the other.
pub open spec fn content_of(entries: Seq<Entry>) -> Seq<u8>
    decreases entries.len(),
{
    if entries.len() == 0 {
        Seq::empty()
    } else {
        entries[0].payload + content_of(entries.skip(1))
    }
}

/// Every entry has a place and a payload size that one byte can say.
pub open spec fn entries_fit(entries: Seq<Entry>) -> bool {
    forall|k: int|
        0 <= k < entries.len() ==> 0 <= (#[trigger] entries[k]).place <= 255
            && entries[k].payload.len() <= 255
}

/// The header of a list of entries has two bytes for each.
proof fn lemma_header_len(entries: Seq<Entry>)
    ensures
        header_of(entries).len() == 2 * entries.len(),
    decreases entries.len(),
{
    if entries.len() > 0 {
        lemma_header_len(entries.skip(1));
    }
}

/// The header and the payloads of an encoded object are those of its entries.
proof fn lemma_props_are_entries(
    fields: Seq<FieldView>,
    props: Seq<PropertyView>,
    schemas: Schemas,
    i: int,
    entries: Seq<u8>,
    content: Seq<u8>,
)
    requires
        schemas.dom().finite(),
        0 <= i <= props.len(),
        entries.len() <= 510,
        entries.len() % 2 == 0,
        props_wire(fields, props, schemas, i, entries, content) is Ok,
    ensures
        ({
            let (header, payloads) = props_wire(fields, props, schemas, i, entries, content)->Ok_0;
            let listed = entries_from(fields, props, schemas, i);
            &&& header == entries + header_of(listed)
            &&& payloads == content + content_of(listed)
            &&& entries_fit(listed)
            &&& header.len() <= 510
        }),
    decreases props.len() - i,
{
    let listed = entries_from(fields, props, schemas, i);
    if i >= props.len() {
        assert(entries + header_of(listed) =~= entries);
        assert(content + content_of(listed) =~= content);
    } else if occurs(field_names(fields), props[i].name) {
        let payload = property_payload(fields, props, schemas, i)->Ok_0;
        let longer = entries.push(i as u8).push(payload.len() as u8);
        let rest = entries_from(fields, props, schemas, i + 1);
        lemma_props_are_entries(fields, props, schemas, i + 1, longer, content + payload);
        assert(listed.skip(1) =~= rest);
        assert(longer + header_of(rest) =~= entries + header_of(listed));
        assert((content + payload) + content_of(rest) =~= content + content_of(listed));
        assert forall|k: int| 0 <= k < listed.len() implies 0 <= (#[trigger] listed[k]).place
            <= 255 && listed[k].payload.len() <= 255 by {
            if k > 0 {
                assert(listed[k] == rest[k - 1]);
            }
        }
    } else {
        lemma_props_are_entries(fields, props, schemas, i + 1, entries, content);
    }
}

/// Two lists of entries with the same header and the same payloads are the same list.
proof fn lemma_entries_told_apart(a: Seq<Entry>, b: Seq<Entry>)
    requires
        entries_fit(a),
        entries_fit(b),
        header_of(a) == header_of(b),
        content_of(a) == content_of(b),
    ensures
        a == b,
    decreases a.len(),
{
    lemma_header_len(a);
    lemma_header_len(b);
    if a.len() > 0 {
        assert(b.len() == a.len());
        let x = a[0];
        let y = b[0];
        let rest_a = a.skip(1);
        let rest_b = b.skip(1);
        assert(0 <= a[0].place <= 255 && a[0].payload.len() <= 255);
        assert(0 <= b[0].place <= 255 && b[0].payload.len() <= 255);
        assert(header_of(a)[0] == x.place as u8);
        assert(header_of(b)[0] == y.place as u8);
        assert(header_of(a)[1] == x.payload.len() as u8);
        assert(header_of(b)[1] == y.payload.len() as u8);
        assert(x.place == y.place);
        assert(x.payload.len() == y.payload.len());
        assert(x.payload =~= y.payload) by {
            assert forall|k: int| 0 <= k < x.payload.len() implies x.payload[k]
                == y.payload[k] by {
                assert(content_of(a) == x.payload + content_of(rest_a));
                assert(content_of(b) == y.payload + content_of(rest_b));
                assert(content_of(a)[k] == x.payload[k]);
                assert(content_of(b)[k] == y.payload[k]);
            }
        }
        assert(header_of(rest_a) =~= header_of(a).skip(2));
        assert(header_of(rest_b) =~= header_of(b).skip(2));
        assert(content_of(rest_a) =~= content_of(a).skip(x.payload.len() as int));
        assert(content_of(rest_b) =~= content_of(b).skip(y.payload.len() as int));
        assert forall|k: int| 0 <= k < rest_a.len() implies 0 <= (#[trigger] rest_a[k]).place
            <= 255 && rest_a[k].payload.len() <= 255 by {
            assert(rest_a[k] == a[k + 1]);
        }
        assert forall|k: int| 0 <= k < rest_b.len() implies 0 <= (#[trigger] rest_b[k]).place
            <= 255 && rest_b[k].payload.len() <= 255 by {
            assert(rest_b[k] == b[k + 1]);
        }
        lemma_entries_told_apart(rest_a, rest_b);
        assert(a =~= seq![x] + rest_a);
        assert(b =~= seq![y] + rest_b);
    } else {
        assert(a =~= b);
    }
}

/// **Order sensitivity.** The bytes of an object say which properties it
/// has, by their places in the schema, and what the payload of each is,
/// and nothing else. So two encodings of objects, under whatever schemas,
/// are the same bytes exactly when the same places hold the same payloads;
/// and a schema with its properties in another order gives other bytes
/// unless, place for place, the payloads happen to be the same.
pub proof fn lemma_bytes_tell_entries(
    fields: Seq<FieldView>,
    props: Seq<PropertyView>,
    other_fields: Seq<FieldView>,
    other_props: Seq<PropertyView>,
    schemas: Schemas,
    nested: bool,
)
    requires
        schemas.dom().finite(),
        value_wire(ValueView::Object(fields), SchemaView::Object(props), schemas, nested) is Ok,
        value_wire(
            ValueView::Object(other_fields),
            SchemaView::Object(other_props),
            schemas,
            nested,
        ) is Ok,
    ensures
        (value_wire(ValueView::Object(fields), SchemaView::Object(props), schemas, nested)
            == value_wire(
            ValueView::Object(other_fields),
            SchemaView::Object(other_props),
            schemas,
            nested,
        )) <==> (entries_from(fields, props, schemas, 0) == entries_from(
            other_fields,
            other_props,
            schemas,
            0,
        )),
{
    let none = Seq::<u8>::empty();
    let (header, payloads) = props_wire(fields, props, schemas, 0, none, none)->Ok_0;
    let (other_header, other_payloads) = props_wire(
        other_fields,
        other_props,
        schemas,
        0,
        none,
        none,
    )->Ok_0;
    let listed = entries_from(fields, props, schemas, 0);
    let other_listed = entries_from(other_fields, other_props, schemas, 0);
    lemma_props_are_entries(fields, props, schemas, 0, none, none);
    lemma_props_are_entries(other_fields, other_props, schemas, 0, none, none);
    lemma_header_len(listed);
    lemma_header_len(other_listed);
    assert(header =~= header_of(listed));
    assert(payloads =~= content_of(listed));
    assert(other_header =~= header_of(other_listed));
    assert(other_payloads =~= content_of(other_listed));
    let x = seq![(header.len() / 2) as u8] + header + payloads;
    let y = seq![(other_header.len() / 2) as u8] + other_header + other_payloads;
    if x == y {
        assert(x[0] == y[0]);
        assert(header.len() == other_header.len());
        assert(header =~= other_header) by {
            assert forall|k: int| 0 <= k < header.len() implies header[k] == other_header[k] by {
                assert(x[1 + k] == y[1 + k]);
            }
        }
        assert(payloads =~= other_payloads) by {
            assert(payloads.len() == other_payloads.len()) by {
                assert(x.len() == y.len());
            }
            assert forall|k: int| 0 <= k < payloads.len() implies payloads[k]
                == other_payloads[k] by {
                assert(x[1 + header.len() + k] == y[1 + header.len() + k]);
            }
        }
        lemma_entries_told_apart(listed, other_listed);
    }
}

/// Under a schema of two properties that both have a field, and under the
/// schema with the two in the other order, an object has the same bytes
/// exactly when the two payloads are the same.
pub proof fn lemma_order_shows(
    fields: Seq<FieldView>,
    a: PropertyView,
    b: PropertyView,
    schemas: Schemas,
    nested: bool,
)
    requires
        schemas.dom().finite(),
        occurs(field_names(fields), a.name),
        occurs(field_names(fields), b.name),
        value_wire(ValueView::Object(fields), SchemaView::Object(seq![a, b]), schemas, nested)
            is Ok,
        value_wire(ValueView::Object(fields), SchemaView::Object(seq![b, a]), schemas, nested)
            is Ok,
    ensures
        (value_wire(ValueView::Object(fields), SchemaView::Object(seq![a, b]), schemas, nested)
            == value_wire(
            ValueView::Object(fields),
            SchemaView::Object(seq![b, a]),
            schemas,
            nested,
        )) <==> (property_payload(fields, seq![a, b], schemas, 0) == property_payload(
            fields,
            seq![a, b],
            schemas,
            1,
        )),
{
    let forth = seq![a, b];
    let back = seq![b, a];
    let first = property_payload(fields, forth, schemas, 0)->Ok_0;
    let second = property_payload(fields, forth, schemas, 1)->Ok_0;
    let none = Seq::<u8>::empty();
    reveal_with_fuel(props_wire, 3);
    assert(property_payload(fields, back, schemas, 0) == property_payload(
        fields,
        forth,
        schemas,
        1,
    ));
    assert(property_payload(fields, back, schemas, 1) == property_payload(
        fields,
        forth,
        schemas,
        0,
    ));
    let forth_header = none.push(0u8).push(first.len() as u8).push(1u8).push(second.len() as u8);
    let back_header = none.push(0u8).push(second.len() as u8).push(1u8).push(first.len() as u8);
    assert(props_wire(fields, forth, schemas, 0, none, none) == Ok::<
        (Seq<u8>, Seq<u8>),
        ErrorView,
    >((forth_header, none + first + second)));
    assert(props_wire(fields, back, schemas, 0, none, none) == Ok::<
        (Seq<u8>, Seq<u8>),
        ErrorView,
    >((back_header, none + second + first)));
    let x = seq![2u8] + forth_header + (none + first + second);
    let y = seq![2u8] + back_header + (none + second + first);
    assert(value_wire(ValueView::Object(fields), SchemaView::Object(forth), schemas, nested)
        == Ok::<Seq<u8>, ErrorView>(x));
    assert(value_wire(ValueView::Object(fields), SchemaView::Object(back), schemas, nested)
        == Ok::<Seq<u8>, ErrorView>(y));
    if first == second {
        assert(x =~= y);
    }
    if x == y {
        assert(x[2] == y[2]);
        assert(first.len() == second.len());
        assert(first =~= second) by {
            assert forall|j: int| 0 <= j < first.len() implies first[j] == second[j] by {
                assert(x[5 + j] == y[5 + j]);
            }
        }
    }
}

/// What reading the fields of an object leaves of the content is a tail of it.
proof fn lemma_fields_rest(
    content: Seq<u8>,
    header: Seq<u8>,
    props: Seq<PropertyView>,
    schemas: Schemas,
    k: int,
    done: Seq<FieldView>,
)
    requires
        schemas.dom().finite(),
    ensures
        fields_unwire(content, header, props, schemas, k, done) matches Ok((_, rest)) ==> is_tail(
            rest,
            content,
        ),
    decreases header.len() - 2 * k,
{
    if !(k < 0 || 2 * k + 2 > header.len()) && content.len() >= header[2 * k + 1] {
        let size = header[2 * k + 1] as int;
        let prop = props[header[2 * k] as int];
        match value_unwire(content.take(size), prop.schema, schemas, true) {
            Ok((v, _)) => {
                let shorter = content.skip(size);
                lemma_fields_rest(
                    shorter,
                    header,
                    props,
                    schemas,
                    k + 1,
                    put_field(done, prop.name, v),
                );
                match fields_unwire(
                    shorter,
                    header,
                    props,
                    schemas,
                    k + 1,
                    put_field(done, prop.name, v),
                ) {
                    Ok((_, rest)) => {
                        lemma_tail_of_tail(rest, shorter, content);
                    },
                    Err(_) => {},
                }
            },
            Err(_) => {},
        }
    }
}

/// **Bounds of decoding.** What decoding leaves of its input is a tail of
/// the input: a value is read from the front of the bytes it is given, and
/// from nowhere else.
pub proof fn lemma_unwire_rest(input: Seq<u8>, s: SchemaView, schemas: Schemas, nested: bool)
    requires
        schemas.dom().finite(),
    ensures
        value_unwire(input, s, schemas, nested) matches Ok((_, rest)) ==> is_tail(rest, input),
    decreases
            (if s is Reference {
                1int
            } else {
                0int
            }),
{
    match s {
        SchemaView::Object(props) => {
            if input.len() >= 1 {
                let count = input[0] as int;
                if header_fault(input.skip(1), count, props.len() as int, 0) is None {
                    lemma_header_present(input.skip(1), count, props.len() as int, 0);
                    let content = input.skip(1 + 2 * count);
                    let header = input.subrange(1, 1 + 2 * count);
                    lemma_fields_rest(content, header, props, schemas, 0, Seq::empty());
                    match fields_unwire(content, header, props, schemas, 0, Seq::empty()) {
                        Ok((_, rest)) => {
                            lemma_tail_of_tail(rest, content, input);
                        },
                        Err(_) => {},
                    }
                }
            }
        },
        SchemaView::Reference(reference) => {
            lemma_resolve_terminal(schemas, reference, Set::empty());
            if let Ok(target) = resolved(schemas, reference) {
                lemma_unwire_rest(input, target, schemas, nested);
            }
        },
        _ => {},
    }
}

} // verus!
