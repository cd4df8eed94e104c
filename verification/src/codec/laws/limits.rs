//! The limits of size, and the errors for what is over them.

use vstd::prelude::*;
use vstd::utf8::encode_utf8;

use crate::codec::buffer::{binary_too_long, buffer_limit, string_too_long};
use crate::codec::laws::conformance::property_payload;
use crate::codec::wire::{
    element_too_large, invalid_format, items_wire, props_wire, Schemas, too_many_properties,
    value_wire,
};
use crate::error::{EncodeErrorView, ErrorView};
use crate::names::occurs;
use crate::schema::definition::{PropertyView, SchemaView, StringFormat};
use crate::value::{field_names, FieldView, ValueView};

verus! {

/// The encoding failed for a broken limit or a malformed text.
pub open spec fn is_invalid_format(wire: Result<Seq<u8>, ErrorView>) -> bool {
    wire matches Err(ErrorView::Encode(EncodeErrorView::InvalidFormat(_)))
}

/// **Size limit of a string.** On its own a text of more than 65535 bytes
/// has no encoding.
pub proof fn lemma_string_limit(text: Seq<char>, schemas: Schemas)
    requires
        schemas.dom().finite(),
        encode_utf8(text).len() > 0xFFFF,
    ensures
        value_wire(
            ValueView::String(text),
            SchemaView::String(StringFormat::Plain),
            schemas,
            false,
        ) == Err::<Seq<u8>, ErrorView>(invalid_format(string_too_long())),
{
}

/// **Size limit of binary data.** Binary data of more than 4294967295
/// bytes has no encoding.
pub proof fn lemma_binary_limit(data: Seq<u8>, schemas: Schemas, nested: bool)
    requires
        schemas.dom().finite(),
        data.len() > 0xFFFF_FFFF,
    ensures
        value_wire(
            ValueView::Binary(data),
            SchemaView::String(StringFormat::Binary),
            schemas,
            nested,
        ) == Err::<Seq<u8>, ErrorView>(invalid_format(binary_too_long())),
{
}

/// The elements before `k` all have a payload of at most 255 bytes.
pub open spec fn elements_fit(
    items: Seq<ValueView>,
    child: SchemaView,
    schemas: Schemas,
    k: int,
) -> bool {
    forall|j: int|
        0 <= j < k ==> (value_wire(#[trigger] items[j], child, schemas, true) matches Ok(payload)
            && payload.len() <= 255)
}

proof fn lemma_items_fault(
    items: Seq<ValueView>,
    child: SchemaView,
    schemas: Schemas,
    k: int,
    i: int,
    done: Seq<u8>,
)
    requires
        schemas.dom().finite(),
        0 <= i <= k < items.len(),
        value_wire(items[k], child, schemas, true) matches Ok(payload) && payload.len() > 255,
    ensures
        items_wire(items, child, schemas, i, done) is Err,
        elements_fit(items, child, schemas, k) && done.len() + 256 * (k - i) <= buffer_limit()
            ==> items_wire(items, child, schemas, i, done) == Err::<Seq<u8>, ErrorView>(
            invalid_format(element_too_large()),
        ),
    decreases k - i,
{
    if i < k {
        match value_wire(items[i], child, schemas, true) {
            Ok(payload) => {
                if payload.len() <= 255 && done.len() + 1 + payload.len() <= buffer_limit() {
                    lemma_items_fault(
                        items,
                        child,
                        schemas,
                        k,
                        i + 1,
                        done.push(payload.len() as u8) + payload,
                    );
                }
            },
            Err(_) => {},
        }
    }
}

/// **Size limit of an array element.** An array with an element whose
/// payload is longer than 255 bytes has no encoding. Where the elements
/// before it fit, the error is that of the limit.
pub proof fn lemma_element_limit(
    items: Seq<ValueView>,
    child: SchemaView,
    schemas: Schemas,
    k: int,
    nested: bool,
)
    requires
        schemas.dom().finite(),
        0 <= k < items.len(),
        value_wire(items[k], child, schemas, true) matches Ok(payload) && payload.len() > 255,
    ensures
        value_wire(ValueView::Array(items), SchemaView::Array(Box::new(child)), schemas, nested)
            is Err,
        elements_fit(items, child, schemas, k) && 256 * k <= buffer_limit() ==> value_wire(
            ValueView::Array(items),
            SchemaView::Array(Box::new(child)),
            schemas,
            nested,
        ) == Err::<Seq<u8>, ErrorView>(invalid_format(element_too_large())),
{
    lemma_items_fault(items, child, schemas, k, 0, Seq::empty());
}

/// The properties from `from` up to `to` give no error of their own: one
/// with a field has a payload of at most 255 bytes, one without is optional.
pub open spec fn properties_fit(
    fields: Seq<FieldView>,
    props: Seq<PropertyView>,
    schemas: Schemas,
    from: int,
    to: int,
) -> bool {
    forall|j: int|
        from <= j < to ==> if occurs(field_names(fields), (#[trigger] props[j]).name) {
            property_payload(fields, props, schemas, j) matches Ok(payload) && payload.len()
                <= 255
        } else {
            !props[j].required
        }
}

/// How many of the properties from `i` on have a field.
pub open spec fn present_count(fields: Seq<FieldView>, props: Seq<PropertyView>, i: int) -> nat
    decreases props.len() - i,
{
    if i < 0 || i >= props.len() {
        0
    } else if occurs(field_names(fields), props[i].name) {
        1 + present_count(fields, props, i + 1)
    } else {
        present_count(fields, props, i + 1)
    }
}

proof fn lemma_props_fault(
    fields: Seq<FieldView>,
    props: Seq<PropertyView>,
    schemas: Schemas,
    k: int,
    i: int,
    entries: Seq<u8>,
    content: Seq<u8>,
)
    requires
        schemas.dom().finite(),
        0 <= i <= k < props.len(),
        occurs(field_names(fields), props[k].name),
        property_payload(fields, props, schemas, k) matches Ok(payload) && payload.len() > 255,
    ensures
        props_wire(fields, props, schemas, i, entries, content) is Err,
        properties_fit(fields, props, schemas, i, k) ==> props_wire(
            fields,
            props,
            schemas,
            i,
            entries,
            content,
        ) matches Err(ErrorView::Encode(EncodeErrorView::InvalidFormat(_))),
    decreases k - i,
{
    if i < k {
        if occurs(field_names(fields), props[i].name) {
            if i <= 255 && entries.len() < 510 {
                match property_payload(fields, props, schemas, i) {
                    Ok(payload) => {
                        if payload.len() <= 255 {
                            lemma_props_fault(
                                fields,
                                props,
                                schemas,
                                k,
                                i + 1,
                                entries.push(i as u8).push(payload.len() as u8),
                                content + payload,
                            );
                        }
                    },
                    Err(_) => {},
                }
            }
        } else if !props[i].required {
            lemma_props_fault(fields, props, schemas, k, i + 1, entries, content);
        }
        if properties_fit(fields, props, schemas, i, k) {
            assert(properties_fit(fields, props, schemas, i + 1, k));
            assert(props[i] == props[i]);
        }
    }
}

/// **Size limit of a property.** An object with a property whose payload
/// is longer than 255 bytes has no encoding. Where the properties before
/// it give no error of their own, the error is an invalid format.
pub proof fn lemma_property_limit(
    fields: Seq<FieldView>,
    props: Seq<PropertyView>,
    schemas: Schemas,
    k: int,
    nested: bool,
)
    requires
        schemas.dom().finite(),
        0 <= k < props.len(),
        occurs(field_names(fields), props[k].name),
        property_payload(fields, props, schemas, k) matches Ok(payload) && payload.len() > 255,
    ensures
        value_wire(ValueView::Object(fields), SchemaView::Object(props), schemas, nested) is Err,
        properties_fit(fields, props, schemas, 0, k) ==> is_invalid_format(
            value_wire(ValueView::Object(fields), SchemaView::Object(props), schemas, nested),
        ),
{
    lemma_props_fault(fields, props, schemas, k, 0, Seq::empty(), Seq::empty());
}

proof fn lemma_props_count(
    fields: Seq<FieldView>,
    props: Seq<PropertyView>,
    schemas: Schemas,
    i: int,
    entries: Seq<u8>,
    content: Seq<u8>,
)
    requires
        schemas.dom().finite(),
        0 <= i <= props.len(),
        entries.len() % 2 == 0,
        entries.len() <= 510,
        properties_fit(fields, props, schemas, i, props.len() as int),
    ensures
        entries.len() / 2 + present_count(fields, props, i) > 255 ==> props_wire(
            fields,
            props,
            schemas,
            i,
            entries,
            content,
        ) == Err::<(Seq<u8>, Seq<u8>), ErrorView>(invalid_format(too_many_properties())),
        props.len() <= 256 && entries.len() / 2 + present_count(fields, props, i) <= 255 ==> (
        props_wire(fields, props, schemas, i, entries, content) matches Ok((header, _))
            && header.len() == entries.len() + 2 * present_count(fields, props, i)),
    decreases props.len() - i,
{
    let held = entries.len() as int / 2;
    let wire = props_wire(fields, props, schemas, i, entries, content);
    if i < props.len() {
        let prop = props[i];
        assert(properties_fit(fields, props, schemas, i + 1, props.len() as int));
        if occurs(field_names(fields), prop.name) {
            assert(present_count(fields, props, i) == 1 + present_count(fields, props, i + 1));
            if i > 255 || entries.len() >= 510 {
                assert(wire == Err::<(Seq<u8>, Seq<u8>), ErrorView>(
                    invalid_format(too_many_properties()),
                ));
            } else {
                let payload = property_payload(fields, props, schemas, i)->Ok_0;
                assert(property_payload(fields, props, schemas, i) is Ok && payload.len() <= 255);
                let longer = entries.push(i as u8).push(payload.len() as u8);
                assert(longer.len() == entries.len() + 2);
                assert(longer.len() as int / 2 == held + 1);
                lemma_props_count(fields, props, schemas, i + 1, longer, content + payload);
                assert(wire == props_wire(
                    fields,
                    props,
                    schemas,
                    i + 1,
                    longer,
                    content + payload,
                ));
            }
        } else {
            assert(!prop.required);
            assert(present_count(fields, props, i) == present_count(fields, props, i + 1));
            lemma_props_count(fields, props, schemas, i + 1, entries, content);
            assert(wire == props_wire(fields, props, schemas, i + 1, entries, content));
        }
    } else {
        assert(present_count(fields, props, i) == 0);
        assert(wire == Ok::<(Seq<u8>, Seq<u8>), ErrorView>((entries, content)));
    }
}

/// **Limit on the number of properties.** An object whose properties give
/// no error of their own, and of which more than 255 have a field, has no
/// encoding: the error is that of the limit. Under a schema of at most 256
/// properties it has an encoding where at most 255 have a field, and the
/// first byte of the encoding is their number.
pub proof fn lemma_property_count_limit(
    fields: Seq<FieldView>,
    props: Seq<PropertyView>,
    schemas: Schemas,
    nested: bool,
)
    requires
        schemas.dom().finite(),
        properties_fit(fields, props, schemas, 0, props.len() as int),
    ensures
        present_count(fields, props, 0) > 255 ==> value_wire(
            ValueView::Object(fields),
            SchemaView::Object(props),
            schemas,
            nested,
        ) == Err::<Seq<u8>, ErrorView>(invalid_format(too_many_properties())),
        props.len() <= 256 && present_count(fields, props, 0) <= 255 ==> (value_wire(
            ValueView::Object(fields),
            SchemaView::Object(props),
            schemas,
            nested,
        ) matches Ok(bytes) && bytes.len() >= 1 && bytes[0] == present_count(fields, props, 0)),
{
    lemma_props_count(fields, props, schemas, 0, Seq::empty(), Seq::empty());
}

} // verus!
