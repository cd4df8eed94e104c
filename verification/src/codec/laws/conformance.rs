//! Which values a schema describes.

use vstd::prelude::*;

use crate::codec::wire::{Schemas, value_wire};
use crate::error::ErrorView;
use crate::formats::datetime::{date_exists, datetime_exists};
use crate::names::{first_index, occurs};
use crate::schema::definition::{
    IntegerFormat, NumberFormat, PropertyView, SchemaView, StringFormat,
};
use crate::schema::registry::{lemma_resolve_terminal, resolved};
use crate::value::{field_names, FieldView, ValueView};

verus! {

/// No two properties have the same name.
pub open spec fn distinct_names(props: Seq<PropertyView>) -> bool {
    forall|i: int, j: int|
        0 <= i < j < props.len() ==> (#[trigger] props[i]).name != (#[trigger] props[j]).name
}

/// The fields that an object has for the properties from `i` on, in the
/// order of the schema.
pub open spec fn schema_fields(fields: Seq<FieldView>, props: Seq<PropertyView>, i: int) -> Seq<
    FieldView,
>
    decreases props.len() - i,
{
    if i < 0 || i >= props.len() {
        Seq::empty()
    } else if occurs(field_names(fields), props[i].name) {
        seq![
            FieldView {
                name: props[i].name,
                value: fields[first_index(field_names(fields), props[i].name)].value,
            },
        ] + schema_fields(fields, props, i + 1)
    } else {
        schema_fields(fields, props, i + 1)
    }
}

/// The value is one that the schema describes, in the form in which a
/// decoder gives it back: of the schema's own kind, an integer within its
/// width, an instant or a day that the calendar has, an address of the
/// right length; an array of such elements; an object whose fields are
/// those of the schema's properties that have a value, in the schema's
/// order, at least the required ones, under a schema of distinct names.
pub open spec fn conforms(v: ValueView, s: SchemaView, schemas: Schemas) -> bool
    decreases v,
        (if s is Reference {
            1int
        } else {
            0int
        }),
    when schemas.dom().finite()
    via conforms_decreases
{
    match s {
        SchemaView::Boolean => v is Boolean,
        SchemaView::Integer(IntegerFormat::Int32) => v matches ValueView::Integer(i) && -0x8000_0000
            <= i <= 0x7FFF_FFFF,
        SchemaView::Integer(IntegerFormat::Int64) => v is Integer,
        SchemaView::Number(NumberFormat::Float) => v is Float,
        SchemaView::Number(NumberFormat::Double) => v is Double,
        SchemaView::String(StringFormat::Plain) => v is String,
        SchemaView::String(StringFormat::Uuid) => v matches ValueView::Uuid(bytes) && bytes.len()
            == 16,
        SchemaView::String(StringFormat::DateTime) => v matches ValueView::DateTime(millis)
            && datetime_exists(millis),
        SchemaView::String(StringFormat::Date) => v matches ValueView::Date(days) && date_exists(
            days,
        ),
        SchemaView::String(StringFormat::Ipv4) => v matches ValueView::Ipv4(octets) && octets.len()
            == 4,
        SchemaView::String(StringFormat::Ipv6) => v matches ValueView::Ipv6(octets) && octets.len()
            == 16,
        SchemaView::String(StringFormat::Binary) => v is Binary,
        SchemaView::Array(child) => v matches ValueView::Array(items) && forall|i: int|
            0 <= i < items.len() ==> conforms(#[trigger] items[i], *child, schemas),
        SchemaView::Object(props) => v matches ValueView::Object(fields) && {
            &&& distinct_names(props)
            &&& fields == schema_fields(fields, props, 0)
            &&& forall|i: int|
                0 <= i < props.len() ==> if occurs(
                    field_names(fields),
                    (#[trigger] props[i]).name,
                ) {
                    conforms(
                        fields[first_index(field_names(fields), props[i].name)].value,
                        props[i].schema,
                        schemas,
                    )
                } else {
                    !props[i].required
                }
        },
        SchemaView::Reference(reference) => resolved(schemas, reference) matches Ok(target)
            && conforms(v, target, schemas),
        SchemaView::Null => v is Null,
    }
}

#[via_fn]
proof fn conforms_decreases(v: ValueView, s: SchemaView, schemas: Schemas) {
    match s {
        SchemaView::Reference(reference) => {
            lemma_resolve_terminal(schemas, reference, Set::empty());
        },
        SchemaView::Object(props) => {
            if let ValueView::Object(fields) = v {
                assert forall|i: int|
                    0 <= i < props.len() && occurs(
                        field_names(fields),
                        (#[trigger] props[i]).name,
                    ) implies decreases_to!(v => fields[first_index(field_names(fields), props[i].name)].value) by {
                    let k = first_index(field_names(fields), props[i].name);
                    assert(0 <= k < fields.len());
                    assert(decreases_to!(v => fields));
                    assert(decreases_to!(fields => fields[k]));
                    assert(decreases_to!(fields[k] => fields[k].value));
                }
            }
        },
        _ => {},
    }
}

/// The payload that the property `j` of a schema has in an object, if the
/// object has a field for it.
pub open spec fn property_payload(
    fields: Seq<FieldView>,
    props: Seq<PropertyView>,
    schemas: Schemas,
    j: int,
) -> Result<Seq<u8>, ErrorView> {
    value_wire(
        fields[first_index(field_names(fields), props[j].name)].value,
        props[j].schema,
        schemas,
        true,
    )
}

/// The value is one that the schema describes, whatever the order of the
/// fields of its objects: as [`conforms`], but an object may have its
/// fields in any order, as long as each is the field of a property of the
/// schema and no two have the same name.
pub open spec fn describes(v: ValueView, s: SchemaView, schemas: Schemas) -> bool
    decreases v,
        (if s is Reference {
            1int
        } else {
            0int
        }),
    when schemas.dom().finite()
    via describes_decreases
{
    match s {
        SchemaView::Array(child) => v matches ValueView::Array(items) && forall|i: int|
            0 <= i < items.len() ==> describes(#[trigger] items[i], *child, schemas),
        SchemaView::Object(props) => v matches ValueView::Object(fields) && {
            &&& distinct_names(props)
            &&& forall|a: int, b: int|
                0 <= a < b < fields.len() ==> (#[trigger] fields[a]).name != (
                #[trigger] fields[b]).name
            &&& forall|k: int|
                0 <= k < fields.len() ==> exists|j: int|
                    0 <= j < props.len() && (#[trigger] props[j]).name == (
                    #[trigger] fields[k]).name
            &&& forall|i: int|
                0 <= i < props.len() ==> if occurs(
                    field_names(fields),
                    (#[trigger] props[i]).name,
                ) {
                    describes(
                        fields[first_index(field_names(fields), props[i].name)].value,
                        props[i].schema,
                        schemas,
                    )
                } else {
                    !props[i].required
                }
        },
        SchemaView::Reference(reference) => resolved(schemas, reference) matches Ok(target)
            && describes(v, target, schemas),
        _ => conforms(v, s, schemas),
    }
}

#[via_fn]
proof fn describes_decreases(v: ValueView, s: SchemaView, schemas: Schemas) {
    match s {
        SchemaView::Reference(reference) => {
            lemma_resolve_terminal(schemas, reference, Set::empty());
        },
        SchemaView::Object(props) => {
            if let ValueView::Object(fields) = v {
                assert forall|i: int|
                    0 <= i < props.len() && occurs(
                        field_names(fields),
                        (#[trigger] props[i]).name,
                    ) implies decreases_to!(v => fields[first_index(field_names(fields), props[i].name)].value) by {
                    let k = first_index(field_names(fields), props[i].name);
                    assert(0 <= k < fields.len());
                    assert(decreases_to!(v => fields));
                    assert(decreases_to!(fields => fields[k]));
                    assert(decreases_to!(fields[k] => fields[k].value));
                }
            }
        },
        _ => {},
    }
}

/// The value with the fields of its objects put in the order of the
/// schema: the form in which a decoder gives it back.
pub open spec fn normal(v: ValueView, s: SchemaView, schemas: Schemas) -> ValueView
    decreases v,
        (if s is Reference {
            1int
        } else {
            0int
        }),
    when schemas.dom().finite()
    via normal_decreases
{
    match s {
        SchemaView::Array(child) => match v {
            ValueView::Array(items) => ValueView::Array(
                Seq::new(
                    items.len(),
                    |i: int|
                        if 0 <= i < items.len() {
                            normal(items[i], *child, schemas)
                        } else {
                            ValueView::Null
                        },
                ),
            ),
            _ => v,
        },
        SchemaView::Object(props) => match v {
            ValueView::Object(fields) => ValueView::Object(
                normal_fields(fields, props, schemas, 0),
            ),
            _ => v,
        },
        SchemaView::Reference(reference) => match resolved(schemas, reference) {
            Ok(target) => normal(v, target, schemas),
            Err(_) => v,
        },
        _ => v,
    }
}

/// The fields that an object has for the properties from `i` on, each in
/// its normal form, in the order of the schema.
pub open spec fn normal_fields(
    fields: Seq<FieldView>,
    props: Seq<PropertyView>,
    schemas: Schemas,
    i: int,
) -> Seq<FieldView>
    decreases fields, props.len() - i,
    when schemas.dom().finite()
    via normal_fields_decreases
{
    if i < 0 || i >= props.len() {
        Seq::empty()
    } else if occurs(field_names(fields), props[i].name) {
        seq![
            FieldView {
                name: props[i].name,
                value: normal(
                    fields[first_index(field_names(fields), props[i].name)].value,
                    props[i].schema,
                    schemas,
                ),
            },
        ] + normal_fields(fields, props, schemas, i + 1)
    } else {
        normal_fields(fields, props, schemas, i + 1)
    }
}

#[via_fn]
proof fn normal_decreases(v: ValueView, s: SchemaView, schemas: Schemas) {
    if let SchemaView::Reference(reference) = s {
        lemma_resolve_terminal(schemas, reference, Set::empty());
    }
}

#[via_fn]
proof fn normal_fields_decreases(
    fields: Seq<FieldView>,
    props: Seq<PropertyView>,
    schemas: Schemas,
    i: int,
) {
    if 0 <= i < props.len() && occurs(field_names(fields), props[i].name) {
        let k = first_index(field_names(fields), props[i].name);
        assert(0 <= k < fields.len());
        assert(decreases_to!(fields => fields[k]));
        assert(decreases_to!(fields[k] => fields[k].value));
    }
}

/// Two values are the same when their objects are read as maps: of the
/// same kind, with the same elements in the same order, and with the same
/// value under every name, wherever the fields stand.
pub open spec fn same_value(a: ValueView, b: ValueView) -> bool
    decreases a,
{
    match a {
        ValueView::Array(items) => b matches ValueView::Array(others) && items.len()
            == others.len() && forall|i: int|
            0 <= i < items.len() ==> same_value(#[trigger] items[i], others[i]),
        ValueView::Object(fields) => b matches ValueView::Object(others) && forall|
            name: Seq<char>,
        | #[trigger]
            occurs(field_names(fields), name) == occurs(field_names(others), name) && (occurs(
                field_names(fields),
                name,
            ) ==> 0 <= first_index(field_names(fields), name) < fields.len() && same_value(
                fields[first_index(field_names(fields), name)].value,
                others[first_index(field_names(others), name)].value,
            )),
        _ => a == b,
    }
}

/// The value that an object has for the property `j` of a schema.
pub open spec fn property_value(
    fields: Seq<FieldView>,
    props: Seq<PropertyView>,
    j: int,
) -> ValueView {
    fields[first_index(field_names(fields), props[j].name)].value
}

} // verus!
