//! Round trip for objects whose fields stand in any order.

use vstd::prelude::*;

use crate::codec::laws::conformance::{
    conforms, describes, distinct_names, normal, normal_fields, property_value, same_value,
    schema_fields,
};
use crate::codec::laws::round_trip::lemma_round_trip;
use crate::codec::wire::{items_wire, props_wire, Schemas, value_unwire, value_wire};
use crate::error::ErrorView;
use crate::names::{first_index, lemma_prepend_other, lemma_prepend_same, occurs};
use crate::schema::definition::{PropertyView, SchemaView};
use crate::schema::registry::{lemma_resolve_terminal, resolved};
use crate::value::{field_names, FieldView, ValueView};

verus! {

/// Among the normal fields from property `i` on, the field of a property
/// `j` that has a value is found under its name, with the normal form of
/// that value.
proof fn lemma_normal_lookup(
    fields: Seq<FieldView>,
    props: Seq<PropertyView>,
    schemas: Schemas,
    i: int,
    j: int,
)
    requires
        schemas.dom().finite(),
        distinct_names(props),
        0 <= i <= j < props.len(),
        occurs(field_names(fields), props[j].name),
    ensures
        ({
            let found = normal_fields(fields, props, schemas, i);
            let at = first_index(field_names(found), props[j].name);
            &&& occurs(field_names(found), props[j].name)
            &&& 0 <= at < found.len()
            &&& found[at].value == normal(
                property_value(fields, props, j),
                props[j].schema,
                schemas,
            )
        }),
    decreases j - i,
{
    let found = normal_fields(fields, props, schemas, i);
    let rest = normal_fields(fields, props, schemas, i + 1);
    if i == j {
        assert(field_names(found) =~= seq![props[i].name] + field_names(rest));
        lemma_prepend_same(field_names(rest), props[i].name);
    } else {
        lemma_normal_lookup(fields, props, schemas, i + 1, j);
        if occurs(field_names(fields), props[i].name) {
            assert(field_names(found) =~= seq![props[i].name] + field_names(rest));
            assert(props[i].name != props[j].name);
            lemma_prepend_other(field_names(rest), props[i].name, props[j].name);
            let at = first_index(field_names(rest), props[j].name);
            assert(found[at + 1] == rest[at]);
        }
    }
}

/// Among the normal fields from property `i` on, no field has a name
/// under which the object has no value.
proof fn lemma_normal_absent(
    fields: Seq<FieldView>,
    props: Seq<PropertyView>,
    schemas: Schemas,
    i: int,
    name: Seq<char>,
)
    requires
        schemas.dom().finite(),
        0 <= i <= props.len(),
        !occurs(field_names(fields), name),
    ensures
        !occurs(field_names(normal_fields(fields, props, schemas, i)), name),
    decreases props.len() - i,
{
    let found = normal_fields(fields, props, schemas, i);
    if i < props.len() {
        let rest = normal_fields(fields, props, schemas, i + 1);
        lemma_normal_absent(fields, props, schemas, i + 1, name);
        if occurs(field_names(fields), props[i].name) {
            assert(field_names(found) =~= seq![props[i].name] + field_names(rest));
            lemma_prepend_other(field_names(rest), props[i].name, name);
        }
    } else {
        assert(field_names(found) =~= Seq::<Seq<char>>::empty());
    }
}

/// The normal fields of an object are already in the order of the schema.
proof fn lemma_normal_fields_ordered(
    fields: Seq<FieldView>,
    props: Seq<PropertyView>,
    schemas: Schemas,
    i: int,
)
    requires
        schemas.dom().finite(),
        distinct_names(props),
        0 <= i <= props.len(),
    ensures
        schema_fields(normal_fields(fields, props, schemas, 0), props, i) == normal_fields(
            fields,
            props,
            schemas,
            i,
        ),
    decreases props.len() - i,
{
    if i < props.len() {
        lemma_normal_fields_ordered(fields, props, schemas, i + 1);
        if occurs(field_names(fields), props[i].name) {
            lemma_normal_lookup(fields, props, schemas, 0, i);
        } else {
            lemma_normal_absent(fields, props, schemas, 0, props[i].name);
        }
    }
}

/// The elements of an array from element `i` on have the same bytes as
/// their normal forms.
proof fn lemma_items_wire_of_normal(
    items: Seq<ValueView>,
    child: SchemaView,
    schemas: Schemas,
    i: int,
    done: Seq<u8>,
)
    requires
        schemas.dom().finite(),
        0 <= i <= items.len(),
        forall|j: int| 0 <= j < items.len() ==> describes(#[trigger] items[j], child, schemas),
    ensures
        items_wire(items, child, schemas, i, done) == items_wire(
            normal(ValueView::Array(items), SchemaView::Array(Box::new(child)), schemas)->Array_0,
            child,
            schemas,
            i,
            done,
        ),
    decreases items, items.len() - i, 0int,
{
    let others = normal(
        ValueView::Array(items),
        SchemaView::Array(Box::new(child)),
        schemas,
    )->Array_0;
    if i < items.len() {
        assert(others[i] == normal(items[i], child, schemas));
        lemma_wire_of_normal(items[i], child, schemas, true);
        match value_wire(items[i], child, schemas, true) {
            Ok(payload) => {
                lemma_items_wire_of_normal(
                    items,
                    child,
                    schemas,
                    i + 1,
                    done.push(payload.len() as u8) + payload,
                );
            },
            Err(_) => {},
        }
    }
}

/// The properties of an object from property `i` on have the same bytes
/// as those of the object in its normal form.
proof fn lemma_props_wire_of_normal(
    fields: Seq<FieldView>,
    props: Seq<PropertyView>,
    schemas: Schemas,
    i: int,
    entries: Seq<u8>,
    content: Seq<u8>,
)
    requires
        schemas.dom().finite(),
        0 <= i <= props.len(),
        describes(ValueView::Object(fields), SchemaView::Object(props), schemas),
    ensures
        props_wire(fields, props, schemas, i, entries, content) == props_wire(
            normal_fields(fields, props, schemas, 0),
            props,
            schemas,
            i,
            entries,
            content,
        ),
    decreases fields, props.len() - i, 0int,
{
    let others = normal_fields(fields, props, schemas, 0);
    if i < props.len() {
        let prop = props[i];
        if occurs(field_names(fields), prop.name) {
            lemma_normal_lookup(fields, props, schemas, 0, i);
            let at = first_index(field_names(fields), prop.name);
            assert(0 <= at < fields.len());
            let value = fields[at].value;
            assert(decreases_to!(fields => value)) by {
                assert(decreases_to!(fields => fields[at]));
                assert(decreases_to!(fields[at] => fields[at].value));
            }
            lemma_wire_of_normal(value, prop.schema, schemas, true);
            match value_wire(value, prop.schema, schemas, true) {
                Ok(payload) => {
                    lemma_props_wire_of_normal(
                        fields,
                        props,
                        schemas,
                        i + 1,
                        entries.push(i as u8).push(payload.len() as u8),
                        content + payload,
                    );
                },
                Err(_) => {},
            }
        } else {
            lemma_normal_absent(fields, props, schemas, 0, prop.name);
            lemma_props_wire_of_normal(fields, props, schemas, i + 1, entries, content);
        }
    }
}

/// A value has the bytes of its normal form: the order of the fields of
/// an object does not show in its bytes.
pub proof fn lemma_wire_of_normal(v: ValueView, s: SchemaView, schemas: Schemas, nested: bool)
    requires
        schemas.dom().finite(),
        describes(v, s, schemas),
    ensures
        value_wire(v, s, schemas, nested) == value_wire(
            normal(v, s, schemas),
            s,
            schemas,
            nested,
        ),
    decreases v,
        (if s is Reference {
            1int
        } else {
            0int
        }),
        1int,
{
    match s {
        SchemaView::Array(child) => {
            lemma_items_wire_of_normal(v->Array_0, *child, schemas, 0, Seq::empty());
        },
        SchemaView::Object(props) => {
            lemma_props_wire_of_normal(v->Object_0, props, schemas, 0, Seq::empty(), Seq::empty());
        },
        SchemaView::Reference(reference) => {
            lemma_resolve_terminal(schemas, reference, Set::empty());
            lemma_wire_of_normal(v, resolved(schemas, reference)->Ok_0, schemas, nested);
        },
        _ => {},
    }
}

/// The normal form of a value that a schema describes conforms to the schema.
pub proof fn lemma_normal_conforms(v: ValueView, s: SchemaView, schemas: Schemas)
    requires
        schemas.dom().finite(),
        describes(v, s, schemas),
    ensures
        conforms(normal(v, s, schemas), s, schemas),
    decreases v,
        (if s is Reference {
            1int
        } else {
            0int
        }),
{
    match s {
        SchemaView::Array(child) => {
            let items = v->Array_0;
            let others = normal(v, s, schemas)->Array_0;
            assert forall|i: int| 0 <= i < others.len() implies conforms(
                #[trigger] others[i],
                *child,
                schemas,
            ) by {
                lemma_normal_conforms(items[i], *child, schemas);
            }
        },
        SchemaView::Object(props) => {
            let fields = v->Object_0;
            let others = normal_fields(fields, props, schemas, 0);
            lemma_normal_fields_ordered(fields, props, schemas, 0);
            assert forall|i: int| 0 <= i < props.len() implies if occurs(
                field_names(others),
                (#[trigger] props[i]).name,
            ) {
                conforms(
                    others[first_index(field_names(others), props[i].name)].value,
                    props[i].schema,
                    schemas,
                )
            } else {
                !props[i].required
            } by {
                if occurs(field_names(fields), props[i].name) {
                    lemma_normal_lookup(fields, props, schemas, 0, i);
                    let at = first_index(field_names(fields), props[i].name);
                    assert(0 <= at < fields.len());
                    assert(decreases_to!(v => fields[at].value)) by {
                        assert(decreases_to!(v => fields));
                        assert(decreases_to!(fields => fields[at]));
                        assert(decreases_to!(fields[at] => fields[at].value));
                    }
                    lemma_normal_conforms(fields[at].value, props[i].schema, schemas);
                } else {
                    lemma_normal_absent(fields, props, schemas, 0, props[i].name);
                }
            }
        },
        SchemaView::Reference(reference) => {
            lemma_resolve_terminal(schemas, reference, Set::empty());
            lemma_normal_conforms(v, resolved(schemas, reference)->Ok_0, schemas);
        },
        _ => {},
    }
}

/// The normal form of a value that a schema describes is the same value,
/// its objects read as maps.
pub proof fn lemma_normal_same(v: ValueView, s: SchemaView, schemas: Schemas)
    requires
        schemas.dom().finite(),
        describes(v, s, schemas),
    ensures
        same_value(normal(v, s, schemas), v),
    decreases v,
        (if s is Reference {
            1int
        } else {
            0int
        }),
{
    match s {
        SchemaView::Array(child) => {
            let items = v->Array_0;
            let others = normal(v, s, schemas)->Array_0;
            assert forall|i: int| 0 <= i < others.len() implies same_value(
                #[trigger] others[i],
                items[i],
            ) by {
                lemma_normal_same(items[i], *child, schemas);
            }
        },
        SchemaView::Object(props) => {
            let fields = v->Object_0;
            let others = normal_fields(fields, props, schemas, 0);
            assert forall|name: Seq<char>| #[trigger]
                occurs(field_names(others), name) == occurs(field_names(fields), name) && (occurs(
                    field_names(others),
                    name,
                ) ==> 0 <= first_index(field_names(others), name) < others.len() && same_value(
                    others[first_index(field_names(others), name)].value,
                    fields[first_index(field_names(fields), name)].value,
                )) by {
                if occurs(field_names(fields), name) {
                    let at = first_index(field_names(fields), name);
                    assert(0 <= at < fields.len());
                    assert(fields[at].name == name);
                    let j = choose|j: int|
                        0 <= j < props.len() && (#[trigger] props[j]).name == fields[at].name;
                    lemma_normal_lookup(fields, props, schemas, 0, j);
                    assert(decreases_to!(v => fields[at].value)) by {
                        assert(decreases_to!(v => fields));
                        assert(decreases_to!(fields => fields[at]));
                        assert(decreases_to!(fields[at] => fields[at].value));
                    }
                    lemma_normal_same(fields[at].value, props[j].schema, schemas);
                } else {
                    lemma_normal_absent(fields, props, schemas, 0, name);
                }
            }
        },
        SchemaView::Reference(reference) => {
            lemma_resolve_terminal(schemas, reference, Set::empty());
            lemma_normal_same(v, resolved(schemas, reference)->Ok_0, schemas);
        },
        _ => {},
    }
}

/// **Round trip, whatever the order of the fields.** A value that a schema
/// describes and that has an encoding under it comes back from decoding
/// that encoding in its normal form, which is the same value, its objects
/// read as maps; and the decoding uses up the encoding.
pub proof fn lemma_round_trip_any_order(
    v: ValueView,
    s: SchemaView,
    schemas: Schemas,
    nested: bool,
)
    requires
        schemas.dom().finite(),
        describes(v, s, schemas),
        value_wire(v, s, schemas, nested) is Ok,
    ensures
        value_unwire(value_wire(v, s, schemas, nested)->Ok_0, s, schemas, nested) == Ok::<
            (ValueView, Seq<u8>),
            ErrorView,
        >((normal(v, s, schemas), Seq::empty())),
        same_value(normal(v, s, schemas), v),
{
    lemma_wire_of_normal(v, s, schemas, nested);
    lemma_normal_conforms(v, s, schemas);
    lemma_normal_same(v, s, schemas);
    lemma_round_trip(normal(v, s, schemas), s, schemas, nested);
}

} // verus!
