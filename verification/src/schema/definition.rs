//! The schema tree.

use vstd::prelude::*;

verus! {

/// Width of an integer on the wire.
#[derive(Debug, Clone, Copy, PartialEq, Eq, Hash, Structural)]
pub enum IntegerFormat {
    /// Four bytes.
    Int32,
    /// Eight bytes.
    Int64,
}

/// Width of a floating-point number on the wire.
#[derive(Debug, Clone, Copy, PartialEq, Eq, Hash, Structural)]
pub enum NumberFormat {
    /// IEEE-754 single precision, four bytes.
    Float,
    /// IEEE-754 double precision, eight bytes.
    Double,
}

/// What a string stands for, which decides its wire form.
#[derive(Debug, Clone, Copy, PartialEq, Eq, Hash, Structural)]
pub enum StringFormat {
    /// UTF-8 text.
    Plain,
    /// A UUID, sixteen bytes.
    Uuid,
    /// An instant, milliseconds since the Unix epoch.
    DateTime,
    /// A calendar day, days since 1970-01-01.
    Date,
    /// An IPv4 address, four octets.
    Ipv4,
    /// An IPv6 address, sixteen octets.
    Ipv6,
    /// Raw bytes.
    Binary,
}

/// A node of a schema.
#[derive(Debug, PartialEq)]
pub enum SchemaType {
    Boolean,
    Integer(IntegerFormat),
    Number(NumberFormat),
    String(StringFormat),
    /// A list whose elements all have the given schema.
    Array(Box<SchemaType>),
    /// A record. The order of the properties is part of the schema: a
    /// property is known on the wire by its position in this list.
    Object(Vec<(String, Property)>),
    /// The schema registered under the given name.
    Reference(String),
    Null,
}

/// A property of an object schema.
#[derive(Debug, PartialEq)]
pub struct Property {
    pub schema_type: SchemaType,
    pub required: bool,
}

/// Mathematical form of a schema node.
pub enum SchemaView {
    Boolean,
    Integer(IntegerFormat),
    Number(NumberFormat),
    String(StringFormat),
    Array(Box<SchemaView>),
    Object(Seq<PropertyView>),
    Reference(Seq<char>),
    Null,
}

/// Mathematical form of a named property.
pub struct PropertyView {
    pub name: Seq<char>,
    pub schema: SchemaView,
    pub required: bool,
}

/// The model of a schema node.
pub open spec fn schema_view(s: SchemaType) -> SchemaView
    decreases s,
{
    match s {
        SchemaType::Boolean => SchemaView::Boolean,
        SchemaType::Integer(f) => SchemaView::Integer(f),
        SchemaType::Number(f) => SchemaView::Number(f),
        SchemaType::String(f) => SchemaView::String(f),
        SchemaType::Array(items) => SchemaView::Array(Box::new(schema_view(*items))),
        SchemaType::Object(props) => SchemaView::Object(
            Seq::new(
                props@.len(),
                |i: int|
                    PropertyView {
                        name: props@[i].0@,
                        schema: if 0 <= i < props@.len() {
                            schema_view(props@[i].1.schema_type)
                        } else {
                            SchemaView::Null
                        },
                        required: props@[i].1.required,
                    },
            ),
        ),
        SchemaType::Reference(name) => SchemaView::Reference(name@),
        SchemaType::Null => SchemaView::Null,
    }
}

/// The model of the properties of an object schema.
pub open spec fn properties_view(props: Vec<(String, Property)>) -> Seq<PropertyView> {
    schema_view(SchemaType::Object(props))->Object_0
}

impl View for SchemaType {
    type V = SchemaView;

    open spec fn view(&self) -> SchemaView {
        schema_view(*self)
    }
}

impl Property {
    /// A property that every value must have.
    pub fn required(schema_type: SchemaType) -> (property: Property)
        ensures
            property.schema_type == schema_type,
            property.required,
    {
        Property { schema_type, required: true }
    }

    /// A property that a value may leave out.
    pub fn optional(schema_type: SchemaType) -> (property: Property)
        ensures
            property.schema_type == schema_type,
            !property.required,
    {
        Property { schema_type, required: false }
    }
}

impl SchemaType {
    /// The schema of a boolean.
    pub fn boolean() -> (schema: SchemaType)
        ensures
            schema@ == SchemaView::Boolean,
    {
        SchemaType::Boolean
    }

    /// The schema of a four-byte integer.
    pub fn int32() -> (schema: SchemaType)
        ensures
            schema@ == SchemaView::Integer(IntegerFormat::Int32),
    {
        SchemaType::Integer(IntegerFormat::Int32)
    }

    /// The schema of an eight-byte integer.
    pub fn int64() -> (schema: SchemaType)
        ensures
            schema@ == SchemaView::Integer(IntegerFormat::Int64),
    {
        SchemaType::Integer(IntegerFormat::Int64)
    }

    /// The schema of a single-precision number.
    pub fn float() -> (schema: SchemaType)
        ensures
            schema@ == SchemaView::Number(NumberFormat::Float),
    {
        SchemaType::Number(NumberFormat::Float)
    }

    /// The schema of a double-precision number.
    pub fn double() -> (schema: SchemaType)
        ensures
            schema@ == SchemaView::Number(NumberFormat::Double),
    {
        SchemaType::Number(NumberFormat::Double)
    }

    /// The schema of a plain string.
    pub fn string() -> (schema: SchemaType)
        ensures
            schema@ == SchemaView::String(StringFormat::Plain),
    {
        SchemaType::String(StringFormat::Plain)
    }

    /// The schema of a UUID.
    pub fn string_uuid() -> (schema: SchemaType)
        ensures
            schema@ == SchemaView::String(StringFormat::Uuid),
    {
        SchemaType::String(StringFormat::Uuid)
    }

    /// The schema of an instant.
    pub fn string_datetime() -> (schema: SchemaType)
        ensures
            schema@ == SchemaView::String(StringFormat::DateTime),
    {
        SchemaType::String(StringFormat::DateTime)
    }

    /// The schema of a calendar day.
    pub fn string_date() -> (schema: SchemaType)
        ensures
            schema@ == SchemaView::String(StringFormat::Date),
    {
        SchemaType::String(StringFormat::Date)
    }

    /// The schema of an IPv4 address.
    pub fn string_ipv4() -> (schema: SchemaType)
        ensures
            schema@ == SchemaView::String(StringFormat::Ipv4),
    {
        SchemaType::String(StringFormat::Ipv4)
    }

    /// The schema of an IPv6 address.
    pub fn string_ipv6() -> (schema: SchemaType)
        ensures
            schema@ == SchemaView::String(StringFormat::Ipv6),
    {
        SchemaType::String(StringFormat::Ipv6)
    }

    /// The schema of binary data.
    pub fn binary() -> (schema: SchemaType)
        ensures
            schema@ == SchemaView::String(StringFormat::Binary),
    {
        SchemaType::String(StringFormat::Binary)
    }

    /// The schema of a list of items of one schema.
    pub fn array(items: SchemaType) -> (schema: SchemaType)
        ensures
            schema@ == SchemaView::Array(Box::new(items@)),
    {
        SchemaType::Array(Box::new(items))
    }

    /// The schema of a record with the given properties, in their order.
    pub fn object(properties: Vec<(String, Property)>) -> (schema: SchemaType)
        ensures
            schema@ == SchemaView::Object(properties_view(properties)),
    {
        SchemaType::Object(properties)
    }

    /// A reference to the schema registered under a name, written either
    /// `#/Name` or `Name`.
    pub fn reference(name: &str) -> (schema: SchemaType)
        ensures
            schema@ == SchemaView::Reference(name@),
    {
        SchemaType::Reference(name.to_owned())
    }

    /// The schema of null.
    pub fn null() -> (schema: SchemaType)
        ensures
            schema@ == SchemaView::Null,
    {
        SchemaType::Null
    }
}

/// The name of an integer format.
pub open spec fn integer_format_name(format: IntegerFormat) -> Seq<char> {
    match format {
        IntegerFormat::Int32 => "Int32"@,
        IntegerFormat::Int64 => "Int64"@,
    }
}

/// The name of a number format.
pub open spec fn number_format_name(format: NumberFormat) -> Seq<char> {
    match format {
        NumberFormat::Float => "Float"@,
        NumberFormat::Double => "Double"@,
    }
}

/// The name of a string format.
pub open spec fn string_format_name(format: StringFormat) -> Seq<char> {
    match format {
        StringFormat::Plain => "Plain"@,
        StringFormat::Uuid => "Uuid"@,
        StringFormat::DateTime => "DateTime"@,
        StringFormat::Date => "Date"@,
        StringFormat::Ipv4 => "Ipv4"@,
        StringFormat::Ipv6 => "Ipv6"@,
        StringFormat::Binary => "Binary"@,
    }
}

/// A short text for a schema: its kind, with its format, the text of its
/// items or the name it refers to.
pub open spec fn schema_text(s: SchemaView) -> Seq<char>
    decreases s,
{
    match s {
        SchemaView::Boolean => "boolean"@,
        SchemaView::Integer(format) => "integer("@ + integer_format_name(format) + ")"@,
        SchemaView::Number(format) => "number("@ + number_format_name(format) + ")"@,
        SchemaView::String(format) => "string("@ + string_format_name(format) + ")"@,
        SchemaView::Array(items) => "array["@ + schema_text(*items) + "]"@,
        SchemaView::Object(_) => "object"@,
        SchemaView::Reference(name) => "ref("@ + name + ")"@,
        SchemaView::Null => "null"@,
    }
}

impl IntegerFormat {
    /// The name of the format.
    pub fn name(&self) -> (name: &'static str)
        ensures
            name@ == integer_format_name(*self),
    {
        match self {
            IntegerFormat::Int32 => "Int32",
            IntegerFormat::Int64 => "Int64",
        }
    }
}

impl NumberFormat {
    /// The name of the format.
    pub fn name(&self) -> (name: &'static str)
        ensures
            name@ == number_format_name(*self),
    {
        match self {
            NumberFormat::Float => "Float",
            NumberFormat::Double => "Double",
        }
    }
}

impl StringFormat {
    /// The name of the format.
    pub fn name(&self) -> (name: &'static str)
        ensures
            name@ == string_format_name(*self),
    {
        match self {
            StringFormat::Plain => "Plain",
            StringFormat::Uuid => "Uuid",
            StringFormat::DateTime => "DateTime",
            StringFormat::Date => "Date",
            StringFormat::Ipv4 => "Ipv4",
            StringFormat::Ipv6 => "Ipv6",
            StringFormat::Binary => "Binary",
        }
    }
}

impl SchemaType {
    /// A short text for the schema.
    pub fn to_string(&self) -> (text: String)
        ensures
            text@ == schema_text(self@),
        decreases self,
    {
        match self {
            SchemaType::Boolean => "boolean".to_owned(),
            SchemaType::Integer(format) => {
                let mut text = "integer(".to_owned();
                text.append(format.name());
                text.append(")");
                text
            },
            SchemaType::Number(format) => {
                let mut text = "number(".to_owned();
                text.append(format.name());
                text.append(")");
                text
            },
            SchemaType::String(format) => {
                let mut text = "string(".to_owned();
                text.append(format.name());
                text.append(")");
                text
            },
            SchemaType::Array(items) => {
                let inner = items.to_string();
                let mut text = "array[".to_owned();
                text.append(inner.as_str());
                text.append("]");
                text
            },
            SchemaType::Object(_) => "object".to_owned(),
            SchemaType::Reference(name) => {
                let mut text = "ref(".to_owned();
                text.append(name.as_str());
                text.append(")");
                text
            },
            SchemaType::Null => "null".to_owned(),
        }
    }
}

impl Clone for SchemaType {
    fn clone(&self) -> (out: SchemaType)
        ensures
            out@ == self@,
        decreases self,
    {
        match self {
            SchemaType::Boolean => SchemaType::Boolean,
            SchemaType::Integer(f) => SchemaType::Integer(*f),
            SchemaType::Number(f) => SchemaType::Number(*f),
            SchemaType::String(f) => SchemaType::String(*f),
            SchemaType::Array(items) => SchemaType::Array(Box::new((**items).clone())),
            SchemaType::Object(props) => {
                let mut copy: Vec<(String, Property)> = Vec::new();
                let mut i: usize = 0;
                while i < props.len()
                    invariant
                        *self == SchemaType::Object(*props),
                        i <= props.len(),
                        copy@.len() == i,
                        forall|j: int|
                            0 <= j < i ==> {
                                &&& (#[trigger] copy@[j]).0@ == props@[j].0@
                                &&& copy@[j].1.schema_type@ == props@[j].1.schema_type@
                                &&& copy@[j].1.required == props@[j].1.required
                            },
                    decreases props.len() - i,
                {
                    let entry = &props[i];
                    assert(decreases_to!(*self => entry.1.schema_type)) by {
                        assert(decreases_to!(*self => self->Object_0));
                        assert(decreases_to!(*props => props@));
                        assert(decreases_to!(props@ => props@[i as int]));
                        assert(decreases_to!(props@[i as int] => props@[i as int].1));
                        assert(decreases_to!(props@[i as int].1 => props@[i as int].1.schema_type));
                    }
                    let schema_type = entry.1.schema_type.clone();
                    copy.push((entry.0.clone(), Property { schema_type, required: entry.1.required }));
                    i += 1;
                }
                let out = SchemaType::Object(copy);
                assert(out@->Object_0 =~= self@->Object_0);
                out
            },
            SchemaType::Reference(name) => SchemaType::Reference(name.clone()),
            SchemaType::Null => SchemaType::Null,
        }
    }
}

impl Clone for Property {
    fn clone(&self) -> (out: Property)
        ensures
            out.schema_type@ == self.schema_type@,
            out.required == self.required,
    {
        Property { schema_type: self.schema_type.clone(), required: self.required }
    }
}

} // verus!
