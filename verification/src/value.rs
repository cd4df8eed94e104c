//! Values: the tree of data that a schema describes.

use vstd::prelude::*;
use vstd::std_specs::convert::FromSpecImpl;

use crate::formats::ipaddr::{Ipv4Addr, Ipv6Addr};
use crate::formats::uuid::Uuid;
use crate::names::{entry_names, find, first_index, lemma_first_unique, occurs};

verus! {

/// A value of any kind the codec knows.
///
/// Floating-point numbers are held as their IEEE-754 bit patterns, instants
/// as milliseconds since the Unix epoch, days as days since 1970-01-01. An
/// object is the list of its fields in order; an optional property that is
/// left out is a field that is not in the list.
#[derive(Debug, PartialEq)]
pub enum Value {
    Boolean(bool),
    Integer(i64),
    /// The bits of a single-precision number.
    Float(u32),
    /// The bits of a double-precision number.
    Double(u64),
    String(String),
    Uuid(Uuid),
    /// Milliseconds since the Unix epoch.
    DateTime(i64),
    /// Days since 1970-01-01.
    Date(i32),
    Ipv4(Ipv4Addr),
    Ipv6(Ipv6Addr),
    Binary(Vec<u8>),
    Array(Vec<Value>),
    Object(Vec<(String, Value)>),
    Null,
}

/// Mathematical form of a value.
pub enum ValueView {
    Boolean(bool),
    Integer(i64),
    Float(u32),
    Double(u64),
    String(Seq<char>),
    Uuid(Seq<u8>),
    DateTime(i64),
    Date(i32),
    Ipv4(Seq<u8>),
    Ipv6(Seq<u8>),
    Binary(Seq<u8>),
    Array(Seq<ValueView>),
    Object(Seq<FieldView>),
    Null,
}

/// Mathematical form of a field of an object.
pub struct FieldView {
    pub name: Seq<char>,
    pub value: ValueView,
}

/// The model of a value.
pub open spec fn value_view(v: Value) -> ValueView
    decreases v,
{
    match v {
        Value::Boolean(b) => ValueView::Boolean(b),
        Value::Integer(i) => ValueView::Integer(i),
        Value::Float(bits) => ValueView::Float(bits),
        Value::Double(bits) => ValueView::Double(bits),
        Value::String(s) => ValueView::String(s@),
        Value::Uuid(u) => ValueView::Uuid(u.bytes@),
        Value::DateTime(millis) => ValueView::DateTime(millis),
        Value::Date(days) => ValueView::Date(days),
        Value::Ipv4(a) => ValueView::Ipv4(a.octets@),
        Value::Ipv6(a) => ValueView::Ipv6(a.octets@),
        Value::Binary(data) => ValueView::Binary(data@),
        Value::Array(items) => ValueView::Array(
            Seq::new(
                items@.len(),
                |i: int|
                    if 0 <= i < items@.len() {
                        value_view(items@[i])
                    } else {
                        ValueView::Null
                    },
            ),
        ),
        Value::Object(fields) => ValueView::Object(
            Seq::new(
                fields@.len(),
                |i: int|
                    FieldView {
                        name: fields@[i].0@,
                        value: if 0 <= i < fields@.len() {
                            value_view(fields@[i].1)
                        } else {
                            ValueView::Null
                        },
                    },
            ),
        ),
        Value::Null => ValueView::Null,
    }
}

/// The model of the elements of an array.
pub open spec fn values_view(items: Vec<Value>) -> Seq<ValueView> {
    value_view(Value::Array(items))->Array_0
}

/// The model of the fields of an object.
pub open spec fn fields_view(fields: Vec<(String, Value)>) -> Seq<FieldView> {
    value_view(Value::Object(fields))->Object_0
}

impl View for Value {
    type V = ValueView;

    open spec fn view(&self) -> ValueView {
        value_view(*self)
    }
}

/// The names of the fields of an object, in order.
pub open spec fn field_names(fields: Seq<FieldView>) -> Seq<Seq<char>> {
    Seq::new(fields.len(), |i: int| fields[i].name)
}

/// The value of the first field called `name`, if there is one.
pub open spec fn field_value(fields: Seq<FieldView>, name: Seq<char>) -> Option<ValueView> {
    if occurs(field_names(fields), name) {
        Some(fields[first_index(field_names(fields), name)].value)
    } else {
        None
    }
}

impl Value {
    /// Whether the value is null.
    pub fn is_null(&self) -> (yes: bool)
        ensures
            yes == (self@ is Null),
    {
        match self {
            Value::Null => true,
            _ => false,
        }
    }

    /// Whether the value is a boolean.
    pub fn is_boolean(&self) -> (yes: bool)
        ensures
            yes == (self@ is Boolean),
    {
        match self {
            Value::Boolean(_) => true,
            _ => false,
        }
    }

    /// Whether the value is an integer.
    pub fn is_integer(&self) -> (yes: bool)
        ensures
            yes == (self@ is Integer),
    {
        match self {
            Value::Integer(_) => true,
            _ => false,
        }
    }

    /// Whether the value is a single-precision number.
    pub fn is_float(&self) -> (yes: bool)
        ensures
            yes == (self@ is Float),
    {
        match self {
            Value::Float(_) => true,
            _ => false,
        }
    }

    /// Whether the value is a double-precision number.
    pub fn is_double(&self) -> (yes: bool)
        ensures
            yes == (self@ is Double),
    {
        match self {
            Value::Double(_) => true,
            _ => false,
        }
    }

    /// Whether the value is a plain string.
    pub fn is_string(&self) -> (yes: bool)
        ensures
            yes == (self@ is String),
    {
        match self {
            Value::String(_) => true,
            _ => false,
        }
    }

    /// Whether the value is an array.
    pub fn is_array(&self) -> (yes: bool)
        ensures
            yes == (self@ is Array),
    {
        match self {
            Value::Array(_) => true,
            _ => false,
        }
    }

    /// Whether the value is an object.
    pub fn is_object(&self) -> (yes: bool)
        ensures
            yes == (self@ is Object),
    {
        match self {
            Value::Object(_) => true,
            _ => false,
        }
    }

    /// The boolean, if the value is one.
    pub fn as_bool(&self) -> (found: Option<bool>)
        ensures
            found == (match self@ {
                ValueView::Boolean(b) => Some(b),
                _ => None,
            }),
    {
        match self {
            Value::Boolean(b) => Some(*b),
            _ => None,
        }
    }

    /// The integer, if the value is one.
    pub fn as_i64(&self) -> (found: Option<i64>)
        ensures
            found == (match self@ {
                ValueView::Integer(i) => Some(i),
                _ => None,
            }),
    {
        match self {
            Value::Integer(i) => Some(*i),
            _ => None,
        }
    }

    /// The bit pattern of the single-precision number, if the value is one.
    pub fn as_float_bits(&self) -> (found: Option<u32>)
        ensures
            found == (match self@ {
                ValueView::Float(bits) => Some(bits),
                _ => None,
            }),
    {
        match self {
            Value::Float(bits) => Some(*bits),
            _ => None,
        }
    }

    /// The bit pattern of the double-precision number, if the value is one.
    pub fn as_double_bits(&self) -> (found: Option<u64>)
        ensures
            found == (match self@ {
                ValueView::Double(bits) => Some(bits),
                _ => None,
            }),
    {
        match self {
            Value::Double(bits) => Some(*bits),
            _ => None,
        }
    }

    /// The text, if the value is a plain string.
    pub fn as_str(&self) -> (found: Option<&str>)
        ensures
            match self@ {
                ValueView::String(s) => found matches Some(t) && t@ == s,
                _ => found is None,
            },
    {
        match self {
            Value::String(s) => Some(s.as_str()),
            _ => None,
        }
    }

    /// The elements, if the value is an array.
    pub fn as_array(&self) -> (found: Option<&Vec<Value>>)
        ensures
            match self@ {
                ValueView::Array(items) => found matches Some(v) && values_view(*v) == items,
                _ => found is None,
            },
    {
        match self {
            Value::Array(items) => Some(items),
            _ => None,
        }
    }

    /// The fields, if the value is an object.
    pub fn as_object(&self) -> (found: Option<&Vec<(String, Value)>>)
        ensures
            match self@ {
                ValueView::Object(fields) => found matches Some(v) && fields_view(*v) == fields,
                _ => found is None,
            },
    {
        match self {
            Value::Object(fields) => Some(fields),
            _ => None,
        }
    }

    /// The value of the first field called `key`, if the value is an object
    /// that has one.
    pub fn get(&self, key: &str) -> (found: Option<&Value>)
        ensures
            match self@ {
                ValueView::Object(fields) => match field_value(fields, key@) {
                    Some(v) => found matches Some(x) && x@ == v,
                    None => found is None,
                },
                _ => found is None,
            },
    {
        match self {
            Value::Object(fields) => {
                assert(entry_names(fields@) =~= field_names(fields_view(*fields)));
                match find(fields, key) {
                    Some(i) => {
                        proof {
                            lemma_first_unique(field_names(fields_view(*fields)), key@, i as int);
                        }
                        Some(&fields[i].1)
                    },
                    None => None,
                }
            },
            _ => None,
        }
    }
}

impl From<bool> for Value {
    fn from(b: bool) -> (out: Value) {
        Value::Boolean(b)
    }
}

impl FromSpecImpl<bool> for Value {
    open spec fn obeys_from_spec() -> bool {
        true
    }

    open spec fn from_spec(b: bool) -> Value {
        Value::Boolean(b)
    }
}

impl From<i64> for Value {
    fn from(i: i64) -> (out: Value) {
        Value::Integer(i)
    }
}

impl FromSpecImpl<i64> for Value {
    open spec fn obeys_from_spec() -> bool {
        true
    }

    open spec fn from_spec(i: i64) -> Value {
        Value::Integer(i)
    }
}

impl From<String> for Value {
    fn from(s: String) -> (out: Value) {
        Value::String(s)
    }
}

impl FromSpecImpl<String> for Value {
    open spec fn obeys_from_spec() -> bool {
        true
    }

    open spec fn from_spec(s: String) -> Value {
        Value::String(s)
    }
}

impl From<Uuid> for Value {
    fn from(uuid: Uuid) -> (out: Value) {
        Value::Uuid(uuid)
    }
}

impl FromSpecImpl<Uuid> for Value {
    open spec fn obeys_from_spec() -> bool {
        true
    }

    open spec fn from_spec(uuid: Uuid) -> Value {
        Value::Uuid(uuid)
    }
}

impl From<Ipv4Addr> for Value {
    fn from(addr: Ipv4Addr) -> (out: Value) {
        Value::Ipv4(addr)
    }
}

impl FromSpecImpl<Ipv4Addr> for Value {
    open spec fn obeys_from_spec() -> bool {
        true
    }

    open spec fn from_spec(addr: Ipv4Addr) -> Value {
        Value::Ipv4(addr)
    }
}

impl From<Ipv6Addr> for Value {
    fn from(addr: Ipv6Addr) -> (out: Value) {
        Value::Ipv6(addr)
    }
}

impl FromSpecImpl<Ipv6Addr> for Value {
    open spec fn obeys_from_spec() -> bool {
        true
    }

    open spec fn from_spec(addr: Ipv6Addr) -> Value {
        Value::Ipv6(addr)
    }
}

impl From<Vec<u8>> for Value {
    fn from(bytes: Vec<u8>) -> (out: Value) {
        Value::Binary(bytes)
    }
}

impl FromSpecImpl<Vec<u8>> for Value {
    open spec fn obeys_from_spec() -> bool {
        true
    }

    open spec fn from_spec(bytes: Vec<u8>) -> Value {
        Value::Binary(bytes)
    }
}

impl From<Vec<Value>> for Value {
    fn from(items: Vec<Value>) -> (out: Value) {
        Value::Array(items)
    }
}

impl FromSpecImpl<Vec<Value>> for Value {
    open spec fn obeys_from_spec() -> bool {
        true
    }

    open spec fn from_spec(items: Vec<Value>) -> Value {
        Value::Array(items)
    }
}

impl From<Vec<(String, Value)>> for Value {
    fn from(fields: Vec<(String, Value)>) -> (out: Value) {
        Value::Object(fields)
    }
}

impl FromSpecImpl<Vec<(String, Value)>> for Value {
    open spec fn obeys_from_spec() -> bool {
        true
    }

    open spec fn from_spec(fields: Vec<(String, Value)>) -> Value {
        Value::Object(fields)
    }
}

impl From<i32> for Value {
    fn from(i: i32) -> (out: Value) {
        Value::Integer(i as i64)
    }
}

impl FromSpecImpl<i32> for Value {
    open spec fn obeys_from_spec() -> bool {
        true
    }

    open spec fn from_spec(i: i32) -> Value {
        Value::Integer(i as i64)
    }
}

impl From<Option<Value>> for Value {
    fn from(found: Option<Value>) -> (out: Value) {
        match found {
            Some(value) => value,
            None => Value::Null,
        }
    }
}

impl FromSpecImpl<Option<Value>> for Value {
    open spec fn obeys_from_spec() -> bool {
        true
    }

    open spec fn from_spec(found: Option<Value>) -> Value {
        match found {
            Some(value) => value,
            None => Value::Null,
        }
    }
}

impl Clone for Value {
    fn clone(&self) -> (out: Value)
        ensures
            out@ == self@,
        decreases self,
    {
        match self {
            Value::Boolean(b) => Value::Boolean(*b),
            Value::Integer(i) => Value::Integer(*i),
            Value::Float(bits) => Value::Float(*bits),
            Value::Double(bits) => Value::Double(*bits),
            Value::String(s) => Value::String(s.clone()),
            Value::Uuid(u) => Value::Uuid(Uuid { bytes: u.bytes }),
            Value::DateTime(millis) => Value::DateTime(*millis),
            Value::Date(days) => Value::Date(*days),
            Value::Ipv4(a) => Value::Ipv4(Ipv4Addr { octets: a.octets }),
            Value::Ipv6(a) => Value::Ipv6(Ipv6Addr { octets: a.octets }),
            Value::Binary(data) => Value::Binary(data.clone()),
            Value::Array(items) => {
                let mut copy: Vec<Value> = Vec::new();
                let mut i: usize = 0;
                while i < items.len()
                    invariant
                        *self == Value::Array(*items),
                        i <= items.len(),
                        copy@.len() == i,
                        forall|j: int| 0 <= j < i ==> (#[trigger] copy@[j])@ == items@[j]@,
                    decreases items.len() - i,
                {
                    assert(decreases_to!(*self => items@[i as int])) by {
                        assert(decreases_to!(*self => self->Array_0));
                        assert(decreases_to!(*items => items@));
                        assert(decreases_to!(items@ => items@[i as int]));
                    }
                    copy.push(items[i].clone());
                    i += 1;
                }
                let out = Value::Array(copy);
                assert(out@->Array_0 =~= self@->Array_0);
                out
            },
            Value::Object(fields) => {
                let mut copy: Vec<(String, Value)> = Vec::new();
                let mut i: usize = 0;
                while i < fields.len()
                    invariant
                        *self == Value::Object(*fields),
                        i <= fields.len(),
                        copy@.len() == i,
                        forall|j: int|
                            0 <= j < i ==> {
                                &&& (#[trigger] copy@[j]).0@ == fields@[j].0@
                                &&& copy@[j].1@ == fields@[j].1@
                            },
                    decreases fields.len() - i,
                {
                    assert(decreases_to!(*self => fields@[i as int].1)) by {
                        assert(decreases_to!(*self => self->Object_0));
                        assert(decreases_to!(*fields => fields@));
                        assert(decreases_to!(fields@ => fields@[i as int]));
                        assert(decreases_to!(fields@[i as int] => fields@[i as int].1));
                    }
                    let entry = &fields[i];
                    copy.push((entry.0.clone(), entry.1.clone()));
                    i += 1;
                }
                let out = Value::Object(copy);
                assert(out@->Object_0 =~= self@->Object_0);
                out
            },
            Value::Null => Value::Null,
        }
    }
}

} // verus!
