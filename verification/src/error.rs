//! Error types of the codec, with their mathematical views.

use vstd::prelude::*;
use vstd::std_specs::convert::FromSpecImpl;

verus! {

/// Errors of schema handling: references and required fields.
#[derive(Debug, Clone, PartialEq, Eq)]
pub enum SchemaError {
    /// A reference names a schema that is not registered.
    UnresolvedReference(String),
    /// A reference has no name in it.
    InvalidReference(String),
    /// The schema definition is unusable.
    InvalidSchema(String),
    /// Following a chain of references came back to a name already seen.
    CircularReference(String),
    /// A required property has no value.
    MissingField(String),
}

/// Errors of encoding.
#[derive(Debug, Clone, PartialEq, Eq)]
pub enum EncodeError {
    /// The value's kind is not the one the schema asks for.
    TypeMismatch { expected: String, actual: String },
    /// A required property has no value.
    MissingField(String),
    /// A length or range limit is exceeded, or a text form is malformed.
    InvalidFormat(String),
    /// The output would grow past what a buffer can hold.
    BufferOverflow,
}

/// Errors of decoding.
#[derive(Debug, Clone, PartialEq, Eq)]
pub enum DecodeError {
    /// The input ends before the value does.
    UnexpectedEof,
    /// The bytes are not a valid encoding.
    InvalidData(String),
    /// The bytes do not fit the schema.
    SchemaMismatch(String),
    /// A read went past the region it was confined to.
    BufferUnderflow,
}

/// Any error of the library.
#[derive(Debug, Clone, PartialEq, Eq)]
pub enum Error {
    Schema(SchemaError),
    Encode(EncodeError),
    Decode(DecodeError),
}

/// Mathematical form of [`SchemaError`].
pub enum SchemaErrorView {
    UnresolvedReference(Seq<char>),
    InvalidReference(Seq<char>),
    InvalidSchema(Seq<char>),
    CircularReference(Seq<char>),
    MissingField(Seq<char>),
}

/// Mathematical form of [`EncodeError`].
pub enum EncodeErrorView {
    TypeMismatch { expected: Seq<char>, actual: Seq<char> },
    MissingField(Seq<char>),
    InvalidFormat(Seq<char>),
    BufferOverflow,
}

/// Mathematical form of [`DecodeError`].
pub enum DecodeErrorView {
    UnexpectedEof,
    InvalidData(Seq<char>),
    SchemaMismatch(Seq<char>),
    BufferUnderflow,
}

/// Mathematical form of [`Error`].
pub enum ErrorView {
    Schema(SchemaErrorView),
    Encode(EncodeErrorView),
    Decode(DecodeErrorView),
}

impl View for SchemaError {
    type V = SchemaErrorView;

    open spec fn view(&self) -> SchemaErrorView {
        match *self {
            SchemaError::UnresolvedReference(s) => SchemaErrorView::UnresolvedReference(s@),
            SchemaError::InvalidReference(s) => SchemaErrorView::InvalidReference(s@),
            SchemaError::InvalidSchema(s) => SchemaErrorView::InvalidSchema(s@),
            SchemaError::CircularReference(s) => SchemaErrorView::CircularReference(s@),
            SchemaError::MissingField(s) => SchemaErrorView::MissingField(s@),
        }
    }
}

impl View for EncodeError {
    type V = EncodeErrorView;

    open spec fn view(&self) -> EncodeErrorView {
        match *self {
            EncodeError::TypeMismatch { expected, actual } => EncodeErrorView::TypeMismatch {
                expected: expected@,
                actual: actual@,
            },
            EncodeError::MissingField(s) => EncodeErrorView::MissingField(s@),
            EncodeError::InvalidFormat(s) => EncodeErrorView::InvalidFormat(s@),
            EncodeError::BufferOverflow => EncodeErrorView::BufferOverflow,
        }
    }
}

impl View for DecodeError {
    type V = DecodeErrorView;

    open spec fn view(&self) -> DecodeErrorView {
        match *self {
            DecodeError::UnexpectedEof => DecodeErrorView::UnexpectedEof,
            DecodeError::InvalidData(s) => DecodeErrorView::InvalidData(s@),
            DecodeError::SchemaMismatch(s) => DecodeErrorView::SchemaMismatch(s@),
            DecodeError::BufferUnderflow => DecodeErrorView::BufferUnderflow,
        }
    }
}

impl View for Error {
    type V = ErrorView;

    open spec fn view(&self) -> ErrorView {
        match *self {
            Error::Schema(e) => ErrorView::Schema(e@),
            Error::Encode(e) => ErrorView::Encode(e@),
            Error::Decode(e) => ErrorView::Decode(e@),
        }
    }
}

/// The message of a schema error.
pub open spec fn schema_error_text(e: SchemaErrorView) -> Seq<char> {
    match e {
        SchemaErrorView::UnresolvedReference(s) => "Unresolved reference: "@ + s,
        SchemaErrorView::InvalidReference(s) => "Invalid reference: "@ + s,
        SchemaErrorView::InvalidSchema(s) => "Invalid schema: "@ + s,
        SchemaErrorView::CircularReference(s) => "Circular reference detected: "@ + s,
        SchemaErrorView::MissingField(s) => "Missing required field: "@ + s,
    }
}

/// The message of an encoding error.
pub open spec fn encode_error_text(e: EncodeErrorView) -> Seq<char> {
    match e {
        EncodeErrorView::TypeMismatch { expected, actual } => "Type mismatch: expected "@
            + expected + ", got "@ + actual,
        EncodeErrorView::MissingField(s) => "Missing required field: "@ + s,
        EncodeErrorView::InvalidFormat(s) => "Invalid format: "@ + s,
        EncodeErrorView::BufferOverflow => "Buffer overflow"@,
    }
}

/// The message of a decoding error.
pub open spec fn decode_error_text(e: DecodeErrorView) -> Seq<char> {
    match e {
        DecodeErrorView::UnexpectedEof => "Unexpected end of input"@,
        DecodeErrorView::InvalidData(s) => "Invalid data: "@ + s,
        DecodeErrorView::SchemaMismatch(s) => "Schema mismatch: "@ + s,
        DecodeErrorView::BufferUnderflow => "Buffer underflow"@,
    }
}

/// The message of an error.
pub open spec fn error_text(e: ErrorView) -> Seq<char> {
    match e {
        ErrorView::Schema(e) => schema_error_text(e),
        ErrorView::Encode(e) => encode_error_text(e),
        ErrorView::Decode(e) => decode_error_text(e),
    }
}

/// A text made of a heading and a detail.
fn headed(heading: &str, detail: &String) -> (text: String)
    ensures
        text@ == heading@ + detail@,
{
    let mut text = heading.to_owned();
    text.append(detail.as_str());
    text
}

impl SchemaError {
    /// The message of the error.
    pub fn to_string(&self) -> (text: String)
        ensures
            text@ == schema_error_text(self@),
    {
        match self {
            SchemaError::UnresolvedReference(s) => headed("Unresolved reference: ", s),
            SchemaError::InvalidReference(s) => headed("Invalid reference: ", s),
            SchemaError::InvalidSchema(s) => headed("Invalid schema: ", s),
            SchemaError::CircularReference(s) => headed("Circular reference detected: ", s),
            SchemaError::MissingField(s) => headed("Missing required field: ", s),
        }
    }
}

impl EncodeError {
    /// The message of the error.
    pub fn to_string(&self) -> (text: String)
        ensures
            text@ == encode_error_text(self@),
    {
        match self {
            EncodeError::TypeMismatch { expected, actual } => {
                let mut text = headed("Type mismatch: expected ", expected);
                text.append(", got ");
                text.append(actual.as_str());
                text
            },
            EncodeError::MissingField(s) => headed("Missing required field: ", s),
            EncodeError::InvalidFormat(s) => headed("Invalid format: ", s),
            EncodeError::BufferOverflow => "Buffer overflow".to_owned(),
        }
    }
}

impl DecodeError {
    /// The message of the error.
    pub fn to_string(&self) -> (text: String)
        ensures
            text@ == decode_error_text(self@),
    {
        match self {
            DecodeError::UnexpectedEof => "Unexpected end of input".to_owned(),
            DecodeError::InvalidData(s) => headed("Invalid data: ", s),
            DecodeError::SchemaMismatch(s) => headed("Schema mismatch: ", s),
            DecodeError::BufferUnderflow => "Buffer underflow".to_owned(),
        }
    }
}

impl Error {
    /// The message of the error.
    pub fn to_string(&self) -> (text: String)
        ensures
            text@ == error_text(self@),
    {
        match self {
            Error::Schema(e) => e.to_string(),
            Error::Encode(e) => e.to_string(),
            Error::Decode(e) => e.to_string(),
        }
    }
}

impl From<SchemaError> for Error {
    fn from(e: SchemaError) -> (out: Error) {
        Error::Schema(e)
    }
}

impl FromSpecImpl<SchemaError> for Error {
    open spec fn obeys_from_spec() -> bool {
        true
    }

    open spec fn from_spec(e: SchemaError) -> Error {
        Error::Schema(e)
    }
}

impl From<EncodeError> for Error {
    fn from(e: EncodeError) -> (out: Error) {
        Error::Encode(e)
    }
}

impl FromSpecImpl<EncodeError> for Error {
    open spec fn obeys_from_spec() -> bool {
        true
    }

    open spec fn from_spec(e: EncodeError) -> Error {
        Error::Encode(e)
    }
}

impl From<DecodeError> for Error {
    fn from(e: DecodeError) -> (out: Error) {
        Error::Decode(e)
    }
}

impl FromSpecImpl<DecodeError> for Error {
    open spec fn obeys_from_spec() -> bool {
        true
    }

    open spec fn from_spec(e: DecodeError) -> Error {
        Error::Decode(e)
    }
}

} // verus!
