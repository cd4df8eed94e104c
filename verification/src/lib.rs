//! A schema-driven binary codec for structured values.
//!
//! A schema is a tree of typed nodes; a value is a tree of the same shape.
//! Encoding walks both and emits a compact byte sequence, decoding reads the
//! bytes back under the guidance of the same schema. Every function of the
//! library carries a contract over mathematical models of its data, and the
//! contracts are proved.

pub mod codec;
pub mod error;
pub mod formats;
pub mod names;
pub mod schema;
pub mod text;
pub mod value;

pub use codec::{Decode, Decoder, Encode, Encoder};
pub use error::{DecodeError, EncodeError, Error, SchemaError};
pub use schema::{IntegerFormat, NumberFormat, Property, SchemaRegistry, SchemaType, StringFormat};
pub use value::Value;
