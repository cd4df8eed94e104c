//! Schemas: the tree that describes a value's shape, and the registry of named schemas.

pub mod definition;
pub mod registry;

pub use definition::{IntegerFormat, NumberFormat, Property, SchemaType, StringFormat};
pub use registry::SchemaRegistry;
