//! Laws of the wire format.
//!
//! What holds of every value, schema and registry, proved of the
//! mathematical form of the format that the encoder and the decoder are
//! held to.

pub mod conformance;
pub mod field_order;
pub mod framing;
pub mod limits;
pub mod round_trip;
