//! Encoding and decoding.

pub mod buffer;
pub mod decoder;
pub mod encoder;
pub mod ieee;
pub mod laws;
pub mod traits;
pub mod wire;

pub use decoder::Decoder;
pub use encoder::Encoder;
pub use traits::{Decode, Encode};
