//! Compact encodings of the string formats: UUID, date and time, IP addresses, binary.

pub mod binary;
pub mod datetime;
pub mod ipaddr;
pub mod uuid;
