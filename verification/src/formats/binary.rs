//! Binary data: a four-byte length and the raw bytes.

use bytes::{Bytes, BytesMut};
use vstd::prelude::*;

use crate::codec::buffer::{is_tail, binary_unwire, binary_wire, committed, unread, written};
use crate::error::{DecodeError, EncodeError};

verus! {

/// Appends binary data with its four-byte big-endian length in front.
pub fn encode_binary(buf: &mut BytesMut, data: &[u8]) -> (outcome: Result<(), EncodeError>)
    ensures
        committed(written(*old(buf)), written(*final(buf)), outcome, binary_wire(data@)),
{
    crate::codec::buffer::encode_binary(buf, data)
}

/// Reads binary data off the buffer.
pub fn decode_binary(buf: &mut Bytes) -> (outcome: Result<Vec<u8>, DecodeError>)
    ensures
        is_tail(unread(*final(buf)), unread(*old(buf))),
        match binary_unwire(unread(*old(buf))) {
            Ok((data, rest)) => outcome matches Ok(d) && d@ == data && unread(*final(buf)) == rest,
            Err(e) => outcome matches Err(x) && x@ == e,
        },
{
    crate::codec::buffer::decode_binary(buf)
}

/// Size of binary data on the wire.
pub fn size(data: &[u8]) -> (n: usize)
    requires
        4 + data@.len() <= usize::MAX,
    ensures
        n == 4 + data@.len(),
{
    crate::codec::buffer::binary_size(data)
}

} // verus!
