//! UUIDs: sixteen raw bytes on the wire.
//!
//! Text is turned into a UUID, and a UUID into text, by the `uuid` crate.

use bytes::{Bytes, BytesMut};
use vstd::prelude::*;

use crate::codec::buffer::{is_tail, 
    append, committed, remaining, split_to, unread, unread_bytes, written,
};
use crate::error::{DecodeError, DecodeErrorView, EncodeError, EncodeErrorView};

verus! {

/// A UUID, as its sixteen bytes in network order.
#[derive(Debug, Clone, Copy, PartialEq, Eq, Hash)]
pub struct Uuid {
    pub bytes: [u8; 16],
}

/// The sixteen bytes that the `uuid` crate reads from a text, if it reads any.
pub uninterp spec fn uuid_from_text(text: Seq<char>) -> Option<Seq<u8>>;

/// The digit of a number below sixteen, in lower-case hexadecimal.
pub open spec fn hex_digit(n: int) -> char {
    "0123456789abcdef"@[n]
}

/// The hyphenated lower-case text of a UUID: groups of 8, 4, 4, 4 and 12
/// hexadecimal digits, each byte giving two digits, the high one first.
pub open spec fn uuid_text(bytes: Seq<u8>) -> Seq<char> {
    Seq::new(
        36,
        |p: int|
            if p == 8 || p == 13 || p == 18 || p == 23 {
                '-'
            } else {
                let digit = p - (if p > 23 {
                    4int
                } else if p > 18 {
                    3int
                } else if p > 13 {
                    2int
                } else if p > 8 {
                    1int
                } else {
                    0int
                });
                let byte = bytes[digit / 2] as int;
                hex_digit(
                    if digit % 2 == 0 {
                        byte / 16
                    } else {
                        byte % 16
                    },
                )
            },
    )
}

/// `uuid::Uuid::parse_str`, with the UUID handed out as its bytes and a
/// refusal as `None`: what it reads from the text is named [`uuid_from_text`].
#[verifier::external_body]
pub(crate) fn parse_str(text: &str) -> (parsed: Option<[u8; 16]>)
    ensures
        match parsed {
            Some(bytes) => uuid_from_text(text@) == Some(bytes@),
            None => uuid_from_text(text@) is None,
        },
{
    ::uuid::Uuid::parse_str(text).ok().map(|u| u.into_bytes())
}

/// `uuid::Uuid`'s `to_string`: the hyphenated lower-case text of the UUID
/// with these bytes.
#[verifier::external_body]
pub(crate) fn hyphenated(bytes: &[u8; 16]) -> (text: String)
    ensures
        text@ == uuid_text(bytes@),
{
    ::uuid::Uuid::from_bytes(*bytes).to_string()
}

/// Detail of the error for a text that is no UUID.
pub open spec fn invalid_uuid(text: Seq<char>) -> Seq<char> {
    "Invalid UUID: "@ + text
}

impl Uuid {
    /// The UUID with the given bytes.
    pub fn from_bytes(bytes: [u8; 16]) -> (uuid: Uuid)
        ensures
            uuid.bytes == bytes,
    {
        Uuid { bytes }
    }

    /// The bytes of the UUID.
    pub fn as_bytes(&self) -> (bytes: &[u8; 16])
        ensures
            *bytes == self.bytes,
    {
        &self.bytes
    }

    /// The hyphenated lower-case text of the UUID.
    pub fn to_string(&self) -> (text: String)
        ensures
            text@ == uuid_text(self.bytes@),
    {
        hyphenated(&self.bytes)
    }
}

/// Appends the sixteen bytes of a UUID.
pub fn encode_uuid(buf: &mut BytesMut, uuid: &Uuid) -> (outcome: Result<(), EncodeError>)
    ensures
        committed(written(*old(buf)), written(*final(buf)), outcome, Ok(uuid.bytes@)),
{
    append(buf, uuid.bytes.as_slice())
}

/// What reading a UUID off `input` gives.
pub open spec fn uuid_unwire(input: Seq<u8>) -> Result<(Seq<u8>, Seq<u8>), DecodeErrorView> {
    if input.len() < 16 {
        Err(DecodeErrorView::UnexpectedEof)
    } else {
        Ok((input.take(16), input.skip(16)))
    }
}

/// Reads the sixteen bytes of a UUID off the buffer.
pub fn decode_uuid(buf: &mut Bytes) -> (outcome: Result<Uuid, DecodeError>)
    ensures
        is_tail(unread(*final(buf)), unread(*old(buf))),
        match uuid_unwire(unread(*old(buf))) {
            Ok((bytes, rest)) => outcome matches Ok(u) && u.bytes@ == bytes && unread(*final(buf))
                == rest,
            Err(e) => outcome matches Err(x) && x@ == e,
        },
{
    if remaining(buf) < 16 {
        return Err(DecodeError::UnexpectedEof);
    }
    let head = split_to(buf, 16);
    let src = unread_bytes(&head);
    let mut bytes: [u8; 16] = [0u8; 16];
    let mut i: usize = 0;
    while i < 16
        invariant
            i <= 16,
            src@.len() == 16,
            forall|j: int| 0 <= j < i ==> bytes@[j] == src@[j],
        decreases 16 - i,
    {
        bytes[i] = src[i];
        i += 1;
    }
    assert(bytes@ =~= src@);
    Ok(Uuid { bytes })
}

/// What a reading of `text` by the `uuid` crate comes to: the UUID it read,
/// or an error that quotes the text.
pub fn uuid_outcome(text: &str, parsed: Option<[u8; 16]>) -> (outcome: Result<Uuid, EncodeError>)
    ensures
        match parsed {
            Some(bytes) => outcome == Ok::<Uuid, EncodeError>(Uuid { bytes }),
            None => outcome matches Err(e) && e@ == EncodeErrorView::InvalidFormat(
                invalid_uuid(text@),
            ),
        },
{
    match parsed {
        Some(bytes) => Ok(Uuid { bytes }),
        None => {
            let mut detail = "Invalid UUID: ".to_owned();
            detail.append(text);
            Err(EncodeError::InvalidFormat(detail))
        },
    }
}

/// Reads a UUID from its text, as the `uuid` crate reads it.
pub fn parse_uuid(s: &str) -> (outcome: Result<Uuid, EncodeError>)
    ensures
        match uuid_from_text(s@) {
            Some(bytes) => outcome matches Ok(u) && u.bytes@ == bytes,
            None => outcome matches Err(e) && e@ == EncodeErrorView::InvalidFormat(
                invalid_uuid(s@),
            ),
        },
{
    uuid_outcome(s, parse_str(s))
}

/// Size of a UUID on the wire.
pub fn uuid_size() -> (n: usize)
    ensures
        n == 16,
{
    16
}

} // verus!
