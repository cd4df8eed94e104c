//! Byte buffers and the fixed-width and length-prefixed primitives of the wire.
//!
//! Output is collected in a `bytes::BytesMut` and input is read from a
//! `bytes::Bytes`. Verus cannot look inside either, so what a buffer holds is
//! given a name ([`written`], [`unread`]) and every buffer operation the codec
//! uses is declared below with the effect it has on those contents. These
//! declarations are believed, not proved; everything built on them is proved.

use bytes::{Buf, BufMut, Bytes, BytesMut};
use vstd::prelude::*;
use vstd::slice::slice_to_vec;
use vstd::string::StringSliceAdditionalSpecFns;
use vstd::utf8::{decode_utf8, encode_utf8, valid_utf8};

use crate::error::{DecodeError, DecodeErrorView, EncodeError, EncodeErrorView};

verus! {

/// `bytes::BytesMut`, the growable output buffer.
#[verifier::external_type_specification]
#[verifier::external_body]
pub struct ExBytesMut(bytes::BytesMut);

/// `bytes::Bytes`, the input buffer: a cheaply splittable view of bytes.
#[verifier::external_type_specification]
#[verifier::external_body]
pub struct ExBytes(bytes::Bytes);

/// The bytes that an output buffer holds, first written first.
pub uninterp spec fn written(buf: BytesMut) -> Seq<u8>;

/// The bytes that an input buffer still holds, next to be read first.
pub uninterp spec fn unread(buf: Bytes) -> Seq<u8>;

/// The largest number of bytes a buffer may hold.
pub open spec fn buffer_limit() -> int {
    isize::MAX as int
}

/// Big-endian form of a 16-bit unsigned number.
pub open spec fn u16_be(x: int) -> Seq<u8> {
    seq![((x / 0x100) % 0x100) as u8, (x % 0x100) as u8]
}

/// Big-endian form of a 32-bit unsigned number.
pub open spec fn u32_be(x: int) -> Seq<u8> {
    seq![
        ((x / 0x100_0000) % 0x100) as u8,
        ((x / 0x1_0000) % 0x100) as u8,
        ((x / 0x100) % 0x100) as u8,
        (x % 0x100) as u8,
    ]
}

/// Big-endian form of a 64-bit unsigned number.
pub open spec fn u64_be(x: int) -> Seq<u8> {
    u32_be(x / 0x1_0000_0000) + u32_be(x % 0x1_0000_0000)
}

/// Big-endian two's-complement form of a 32-bit signed number.
pub open spec fn i32_be(x: int) -> Seq<u8> {
    u32_be(if x < 0 { x + 0x1_0000_0000 } else { x })
}

/// Big-endian two's-complement form of a 64-bit signed number.
pub open spec fn i64_be(x: int) -> Seq<u8> {
    u64_be(if x < 0 { x + 0x1_0000_0000_0000_0000 } else { x })
}

/// The unsigned number whose big-endian form is the first two bytes of `s`.
pub open spec fn u16_from_be(s: Seq<u8>) -> int {
    s[0] as int * 0x100 + s[1] as int
}

/// The unsigned number whose big-endian form is the first four bytes of `s`.
pub open spec fn u32_from_be(s: Seq<u8>) -> int {
    s[0] as int * 0x100_0000 + s[1] as int * 0x1_0000 + s[2] as int * 0x100 + s[3] as int
}

/// The unsigned number whose big-endian form is the first eight bytes of `s`.
pub open spec fn u64_from_be(s: Seq<u8>) -> int {
    u32_from_be(s) * 0x1_0000_0000 + u32_from_be(s.skip(4))
}

/// The signed number whose two's-complement big-endian form is the first four bytes of `s`.
pub open spec fn i32_from_be(s: Seq<u8>) -> int {
    let u = u32_from_be(s);
    if u >= 0x8000_0000 {
        u - 0x1_0000_0000
    } else {
        u
    }
}

/// The signed number whose two's-complement big-endian form is the first eight bytes of `s`.
pub open spec fn i64_from_be(s: Seq<u8>) -> int {
    let u = u64_from_be(s);
    if u >= 0x8000_0000_0000_0000 {
        u - 0x1_0000_0000_0000_0000
    } else {
        u
    }
}

/// A 16-bit number read from its big-endian form is the number.
pub proof fn lemma_u16_round_trip(x: int)
    requires
        0 <= x < 0x1_0000,
    ensures
        u16_be(x).len() == 2,
        u16_from_be(u16_be(x)) == x,
{
}

/// A 32-bit number read from its big-endian form is the number.
pub proof fn lemma_u32_round_trip(x: int)
    requires
        0 <= x < 0x1_0000_0000,
    ensures
        u32_be(x).len() == 4,
        u32_from_be(u32_be(x)) == x,
{
}

/// A 64-bit number read from its big-endian form is the number.
pub proof fn lemma_u64_round_trip(x: int)
    requires
        0 <= x < 0x1_0000_0000_0000_0000,
    ensures
        u64_be(x).len() == 8,
        u64_from_be(u64_be(x)) == x,
{
    let high = x / 0x1_0000_0000;
    let low = x % 0x1_0000_0000;
    lemma_u32_round_trip(high);
    lemma_u32_round_trip(low);
    let s = u64_be(x);
    assert(s.skip(4) =~= u32_be(low));
    assert(u32_from_be(s) == u32_from_be(u32_be(high)));
}

/// A signed 32-bit number read from its big-endian form is the number.
pub proof fn lemma_i32_round_trip(x: int)
    requires
        -0x8000_0000 <= x < 0x8000_0000,
    ensures
        i32_be(x).len() == 4,
        i32_from_be(i32_be(x)) == x,
{
    lemma_u32_round_trip(
        if x < 0 {
            x + 0x1_0000_0000
        } else {
            x
        },
    );
}

/// A signed 64-bit number read from its big-endian form is the number.
pub proof fn lemma_i64_round_trip(x: int)
    requires
        -0x8000_0000_0000_0000 <= x < 0x8000_0000_0000_0000,
    ensures
        i64_be(x).len() == 8,
        i64_from_be(i64_be(x)) == x,
{
    lemma_u64_round_trip(
        if x < 0 {
            x + 0x1_0000_0000_0000_0000
        } else {
            x
        },
    );
}

/// `BytesMut::new`: a buffer that holds nothing.
#[verifier::external_body]
pub(crate) fn new_buffer() -> (buf: BytesMut)
    ensures
        written(buf) == Seq::<u8>::empty(),
{
    BytesMut::new()
}

/// `BytesMut::with_capacity`: a buffer that holds nothing, with room set aside.
/// Asking for more room than an allocation can have makes it panic.
#[verifier::external_body]
pub(crate) fn new_buffer_with_capacity(capacity: usize) -> (buf: BytesMut)
    requires
        capacity <= buffer_limit(),
    ensures
        written(buf) == Seq::<u8>::empty(),
{
    BytesMut::with_capacity(capacity)
}

/// `BytesMut::len`: how many bytes the buffer holds.
#[verifier::external_body]
pub(crate) fn buffer_len(buf: &BytesMut) -> (n: usize)
    ensures
        n == written(*buf).len(),
{
    buf.len()
}

/// `BytesMut` seen as a slice (its `AsRef<[u8]>`): the bytes it holds.
#[verifier::external_body]
pub(crate) fn buffer_bytes(buf: &BytesMut) -> (s: &[u8])
    ensures
        s@ == written(*buf),
{
    buf.as_ref()
}

/// `BytesMut::freeze`: the same bytes, made immutable.
#[verifier::external_body]
pub(crate) fn freeze(buf: BytesMut) -> (out: Bytes)
    ensures
        unread(out) == written(buf),
{
    buf.freeze()
}

/// `BufMut::put_u8` on a `BytesMut`: appends one byte.
#[verifier::external_body]
pub(crate) fn put_u8(buf: &mut BytesMut, n: u8)
    requires
        written(*old(buf)).len() + 1 <= buffer_limit(),
    ensures
        written(*final(buf)) == written(*old(buf)).push(n),
{
    buf.put_u8(n)
}

/// `BufMut::put_u16` on a `BytesMut`: appends two bytes, most significant first.
#[verifier::external_body]
pub(crate) fn put_u16(buf: &mut BytesMut, n: u16)
    requires
        written(*old(buf)).len() + 2 <= buffer_limit(),
    ensures
        written(*final(buf)) == written(*old(buf)) + u16_be(n as int),
{
    buf.put_u16(n)
}

/// `BufMut::put_u32` on a `BytesMut`: appends four bytes, most significant first.
#[verifier::external_body]
pub(crate) fn put_u32(buf: &mut BytesMut, n: u32)
    requires
        written(*old(buf)).len() + 4 <= buffer_limit(),
    ensures
        written(*final(buf)) == written(*old(buf)) + u32_be(n as int),
{
    buf.put_u32(n)
}

/// `BufMut::put_u64` on a `BytesMut`: appends eight bytes, most significant first.
#[verifier::external_body]
pub(crate) fn put_u64(buf: &mut BytesMut, n: u64)
    requires
        written(*old(buf)).len() + 8 <= buffer_limit(),
    ensures
        written(*final(buf)) == written(*old(buf)) + u64_be(n as int),
{
    buf.put_u64(n)
}

/// `BufMut::put_i32` on a `BytesMut`: appends four bytes, two's complement,
/// most significant first.
#[verifier::external_body]
pub(crate) fn put_i32(buf: &mut BytesMut, n: i32)
    requires
        written(*old(buf)).len() + 4 <= buffer_limit(),
    ensures
        written(*final(buf)) == written(*old(buf)) + i32_be(n as int),
{
    buf.put_i32(n)
}

/// `BufMut::put_i64` on a `BytesMut`: appends eight bytes, two's complement,
/// most significant first.
#[verifier::external_body]
pub(crate) fn put_i64(buf: &mut BytesMut, n: i64)
    requires
        written(*old(buf)).len() + 8 <= buffer_limit(),
    ensures
        written(*final(buf)) == written(*old(buf)) + i64_be(n as int),
{
    buf.put_i64(n)
}

/// `BufMut::put_slice` on a `BytesMut`: appends the bytes of `src`.
#[verifier::external_body]
pub(crate) fn put_slice(buf: &mut BytesMut, src: &[u8])
    requires
        written(*old(buf)).len() + src@.len() <= buffer_limit(),
    ensures
        written(*final(buf)) == written(*old(buf)) + src@,
{
    buf.put_slice(src)
}

/// `Bytes::len`: how many bytes are still to be read.
#[verifier::external_body]
pub(crate) fn remaining(buf: &Bytes) -> (n: usize)
    ensures
        n == unread(*buf).len(),
{
    buf.len()
}

/// `Bytes::split_to`: takes the first `at` bytes off the buffer and returns
/// them as a buffer of their own. It panics when fewer are left.
#[verifier::external_body]
pub(crate) fn split_to(buf: &mut Bytes, at: usize) -> (head: Bytes)
    requires
        at <= unread(*old(buf)).len(),
    ensures
        unread(head) == unread(*old(buf)).take(at as int),
        unread(*final(buf)) == unread(*old(buf)).skip(at as int),
{
    buf.split_to(at)
}

/// `Bytes` seen as a slice (its `AsRef<[u8]>`): the bytes still to be read.
#[verifier::external_body]
pub(crate) fn unread_bytes(buf: &Bytes) -> (s: &[u8])
    ensures
        s@ == unread(*buf),
{
    buf.as_ref()
}

/// `Buf::get_u8` on a `Bytes`: reads one byte. It panics on an empty buffer.
#[verifier::external_body]
pub(crate) fn get_u8(buf: &mut Bytes) -> (n: u8)
    requires
        unread(*old(buf)).len() >= 1,
    ensures
        n == unread(*old(buf))[0],
        unread(*final(buf)) == unread(*old(buf)).skip(1),
{
    buf.get_u8()
}

/// `Buf::get_u16` on a `Bytes`: reads two bytes, most significant first.
/// It panics when fewer are left.
#[verifier::external_body]
pub(crate) fn get_u16(buf: &mut Bytes) -> (n: u16)
    requires
        unread(*old(buf)).len() >= 2,
    ensures
        n == u16_from_be(unread(*old(buf))),
        unread(*final(buf)) == unread(*old(buf)).skip(2),
{
    buf.get_u16()
}

/// `Buf::get_u32` on a `Bytes`: reads four bytes, most significant first.
/// It panics when fewer are left.
#[verifier::external_body]
pub(crate) fn get_u32(buf: &mut Bytes) -> (n: u32)
    requires
        unread(*old(buf)).len() >= 4,
    ensures
        n == u32_from_be(unread(*old(buf))),
        unread(*final(buf)) == unread(*old(buf)).skip(4),
{
    buf.get_u32()
}

/// `Buf::get_u64` on a `Bytes`: reads eight bytes, most significant first.
/// It panics when fewer are left.
#[verifier::external_body]
pub(crate) fn get_u64(buf: &mut Bytes) -> (n: u64)
    requires
        unread(*old(buf)).len() >= 8,
    ensures
        n == u64_from_be(unread(*old(buf))),
        unread(*final(buf)) == unread(*old(buf)).skip(8),
{
    buf.get_u64()
}

/// `Buf::get_i32` on a `Bytes`: reads four bytes as a two's-complement
/// number, most significant first. It panics when fewer are left.
#[verifier::external_body]
pub(crate) fn get_i32(buf: &mut Bytes) -> (n: i32)
    requires
        unread(*old(buf)).len() >= 4,
    ensures
        n == i32_from_be(unread(*old(buf))),
        unread(*final(buf)) == unread(*old(buf)).skip(4),
{
    buf.get_i32()
}

/// `Buf::get_i64` on a `Bytes`: reads eight bytes as a two's-complement
/// number, most significant first. It panics when fewer are left.
#[verifier::external_body]
pub(crate) fn get_i64(buf: &mut Bytes) -> (n: i64)
    requires
        unread(*old(buf)).len() >= 8,
    ensures
        n == i64_from_be(unread(*old(buf))),
        unread(*final(buf)) == unread(*old(buf)).skip(8),
{
    buf.get_i64()
}

/// `String::from_utf8`: the text whose UTF-8 form the bytes are, if they are
/// the UTF-8 form of any text.
#[verifier::external_body]
pub(crate) fn string_from_utf8(bytes: Vec<u8>) -> (text: Option<String>)
    ensures
        text is Some <==> vstd::utf8::valid_utf8(bytes@),
        text matches Some(t) ==> vstd::utf8::encode_utf8(t@) == bytes@,
{
    String::from_utf8(bytes).ok()
}

/// `rest` is what is left of `input` after some of it was read.
pub open spec fn is_tail(rest: Seq<u8>, input: Seq<u8>) -> bool {
    rest.len() <= input.len() && rest =~= input.skip(input.len() - rest.len())
}

/// What is left of a tail of the input is a tail of the input.
pub proof fn lemma_tail_of_tail(a: Seq<u8>, b: Seq<u8>, c: Seq<u8>)
    requires
        is_tail(a, b),
        is_tail(b, c),
    ensures
        is_tail(a, c),
{
    assert(a =~= c.skip(c.len() - a.len()));
}

/// The input after its first `n` bytes is a tail of it.
pub proof fn lemma_skip_is_tail(input: Seq<u8>, n: int)
    requires
        0 <= n <= input.len(),
    ensures
        is_tail(input.skip(n), input),
{
}

/// What appending `wire` to a buffer that holds `held` comes to: the longer
/// contents, the error that `wire` already is, or an overflow when the buffer
/// cannot hold both.
pub open spec fn appended(held: Seq<u8>, wire: Result<Seq<u8>, EncodeErrorView>) -> Result<
    Seq<u8>,
    EncodeErrorView,
> {
    match wire {
        Err(e) => Err(e),
        Ok(bytes) => if held.len() + bytes.len() > buffer_limit() {
            Err(EncodeErrorView::BufferOverflow)
        } else {
            Ok(held + bytes)
        },
    }
}

/// An encoding step that was to append `wire` to a buffer did so: on success
/// the buffer went from `before` to `before + wire`, on failure it kept
/// `before` and the error is the expected one.
pub open spec fn committed(
    before: Seq<u8>,
    after: Seq<u8>,
    outcome: Result<(), EncodeError>,
    wire: Result<Seq<u8>, EncodeErrorView>,
) -> bool {
    match appended(before, wire) {
        Ok(all) => outcome is Ok && after == all,
        Err(e) => outcome is Err && outcome->Err_0@ == e && after == before,
    }
}

/// Appends `data` to the buffer, unless the buffer cannot hold that much.
pub fn append(buf: &mut BytesMut, data: &[u8]) -> (outcome: Result<(), EncodeError>)
    ensures
        committed(written(*old(buf)), written(*final(buf)), outcome, Ok(data@)),
{
    let held: usize = buffer_len(buf);
    let limit: usize = isize::MAX as usize;
    if held > limit || data.len() > limit - held {
        return Err(EncodeError::BufferOverflow);
    }
    put_slice(buf, data);
    Ok(())
}

/// Detail of the error for a text longer than a 16-bit length can say.
pub open spec fn string_too_long() -> Seq<char> {
    "String too long: more than 65535 bytes"@
}

/// Detail of the error for binary data longer than a 32-bit length can say.
pub open spec fn binary_too_long() -> Seq<char> {
    "Binary data too long: more than 4294967295 bytes"@
}

/// Detail of the error for bytes that are no UTF-8.
pub open spec fn invalid_utf8() -> Seq<char> {
    "Invalid UTF-8 in string"@
}

/// Wire form of a standalone text: its UTF-8 length in two bytes, then its UTF-8 bytes.
pub open spec fn string_wire(text: Seq<char>) -> Result<Seq<u8>, EncodeErrorView> {
    let body = encode_utf8(text);
    if body.len() > 0xFFFF {
        Err(EncodeErrorView::InvalidFormat(string_too_long()))
    } else {
        Ok(u16_be(body.len() as int) + body)
    }
}

/// Wire form of binary data: its length in four bytes, then the bytes.
pub open spec fn binary_wire(data: Seq<u8>) -> Result<Seq<u8>, EncodeErrorView> {
    if data.len() > 0xFFFF_FFFF {
        Err(EncodeErrorView::InvalidFormat(binary_too_long()))
    } else {
        Ok(u32_be(data.len() as int) + data)
    }
}

/// What reading a standalone text off `input` gives: the text and the input
/// after it, or why there is none.
pub open spec fn string_unwire(input: Seq<u8>) -> Result<(Seq<char>, Seq<u8>), DecodeErrorView> {
    if input.len() < 2 {
        Err(DecodeErrorView::UnexpectedEof)
    } else {
        let n = u16_from_be(input);
        if input.len() - 2 < n {
            Err(DecodeErrorView::UnexpectedEof)
        } else if !valid_utf8(input.subrange(2, 2 + n)) {
            Err(DecodeErrorView::InvalidData(invalid_utf8()))
        } else {
            Ok((decode_utf8(input.subrange(2, 2 + n)), input.skip(2 + n)))
        }
    }
}

/// What reading binary data off `input` gives: the data and the input after
/// it, or why there is none.
pub open spec fn binary_unwire(input: Seq<u8>) -> Result<(Seq<u8>, Seq<u8>), DecodeErrorView> {
    if input.len() < 4 {
        Err(DecodeErrorView::UnexpectedEof)
    } else {
        let n = u32_from_be(input);
        if input.len() - 4 < n {
            Err(DecodeErrorView::UnexpectedEof)
        } else {
            Ok((input.subrange(4, 4 + n), input.skip(4 + n)))
        }
    }
}

/// Appends a text in its standalone wire form: a two-byte big-endian length
/// and the UTF-8 bytes. A text of more than 65535 bytes is refused.
pub fn encode_string(buf: &mut BytesMut, s: &str) -> (outcome: Result<(), EncodeError>)
    ensures
        committed(written(*old(buf)), written(*final(buf)), outcome, string_wire(s@)),
{
    let body = s.as_bytes();
    let len: usize = body.len();
    if len > 0xFFFF {
        return Err(EncodeError::InvalidFormat("String too long: more than 65535 bytes".to_owned()));
    }
    let held: usize = buffer_len(buf);
    let limit: usize = isize::MAX as usize;
    if held > limit || len + 2 > limit - held {
        return Err(EncodeError::BufferOverflow);
    }
    put_u16(buf, len as u16);
    put_slice(buf, body);
    assert(written(*buf) =~= written(*old(buf)) + (u16_be(len as int) + body@));
    Ok(())
}

/// Reads a text in its standalone wire form off the buffer.
pub fn decode_string(buf: &mut Bytes) -> (outcome: Result<String, DecodeError>)
    ensures
        is_tail(unread(*final(buf)), unread(*old(buf))),
        match string_unwire(unread(*old(buf))) {
            Ok((text, rest)) => outcome matches Ok(s) && s@ == text && unread(*final(buf)) == rest,
            Err(e) => outcome matches Err(x) && x@ == e,
        },
{
    if remaining(buf) < 2 {
        return Err(DecodeError::UnexpectedEof);
    }
    let len: usize = get_u16(buf) as usize;
    if remaining(buf) < len {
        return Err(DecodeError::UnexpectedEof);
    }
    let body = split_to(buf, len);
    let ghost input = unread(*old(buf));
    assert(unread(body) =~= input.subrange(2, 2 + len));
    assert(unread(*buf) =~= input.skip(2 + len));
    match string_from_utf8(slice_to_vec(unread_bytes(&body))) {
        Some(text) => {
            proof {
                vstd::utf8::encode_utf8_decode_utf8(text@);
            }
            Ok(text)
        },
        None => Err(DecodeError::InvalidData("Invalid UTF-8 in string".to_owned())),
    }
}

/// Appends binary data in its wire form: a four-byte big-endian length and
/// the bytes. Data of more than 4294967295 bytes is refused.
pub fn encode_binary(buf: &mut BytesMut, data: &[u8]) -> (outcome: Result<(), EncodeError>)
    ensures
        committed(written(*old(buf)), written(*final(buf)), outcome, binary_wire(data@)),
{
    let len: usize = data.len();
    if len > 0xFFFF_FFFF {
        return Err(
            EncodeError::InvalidFormat(
                "Binary data too long: more than 4294967295 bytes".to_owned(),
            ),
        );
    }
    let held: usize = buffer_len(buf);
    let limit: usize = isize::MAX as usize;
    if held > limit || len > limit - held || limit - held - len < 4 {
        return Err(EncodeError::BufferOverflow);
    }
    put_u32(buf, len as u32);
    put_slice(buf, data);
    assert(written(*buf) =~= written(*old(buf)) + (u32_be(len as int) + data@));
    Ok(())
}

/// Reads binary data in its wire form off the buffer.
pub fn decode_binary(buf: &mut Bytes) -> (outcome: Result<Vec<u8>, DecodeError>)
    ensures
        is_tail(unread(*final(buf)), unread(*old(buf))),
        match binary_unwire(unread(*old(buf))) {
            Ok((data, rest)) => outcome matches Ok(d) && d@ == data && unread(*final(buf)) == rest,
            Err(e) => outcome matches Err(x) && x@ == e,
        },
{
    if remaining(buf) < 4 {
        return Err(DecodeError::UnexpectedEof);
    }
    let len: u32 = get_u32(buf);
    if remaining(buf) < len as usize {
        return Err(DecodeError::UnexpectedEof);
    }
    let body = split_to(buf, len as usize);
    let ghost input = unread(*old(buf));
    assert(unread(body) =~= input.subrange(4, 4 + len));
    assert(unread(*buf) =~= input.skip(4 + len));
    Ok(slice_to_vec(unread_bytes(&body)))
}

/// Size of a text in its standalone wire form: two bytes of length and the UTF-8 bytes.
pub fn string_size(s: &str) -> (n: usize)
    requires
        2 + encode_utf8(s@).len() <= usize::MAX,
    ensures
        n == 2 + encode_utf8(s@).len(),
{
    2 + s.len()
}

/// Size of binary data in its wire form: four bytes of length and the data.
pub fn binary_size(data: &[u8]) -> (n: usize)
    requires
        4 + data@.len() <= usize::MAX,
    ensures
        n == 4 + data@.len(),
{
    4 + data.len()
}

} // verus!
