//! Values that know their own wire form.

use bytes::{Bytes, BytesMut};
use vstd::prelude::*;

use crate::codec::buffer::{
    buffer_len, committed, get_i32, get_i64, get_u8, i32_be, i32_from_be, i64_be, i64_from_be,
    is_tail, put_i32, put_i64, put_u8, remaining, unread, written,
};
use crate::error::{DecodeError, DecodeErrorView, EncodeError};

verus! {

/// A value that can be appended to a buffer in a wire form of its own.
pub trait Encode {
    /// The wire form of the value.
    spec fn wire(&self) -> Seq<u8>;

    /// Appends the wire form of the value, unless the buffer cannot hold it.
    fn encode(&self, buf: &mut BytesMut) -> (outcome: Result<(), EncodeError>)
        ensures
            committed(written(*old(buf)), written(*final(buf)), outcome, Ok(self.wire())),
    ;

    /// The size of the wire form of the value.
    fn encoded_size(&self) -> (n: usize)
        ensures
            n == self.wire().len(),
    ;
}

/// A value that can be read off a buffer from a wire form of its own.
pub trait Decode: Sized {
    /// What reading a value off `input` gives: the value and the input
    /// after it, or why there is none.
    spec fn unwire(input: Seq<u8>) -> Result<(Self, Seq<u8>), DecodeErrorView>;

    /// Reads a value off the buffer.
    fn decode(buf: &mut Bytes) -> (outcome: Result<Self, DecodeError>)
        ensures
            is_tail(unread(*final(buf)), unread(*old(buf))),
            match Self::unwire(unread(*old(buf))) {
                Ok((value, rest)) => outcome matches Ok(v) && v == value && unread(*final(buf))
                    == rest,
                Err(e) => outcome matches Err(x) && x@ == e,
            },
    ;
}

/// Detail of the error for a byte that is no boolean.
pub open spec fn invalid_boolean() -> Seq<char> {
    "Invalid boolean value"@
}

impl Encode for bool {
    open spec fn wire(&self) -> Seq<u8> {
        seq![if *self {
            1u8
        } else {
            0u8
        }]
    }

    fn encode(&self, buf: &mut BytesMut) -> (outcome: Result<(), EncodeError>) {
        let held: usize = buffer_len(buf);
        let limit: usize = isize::MAX as usize;
        if held > limit || limit - held < 1 {
            return Err(EncodeError::BufferOverflow);
        }
        put_u8(
            buf,
            if *self {
                1
            } else {
                0
            },
        );
        assert(written(*buf) =~= written(*old(buf)) + self.wire());
        Ok(())
    }

    fn encoded_size(&self) -> (n: usize) {
        1
    }
}

impl Decode for bool {
    open spec fn unwire(input: Seq<u8>) -> Result<(bool, Seq<u8>), DecodeErrorView> {
        if input.len() < 1 {
            Err(DecodeErrorView::UnexpectedEof)
        } else if input[0] == 0 {
            Ok((false, input.skip(1)))
        } else if input[0] == 1 {
            Ok((true, input.skip(1)))
        } else {
            Err(DecodeErrorView::InvalidData(invalid_boolean()))
        }
    }

    fn decode(buf: &mut Bytes) -> (outcome: Result<bool, DecodeError>) {
        if remaining(buf) < 1 {
            return Err(DecodeError::UnexpectedEof);
        }
        let byte: u8 = get_u8(buf);
        if byte == 0 {
            Ok(false)
        } else if byte == 1 {
            Ok(true)
        } else {
            Err(DecodeError::InvalidData("Invalid boolean value".to_owned()))
        }
    }
}

impl Encode for i32 {
    open spec fn wire(&self) -> Seq<u8> {
        i32_be(*self as int)
    }

    fn encode(&self, buf: &mut BytesMut) -> (outcome: Result<(), EncodeError>) {
        let held: usize = buffer_len(buf);
        let limit: usize = isize::MAX as usize;
        if held > limit || limit - held < 4 {
            return Err(EncodeError::BufferOverflow);
        }
        put_i32(buf, *self);
        Ok(())
    }

    fn encoded_size(&self) -> (n: usize) {
        4
    }
}

impl Decode for i32 {
    open spec fn unwire(input: Seq<u8>) -> Result<(i32, Seq<u8>), DecodeErrorView> {
        if input.len() < 4 {
            Err(DecodeErrorView::UnexpectedEof)
        } else {
            Ok((i32_from_be(input) as i32, input.skip(4)))
        }
    }

    fn decode(buf: &mut Bytes) -> (outcome: Result<i32, DecodeError>) {
        if remaining(buf) < 4 {
            return Err(DecodeError::UnexpectedEof);
        }
        Ok(get_i32(buf))
    }
}

impl Encode for i64 {
    open spec fn wire(&self) -> Seq<u8> {
        i64_be(*self as int)
    }

    fn encode(&self, buf: &mut BytesMut) -> (outcome: Result<(), EncodeError>) {
        let held: usize = buffer_len(buf);
        let limit: usize = isize::MAX as usize;
        if held > limit || limit - held < 8 {
            return Err(EncodeError::BufferOverflow);
        }
        put_i64(buf, *self);
        Ok(())
    }

    fn encoded_size(&self) -> (n: usize) {
        8
    }
}

impl Decode for i64 {
    open spec fn unwire(input: Seq<u8>) -> Result<(i64, Seq<u8>), DecodeErrorView> {
        if input.len() < 8 {
            Err(DecodeErrorView::UnexpectedEof)
        } else {
            Ok((i64_from_be(input) as i64, input.skip(8)))
        }
    }

    fn decode(buf: &mut Bytes) -> (outcome: Result<i64, DecodeError>) {
        if remaining(buf) < 8 {
            return Err(DecodeError::UnexpectedEof);
        }
        Ok(get_i64(buf))
    }
}

} // verus!
