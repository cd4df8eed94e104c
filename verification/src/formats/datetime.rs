//! Instants and calendar days.
//!
//! An instant is a count of milliseconds since the Unix epoch, eight bytes on
//! the wire; a day is a count of days since 1970-01-01, four bytes. Which
//! counts name an instant or a day of the calendar, and which texts do, is
//! decided by the `chrono` crate.

use bytes::{Bytes, BytesMut};
use vstd::prelude::*;

use crate::codec::buffer::{is_tail, 
    appended, buffer_len, committed, get_i32, get_i64, i32_be, i32_from_be, i64_be, i64_from_be,
    put_i32, put_i64, remaining, unread, written,
};
use crate::error::{DecodeError, DecodeErrorView, EncodeError, EncodeErrorView};

verus! {

/// The milliseconds since the Unix epoch of the instant that `chrono` reads
/// from a text with a zone, if it reads one.
pub uninterp spec fn datetime_from_text(text: Seq<char>) -> Option<i64>;

/// The days since 1970-01-01 of the day that `chrono` reads from a text
/// under a format, if it reads one.
pub uninterp spec fn date_from_text(text: Seq<char>, format: Seq<char>) -> Option<i32>;

/// Whether `chrono` has an instant this many milliseconds from the Unix epoch.
pub uninterp spec fn datetime_exists(millis: i64) -> bool;

/// Whether `chrono` has a day this many days from 1970-01-01.
pub uninterp spec fn date_exists(days: i32) -> bool;

/// `DateTime::<Utc>::from_str` followed by `DateTime::timestamp_millis`:
/// the instant read from a text, as milliseconds since the Unix epoch; a
/// refusal as `None`.
#[verifier::external_body]
pub(crate) fn read_datetime(text: &str) -> (millis: Option<i64>)
    ensures
        millis == datetime_from_text(text@),
{
    text.parse::<chrono::DateTime<chrono::Utc>>().ok().map(|dt| dt.timestamp_millis())
}

/// `NaiveDate::parse_from_str` followed by `NaiveDate::to_epoch_days`: the
/// day read from a text under a format, as days since 1970-01-01; a refusal
/// as `None`.
#[verifier::external_body]
pub(crate) fn read_date(text: &str, format: &str) -> (days: Option<i32>)
    ensures
        days == date_from_text(text@, format@),
{
    chrono::NaiveDate::parse_from_str(text, format).ok().map(|d| d.to_epoch_days())
}

/// `DateTime::from_timestamp_millis`: whether it has an instant for the count.
#[verifier::external_body]
pub(crate) fn has_datetime(millis: i64) -> (known: bool)
    ensures
        known == datetime_exists(millis),
{
    chrono::DateTime::from_timestamp_millis(millis).is_some()
}

/// `NaiveDate::from_epoch_days`: whether it has a day for the count.
#[verifier::external_body]
pub(crate) fn has_date(days: i32) -> (known: bool)
    ensures
        known == date_exists(days),
{
    chrono::NaiveDate::from_epoch_days(days).is_some()
}

/// The format of a day's text: year, month and day, with hyphens.
pub open spec fn date_format() -> Seq<char> {
    "%Y-%m-%d"@
}

/// Detail of the error for a text that is no instant.
pub open spec fn invalid_datetime(text: Seq<char>) -> Seq<char> {
    "Invalid datetime: "@ + text
}

/// Detail of the error for a text that is no day.
pub open spec fn invalid_date(text: Seq<char>) -> Seq<char> {
    "Invalid date: "@ + text
}

/// Detail of the error for a count of milliseconds that names no instant.
pub open spec fn invalid_timestamp() -> Seq<char> {
    "Invalid timestamp"@
}

/// Detail of the error for a count of days that names no day.
pub open spec fn invalid_date_offset() -> Seq<char> {
    "Invalid date offset"@
}

/// What reading an instant off `input` gives.
pub open spec fn datetime_unwire(input: Seq<u8>) -> Result<(i64, Seq<u8>), DecodeErrorView> {
    if input.len() < 8 {
        Err(DecodeErrorView::UnexpectedEof)
    } else if !datetime_exists(i64_from_be(input) as i64) {
        Err(DecodeErrorView::InvalidData(invalid_timestamp()))
    } else {
        Ok((i64_from_be(input) as i64, input.skip(8)))
    }
}

/// What reading a day off `input` gives.
pub open spec fn date_unwire(input: Seq<u8>) -> Result<(i32, Seq<u8>), DecodeErrorView> {
    if input.len() < 4 {
        Err(DecodeErrorView::UnexpectedEof)
    } else if !date_exists(i32_from_be(input) as i32) {
        Err(DecodeErrorView::InvalidData(invalid_date_offset()))
    } else {
        Ok((i32_from_be(input) as i32, input.skip(4)))
    }
}

/// Appends an instant: its milliseconds since the Unix epoch, eight bytes,
/// big-endian.
pub fn encode_datetime(buf: &mut BytesMut, millis: i64) -> (outcome: Result<(), EncodeError>)
    ensures
        committed(written(*old(buf)), written(*final(buf)), outcome, Ok(i64_be(millis as int))),
{
    let held: usize = buffer_len(buf);
    let limit: usize = isize::MAX as usize;
    if held > limit || limit - held < 8 {
        return Err(EncodeError::BufferOverflow);
    }
    put_i64(buf, millis);
    Ok(())
}

/// Reads an instant off the buffer. A count that names no instant is refused.
pub fn decode_datetime(buf: &mut Bytes) -> (outcome: Result<i64, DecodeError>)
    ensures
        is_tail(unread(*final(buf)), unread(*old(buf))),
        match datetime_unwire(unread(*old(buf))) {
            Ok((millis, rest)) => outcome == Ok::<i64, DecodeError>(millis) && unread(*final(buf))
                == rest,
            Err(e) => outcome matches Err(x) && x@ == e,
        },
{
    if remaining(buf) < 8 {
        return Err(DecodeError::UnexpectedEof);
    }
    let millis: i64 = get_i64(buf);
    if !has_datetime(millis) {
        return Err(DecodeError::InvalidData("Invalid timestamp".to_owned()));
    }
    Ok(millis)
}

/// Appends a day: its days since 1970-01-01, four bytes, big-endian.
pub fn encode_date(buf: &mut BytesMut, days: i32) -> (outcome: Result<(), EncodeError>)
    ensures
        committed(written(*old(buf)), written(*final(buf)), outcome, Ok(i32_be(days as int))),
{
    let held: usize = buffer_len(buf);
    let limit: usize = isize::MAX as usize;
    if held > limit || limit - held < 4 {
        return Err(EncodeError::BufferOverflow);
    }
    put_i32(buf, days);
    Ok(())
}

/// Reads a day off the buffer. A count that names no day is refused.
pub fn decode_date(buf: &mut Bytes) -> (outcome: Result<i32, DecodeError>)
    ensures
        is_tail(unread(*final(buf)), unread(*old(buf))),
        match date_unwire(unread(*old(buf))) {
            Ok((days, rest)) => outcome == Ok::<i32, DecodeError>(days) && unread(*final(buf))
                == rest,
            Err(e) => outcome matches Err(x) && x@ == e,
        },
{
    if remaining(buf) < 4 {
        return Err(DecodeError::UnexpectedEof);
    }
    let days: i32 = get_i32(buf);
    if !has_date(days) {
        return Err(DecodeError::InvalidData("Invalid date offset".to_owned()));
    }
    Ok(days)
}

/// What a reading of `text` as an instant comes to: the milliseconds read,
/// or an error that quotes the text.
pub fn datetime_outcome(text: &str, read: Option<i64>) -> (outcome: Result<i64, EncodeError>)
    ensures
        match read {
            Some(millis) => outcome == Ok::<i64, EncodeError>(millis),
            None => outcome matches Err(e) && e@ == EncodeErrorView::InvalidFormat(
                invalid_datetime(text@),
            ),
        },
{
    match read {
        Some(millis) => Ok(millis),
        None => {
            let mut detail = "Invalid datetime: ".to_owned();
            detail.append(text);
            Err(EncodeError::InvalidFormat(detail))
        },
    }
}

/// What a reading of `text` as a day comes to: the days read, or an error
/// that quotes the text.
pub fn date_outcome(text: &str, read: Option<i32>) -> (outcome: Result<i32, EncodeError>)
    ensures
        match read {
            Some(days) => outcome == Ok::<i32, EncodeError>(days),
            None => outcome matches Err(e) && e@ == EncodeErrorView::InvalidFormat(
                invalid_date(text@),
            ),
        },
{
    match read {
        Some(days) => Ok(days),
        None => {
            let mut detail = "Invalid date: ".to_owned();
            detail.append(text);
            Err(EncodeError::InvalidFormat(detail))
        },
    }
}

/// Reads an instant from ISO 8601 text with a zone, as `chrono` reads it,
/// and gives its milliseconds since the Unix epoch.
pub fn parse_datetime(s: &str) -> (outcome: Result<i64, EncodeError>)
    ensures
        match datetime_from_text(s@) {
            Some(millis) => outcome == Ok::<i64, EncodeError>(millis),
            None => outcome matches Err(e) && e@ == EncodeErrorView::InvalidFormat(
                invalid_datetime(s@),
            ),
        },
{
    datetime_outcome(s, read_datetime(s))
}

/// Reads a day from `YYYY-MM-DD` text, as `chrono` reads it, and gives its
/// days since 1970-01-01.
pub fn parse_date(s: &str) -> (outcome: Result<i32, EncodeError>)
    ensures
        match date_from_text(s@, date_format()) {
            Some(days) => outcome == Ok::<i32, EncodeError>(days),
            None => outcome matches Err(e) && e@ == EncodeErrorView::InvalidFormat(
                invalid_date(s@),
            ),
        },
{
    date_outcome(s, read_date(s, "%Y-%m-%d"))
}

/// Size of an instant on the wire.
pub fn datetime_size() -> (n: usize)
    ensures
        n == 8,
{
    8
}

/// Size of a day on the wire.
pub fn date_size() -> (n: usize)
    ensures
        n == 4,
{
    4
}

} // verus!
