//! Scanning the head of a frame: the line end that closes a header, the tag
//! in front of it, and the length or count that a header announces.

use crate::buffer::buffer_advance;
use crate::buffer::buffer_bytes;
use crate::buffer::buffered;
use crate::decimal::isize_value;
use crate::decimal::parse_isize;
use crate::decimal::parse_usize;
use crate::decimal::usize_value;
use crate::error::length_agrees;
use crate::error::Fault;
use crate::error::RespError;
use crate::text::lossy_text;
use bytes::BytesMut;
use vstd::prelude::*;
use vstd::slice::slice_subrange;

verus! {

pub const CR: u8 = 13;

pub const LF: u8 = 10;

pub const CRLF_LENGTH: usize = 2;

/// Whether a line end stands at `at`.
pub open spec fn crlf_at(buf: Seq<u8>, at: int) -> bool {
    0 <= at && at + 1 < buf.len() && buf[at] == CR && buf[at + 1] == LF
}

/// Where the `nth` line end at or behind `from` stands, counting from one.
pub open spec fn nth_crlf(buf: Seq<u8>, from: int, nth: nat) -> Option<int>
    decreases buf.len() - from,
{
    if nth == 0 || from < 0 || from + 1 >= buf.len() {
        None
    } else if crlf_at(buf, from) {
        if nth == 1 {
            Some(from)
        } else {
            nth_crlf(buf, from + 1, (nth - 1) as nat)
        }
    } else {
        nth_crlf(buf, from + 1, nth)
    }
}

/// Where the line end that closes the header of a frame stands. The search
/// starts behind the tag. Fewer than three bytes are never a whole header; a
/// first byte other than `tag` is a fault of the input.
pub open spec fn simple_frame_end(buf: Seq<u8>, tag: u8) -> Result<nat, Fault> {
    if buf.len() < 3 {
        Err(Fault::NotComplete)
    } else if buf[0] != tag {
        Err(Fault::Invalid(buf))
    } else {
        match nth_crlf(buf, 1, 1) {
            Some(end) => Ok(end as nat),
            None => Err(Fault::NotComplete),
        }
    }
}

/// The header of a frame with an unsigned count: where its line end stands,
/// and the count.
pub open spec fn length_field(buf: Seq<u8>, tag: u8) -> Result<(nat, nat), Fault> {
    match simple_frame_end(buf, tag) {
        Err(fault) => Err(fault),
        Ok(end) => match usize_value(buf.subrange(1, end as int)) {
            Some(count) => Ok((end, count as nat)),
            None => Err(Fault::Invalid(buf)),
        },
    }
}

/// The header of a frame whose length may be the null mark `-1`: where its
/// line end stands, and the signed length.
pub open spec fn nullable_length_field(buf: Seq<u8>, tag: u8) -> Result<(nat, int), Fault> {
    match simple_frame_end(buf, tag) {
        Err(fault) => Err(fault),
        Ok(end) => match isize_value(buf.subrange(1, end as int)) {
            Some(length) => Ok((end, length as int)),
            None => Err(Fault::Invalid(buf)),
        },
    }
}

/// What a fixed frame such as `_\r\n` makes of a buffer: how many bytes
/// leave, or why none does.
pub open spec fn fixed_frame(buf: Seq<u8>, expect: Seq<u8>) -> Result<nat, Fault> {
    if buf.len() < expect.len() {
        Err(Fault::NotComplete)
    } else if !expect.is_prefix_of(buf) {
        Err(Fault::Invalid(buf))
    } else {
        Ok(expect.len())
    }
}

/// A line end that is found lies behind `from`, inside the buffer, and no
/// line end stands between `from` and it.
pub proof fn first_crlf_is_first(buf: Seq<u8>, from: int)
    requires
        0 <= from,
    ensures
        match nth_crlf(buf, from, 1) {
            Some(end) => from <= end && crlf_at(buf, end) && forall|k: int|
                from <= k < end ==> !crlf_at(buf, k),
            None => forall|k: int| from <= k ==> !crlf_at(buf, k),
        },
    decreases buf.len() - from,
{
    if from + 1 < buf.len() && !crlf_at(buf, from) {
        first_crlf_is_first(buf, from + 1);
    }
}

/// The line end of a header lies inside the buffer, behind the tag.
pub proof fn simple_frame_end_bounds(buf: Seq<u8>, tag: u8)
    ensures
        match simple_frame_end(buf, tag) {
            Ok(end) => 1 <= end && end + 2 <= buf.len() && crlf_at(buf, end as int) && buf[0]
                == tag,
            Err(_) => true,
        },
{
    first_crlf_is_first(buf, 1);
}

/// The error that reports `buf` as a fault of the input.
pub fn invalid_frame(buf: &[u8]) -> (error: RespError)
    ensures
        error.reports(Fault::Invalid(buf@)),
{
    RespError::InvalidFrameType(lossy_text(buf))
}

/// Whether `buf` begins with the bytes of `lead`.
pub fn starts_with(buf: &[u8], lead: &[u8]) -> (yes: bool)
    ensures
        yes == lead@.is_prefix_of(buf@),
{
    if buf.len() < lead.len() {
        return false;
    }
    let mut i: usize = 0;
    while i < lead.len()
        invariant
            i <= lead.len() <= buf.len(),
            forall|k: int| 0 <= k < i ==> buf@[k] == lead@[k],
        decreases lead.len() - i,
    {
        if buf[i] != lead[i] {
            proof {
                assert(buf@.subrange(0, lead@.len() as int)[i as int] == buf@[i as int]);
            }
            return false;
        }
        i = i + 1;
    }
    proof {
        assert(lead@ =~= buf@.subrange(0, lead@.len() as int));
    }
    true
}

/// Finds the `nth` line end behind the first byte.
pub fn find_crlf(buf: &[u8], nth: usize) -> (found: Option<usize>)
    ensures
        match nth_crlf(buf@, 1, nth as nat) {
            Some(at) => found == Some(at as usize) && at + 1 < buf@.len(),
            None => found.is_none(),
        },
{
    if nth == 0 || buf.len() < 2 {
        return None;
    }
    let mut count: usize = 0;
    let mut x: usize = 1;
    while x < buf.len() - 1
        invariant
            1 <= x,
            buf.len() >= 2,
            count < nth,
            nth_crlf(buf@, 1, nth as nat) == nth_crlf(buf@, x as int, (nth - count) as nat),
        decreases buf.len() - x,
    {
        if buf[x] == CR && buf[x + 1] == LF {
            count = count + 1;
            if count == nth {
                return Some(x);
            }
        }
        x = x + 1;
    }
    None
}

/// Takes a fixed frame off the front of the buffer. The buffer changes only
/// on success.
pub fn extract_fixed_data(buf: &mut BytesMut, expect: &[u8]) -> (done: Result<(), RespError>)
    ensures
        match fixed_frame(buffered(*old(buf)), expect@) {
            Ok(n) => done.is_ok() && buffered(*final(buf)) == buffered(*old(buf)).skip(n as int),
            Err(fault) => done is Err && done->Err_0.reports(fault) && buffered(*final(buf))
                == buffered(*old(buf)),
        },
{
    let bytes = buffer_bytes(buf);
    if bytes.len() < expect.len() {
        return Err(RespError::NotComplete);
    }
    if !starts_with(bytes, expect) {
        return Err(invalid_frame(bytes));
    }
    buffer_advance(buf, expect.len());
    Ok(())
}

/// Finds the line end that closes the header of a frame tagged `prefix`.
pub fn extract_simple_frame_data(buf: &[u8], prefix: u8) -> (end: Result<usize, RespError>)
    ensures
        length_agrees(end, simple_frame_end(buf@, prefix)),
{
    if buf.len() < 3 {
        return Err(RespError::NotComplete);
    }
    if buf[0] != prefix {
        return Err(invalid_frame(buf));
    }
    proof {
        first_crlf_is_first(buf@, 1);
    }
    match find_crlf(buf, 1) {
        Some(end) => Ok(end),
        None => Err(RespError::NotComplete),
    }
}

/// Reads the header of a frame with an unsigned count.
pub fn parse_length(buf: &[u8], prefix: u8) -> (header: Result<(usize, usize), RespError>)
    ensures
        match length_field(buf@, prefix) {
            Ok((end, count)) => header == Ok::<(usize, usize), RespError>(
                (end as usize, count as usize),
            ) && end + 2 <= buf@.len(),
            Err(fault) => header is Err && header->Err_0.reports(fault),
        },
{
    let end = extract_simple_frame_data(buf, prefix)?;
    proof {
        simple_frame_end_bounds(buf@, prefix);
    }
    match parse_usize(slice_subrange(buf, 1, end)) {
        Some(count) => Ok((end, count)),
        None => Err(invalid_frame(buf)),
    }
}

/// Reads the header of a frame whose length may be the null mark `-1`.
pub fn parse_length_for_nullable(buf: &[u8], prefix: u8) -> (header: Result<
    (usize, isize),
    RespError,
>)
    ensures
        match nullable_length_field(buf@, prefix) {
            Ok((end, length)) => header == Ok::<(usize, isize), RespError>(
                (end as usize, length as isize),
            ) && end + 2 <= buf@.len(),
            Err(fault) => header is Err && header->Err_0.reports(fault),
        },
{
    let end = extract_simple_frame_data(buf, prefix)?;
    proof {
        simple_frame_end_bounds(buf@, prefix);
    }
    match parse_isize(slice_subrange(buf, 1, end)) {
        Some(length) => Ok((end, length)),
        None => Err(invalid_frame(buf)),
    }
}

} // verus!
