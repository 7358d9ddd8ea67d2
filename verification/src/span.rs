//! Length lookahead: how many bytes the frame at the front of a buffer
//! occupies, found without consuming anything and without building values.

use crate::error::length_agrees;
use crate::error::Fault;
use crate::error::RespError;
use crate::frame::TAG_ARRAY;
use crate::frame::TAG_BOOL;
use crate::frame::TAG_BULK_STRING;
use crate::frame::TAG_DOUBLE;
use crate::frame::TAG_INTEGER;
use crate::frame::TAG_MAP;
use crate::frame::TAG_NULL;
use crate::frame::TAG_SET;
use crate::frame::TAG_SIMPLE_ERROR;
use crate::frame::TAG_SIMPLE_STRING;
use crate::scan::extract_simple_frame_data;
use crate::scan::invalid_frame;
use crate::scan::length_field;
use crate::scan::nullable_length_field;
use crate::scan::parse_length;
use crate::scan::parse_length_for_nullable;
use crate::scan::simple_frame_end;
use crate::scan::simple_frame_end_bounds;
use crate::scan::CRLF_LENGTH;
use vstd::prelude::*;
use vstd::slice::slice_subrange;

verus! {

/// The bytes of a one-line frame: through the line end of its header.
pub open spec fn simple_span(buf: Seq<u8>, tag: u8) -> Result<nat, Fault> {
    match simple_frame_end(buf, tag) {
        Ok(end) => Ok(end + 2),
        Err(fault) => Err(fault),
    }
}

/// The bytes of a bulk string: header, payload and closing line end, or the
/// header alone for the null bulk string. A negative length other than the
/// null mark is a fault; a length that no buffer can hold is never complete.
pub open spec fn bulk_span(buf: Seq<u8>) -> Result<nat, Fault> {
    match nullable_length_field(buf, TAG_BULK_STRING) {
        Err(fault) => Err(fault),
        Ok((end, length)) => if length == -1 {
            Ok(end + 2)
        } else if length < 0 {
            Err(Fault::Invalid(buf))
        } else if end + 2 + length + 2 > usize::MAX {
            Err(Fault::NotComplete)
        } else {
            Ok((end + 2 + length + 2) as nat)
        },
    }
}

/// Whether frames under `tag` hold a key in front of each element.
pub open spec fn is_keyed(tag: u8) -> bool {
    tag == TAG_MAP
}

/// Whether frames under `tag` hold other frames.
pub open spec fn is_composite(tag: u8) -> bool {
    tag == TAG_ARRAY || tag == TAG_SET || tag == TAG_MAP
}

/// The bytes of the frame at the front of `buf`.
pub open spec fn frame_span(buf: Seq<u8>) -> Result<nat, Fault>
    decreases buf.len(), 1nat,
{
    if buf.len() == 0 {
        Err(Fault::NotComplete)
    } else if buf[0] == TAG_SIMPLE_STRING || buf[0] == TAG_SIMPLE_ERROR || buf[0] == TAG_INTEGER
        || buf[0] == TAG_DOUBLE {
        simple_span(buf, buf[0])
    } else if buf[0] == TAG_BOOL {
        Ok(4)
    } else if buf[0] == TAG_NULL {
        Ok(3)
    } else if buf[0] == TAG_BULK_STRING {
        bulk_span(buf)
    } else if buf[0] == TAG_ARRAY {
        array_span(buf)
    } else if buf[0] == TAG_SET || buf[0] == TAG_MAP {
        counted_span(buf, buf[0])
    } else {
        Err(Fault::Invalid(buf))
    }
}

/// The bytes of an array: header and elements, or the header alone for the
/// null array.
pub open spec fn array_span(buf: Seq<u8>) -> Result<nat, Fault>
    decreases buf.len(), 0nat, 1nat,
{
    match nullable_length_field(buf, TAG_ARRAY) {
        Err(fault) => Err(fault),
        Ok((end, length)) => if length == -1 {
            Ok(end + 2)
        } else if length < 0 {
            Err(Fault::Invalid(buf))
        } else {
            total_span(buf, end, length as nat, TAG_ARRAY)
        },
    }
}

/// The bytes of a set or map: header and elements.
pub open spec fn counted_span(buf: Seq<u8>, tag: u8) -> Result<nat, Fault>
    decreases buf.len(), 0nat, 1nat,
{
    match length_field(buf, tag) {
        Err(fault) => Err(fault),
        Ok((end, count)) => total_span(buf, end, count, tag),
    }
}

/// The bytes of a frame whose header ends at `end` and announces `count`:
/// for a frame that holds others, the header and `count` elements; for any
/// other tag, `count` payload bytes and a line end.
pub open spec fn total_span(buf: Seq<u8>, end: nat, count: nat, tag: u8) -> Result<nat, Fault>
    decreases buf.len(), 0nat, 0nat,
{
    if !is_composite(tag) {
        if count + 2 > usize::MAX {
            Err(Fault::NotComplete)
        } else {
            Ok(count + 2)
        }
    } else if end + 2 > buf.len() {
        Err(Fault::NotComplete)
    } else {
        match elements_span(buf.skip(end + 2 as int), count, is_keyed(tag)) {
            Ok(n) => Ok(end + 2 + n),
            Err(fault) => Err(fault),
        }
    }
}

/// The bytes of one element: a frame, behind a simple-string key where the
/// elements are keyed.
pub open spec fn entry_span(data: Seq<u8>, keyed: bool) -> Result<nat, Fault>
    decreases data.len(), 2nat,
{
    if keyed {
        match simple_span(data, TAG_SIMPLE_STRING) {
            Err(fault) => Err(fault),
            Ok(key) => if key > data.len() {
                Err(Fault::NotComplete)
            } else {
                match frame_span(data.skip(key as int)) {
                    Err(fault) => Err(fault),
                    Ok(value) => Ok(key + value),
                }
            },
        }
    } else {
        frame_span(data)
    }
}

/// The bytes of `count` elements that follow each other from the front of
/// `data`. An element that reaches beyond `data` is not complete.
pub open spec fn elements_span(data: Seq<u8>, count: nat, keyed: bool) -> Result<nat, Fault>
    decreases data.len(), 3nat, count,
{
    if count == 0 {
        Ok(0)
    } else {
        match entry_span(data, keyed) {
            Err(fault) => Err(fault),
            Ok(first) => if first > data.len() {
                Err(Fault::NotComplete)
            } else {
                match elements_span(data.skip(first as int), (count - 1) as nat, keyed) {
                    Err(fault) => Err(fault),
                    Ok(rest) => Ok(first + rest),
                }
            },
        }
    }
}

/// Lookahead for a one-line frame tagged `tag`.
pub fn simple_expect_length(buf: &[u8], tag: u8) -> (length: Result<usize, RespError>)
    ensures
        length_agrees(length, simple_span(buf@, tag)),
{
    let end = extract_simple_frame_data(buf, tag)?;
    let size = buf.len();
    proof {
        simple_frame_end_bounds(buf@, tag);
    }
    Ok(end + CRLF_LENGTH)
}

/// Lookahead for a bulk string.
pub fn bulk_expect_length(buf: &[u8]) -> (length: Result<usize, RespError>)
    ensures
        length_agrees(length, bulk_span(buf@)),
{
    let (end, len) = parse_length_for_nullable(buf, TAG_BULK_STRING)?;
    let size = buf.len();
    if len == -1 {
        return Ok(end + CRLF_LENGTH);
    }
    if len < 0 {
        return Err(invalid_frame(buf));
    }
    let payload: usize = len as usize;
    match payload.checked_add(end + CRLF_LENGTH) {
        None => Err(RespError::NotComplete),
        Some(head) => match head.checked_add(CRLF_LENGTH) {
            None => Err(RespError::NotComplete),
            Some(total) => Ok(total),
        },
    }
}

/// Lookahead for an array.
pub fn array_expect_length(buf: &[u8]) -> (length: Result<usize, RespError>)
    ensures
        length_agrees(length, array_span(buf@)),
    decreases buf@.len(), 0nat, 1nat,
{
    let (end, len) = parse_length_for_nullable(buf, TAG_ARRAY)?;
    let size = buf.len();
    if len == -1 {
        return Ok(end + CRLF_LENGTH);
    }
    if len < 0 {
        return Err(invalid_frame(buf));
    }
    calc_total_length(buf, end, len as usize, TAG_ARRAY)
}

/// Lookahead for a set (`tag` is `~`) or a map (`tag` is `%`).
pub fn counted_expect_length(buf: &[u8], tag: u8) -> (length: Result<usize, RespError>)
    ensures
        length_agrees(length, counted_span(buf@, tag)),
    decreases buf@.len(), 0nat, 1nat,
{
    let (end, len) = parse_length(buf, tag)?;
    let size = buf.len();
    calc_total_length(buf, end, len, tag)
}

/// Lookahead for any frame: the tag byte selects the kind.
pub fn expect_length(buf: &[u8]) -> (length: Result<usize, RespError>)
    ensures
        length_agrees(length, frame_span(buf@)),
    decreases buf@.len(), 1nat,
{
    if buf.len() == 0 {
        return Err(RespError::NotComplete);
    }
    let tag: u8 = buf[0];
    if tag == TAG_SIMPLE_STRING || tag == TAG_SIMPLE_ERROR || tag == TAG_INTEGER || tag
        == TAG_DOUBLE {
        simple_expect_length(buf, tag)
    } else if tag == TAG_BOOL {
        Ok(4)
    } else if tag == TAG_NULL {
        Ok(3)
    } else if tag == TAG_BULK_STRING {
        bulk_expect_length(buf)
    } else if tag == TAG_ARRAY {
        array_expect_length(buf)
    } else if tag == TAG_SET || tag == TAG_MAP {
        counted_expect_length(buf, tag)
    } else {
        Err(invalid_frame(buf))
    }
}

/// The length of a frame whose header ends at `end` and announces `len`.
/// Under `*`, `~` and `%` it walks `len` elements behind the header, each by
/// its own lookahead, and adds them up.
pub fn calc_total_length(buf: &[u8], end: usize, len: usize, prefix: u8) -> (total: Result<
    usize,
    RespError,
>)
    ensures
        length_agrees(total, total_span(buf@, end as nat, len as nat, prefix)),
    decreases buf@.len(), 0nat, 0nat,
{
    if !(prefix == TAG_ARRAY || prefix == TAG_SET || prefix == TAG_MAP) {
        return match len.checked_add(CRLF_LENGTH) {
            Some(n) => Ok(n),
            None => Err(RespError::NotComplete),
        };
    }
    if end > buf.len() || buf.len() - end < CRLF_LENGTH {
        return Err(RespError::NotComplete);
    }
    let keyed: bool = prefix == TAG_MAP;
    let head: usize = end + CRLF_LENGTH;
    let mut data: &[u8] = slice_subrange(buf, head, buf.len());
    let ghost whole = data@;
    let mut walked: usize = 0;
    let mut left: usize = len;
    while left > 0
        invariant
            head == end + 2,
            head <= buf@.len() <= usize::MAX,
            keyed == is_keyed(prefix),
            is_composite(prefix),
            whole == buf@.skip(head as int),
            walked + data@.len() == whole.len(),
            match elements_span(data@, left as nat, keyed) {
                Ok(rest) => elements_span(whole, len as nat, keyed) == Ok::<nat, Fault>(
                    (walked + rest) as nat,
                ),
                Err(fault) => elements_span(whole, len as nat, keyed) == Err::<nat, Fault>(fault),
            },
        decreases left,
    {
        let mut first: usize = 0;
        proof {
            reveal_with_fuel(elements_span, 2);
            reveal_with_fuel(entry_span, 2);
        }
        if keyed {
            let key = simple_expect_length(data, TAG_SIMPLE_STRING)?;
            proof {
                simple_frame_end_bounds(data@, TAG_SIMPLE_STRING);
            }
            let value = expect_length(slice_subrange(data, key, data.len()))?;
            if value > data.len() - key {
                return Err(RespError::NotComplete);
            }
            first = key + value;
        } else {
            first = expect_length(data)?;
            if first > data.len() {
                return Err(RespError::NotComplete);
            }
        }
        data = slice_subrange(data, first, data.len());
        walked = walked + first;
        left = left - 1;
    }
    Ok(head + walked)
}

} // verus!
