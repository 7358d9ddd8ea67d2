//! Decoding: the frame at the front of a run of bytes, and how many bytes it
//! occupies. Everything here reads a slice and changes nothing.

use crate::decimal::i64_value;
use crate::decimal::parse_i64;
use crate::encode::bool_wire;
use crate::encode::null_wire;
use crate::encode::LETTER_F;
use crate::encode::LETTER_T;
use crate::error::Fault;
use crate::error::RespError;
use crate::frame::array_view;
use crate::frame::frames_view;
use crate::frame::frames_view_push;
use crate::frame::map_view;
use crate::map::put;
use crate::frame::set_view;
use crate::frame::BulkString;
use crate::frame::FrameView;
use crate::frame::RespArray;
use crate::frame::RespDouble;
use crate::frame::RespFrame;
use crate::map::RespMap;
use crate::frame::RespNull;
use crate::frame::RespSet;
use crate::frame::SimpleError;
use crate::frame::SimpleString;
use crate::frame::TAG_ARRAY;
use crate::frame::TAG_BOOL;
use crate::frame::TAG_BULK_STRING;
use crate::frame::TAG_DOUBLE;
use crate::frame::TAG_INTEGER;
use crate::frame::TAG_MAP;
use crate::frame::TAG_NULL;
use crate::frame::TAG_SET;
use crate::frame::TAG_SIMPLE_ERROR;
use crate::frame::TAG_SIMPLE_STRING;
use crate::scan::extract_simple_frame_data;
use crate::scan::fixed_frame;
use crate::scan::invalid_frame;
use crate::scan::length_field;
use crate::scan::nullable_length_field;
use crate::scan::parse_length;
use crate::scan::parse_length_for_nullable;
use crate::scan::simple_frame_end;
use crate::scan::simple_frame_end_bounds;
use crate::scan::starts_with;
use crate::scan::CR;
use crate::scan::CRLF_LENGTH;
use crate::scan::LF;
use crate::span::calc_total_length;
use crate::span::total_span;
use crate::text::lossy_text;
use crate::text::text_of;
use vstd::prelude::*;
use vstd::slice::slice_subrange;
use vstd::slice::slice_to_vec;

verus! {

/// What is left of `data` behind its first `used` bytes.
pub open spec fn rest_of(data: Seq<u8>, used: nat) -> Seq<u8> {
    if used <= data.len() {
        data.skip(used as int)
    } else {
        Seq::empty()
    }
}

/// A one-line text frame tagged `tag` at the front of `buf`: its text, and
/// the bytes it occupies.
pub open spec fn text_frame(buf: Seq<u8>, tag: u8) -> Result<(Seq<char>, nat), Fault> {
    match simple_frame_end(buf, tag) {
        Err(fault) => Err(fault),
        Ok(end) => Ok((text_of(buf.subrange(1, end as int)), end + 2)),
    }
}

/// An integer frame at the front of `buf`. Text that is no 64-bit number is
/// a fault.
pub open spec fn integer_frame(buf: Seq<u8>) -> Result<(i64, nat), Fault> {
    match simple_frame_end(buf, TAG_INTEGER) {
        Err(fault) => Err(fault),
        Ok(end) => match i64_value(buf.subrange(1, end as int)) {
            Some(value) => Ok((value, end + 2)),
            None => Err(Fault::Invalid(buf)),
        },
    }
}

/// A double frame at the front of `buf`: the text of the number.
pub open spec fn double_frame(buf: Seq<u8>) -> Result<(Seq<u8>, nat), Fault> {
    match simple_frame_end(buf, TAG_DOUBLE) {
        Err(fault) => Err(fault),
        Ok(end) => Ok((buf.subrange(1, end as int), end + 2)),
    }
}

/// A boolean frame at the front of `buf`: the true form is tried first.
pub open spec fn bool_frame(buf: Seq<u8>) -> Result<(bool, nat), Fault> {
    match fixed_frame(buf, bool_wire(true)) {
        Ok(n) => Ok((true, n)),
        Err(Fault::NotComplete) => Err(Fault::NotComplete),
        Err(Fault::Invalid(_)) => match fixed_frame(buf, bool_wire(false)) {
            Ok(n) => Ok((false, n)),
            Err(fault) => Err(fault),
        },
    }
}

/// A bulk string at the front of `buf`: its bytes and null flag. The two
/// bytes behind the payload are taken for the line end unread.
pub open spec fn bulk_frame(buf: Seq<u8>) -> Result<((Seq<u8>, bool), nat), Fault> {
    match nullable_length_field(buf, TAG_BULK_STRING) {
        Err(fault) => Err(fault),
        Ok((end, length)) => if length == -1 {
            Ok(((Seq::empty(), true), end + 2))
        } else if length < 0 {
            Err(Fault::Invalid(buf))
        } else if buf.len() < end + 2 + length + 2 {
            Err(Fault::NotComplete)
        } else {
            Ok(
                (
                    (buf.subrange(end + 2 as int, end + 2 + length), false),
                    (end + 2 + length + 2) as nat,
                ),
            )
        },
    }
}

/// The frame at the front of `buf`, whatever its kind.
#[verifier::opaque]
pub open spec fn any_frame(buf: Seq<u8>) -> Result<(FrameView, nat), Fault>
    decreases buf.len(), 1nat,
{
    if buf.len() == 0 {
        Err(Fault::NotComplete)
    } else if buf[0] == TAG_SIMPLE_STRING {
        match text_frame(buf, TAG_SIMPLE_STRING) {
            Ok((text, used)) => Ok((FrameView::SimpleString(text), used)),
            Err(fault) => Err(fault),
        }
    } else if buf[0] == TAG_SIMPLE_ERROR {
        match text_frame(buf, TAG_SIMPLE_ERROR) {
            Ok((text, used)) => Ok((FrameView::SimpleError(text), used)),
            Err(fault) => Err(fault),
        }
    } else if buf[0] == TAG_INTEGER {
        match integer_frame(buf) {
            Ok((value, used)) => Ok((FrameView::Integer(value), used)),
            Err(fault) => Err(fault),
        }
    } else if buf[0] == TAG_DOUBLE {
        match double_frame(buf) {
            Ok((text, used)) => Ok((FrameView::Double(text), used)),
            Err(fault) => Err(fault),
        }
    } else if buf[0] == TAG_BOOL {
        match bool_frame(buf) {
            Ok((value, used)) => Ok((FrameView::Bool(value), used)),
            Err(fault) => Err(fault),
        }
    } else if buf[0] == TAG_NULL {
        match fixed_frame(buf, null_wire()) {
            Ok(used) => Ok((FrameView::Null, used)),
            Err(fault) => Err(fault),
        }
    } else if buf[0] == TAG_BULK_STRING {
        match bulk_frame(buf) {
            Ok(((data, null), used)) => Ok((FrameView::BulkString(data, null), used)),
            Err(fault) => Err(fault),
        }
    } else if buf[0] == TAG_ARRAY {
        match array_frame(buf) {
            Ok(((elements, null), used)) => Ok((FrameView::Array(elements, null), used)),
            Err(fault) => Err(fault),
        }
    } else if buf[0] == TAG_SET {
        match set_frame(buf) {
            Ok((elements, used)) => Ok((FrameView::Members(elements), used)),
            Err(fault) => Err(fault),
        }
    } else if buf[0] == TAG_MAP {
        match map_frame(buf) {
            Ok((entries, used)) => Ok((FrameView::Mapping(entries), used)),
            Err(fault) => Err(fault),
        }
    } else {
        Err(Fault::Invalid(buf))
    }
}

/// An array at the front of `buf`: its elements and null flag. The whole
/// length is looked ahead first; only then are the elements read.
pub open spec fn array_frame(buf: Seq<u8>) -> Result<((Seq<FrameView>, bool), nat), Fault>
    decreases buf.len(), 0nat, 1nat,
{
    match nullable_length_field(buf, TAG_ARRAY) {
        Err(fault) => Err(fault),
        Ok((end, length)) => if length == -1 {
            Ok(((Seq::empty(), true), end + 2))
        } else if length < 0 {
            Err(Fault::Invalid(buf))
        } else {
            match counted_frames(buf, end, length as nat, TAG_ARRAY) {
                Err(fault) => Err(fault),
                Ok((elements, used)) => Ok(((elements, false), used)),
            }
        },
    }
}

/// A set at the front of `buf`: its elements.
pub open spec fn set_frame(buf: Seq<u8>) -> Result<(Seq<FrameView>, nat), Fault>
    decreases buf.len(), 0nat, 1nat,
{
    match length_field(buf, TAG_SET) {
        Err(fault) => Err(fault),
        Ok((end, count)) => counted_frames(buf, end, count, TAG_SET),
    }
}

/// The `count` elements behind a header that ends at `end`, once lookahead
/// has found all of them inside `buf`.
pub open spec fn counted_frames(buf: Seq<u8>, end: nat, count: nat, tag: u8) -> Result<
    (Seq<FrameView>, nat),
    Fault,
>
    decreases buf.len(), 0nat, 0nat,
{
    match total_span(buf, end, count, tag) {
        Err(fault) => Err(fault),
        Ok(total) => if total > buf.len() || end + 2 > buf.len() {
            Err(Fault::NotComplete)
        } else {
            match elements_frames(buf.skip(end + 2 as int), count, Seq::empty()) {
                Err(fault) => Err(fault),
                Ok((elements, used)) => Ok((elements, end + 2 + used)),
            }
        },
    }
}

/// A map at the front of `buf`: its entries in key order.
pub open spec fn map_frame(buf: Seq<u8>) -> Result<(Seq<(Seq<char>, FrameView)>, nat), Fault>
    decreases buf.len(), 0nat, 1nat,
{
    match length_field(buf, TAG_MAP) {
        Err(fault) => Err(fault),
        Ok((end, count)) => match total_span(buf, end, count, TAG_MAP) {
            Err(fault) => Err(fault),
            Ok(total) => if total > buf.len() || end + 2 > buf.len() {
                Err(Fault::NotComplete)
            } else {
                match entries_frames(buf.skip(end + 2 as int), count, Seq::empty()) {
                    Err(fault) => Err(fault),
                    Ok((entries, used)) => Ok((entries, end + 2 + used)),
                }
            },
        },
    }
}

/// `count` frames that follow each other from the front of `data`, added
/// behind `done`, and the bytes they occupy.
pub open spec fn elements_frames(data: Seq<u8>, count: nat, done: Seq<FrameView>) -> Result<
    (Seq<FrameView>, nat),
    Fault,
>
    decreases data.len(), 3nat, count,
{
    if count == 0 {
        Ok((done, 0))
    } else {
        match any_frame(data) {
            Err(fault) => Err(fault),
            Ok((first, used)) => match elements_frames(
                rest_of(data, used),
                (count - 1) as nat,
                done.push(first),
            ) {
                Err(fault) => Err(fault),
                Ok((all, more)) => Ok((all, used + more)),
            },
        }
    }
}

/// `count` keyed frames that follow each other from the front of `data`,
/// each set in turn in the entries `done`, and the bytes they occupy. A key
/// is a simple string.
pub open spec fn entries_frames(
    data: Seq<u8>,
    count: nat,
    done: Seq<(Seq<char>, FrameView)>,
) -> Result<(Seq<(Seq<char>, FrameView)>, nat), Fault>
    decreases data.len(), 3nat, count,
{
    if count == 0 {
        Ok((done, 0))
    } else {
        match text_frame(data, TAG_SIMPLE_STRING) {
            Err(fault) => Err(fault),
            Ok((key, key_used)) => match any_frame(rest_of(data, key_used)) {
                Err(fault) => Err(fault),
                Ok((value, value_used)) => match entries_frames(
                    rest_of(rest_of(data, key_used), value_used),
                    (count - 1) as nat,
                    put(done, key, value),
                ) {
                    Err(fault) => Err(fault),
                    Ok((all, more)) => Ok((all, key_used + value_used + more)),
                },
            },
        }
    }
}

/// One step of [`elements_frames`].
pub proof fn elements_step(data: Seq<u8>, count: nat, done: Seq<FrameView>)
    requires
        count > 0,
    ensures
        elements_frames(data, count, done) == (match any_frame(data) {
            Err(fault) => Err(fault),
            Ok((first, used)) => match elements_frames(
                rest_of(data, used),
                (count - 1) as nat,
                done.push(first),
            ) {
                Err(fault) => Err(fault),
                Ok((all, more)) => Ok((all, used + more)),
            },
        }),
{
    reveal(any_frame);
}

/// One step of [`entries_frames`].
pub proof fn entries_step(data: Seq<u8>, count: nat, done: Seq<(Seq<char>, FrameView)>)
    requires
        count > 0,
    ensures
        entries_frames(data, count, done) == (match text_frame(data, TAG_SIMPLE_STRING) {
            Err(fault) => Err(fault),
            Ok((key, key_used)) => match any_frame(rest_of(data, key_used)) {
                Err(fault) => Err(fault),
                Ok((value, value_used)) => match entries_frames(
                    rest_of(rest_of(data, key_used), value_used),
                    (count - 1) as nat,
                    put(done, key, value),
                ) {
                    Err(fault) => Err(fault),
                    Ok((all, more)) => Ok((all, key_used + value_used + more)),
                },
            },
        }),
{
    reveal(any_frame);
}

/// Whether `got` hands out the frame and the length that the model gives, or
/// reports the fault that the model gives. A length that is handed out never
/// exceeds the `held` bytes.
pub open spec fn frame_agrees(
    got: Result<(RespFrame, usize), RespError>,
    model: Result<(FrameView, nat), Fault>,
    held: nat,
) -> bool {
    match model {
        Ok((frame, used)) => got is Ok && got->Ok_0.0@ == frame && got->Ok_0.1 == used && used
            <= held,
        Err(fault) => got is Err && got->Err_0.reports(fault),
    }
}

/// Reads the text of a one-line frame tagged `tag`.
pub fn parse_text(buf: &[u8], tag: u8) -> (got: Result<(String, usize), RespError>)
    ensures
        match text_frame(buf@, tag) {
            Ok((text, used)) => got is Ok && got->Ok_0.0@ == text && got->Ok_0.1 == used && used
                <= buf@.len(),
            Err(fault) => got is Err && got->Err_0.reports(fault),
        },
{
    let end = extract_simple_frame_data(buf, tag)?;
    let size = buf.len();
    proof {
        simple_frame_end_bounds(buf@, tag);
    }
    let text = lossy_text(slice_subrange(buf, 1, end));
    Ok((text, end + CRLF_LENGTH))
}

/// Reads an integer frame.
pub fn parse_integer(buf: &[u8]) -> (got: Result<(i64, usize), RespError>)
    ensures
        match integer_frame(buf@) {
            Ok((value, used)) => got is Ok && got->Ok_0.0 == value && got->Ok_0.1 == used && used
                <= buf@.len(),
            Err(fault) => got is Err && got->Err_0.reports(fault),
        },
{
    let end = extract_simple_frame_data(buf, TAG_INTEGER)?;
    let size = buf.len();
    proof {
        simple_frame_end_bounds(buf@, TAG_INTEGER);
    }
    match parse_i64(slice_subrange(buf, 1, end)) {
        Some(value) => Ok((value, end + CRLF_LENGTH)),
        None => Err(invalid_frame(buf)),
    }
}

/// Reads a double frame: the text of the number, as it stands.
pub fn parse_double(buf: &[u8]) -> (got: Result<(RespDouble, usize), RespError>)
    ensures
        match double_frame(buf@) {
            Ok((text, used)) => got is Ok && got->Ok_0.0.0@ == text && got->Ok_0.1 == used
                && used <= buf@.len(),
            Err(fault) => got is Err && got->Err_0.reports(fault),
        },
{
    let end = extract_simple_frame_data(buf, TAG_DOUBLE)?;
    let size = buf.len();
    proof {
        simple_frame_end_bounds(buf@, TAG_DOUBLE);
    }
    let text = slice_to_vec(slice_subrange(buf, 1, end));
    Ok((RespDouble(text), end + CRLF_LENGTH))
}

/// Checks that `buf` begins with the fixed frame `expect`.
pub fn check_fixed(buf: &[u8], expect: &[u8]) -> (got: Result<usize, RespError>)
    ensures
        match fixed_frame(buf@, expect@) {
            Ok(used) => got is Ok && got->Ok_0 == used && used <= buf@.len(),
            Err(fault) => got is Err && got->Err_0.reports(fault),
        },
{
    if buf.len() < expect.len() {
        return Err(RespError::NotComplete);
    }
    if !starts_with(buf, expect) {
        return Err(invalid_frame(buf));
    }
    Ok(expect.len())
}

/// Reads a boolean frame.
pub fn parse_bool(buf: &[u8]) -> (got: Result<(bool, usize), RespError>)
    ensures
        match bool_frame(buf@) {
            Ok((value, used)) => got is Ok && got->Ok_0.0 == value && got->Ok_0.1 == used && used
                <= buf@.len(),
            Err(fault) => got is Err && got->Err_0.reports(fault),
        },
{
    let yes: Vec<u8> = vec![TAG_BOOL, LETTER_T, CR, LF];
    let no: Vec<u8> = vec![TAG_BOOL, LETTER_F, CR, LF];
    proof {
        assert(yes@ =~= bool_wire(true));
        assert(no@ =~= bool_wire(false));
    }
    match check_fixed(buf, yes.as_slice()) {
        Ok(used) => Ok((true, used)),
        Err(RespError::NotComplete) => Err(RespError::NotComplete),
        Err(_) => match check_fixed(buf, no.as_slice()) {
            Ok(used) => Ok((false, used)),
            Err(error) => Err(error),
        },
    }
}

/// Reads the scalar null.
pub fn parse_null(buf: &[u8]) -> (got: Result<(RespNull, usize), RespError>)
    ensures
        match fixed_frame(buf@, null_wire()) {
            Ok(used) => got is Ok && got->Ok_0.1 == used && used <= buf@.len(),
            Err(fault) => got is Err && got->Err_0.reports(fault),
        },
{
    let expect: Vec<u8> = vec![TAG_NULL, CR, LF];
    proof {
        assert(expect@ =~= null_wire());
    }
    let used = check_fixed(buf, expect.as_slice())?;
    Ok((RespNull, used))
}

/// Reads a bulk string.
pub fn parse_bulk_string(buf: &[u8]) -> (got: Result<(BulkString, usize), RespError>)
    ensures
        match bulk_frame(buf@) {
            Ok(((data, null), used)) => got is Ok && got->Ok_0.0.0@ == data && got->Ok_0.0.1
                == null && got->Ok_0.1 == used && used <= buf@.len(),
            Err(fault) => got is Err && got->Err_0.reports(fault),
        },
{
    let (end, len) = parse_length_for_nullable(buf, TAG_BULK_STRING)?;
    let size = buf.len();
    let head: usize = end + CRLF_LENGTH;
    if len == -1 {
        return Ok((BulkString::nill_new(), head));
    }
    if len < 0 {
        return Err(invalid_frame(buf));
    }
    let payload: usize = len as usize;
    let remained: usize = size - head;
    if remained < CRLF_LENGTH || remained - CRLF_LENGTH < payload {
        return Err(RespError::NotComplete);
    }
    let data = slice_to_vec(slice_subrange(buf, head, head + payload));
    Ok((BulkString::new(data), head + payload + CRLF_LENGTH))
}

/// Reads `count` frames that follow each other from the front of `data`.
pub fn parse_elements(data: &[u8], count: usize) -> (got: Result<
    (Vec<RespFrame>, usize),
    RespError,
>)
    ensures
        match elements_frames(data@, count as nat, Seq::empty()) {
            Ok((elements, used)) => got is Ok && frames_view(got->Ok_0.0@) == elements
                && got->Ok_0.1 == used && used <= data@.len(),
            Err(fault) => got is Err && got->Err_0.reports(fault),
        },
    decreases data@.len(), 3nat,
{
    let mut frames: Vec<RespFrame> = Vec::new();
    let mut rest: &[u8] = data;
    let size = data.len();
    let mut walked: usize = 0;
    let mut left: usize = count;
    proof {
        assert(frames_view(frames@) =~= Seq::<FrameView>::empty());
    }
    while left > 0
        invariant
            walked + rest@.len() == data@.len(),
            rest@.len() <= data@.len() <= usize::MAX,
            match elements_frames(rest@, left as nat, frames_view(frames@)) {
                Ok((all, more)) => elements_frames(data@, count as nat, Seq::empty()) == Ok::<
                    (Seq<FrameView>, nat),
                    Fault,
                >((all, (walked + more) as nat)),
                Err(fault) => elements_frames(data@, count as nat, Seq::empty()) == Err::<
                    (Seq<FrameView>, nat),
                    Fault,
                >(fault),
            },
        decreases left,
    {
        proof {
            elements_step(rest@, left as nat, frames_view(frames@));
        }
        let (frame, used) = parse_frame(rest)?;
        proof {
            frames_view_push(frames@, frame);
        }
        frames.push(frame);
        rest = slice_subrange(rest, used, rest.len());
        walked = walked + used;
        left = left - 1;
    }
    Ok((frames, walked))
}

/// Reads `count` keyed frames that follow each other from the front of
/// `data` into a map.
pub fn parse_entries(data: &[u8], count: usize) -> (got: Result<(RespMap, usize), RespError>)
    ensures
        match entries_frames(data@, count as nat, Seq::empty()) {
            Ok((entries, used)) => got is Ok && got->Ok_0.0.entries() == entries && got->Ok_0.1
                == used && used <= data@.len(),
            Err(fault) => got is Err && got->Err_0.reports(fault),
        },
    decreases data@.len(), 3nat,
{
    let mut map = RespMap::new();
    let mut rest: &[u8] = data;
    let size = data.len();
    let mut walked: usize = 0;
    let mut left: usize = count;
    while left > 0
        invariant
            walked + rest@.len() == data@.len(),
            rest@.len() <= data@.len() <= usize::MAX,
            match entries_frames(rest@, left as nat, map.entries()) {
                Ok((all, more)) => entries_frames(data@, count as nat, Seq::empty()) == Ok::<
                    (Seq<(Seq<char>, FrameView)>, nat),
                    Fault,
                >((all, (walked + more) as nat)),
                Err(fault) => entries_frames(data@, count as nat, Seq::empty()) == Err::<
                    (Seq<(Seq<char>, FrameView)>, nat),
                    Fault,
                >(fault),
            },
        decreases left,
    {
        proof {
            entries_step(rest@, left as nat, map.entries());
        }
        let (key, key_used) = parse_text(rest, TAG_SIMPLE_STRING)?;
        let behind_key = slice_subrange(rest, key_used, rest.len());
        let (value, value_used) = parse_frame(behind_key)?;
        map.insert(key, value);
        rest = slice_subrange(behind_key, value_used, behind_key.len());
        walked = walked + key_used + value_used;
        left = left - 1;
    }
    Ok((map, walked))
}

/// Reads an array.
pub fn parse_array(buf: &[u8]) -> (got: Result<(RespArray, usize), RespError>)
    ensures
        match array_frame(buf@) {
            Ok(((elements, null), used)) => got is Ok && frames_view(got->Ok_0.0.0@) == elements
                && got->Ok_0.0.1 == null && got->Ok_0.1 == used && used <= buf@.len(),
            Err(fault) => got is Err && got->Err_0.reports(fault),
        },
    decreases buf@.len(), 0nat, 1nat,
{
    let (end, len) = parse_length_for_nullable(buf, TAG_ARRAY)?;
    let size = buf.len();
    if len == -1 {
        proof {
            assert(frames_view(Seq::<RespFrame>::empty()) =~= Seq::<FrameView>::empty());
        }
        return Ok((RespArray::nill_new(), end + CRLF_LENGTH));
    }
    if len < 0 {
        return Err(invalid_frame(buf));
    }
    let (frames, used) = parse_counted(buf, end, len as usize, TAG_ARRAY)?;
    Ok((RespArray::new(frames), used))
}

/// Reads a set.
pub fn parse_set(buf: &[u8]) -> (got: Result<(RespSet, usize), RespError>)
    ensures
        match set_frame(buf@) {
            Ok((elements, used)) => got is Ok && frames_view(got->Ok_0.0.0@) == elements
                && got->Ok_0.1 == used && used <= buf@.len(),
            Err(fault) => got is Err && got->Err_0.reports(fault),
        },
    decreases buf@.len(), 0nat, 1nat,
{
    let (end, len) = parse_length(buf, TAG_SET)?;
    let size = buf.len();
    let (frames, used) = parse_counted(buf, end, len, TAG_SET)?;
    Ok((RespSet(frames), used))
}

/// Reads the `count` elements behind a header that ends at `end`: first the
/// lookahead over all of them, then the frames.
pub fn parse_counted(buf: &[u8], end: usize, count: usize, tag: u8) -> (got: Result<
    (Vec<RespFrame>, usize),
    RespError,
>)
    ensures
        match counted_frames(buf@, end as nat, count as nat, tag) {
            Ok((elements, used)) => got is Ok && frames_view(got->Ok_0.0@) == elements
                && got->Ok_0.1 == used && used <= buf@.len(),
            Err(fault) => got is Err && got->Err_0.reports(fault),
        },
    decreases buf@.len(), 0nat, 0nat,
{
    let total = calc_total_length(buf, end, count, tag)?;
    if total > buf.len() || end > buf.len() || buf.len() - end < CRLF_LENGTH {
        return Err(RespError::NotComplete);
    }
    let head: usize = end + CRLF_LENGTH;
    let (frames, used) = parse_elements(slice_subrange(buf, head, buf.len()), count)?;
    Ok((frames, head + used))
}

/// Reads a map.
pub fn parse_map(buf: &[u8]) -> (got: Result<(RespMap, usize), RespError>)
    ensures
        match map_frame(buf@) {
            Ok((entries, used)) => got is Ok && got->Ok_0.0.entries() == entries && got->Ok_0.1
                == used && used <= buf@.len(),
            Err(fault) => got is Err && got->Err_0.reports(fault),
        },
    decreases buf@.len(), 0nat, 1nat,
{
    let (end, len) = parse_length(buf, TAG_MAP)?;
    let size = buf.len();
    let total = calc_total_length(buf, end, len, TAG_MAP)?;
    if total > buf.len() || end > buf.len() || buf.len() - end < CRLF_LENGTH {
        return Err(RespError::NotComplete);
    }
    let head: usize = end + CRLF_LENGTH;
    let (map, used) = parse_entries(slice_subrange(buf, head, buf.len()), len)?;
    Ok((map, head + used))
}

/// Reads the frame at the front of `buf`: the tag byte selects the kind. An
/// empty buffer is not complete; a byte that is no tag is a fault.
pub fn parse_frame(buf: &[u8]) -> (got: Result<(RespFrame, usize), RespError>)
    ensures
        frame_agrees(got, any_frame(buf@), buf@.len()),
    decreases buf@.len(), 1nat,
{
    proof {
        reveal(any_frame);
    }
    if buf.len() == 0 {
        return Err(RespError::NotComplete);
    }
    let tag: u8 = buf[0];
    if tag == TAG_SIMPLE_STRING {
        let (text, used) = parse_text(buf, TAG_SIMPLE_STRING)?;
        Ok((RespFrame::SimpleString(SimpleString(text)), used))
    } else if tag == TAG_SIMPLE_ERROR {
        let (text, used) = parse_text(buf, TAG_SIMPLE_ERROR)?;
        Ok((RespFrame::SimpleError(SimpleError(text)), used))
    } else if tag == TAG_INTEGER {
        let (value, used) = parse_integer(buf)?;
        Ok((RespFrame::Integer(value), used))
    } else if tag == TAG_DOUBLE {
        let (text, used) = parse_double(buf)?;
        Ok((RespFrame::Double(text), used))
    } else if tag == TAG_BOOL {
        let (value, used) = parse_bool(buf)?;
        Ok((RespFrame::Bool(value), used))
    } else if tag == TAG_NULL {
        let (null, used) = parse_null(buf)?;
        Ok((RespFrame::Null(null), used))
    } else if tag == TAG_BULK_STRING {
        let (bulk, used) = parse_bulk_string(buf)?;
        Ok((RespFrame::BulkString(bulk), used))
    } else if tag == TAG_ARRAY {
        let (array, used) = parse_array(buf)?;
        proof {
            array_view(array);
        }
        Ok((RespFrame::Array(array), used))
    } else if tag == TAG_SET {
        let (set, used) = parse_set(buf)?;
        proof {
            set_view(set);
        }
        Ok((RespFrame::Members(set), used))
    } else if tag == TAG_MAP {
        let (map, used) = parse_map(buf)?;
        proof {
            map_view(map);
        }
        Ok((RespFrame::Mapping(map), used))
    } else {
        Err(invalid_frame(buf))
    }
}

} // verus!
