//! Encoding: the bytes that stand for a frame on the wire.

use crate::decimal::decimal_digits;
use crate::decimal::push_decimal;
use crate::decimal::MINUS_SIGN;
use crate::decimal::PLUS_SIGN;
use crate::frame::array_view;
use crate::map::ascending;
use crate::frame::frames_view;
use crate::frame::frames_view_at;
use crate::frame::map_view;
use crate::frame::set_view;
use crate::frame::BulkString;
use crate::frame::FrameView;
use crate::frame::RespFrame;
use crate::map::RespMap;
use crate::frame::SimpleError;
use crate::frame::SimpleString;
use crate::frame::TAG_ARRAY;
use crate::frame::TAG_BOOL;
use crate::frame::TAG_BULK_STRING;
use crate::frame::TAG_DOUBLE;
use crate::frame::TAG_INTEGER;
use crate::frame::TAG_MAP;
use crate::frame::TAG_NULL;
use crate::frame::TAG_SET;
use crate::frame::TAG_SIMPLE_ERROR;
use crate::frame::TAG_SIMPLE_STRING;
use crate::scan::CR;
use crate::scan::LF;
use vstd::prelude::*;
use vstd::string::*;
use vstd::utf8::*;

verus! {

pub const LETTER_T: u8 = 116;

pub const LETTER_F: u8 = 102;

pub const DIGIT_ONE: u8 = 49;

/// The line end.
pub open spec fn crlf() -> Seq<u8> {
    seq![CR, LF]
}

/// A header that announces `count`: tag, digits, line end.
pub open spec fn count_header(tag: u8, count: nat) -> Seq<u8> {
    seq![tag] + decimal_digits(count) + crlf()
}

/// The header that marks a null bulk string or array: tag, `-1`, line end.
pub open spec fn null_header(tag: u8) -> Seq<u8> {
    seq![tag, MINUS_SIGN, DIGIT_ONE, CR, LF]
}

/// The size of an integer without its sign.
pub open spec fn magnitude(value: i64) -> nat {
    if value < 0 {
        (-(value as int)) as nat
    } else {
        value as nat
    }
}

/// A simple string on the wire. A delimiter `+` stands between the text and
/// the line end.
pub open spec fn simple_string_wire(text: Seq<char>) -> Seq<u8> {
    seq![TAG_SIMPLE_STRING] + encode_utf8(text) + seq![TAG_SIMPLE_STRING] + crlf()
}

/// A simple error on the wire.
pub open spec fn simple_error_wire(text: Seq<char>) -> Seq<u8> {
    seq![TAG_SIMPLE_ERROR] + encode_utf8(text) + crlf()
}

/// An integer on the wire; its sign is always written.
pub open spec fn integer_wire(value: i64) -> Seq<u8> {
    seq![
        TAG_INTEGER,
        if value < 0 {
            MINUS_SIGN
        } else {
            PLUS_SIGN
        },
    ] + decimal_digits(magnitude(value)) + crlf()
}

/// A double on the wire, given the text of the number.
pub open spec fn double_wire(text: Seq<u8>) -> Seq<u8> {
    seq![TAG_DOUBLE] + text + crlf()
}

/// A boolean on the wire: `#t` or `#f` and the line end.
pub open spec fn bool_wire(value: bool) -> Seq<u8> {
    seq![
        TAG_BOOL,
        if value {
            LETTER_T
        } else {
            LETTER_F
        },
        CR,
        LF,
    ]
}

/// The scalar null on the wire.
pub open spec fn null_wire() -> Seq<u8> {
    seq![TAG_NULL, CR, LF]
}

/// A bulk string on the wire. The null bulk string is the null header alone,
/// whatever bytes it carries.
pub open spec fn bulk_wire(data: Seq<u8>, null: bool) -> Seq<u8> {
    if null {
        null_header(TAG_BULK_STRING)
    } else {
        count_header(TAG_BULK_STRING, data.len()) + data + crlf()
    }
}

/// A frame on the wire.
pub open spec fn wire(frame: FrameView) -> Seq<u8>
    decreases frame,
{
    match frame {
        FrameView::SimpleString(text) => simple_string_wire(text),
        FrameView::SimpleError(text) => simple_error_wire(text),
        FrameView::Integer(value) => integer_wire(value),
        FrameView::Double(text) => double_wire(text),
        FrameView::Bool(value) => bool_wire(value),
        FrameView::Null => null_wire(),
        FrameView::BulkString(data, null) => bulk_wire(data, null),
        FrameView::Array(elements, null) => if null {
            null_header(TAG_ARRAY)
        } else {
            count_header(TAG_ARRAY, elements.len()) + wire_upto(elements, elements.len())
        },
        FrameView::Members(elements) => count_header(TAG_SET, elements.len()) + wire_upto(
            elements,
            elements.len(),
        ),
        FrameView::Mapping(entries) => count_header(TAG_MAP, entries.len()) + entries_wire_upto(
            entries,
            entries.len(),
        ),
    }
}

/// The first `n` of a run of frames on the wire, one behind the other.
pub open spec fn wire_upto(elements: Seq<FrameView>, n: nat) -> Seq<u8>
    decreases elements, n,
{
    if n == 0 || n > elements.len() {
        Seq::empty()
    } else {
        wire_upto(elements, (n - 1) as nat) + wire(elements[n - 1])
    }
}

/// The first `n` entries of a map on the wire: each key as a simple string,
/// then its frame.
pub open spec fn entries_wire_upto(entries: Seq<(Seq<char>, FrameView)>, n: nat) -> Seq<u8>
    decreases entries, n,
{
    if n == 0 || n > entries.len() {
        Seq::empty()
    } else {
        entries_wire_upto(entries, (n - 1) as nat) + simple_string_wire(entries[n - 1].0) + wire(
            entries[n - 1].1,
        )
    }
}

/// Appends `bytes`.
pub fn push_all(out: &mut Vec<u8>, bytes: &[u8])
    ensures
        final(out)@ == old(out)@ + bytes@,
{
    let ghost before = out@;
    let mut i: usize = 0;
    while i < bytes.len()
        invariant
            i <= bytes.len(),
            out@ == before + bytes@.take(i as int),
        decreases bytes.len() - i,
    {
        out.push(bytes[i]);
        proof {
            assert(bytes@.take(i + 1) == bytes@.take(i as int).push(bytes@[i as int]));
        }
        i = i + 1;
    }
    proof {
        assert(bytes@.take(i as int) == bytes@);
    }
}

fn push_crlf(out: &mut Vec<u8>)
    ensures
        final(out)@ == old(out)@ + crlf(),
{
    out.push(CR);
    out.push(LF);
    proof {
        assert(out@ =~= old(out)@ + crlf());
    }
}

pub fn push_count_header(out: &mut Vec<u8>, tag: u8, count: usize)
    ensures
        final(out)@ == old(out)@ + count_header(tag, count as nat),
{
    out.push(tag);
    push_decimal(out, count as u64);
    push_crlf(out);
    proof {
        assert(out@ =~= old(out)@ + count_header(tag, count as nat));
    }
}

pub fn push_null_header(out: &mut Vec<u8>, tag: u8)
    ensures
        final(out)@ == old(out)@ + null_header(tag),
{
    out.push(tag);
    out.push(MINUS_SIGN);
    out.push(DIGIT_ONE);
    out.push(CR);
    out.push(LF);
    proof {
        assert(out@ =~= old(out)@ + null_header(tag));
    }
}

/// Appends a simple string.
pub fn push_simple_string(out: &mut Vec<u8>, text: &String)
    ensures
        final(out)@ == old(out)@ + simple_string_wire(text@),
{
    out.push(TAG_SIMPLE_STRING);
    push_all(out, text.as_str().as_bytes());
    out.push(TAG_SIMPLE_STRING);
    push_crlf(out);
    proof {
        assert(out@ =~= old(out)@ + simple_string_wire(text@));
    }
}

/// Appends a simple error.
pub fn push_simple_error(out: &mut Vec<u8>, text: &String)
    ensures
        final(out)@ == old(out)@ + simple_error_wire(text@),
{
    out.push(TAG_SIMPLE_ERROR);
    push_all(out, text.as_str().as_bytes());
    push_crlf(out);
    proof {
        assert(out@ =~= old(out)@ + simple_error_wire(text@));
    }
}

/// Appends an integer.
pub fn push_integer(out: &mut Vec<u8>, value: i64)
    ensures
        final(out)@ == old(out)@ + integer_wire(value),
{
    out.push(TAG_INTEGER);
    let size: u64 = if value >= 0 {
        out.push(PLUS_SIGN);
        value as u64
    } else {
        out.push(MINUS_SIGN);
        if value == i64::MIN {
            0x8000_0000_0000_0000
        } else {
            (-value) as u64
        }
    };
    push_decimal(out, size);
    push_crlf(out);
    proof {
        assert(out@ =~= old(out)@ + integer_wire(value));
    }
}

/// Appends a double, given the text of the number.
pub fn push_double(out: &mut Vec<u8>, text: &Vec<u8>)
    ensures
        final(out)@ == old(out)@ + double_wire(text@),
{
    out.push(TAG_DOUBLE);
    push_all(out, text.as_slice());
    push_crlf(out);
    proof {
        assert(out@ =~= old(out)@ + double_wire(text@));
    }
}

/// Appends a boolean.
pub fn push_bool(out: &mut Vec<u8>, value: bool)
    ensures
        final(out)@ == old(out)@ + bool_wire(value),
{
    out.push(TAG_BOOL);
    out.push(
        if value {
            LETTER_T
        } else {
            LETTER_F
        },
    );
    out.push(CR);
    out.push(LF);
    proof {
        assert(out@ =~= old(out)@ + bool_wire(value));
    }
}

/// Appends the scalar null.
pub fn push_null(out: &mut Vec<u8>)
    ensures
        final(out)@ == old(out)@ + null_wire(),
{
    out.push(TAG_NULL);
    out.push(CR);
    out.push(LF);
    proof {
        assert(out@ =~= old(out)@ + null_wire());
    }
}

/// Appends a bulk string.
pub fn push_bulk(out: &mut Vec<u8>, bulk: &BulkString)
    ensures
        final(out)@ == old(out)@ + bulk_wire(bulk.0@, bulk.1),
{
    if bulk.1 {
        push_null_header(out, TAG_BULK_STRING);
    } else {
        push_count_header(out, TAG_BULK_STRING, bulk.0.len());
        push_all(out, bulk.0.as_slice());
        push_crlf(out);
        proof {
            assert(out@ =~= old(out)@ + bulk_wire(bulk.0@, bulk.1));
        }
    }
}

/// Appends a run of frames, one behind the other.
pub fn push_frames(out: &mut Vec<u8>, frames: &Vec<RespFrame>)
    ensures
        final(out)@ == old(out)@ + wire_upto(frames_view(frames@), frames@.len()),
    decreases frames_view(frames@), 0nat,
{
    let ghost before = out@;
    let ghost views = frames_view(frames@);
    proof {
        frames_view_at(frames@);
    }
    let mut i: usize = 0;
    while i < frames.len()
        invariant
            i <= frames.len(),
            views == frames_view(frames@),
            views.len() == frames@.len(),
            forall|k: int| 0 <= k < frames@.len() ==> (#[trigger] views[k]) == frames@[k]@,
            out@ == before + wire_upto(views, i as nat),
        decreases frames.len() - i,
    {
        let ghost so_far = out@;
        push_frame(out, &frames[i]);
        proof {
            assert(views[i as int] == frames@[i as int]@);
            assert(out@ =~= before + wire_upto(views, (i + 1) as nat));
        }
        i = i + 1;
    }
}

/// Appends the entries of a map in their order, which is ascending by key:
/// each key as a simple string, then its frame.
pub fn push_entries(out: &mut Vec<u8>, map: &RespMap)
    ensures
        final(out)@ == old(out)@ + entries_wire_upto(map.entries(), map.entries().len()),
        ascending(map.entries()),
    decreases map.entries(), 0nat,
{
    let ghost before = out@;
    let count = map.len();
    let mut i: usize = 0;
    while i < count
        invariant
            i <= count,
            count == map.entries().len(),
            out@ == before + entries_wire_upto(map.entries(), i as nat),
        decreases count - i,
    {
        push_simple_string(out, map.key_at(i));
        push_frame(out, map.value_at(i));
        proof {
            assert(out@ =~= before + entries_wire_upto(map.entries(), (i + 1) as nat));
        }
        i = i + 1;
    }
}

/// Appends a frame.
pub fn push_frame(out: &mut Vec<u8>, frame: &RespFrame)
    ensures
        final(out)@ == old(out)@ + wire(frame@),
    decreases frame@, 1nat,
{
    match frame {
        RespFrame::SimpleString(s) => push_simple_string(out, &s.0),
        RespFrame::SimpleError(e) => push_simple_error(out, &e.0),
        RespFrame::Integer(v) => push_integer(out, *v),
        RespFrame::Double(d) => push_double(out, &d.0),
        RespFrame::Bool(b) => push_bool(out, *b),
        RespFrame::Null(_) => push_null(out),
        RespFrame::BulkString(b) => push_bulk(out, b),
        RespFrame::Array(a) => {
            if a.1 {
                push_null_header(out, TAG_ARRAY);
            } else {
                proof {
                    array_view(*a);
                    assert(frame@->Array_0 == frames_view(a.0@));
                    assert(decreases_to!(frame@ => frame@->Array_0));
                }
                push_count_header(out, TAG_ARRAY, a.0.len());
                push_frames(out, &a.0);
                proof {
                    frames_view_at(a.0@);
                    assert(out@ =~= old(out)@ + wire(frame@));
                }
            }
        },
        RespFrame::Members(s) => {
            proof {
                set_view(*s);
                assert(frame@->Members_0 == frames_view(s.0@));
                assert(decreases_to!(frame@ => frame@->Members_0));
            }
            push_count_header(out, TAG_SET, s.0.len());
            push_frames(out, &s.0);
            proof {
                frames_view_at(s.0@);
                assert(out@ =~= old(out)@ + wire(frame@));
            }
        },
        RespFrame::Mapping(m) => {
            proof {
                map_view(*m);
                assert(frame@->Mapping_0 == m.entries());
                assert(decreases_to!(frame@ => frame@->Mapping_0));
            }
            push_count_header(out, TAG_MAP, m.len());
            push_entries(out, m);
            proof {
                assert(out@ =~= old(out)@ + wire(frame@));
            }
        },
    }
}

} // verus!
