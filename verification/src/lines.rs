//! Facts about headers and one-line frames: where the line end is found, and
//! what the header of an encoded count reads as.

use crate::decimal::MINUS_SIGN;
use crate::decimal::PLUS_SIGN;
use crate::decimal::decimal_digits;
use crate::decimal::digits_round_trip;
use crate::decimal::digits_value;
use crate::decimal::is_digit;
use crate::decimal::magnitude_text;
use crate::decimal::signed_value;
use crate::encode::DIGIT_ONE;
use crate::encode::count_header;
use crate::encode::crlf;
use crate::encode::null_header;
use crate::error::Fault;
use crate::scan::CR;
use crate::scan::LF;
use crate::scan::crlf_at;
use crate::scan::first_crlf_is_first;
use crate::scan::nth_crlf;
use crate::scan::nullable_length_field;
use crate::scan::simple_frame_end;
use crate::scan::simple_frame_end_bounds;
use vstd::prelude::*;

verus! {

/// Whether `body` holds no line end.
pub open spec fn line_safe(body: Seq<u8>) -> bool {
    forall|k: int| 0 <= k && k + 1 < body.len() ==> !(body[k] == CR && #[trigger] body[k + 1] == LF)
}

/// A line: tag, body, line end, and whatever follows.
pub open spec fn line(tag: u8, body: Seq<u8>, rest: Seq<u8>) -> Seq<u8> {
    seq![tag] + body + crlf() + rest
}

/// The first line end at or behind `from` is the one at `end` when none
/// stands between them.
pub proof fn crlf_found(buf: Seq<u8>, from: int, end: int)
    requires
        0 <= from <= end,
        crlf_at(buf, end),
        forall|k: int| from <= k < end ==> !crlf_at(buf, k),
    ensures
        nth_crlf(buf, from, 1) == Some(end),
    decreases end - from,
{
    if from < end {
        crlf_found(buf, from + 1, end);
    }
}

/// The header of a line whose body holds no line end closes right behind
/// the body, and the body is what stands between tag and line end.
pub proof fn line_end(tag: u8, body: Seq<u8>, rest: Seq<u8>)
    requires
        line_safe(body),
    ensures
        simple_frame_end(line(tag, body, rest), tag) == Ok::<nat, Fault>(
            (1 + body.len()) as nat,
        ),
        line(tag, body, rest).subrange(1, 1 + body.len() as int) == body,
        line(tag, body, rest).len() == 1 + body.len() + 2 + rest.len(),
        line(tag, body, rest).skip(1 + body.len() + 2 as int) == rest,
{
    let buf = line(tag, body, rest);
    let end: int = 1 + body.len() as int;
    assert(buf.len() == 1 + body.len() + 2 + rest.len());
    assert(buf[0] == tag);
    assert(buf[end] == CR);
    assert(buf[end + 1] == LF);
    assert forall|k: int| 1 <= k < end implies !crlf_at(buf, k) by {
        assert(buf[k] == body[k - 1]);
        if k + 1 < end {
            assert(buf[k + 1] == body[k - 1 + 1]);
            assert(!(body[k - 1] == CR && body[k - 1 + 1] == LF));
        } else {
            assert(buf[k + 1] == CR);
        }
    }
    crlf_found(buf, 1, end);
    assert(buf.subrange(1, end) =~= body);
    assert(buf.skip(end + 2) =~= rest);
}

/// A run of digits holds no line end.
pub proof fn digits_are_line_safe(text: Seq<u8>)
    requires
        forall|k: int| 0 <= k < text.len() ==> is_digit(#[trigger] text[k]) || text[k] == MINUS_SIGN
            || text[k] == PLUS_SIGN,
    ensures
        line_safe(text),
{
    assert forall|k: int| 0 <= k && k + 1 < text.len() implies !(text[k] == CR && #[trigger] text[k
        + 1] == LF) by {
        assert(is_digit(text[k]) || text[k] == MINUS_SIGN || text[k]
            == PLUS_SIGN);
    }
}

/// The header that announces `count` reads as `count`, whatever follows it.
pub proof fn count_header_reads(tag: u8, count: nat, rest: Seq<u8>)
    ensures
        count_header(tag, count) + rest == line(tag, decimal_digits(count), rest),
        signed_value(decimal_digits(count)) == Some(count as int),
        simple_frame_end(count_header(tag, count) + rest, tag) == Ok::<nat, Fault>(
            (1 + decimal_digits(count).len()) as nat,
        ),
        (count_header(tag, count) + rest).subrange(1, 1 + decimal_digits(count).len() as int)
            == decimal_digits(count),
        (count_header(tag, count) + rest).skip(count_header(tag, count).len() as int) == rest,
        count_header(tag, count).len() == 1 + decimal_digits(count).len() + 2,
{
    let digits = decimal_digits(count);
    digits_round_trip(count);
    digits_are_line_safe(digits);
    line_end(tag, digits, rest);
    assert(count_header(tag, count) + rest =~= line(tag, digits, rest));
    assert(magnitude_text(digits) == digits);
}

/// The null header reads as the length `-1`, whatever follows it.
pub proof fn null_header_reads(tag: u8, rest: Seq<u8>)
    ensures
        nullable_length_field(null_header(tag) + rest, tag) == Ok::<
            (nat, int),
            Fault,
        >((3, -1)),
        (null_header(tag) + rest).skip(5) == rest,
{
    let body = seq![MINUS_SIGN, DIGIT_ONE];
    digits_are_line_safe(body);
    line_end(tag, body, rest);
    assert(null_header(tag) + rest =~= line(tag, body, rest));
    let digits = magnitude_text(body);
    assert(digits =~= seq![DIGIT_ONE]);
    assert(digits.drop_last() =~= Seq::<u8>::empty());
    assert(digits_value(digits.drop_last()) == 0);
    assert(digits_value(digits) == 1);
    assert(signed_value(body) == Some(-1int));
}

/// Cut anywhere before the end of its header line, a buffer is not
/// complete.
pub proof fn header_prefix_waits(buf: Seq<u8>, tag: u8, k: int)
    requires
        simple_frame_end(buf, tag) is Ok,
        0 <= k < simple_frame_end(buf, tag)->Ok_0 + 2,
    ensures
        simple_frame_end(buf.take(k), tag) == Err::<nat, Fault>(
            Fault::NotComplete,
        ),
{
    let end = simple_frame_end(buf, tag)->Ok_0 as int;
    let cut = buf.take(k);
    simple_frame_end_bounds(buf, tag);
    first_crlf_is_first(buf, 1);
    first_crlf_is_first(cut, 1);
    if k >= 3 {
        assert(cut[0] == buf[0]);
        match nth_crlf(cut, 1, 1) {
            Some(at) => {
                assert(crlf_at(cut, at));
                assert(cut[at] == buf[at]);
                assert(cut[at + 1] == buf[at + 1]);
                assert(crlf_at(buf, at));
            },
            None => {},
        }
    }
}

} // verus!
