//! Decimal numbers as they stand in length and integer fields: an optional
//! sign followed by one or more ASCII digits.

use vstd::prelude::*;

verus! {

pub const DIGIT_ZERO: u8 = 48;

pub const DIGIT_NINE: u8 = 57;

pub const PLUS_SIGN: u8 = 43;

pub const MINUS_SIGN: u8 = 45;

pub open spec fn is_digit(byte: u8) -> bool {
    DIGIT_ZERO <= byte <= DIGIT_NINE
}

pub open spec fn all_digits(text: Seq<u8>) -> bool {
    forall|i: int| 0 <= i < text.len() ==> is_digit(#[trigger] text[i])
}

/// The number that a run of digits denotes, most significant digit first.
pub open spec fn digits_value(text: Seq<u8>) -> nat
    decreases text.len(),
{
    if text.len() == 0 {
        0
    } else {
        digits_value(text.drop_last()) * 10 + (text.last() - DIGIT_ZERO) as nat
    }
}

pub open spec fn has_sign(text: Seq<u8>) -> bool {
    text.len() > 0 && (text[0] == PLUS_SIGN || text[0] == MINUS_SIGN)
}

/// The digits of a number's text, without its sign.
pub open spec fn magnitude_text(text: Seq<u8>) -> Seq<u8> {
    if has_sign(text) {
        text.skip(1)
    } else {
        text
    }
}

/// The value of `[+-]?digit+`, and `None` for any other text.
pub open spec fn signed_value(text: Seq<u8>) -> Option<int> {
    let digits = magnitude_text(text);
    if digits.len() == 0 || !all_digits(digits) {
        None
    } else if text[0] == MINUS_SIGN {
        Some(-(digits_value(digits) as int))
    } else {
        Some(digits_value(digits) as int)
    }
}

/// The value of `[+-]?digit+` where it fits a signed 64-bit integer.
pub open spec fn i64_value(text: Seq<u8>) -> Option<i64> {
    match signed_value(text) {
        Some(v) => if i64::MIN <= v <= i64::MAX {
            Some(v as i64)
        } else {
            None
        },
        None => None,
    }
}

/// The value of `[+-]?digit+` where it fits a signed machine word.
pub open spec fn isize_value(text: Seq<u8>) -> Option<isize> {
    match signed_value(text) {
        Some(v) => if isize::MIN <= v <= isize::MAX {
            Some(v as isize)
        } else {
            None
        },
        None => None,
    }
}

/// The value of `+?digit+` where it fits an unsigned machine word. A minus
/// sign is refused, even before zero.
pub open spec fn usize_value(text: Seq<u8>) -> Option<usize> {
    match signed_value(text) {
        Some(v) => if text[0] != MINUS_SIGN && v <= usize::MAX {
            Some(v as usize)
        } else {
            None
        },
        None => None,
    }
}

/// The digits of `n` in base ten, without leading zeros.
pub open spec fn decimal_digits(n: nat) -> Seq<u8>
    decreases n,
{
    if n < 10 {
        seq![(DIGIT_ZERO + n) as u8]
    } else {
        decimal_digits(n / 10).push((DIGIT_ZERO + n % 10) as u8)
    }
}

/// A prefix of a run of digits never denotes more than the whole run.
pub proof fn prefix_value_bounded(text: Seq<u8>, k: int)
    requires
        0 <= k <= text.len(),
    ensures
        digits_value(text.take(k)) <= digits_value(text),
    decreases text.len(),
{
    if k == text.len() {
        assert(text.take(k) == text);
    } else {
        prefix_value_bounded(text.drop_last(), k);
        assert(text.drop_last().take(k) == text.take(k));
    }
}

/// Reading back the digits of `n` gives `n`.
pub proof fn digits_round_trip(n: nat)
    ensures
        decimal_digits(n).len() > 0,
        all_digits(decimal_digits(n)),
        digits_value(decimal_digits(n)) == n,
        !has_sign(decimal_digits(n)),
    decreases n,
{
    if n < 10 {
        let d = decimal_digits(n);
        assert(d.drop_last() == Seq::<u8>::empty());
        assert(digits_value(d.drop_last()) == 0);
    } else {
        digits_round_trip(n / 10);
        let d = decimal_digits(n);
        assert(d.drop_last() == decimal_digits(n / 10));
        assert(d[0] == decimal_digits(n / 10)[0]);
    }
}

/// Reads a run of digits. `None` when the text is empty, holds anything but
/// digits, or denotes more than 64 bits hold.
fn parse_digits(text: &[u8]) -> (value: Option<u64>)
    ensures
        value == (if text@.len() > 0 && all_digits(text@) && digits_value(text@) <= u64::MAX {
            Some(digits_value(text@) as u64)
        } else {
            None
        }),
{
    if text.len() == 0 {
        return None;
    }
    let mut acc: u64 = 0;
    let mut i: usize = 0;
    while i < text.len()
        invariant
            0 <= i <= text.len(),
            all_digits(text@.take(i as int)),
            acc == digits_value(text@.take(i as int)),
        decreases text.len() - i,
    {
        let byte: u8 = text[i];
        if byte < DIGIT_ZERO || byte > DIGIT_NINE {
            return None;
        }
        let ghost next = text@.take(i + 1);
        proof {
            assert(next.drop_last() == text@.take(i as int));
            assert(next.last() == byte);
            assert forall|j: int| 0 <= j < next.len() implies is_digit(#[trigger] next[j]) by {
                if j < i {
                    assert(next[j] == text@.take(i as int)[j]);
                }
            }
            prefix_value_bounded(text@, i + 1);
        }
        let digit: u64 = (byte - DIGIT_ZERO) as u64;
        let scaled = match acc.checked_mul(10) {
            Some(v) => v,
            None => {
                return None;
            },
        };
        acc = match scaled.checked_add(digit) {
            Some(v) => v,
            None => {
                return None;
            },
        };
        i = i + 1;
    }
    proof {
        assert(text@.take(i as int) == text@);
    }
    Some(acc)
}

/// Reads `[+-]?digit+` as a signed 64-bit integer.
pub fn parse_i64(text: &[u8]) -> (value: Option<i64>)
    ensures
        value == i64_value(text@),
{
    if text.len() == 0 {
        return None;
    }
    let first: u8 = text[0];
    let signed: bool = first == PLUS_SIGN || first == MINUS_SIGN;
    let digits = if signed {
        vstd::slice::slice_subrange(text, 1, text.len())
    } else {
        text
    };
    match parse_digits(digits) {
        None => None,
        Some(magnitude) => {
            if first == MINUS_SIGN {
                if magnitude <= 0x7fff_ffff_ffff_ffff {
                    Some(-(magnitude as i64))
                } else if magnitude == 0x8000_0000_0000_0000 {
                    Some(i64::MIN)
                } else {
                    None
                }
            } else if magnitude <= 0x7fff_ffff_ffff_ffff {
                Some(magnitude as i64)
            } else {
                None
            }
        },
    }
}

/// Reads `[+-]?digit+` as a signed machine word.
pub fn parse_isize(text: &[u8]) -> (value: Option<isize>)
    ensures
        value == isize_value(text@),
{
    match parse_i64(text) {
        None => None,
        Some(v) => {
            if isize::MIN as i64 <= v && v <= isize::MAX as i64 {
                Some(v as isize)
            } else {
                None
            }
        },
    }
}

/// Reads `+?digit+` as an unsigned machine word.
pub fn parse_usize(text: &[u8]) -> (value: Option<usize>)
    ensures
        value == usize_value(text@),
{
    if text.len() == 0 || text[0] == MINUS_SIGN {
        return None;
    }
    let digits = if text[0] == PLUS_SIGN {
        vstd::slice::slice_subrange(text, 1, text.len())
    } else {
        text
    };
    match parse_digits(digits) {
        None => None,
        Some(magnitude) => {
            if magnitude <= usize::MAX as u64 {
                Some(magnitude as usize)
            } else {
                None
            }
        },
    }
}

/// Appends the digits of `n`.
pub fn push_decimal(out: &mut Vec<u8>, n: u64)
    ensures
        final(out)@ == old(out)@ + decimal_digits(n as nat),
    decreases n,
{
    if n >= 10 {
        push_decimal(out, n / 10);
    }
    out.push(DIGIT_ZERO + (n % 10) as u8);
}

} // verus!
