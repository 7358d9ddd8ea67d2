//! Text payloads. Frames carry text as `String`; on the wire it is UTF-8.

use vstd::prelude::*;
use vstd::utf8::*;

verus! {

/// What lossy decoding makes of bytes that are not valid UTF-8: the text with
/// each invalid sequence replaced by U+FFFD.
pub uninterp spec fn utf8_lossy(bytes: Seq<u8>) -> Seq<char>;

/// The text that a run of wire bytes stands for.
pub open spec fn text_of(bytes: Seq<u8>) -> Seq<char> {
    if valid_utf8(bytes) {
        decode_utf8(bytes)
    } else {
        utf8_lossy(bytes)
    }
}

/// `String::from_utf8_lossy`. Believed, not proved: on valid UTF-8 the result
/// is the text those bytes encode; otherwise it is a function of the bytes
/// alone.
#[verifier::external_body]
pub(crate) fn lossy_text(bytes: &[u8]) -> (text: String)
    ensures
        valid_utf8(bytes@) ==> text@ == decode_utf8(bytes@),
        !valid_utf8(bytes@) ==> text@ == utf8_lossy(bytes@),
{
    String::from_utf8_lossy(bytes).into_owned()
}

/// Any text comes back from its own UTF-8 bytes.
pub proof fn text_of_encoded(text: Seq<char>)
    ensures
        text_of(encode_utf8(text)) == text,
{
    encode_utf8_valid_utf8(text);
    encode_utf8_decode_utf8(text);
}

/// The UTF-8 bytes of a text with one more character are the bytes of the
/// text and then those of the character.
pub proof fn encoded_push(text: Seq<char>, last: char)
    ensures
        encode_utf8(text.push(last)) == encode_utf8(text) + encode_scalar(last as u32),
    decreases text.len(),
{
    let longer = text.push(last);
    if text.len() == 0 {
        assert(longer.drop_first() =~= Seq::<char>::empty());
        assert(encode_utf8(Seq::<char>::empty()) =~= Seq::<u8>::empty());
        assert(encode_utf8(text) =~= Seq::<u8>::empty());
        assert(longer[0] == last);
        assert(encode_utf8(longer) =~= encode_scalar(last as u32));
        assert(encode_utf8(text) + encode_scalar(last as u32) =~= encode_scalar(last as u32));
    } else {
        encoded_push(text.drop_first(), last);
        assert(longer.drop_first() =~= text.drop_first().push(last));
        assert(longer[0] == text[0]);
        assert(encode_utf8(longer) =~= encode_utf8(text) + encode_scalar(last as u32));
    }
}

/// The UTF-8 bytes of a text with a plus sign behind it are the bytes of the
/// text and the byte of the sign.
pub proof fn encoded_with_plus(text: Seq<char>)
    ensures
        encode_utf8(text.push('+')) == encode_utf8(text).push(43u8),
        text_of(encode_utf8(text).push(43u8)) == text.push('+'),
{
    encoded_push(text, '+');
    assert('+' as u32 == 43u32);
    assert(43u32 & 0x7F == 43u32) by (bit_vector);
    assert(encode_scalar(43u32) =~= seq![43u8]);
    assert(encode_utf8(text) + seq![43u8] =~= encode_utf8(text).push(43u8));
    text_of_encoded(text.push('+'));
}

} // verus!
