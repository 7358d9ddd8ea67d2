//! What holds of encoding and decoding together.

use crate::decimal::MINUS_SIGN;
use crate::decimal::PLUS_SIGN;
use crate::decimal::decimal_digits;
use crate::decimal::digits_round_trip;
use crate::decimal::has_sign;
use crate::decimal::i64_value;
use crate::decimal::isize_value;
use crate::decimal::magnitude_text;
use crate::decimal::signed_value;
use crate::decimal::usize_value;
use crate::decode::any_frame;
use crate::decode::array_frame;
use crate::decode::bulk_frame;
use crate::decode::counted_frames;
use crate::decode::elements_frames;
use crate::decode::elements_step;
use crate::decode::entries_frames;
use crate::decode::entries_step;
use crate::decode::map_frame;
use crate::decode::rest_of;
use crate::decode::set_frame;
use crate::decode::text_frame;
use crate::encode::bool_wire;
use crate::encode::bulk_wire;
use crate::encode::count_header;
use crate::encode::crlf;
use crate::encode::double_wire;
use crate::encode::entries_wire_upto;
use crate::encode::integer_wire;
use crate::encode::magnitude;
use crate::encode::null_header;
use crate::encode::null_wire;
use crate::encode::simple_error_wire;
use crate::encode::simple_string_wire;
use crate::encode::wire;
use crate::encode::wire_upto;
use crate::error::Fault;
use crate::fragments::falls_short;
use crate::fragments::frame_waits;
use crate::fragments::span_waits;
use crate::frame::FrameView;
use crate::frame::TAG_ARRAY;
use crate::frame::TAG_BULK_STRING;
use crate::frame::TAG_DOUBLE;
use crate::frame::TAG_INTEGER;
use crate::frame::TAG_MAP;
use crate::frame::TAG_SET;
use crate::frame::TAG_SIMPLE_ERROR;
use crate::frame::TAG_SIMPLE_STRING;
use crate::map::put;
use crate::lines::count_header_reads;
use crate::lines::digits_are_line_safe;
use crate::lines::line;
use crate::lines::line_end;
use crate::lines::line_safe;
use crate::lines::null_header_reads;
use crate::scan::length_field;
use crate::scan::nullable_length_field;
use crate::scan::simple_frame_end;
use crate::span::array_span;
use crate::span::bulk_span;
use crate::span::counted_span;
use crate::span::elements_span;
use crate::span::entry_span;
use crate::span::frame_span;
use crate::span::simple_span;
use crate::span::total_span;
use crate::text::text_of;
use crate::text::text_of_encoded;
use vstd::prelude::*;
use vstd::utf8::*;

verus! {

/// What decoding and lookahead make of `wire` followed by `rest`, when they
/// give `frame` back and stop right behind `wire`.
pub open spec fn gives_back(frame: FrameView, encoded: Seq<u8>, rest: Seq<u8>) -> bool {
    &&& any_frame(encoded + rest) == Ok::<(FrameView, nat), Fault>((frame, encoded.len()))
    &&& frame_span(encoded + rest) == Ok::<nat, Fault>(encoded.len())
}

/// An integer comes back from its encoding, whatever follows it.
pub proof fn integer_round_trip(value: i64, rest: Seq<u8>)
    ensures
        gives_back(FrameView::Integer(value), integer_wire(value), rest),
{
    reveal(any_frame);
    let sign = if value < 0 {
        MINUS_SIGN
    } else {
        PLUS_SIGN
    };
    let digits = decimal_digits(magnitude(value));
    let body = seq![sign] + digits;
    digits_round_trip(magnitude(value));
    digits_are_line_safe(body);
    line_end(TAG_INTEGER, body, rest);
    assert(integer_wire(value) + rest =~= line(TAG_INTEGER, body, rest));
    assert(integer_wire(value).len() == 1 + body.len() + 2);
    assert(has_sign(body));
    assert(magnitude_text(body) =~= digits);
    assert(i64_value(body) == Some(value));
}

/// A boolean comes back from its encoding, whatever follows it.
pub proof fn bool_round_trip(value: bool, rest: Seq<u8>)
    ensures
        gives_back(FrameView::Bool(value), bool_wire(value), rest),
{
    reveal(any_frame);
    let buf = bool_wire(value) + rest;
    assert(buf.subrange(0, 4) =~= bool_wire(value));
    assert(bool_wire(true)[1] != bool_wire(false)[1]);
    if !value {
        assert(buf.subrange(0, 4)[1] != bool_wire(true)[1]);
    }
}

/// The scalar null comes back from its encoding, whatever follows it.
pub proof fn null_round_trip(rest: Seq<u8>)
    ensures
        gives_back(FrameView::Null, null_wire(), rest),
{
    reveal(any_frame);
    let buf = null_wire() + rest;
    assert(buf.subrange(0, 3) =~= null_wire());
}

/// A simple error whose text holds no line end comes back from its
/// encoding, whatever follows it.
pub proof fn simple_error_round_trip(text: Seq<char>, rest: Seq<u8>)
    requires
        line_safe(encode_utf8(text)),
    ensures
        gives_back(FrameView::SimpleError(text), simple_error_wire(text), rest),
{
    reveal(any_frame);
    let body = encode_utf8(text);
    line_end(TAG_SIMPLE_ERROR, body, rest);
    assert(simple_error_wire(text) + rest =~= line(TAG_SIMPLE_ERROR, body, rest));
    text_of_encoded(text);
}

/// A double whose text holds no line end comes back from its encoding,
/// whatever follows it.
pub proof fn double_round_trip(text: Seq<u8>, rest: Seq<u8>)
    requires
        line_safe(text),
    ensures
        gives_back(FrameView::Double(text), double_wire(text), rest),
{
    reveal(any_frame);
    line_end(TAG_DOUBLE, text, rest);
    assert(double_wire(text) + rest =~= line(TAG_DOUBLE, text, rest));
}

/// What the bulk-string decoder and its lookahead make of an encoded bulk
/// string that is not null.
proof fn bulk_reads(data: Seq<u8>, rest: Seq<u8>)
    requires
        bulk_wire(data, false).len() <= isize::MAX,
    ensures
        bulk_frame(bulk_wire(data, false) + rest) == Ok::<((Seq<u8>, bool), nat), Fault>(
            ((data, false), bulk_wire(data, false).len()),
        ),
        bulk_span(bulk_wire(data, false) + rest) == Ok::<nat, Fault>(
            bulk_wire(data, false).len(),
        ),
        (bulk_wire(data, false) + rest)[0] == TAG_BULK_STRING,
{
    let behind = data + crlf() + rest;
    let buf = bulk_wire(data, false) + rest;
    let digits = decimal_digits(data.len());
    let end: int = 1 + digits.len() as int;
    count_header_reads(TAG_BULK_STRING, data.len(), behind);
    assert(buf =~= count_header(TAG_BULK_STRING, data.len()) + behind);
    assert(bulk_wire(data, false).len() == end + 2 + data.len() + 2);
    assert(buf.len() == end + 2 + data.len() + 2 + rest.len());
    assert(isize_value(digits) == Some(data.len() as isize));
    assert(nullable_length_field(buf, TAG_BULK_STRING) == Ok::<(nat, int), Fault>(
        (end as nat, data.len() as int),
    ));
    assert(buf.subrange(end + 2, end + 2 + data.len()) =~= data);
}

/// A bulk string comes back from its encoding, whatever follows it. The
/// null bulk string comes back without bytes.
pub proof fn bulk_round_trip(data: Seq<u8>, null: bool, rest: Seq<u8>)
    requires
        if null {
            data.len() == 0
        } else {
            bulk_wire(data, null).len() <= isize::MAX
        },
    ensures
        gives_back(FrameView::BulkString(data, null), bulk_wire(data, null), rest),
{
    if null {
        null_header_reads(TAG_BULK_STRING, rest);
        assert(data =~= Seq::<u8>::empty());
        assert((null_header(TAG_BULK_STRING) + rest)[0] == TAG_BULK_STRING);
        reveal(any_frame);
    } else {
        bulk_reads(data, rest);
        reveal(any_frame);
    }
}

/// Whether a frame comes back from its own encoding. A simple string does
/// not, since its encoding holds a delimiter that decoding takes for text;
/// so neither does a map with an entry, whose keys are encoded as simple
/// strings. Text must hold no line end, a null bulk string or array nothing
/// at all, and what is counted or measured must fit the machine.
#[verifier::opaque]
pub open spec fn restorable(frame: FrameView) -> bool
    decreases frame,
{
    match frame {
        FrameView::SimpleString(_) => false,
        FrameView::SimpleError(text) => line_safe(encode_utf8(text)),
        FrameView::Integer(_) => true,
        FrameView::Double(text) => line_safe(text),
        FrameView::Bool(_) => true,
        FrameView::Null => true,
        FrameView::BulkString(data, null) => if null {
            data.len() == 0
        } else {
            bulk_wire(data, null).len() <= isize::MAX
        },
        FrameView::Array(elements, null) => if null {
            elements.len() == 0
        } else {
            elements.len() <= isize::MAX && forall|i: int|
                0 <= i < elements.len() ==> restorable(#[trigger] elements[i])
        },
        FrameView::Members(elements) => elements.len() <= usize::MAX && forall|i: int|
            0 <= i < elements.len() ==> restorable(#[trigger] elements[i]),
        FrameView::Mapping(entries) => entries.len() == 0,
    }
}

/// The text that a key or a simple string is read back as: its encoding
/// holds a delimiter that decoding takes for text.
pub open spec fn reread_text(text: Seq<char>) -> Seq<char> {
    text_of(encode_utf8(text).push(TAG_SIMPLE_STRING))
}

/// A key or a simple string is read back with a plus sign behind its text.
pub proof fn reread_text_is_marked(text: Seq<char>)
    ensures
        reread_text(text) == text.push('+'),
{
    crate::text::encoded_with_plus(text);
}

/// Whether the encoding of a frame can be read back as a frame at all: text
/// holds no line end, also with the delimiter of a simple string behind it,
/// and what is counted or measured fits the machine.
#[verifier::opaque]
pub open spec fn encodable(frame: FrameView) -> bool
    decreases frame,
{
    match frame {
        FrameView::SimpleString(text) => line_safe(encode_utf8(text).push(TAG_SIMPLE_STRING)),
        FrameView::SimpleError(text) => line_safe(encode_utf8(text)),
        FrameView::Integer(_) => true,
        FrameView::Double(text) => line_safe(text),
        FrameView::Bool(_) => true,
        FrameView::Null => true,
        FrameView::BulkString(data, null) => null || bulk_wire(data, null).len() <= isize::MAX,
        FrameView::Array(elements, null) => null || (elements.len() <= isize::MAX && forall|
            i: int,
        |
            0 <= i < elements.len() ==> encodable(#[trigger] elements[i])),
        FrameView::Members(elements) => elements.len() <= usize::MAX && forall|i: int|
            0 <= i < elements.len() ==> encodable(#[trigger] elements[i]),
        FrameView::Mapping(entries) => entries.len() <= usize::MAX && forall|i: int|
            0 <= i < entries.len() ==> line_safe(
                encode_utf8((#[trigger] entries[i]).0).push(TAG_SIMPLE_STRING),
            ) && encodable(entries[i].1),
    }
}

/// The frame that the encoding of `frame` is read back as. It is `frame`
/// itself but for three things: a simple string and a map's key come back
/// with the delimiter behind their text, a map's entries are set anew in
/// the order of the changed keys, and what is null comes back empty.
#[verifier::opaque]
pub open spec fn reread(frame: FrameView) -> FrameView
    decreases frame,
{
    match frame {
        FrameView::SimpleString(text) => FrameView::SimpleString(reread_text(text)),
        FrameView::BulkString(data, null) => if null {
            FrameView::BulkString(Seq::empty(), true)
        } else {
            frame
        },
        FrameView::Array(elements, null) => if null {
            FrameView::Array(Seq::empty(), true)
        } else {
            FrameView::Array(reread_upto(elements, elements.len()), false)
        },
        FrameView::Members(elements) => FrameView::Members(
            reread_upto(elements, elements.len()),
        ),
        FrameView::Mapping(entries) => FrameView::Mapping(
            reread_entries_upto(entries, entries.len()),
        ),
        _ => frame,
    }
}

/// The first `n` of a run of frames as they are read back.
pub open spec fn reread_upto(elements: Seq<FrameView>, n: nat) -> Seq<FrameView>
    decreases elements, n,
{
    if n == 0 || n > elements.len() {
        Seq::empty()
    } else {
        reread_upto(elements, (n - 1) as nat).push(reread(elements[n - 1]))
    }
}

/// The first `n` entries of a map as they are read back, each set in turn.
pub open spec fn reread_entries_upto(entries: Seq<(Seq<char>, FrameView)>, n: nat) -> Seq<
    (Seq<char>, FrameView),
>
    decreases entries, n,
{
    if n == 0 || n > entries.len() {
        Seq::empty()
    } else {
        put(
            reread_entries_upto(entries, (n - 1) as nat),
            reread_text(entries[n - 1].0),
            reread(entries[n - 1].1),
        )
    }
}

/// The entries of a map from place `from` on, on the wire.
pub open spec fn entries_wire_from(entries: Seq<(Seq<char>, FrameView)>, from: nat) -> Seq<u8>
    decreases entries.len() - from,
{
    if from >= entries.len() {
        Seq::empty()
    } else {
        simple_string_wire(entries[from as int].0) + wire(entries[from as int].1)
            + entries_wire_from(entries, from + 1)
    }
}

/// The entries of a map on the wire are its first `k` entries and then the
/// others.
pub proof fn entries_wire_upto_then_from(entries: Seq<(Seq<char>, FrameView)>, k: nat)
    requires
        k <= entries.len(),
    ensures
        entries_wire_upto(entries, entries.len())
            == entries_wire_upto(entries, k) + entries_wire_from(entries, k),
    decreases entries.len() - k,
{
    let upto = entries_wire_upto(entries, k);
    if k == entries.len() {
        assert(entries_wire_from(entries, k) =~= Seq::<u8>::empty());
        assert(upto + entries_wire_from(entries, k) =~= upto);
    } else {
        entries_wire_upto_then_from(entries, k + 1);
        assert(entries_wire_upto(entries, k + 1) == upto
            + simple_string_wire(entries[k as int].0) + wire(entries[k as int].1));
        assert(entries_wire_upto(entries, k + 1) + entries_wire_from(
            entries,
            k + 1,
        ) =~= upto + entries_wire_from(entries, k));
    }
}

/// A simple string is read back with the delimiter behind its text,
/// whatever follows it.
pub proof fn simple_string_reads_back(text: Seq<char>, rest: Seq<u8>)
    requires
        line_safe(encode_utf8(text).push(TAG_SIMPLE_STRING)),
    ensures
        gives_back(
            FrameView::SimpleString(reread_text(text)),
            simple_string_wire(text),
            rest,
        ),
        text_frame(simple_string_wire(text) + rest, TAG_SIMPLE_STRING) == Ok::<
            (Seq<char>, nat),
            Fault,
        >((reread_text(text), simple_string_wire(text).len())),
        simple_span(simple_string_wire(text) + rest, TAG_SIMPLE_STRING) == Ok::<
            nat,
            Fault,
        >(simple_string_wire(text).len()),
{
    reveal(any_frame);
    let body = encode_utf8(text).push(TAG_SIMPLE_STRING);
    line_end(TAG_SIMPLE_STRING, body, rest);
    assert(simple_string_wire(text) + rest =~= line(TAG_SIMPLE_STRING, body, rest));
}

/// The frames of `elements` from place `from` on, on the wire.
pub open spec fn wire_from(elements: Seq<FrameView>, from: nat) -> Seq<u8>
    decreases elements.len() - from,
{
    if from >= elements.len() {
        Seq::empty()
    } else {
        wire(elements[from as int]) + wire_from(elements, from + 1)
    }
}

/// A run of frames on the wire is its first `k` frames and then the others.
pub proof fn wire_upto_then_from(elements: Seq<FrameView>, k: nat)
    requires
        k <= elements.len(),
    ensures
        wire_upto(elements, elements.len()) == wire_upto(elements, k) + wire_from(elements, k),
    decreases elements.len() - k,
{
    if k == elements.len() {
        assert(wire_from(elements, k) =~= Seq::<u8>::empty());
        assert(wire_upto(elements, k) + wire_from(elements, k) =~= wire_upto(elements, k));
    } else {
        wire_upto_then_from(elements, k + 1);
        assert(wire_upto(elements, k + 1) == wire_upto(elements, k) + wire(elements[k as int]));
        assert(wire_upto(elements, k + 1) + wire_from(elements, k + 1) =~= wire_upto(elements, k)
            + wire_from(elements, k));
    }
}

/// Encoded frames are read back as a run: lookahead finds their length, and
/// reading adds them in order to what was read before.
pub proof fn elements_round_trip(
    elements: Seq<FrameView>,
    from: nat,
    rest: Seq<u8>,
    done: Seq<FrameView>,
)
    requires
        from <= elements.len(),
        forall|i: int| from <= i < elements.len() ==> encodable(#[trigger] elements[i]),
        done == reread_upto(elements, from),
    ensures
        elements_span(
            wire_from(elements, from) + rest,
            (elements.len() - from) as nat,
            false,
        ) == Ok::<nat, Fault>(wire_from(elements, from).len()),
        elements_frames(wire_from(elements, from) + rest, (elements.len() - from) as nat, done)
            == Ok::<(Seq<FrameView>, nat), Fault>(
            (reread_upto(elements, elements.len()), wire_from(elements, from).len()),
        ),
    decreases elements, elements.len() - from,
{
    let data = wire_from(elements, from) + rest;
    if from == elements.len() {
        assert(wire_from(elements, from) =~= Seq::<u8>::empty());
    } else {
        let first = elements[from as int];
        let tail = wire_from(elements, from + 1) + rest;
        let count = (elements.len() - from) as nat;
        assert(done.push(reread(first)) == reread_upto(elements, from + 1)) by {
            reveal(reread);
        }
        reads_back(first, tail);
        assert(data =~= wire(first) + tail);
        assert(data.skip(wire(first).len() as int) =~= tail);
        assert(rest_of(data, wire(first).len()) == tail);
        elements_round_trip(elements, from + 1, rest, done.push(reread(first)));
        elements_step(data, count, done);
        assert(wire_from(elements, from).len() == wire(first).len() + wire_from(
            elements,
            from + 1,
        ).len());
        assert(entry_span(data, false) == frame_span(data));
    }
}

/// What the array decoder and its lookahead make of an encoded array that
/// is not null.
proof fn counted_reads(elements: Seq<FrameView>, tag: u8, rest: Seq<u8>)
    requires
        tag == TAG_ARRAY || tag == TAG_SET,
        forall|i: int| 0 <= i < elements.len() ==> encodable(#[trigger] elements[i]),
    ensures
        ({
            let encoded = count_header(tag, elements.len()) + wire_upto(elements, elements.len());
            let end = (1 + decimal_digits(elements.len()).len()) as nat;
            &&& simple_frame_end(encoded + rest, tag) == Ok::<nat, Fault>(end)
            &&& (encoded + rest).subrange(1, end as int) == decimal_digits(elements.len())
            &&& signed_value(decimal_digits(elements.len())) == Some(elements.len() as int)
            &&& !has_sign(decimal_digits(elements.len()))
            &&& (encoded + rest)[0] == tag
            &&& total_span(encoded + rest, end, elements.len(), tag) == Ok::<nat, Fault>(
                encoded.len(),
            )
            &&& counted_frames(encoded + rest, end, elements.len(), tag) == Ok::<
                (Seq<FrameView>, nat),
                Fault,
            >((reread_upto(elements, elements.len()), encoded.len()))
        }),
    decreases elements, elements.len() + 1,
{
    let body = wire_upto(elements, elements.len());
    let encoded = count_header(tag, elements.len()) + body;
    let buf = encoded + rest;
    let end: int = 1 + decimal_digits(elements.len()).len() as int;
    count_header_reads(tag, elements.len(), body + rest);
    digits_round_trip(elements.len());
    assert(buf =~= count_header(tag, elements.len()) + (body + rest));
    wire_upto_then_from(elements, 0);
    assert(wire_upto(elements, 0) =~= Seq::<u8>::empty());
    assert(body =~= wire_from(elements, 0));
    assert(reread_upto(elements, 0) =~= Seq::<FrameView>::empty()) by {
        reveal(reread);
    }
    elements_round_trip(elements, 0, rest, Seq::empty());
    assert(buf.skip(end + 2) == body + rest);
    assert(encoded.len() == end + 2 + body.len());
    assert(buf.len() == encoded.len() + rest.len());
}

/// What the array decoder and its lookahead make of an encoded array that
/// is not null.
proof fn array_reads(elements: Seq<FrameView>, rest: Seq<u8>)
    requires
        elements.len() <= isize::MAX,
        forall|i: int| 0 <= i < elements.len() ==> encodable(#[trigger] elements[i]),
    ensures
        ({
            let encoded = count_header(TAG_ARRAY, elements.len()) + wire_upto(
                elements,
                elements.len(),
            );
            &&& array_frame(encoded + rest) == Ok::<((Seq<FrameView>, bool), nat), Fault>(
                ((reread_upto(elements, elements.len()), false), encoded.len()),
            )
            &&& array_span(encoded + rest) == Ok::<nat, Fault>(encoded.len())
            &&& (encoded + rest).len() > 0
            &&& (encoded + rest)[0] == TAG_ARRAY
        }),
    decreases elements, elements.len() + 2,
{
    counted_reads(elements, TAG_ARRAY, rest);
    let encoded = count_header(TAG_ARRAY, elements.len()) + wire_upto(elements, elements.len());
    let buf = encoded + rest;
    let digits = decimal_digits(elements.len());
    let end = (1 + digits.len()) as nat;
    assert(isize_value(digits) == Some(elements.len() as isize));
    assert(nullable_length_field(buf, TAG_ARRAY) == Ok::<(nat, int), Fault>(
        (end, elements.len() as int),
    ));
}

/// What the array decoder and its lookahead make of the encoded null array.
proof fn null_array_reads(rest: Seq<u8>)
    ensures
        array_frame(null_header(TAG_ARRAY) + rest) == Ok::<((Seq<FrameView>, bool), nat), Fault>(
            ((Seq::empty(), true), 5),
        ),
        array_span(null_header(TAG_ARRAY) + rest) == Ok::<nat, Fault>(5),
        (null_header(TAG_ARRAY) + rest)[0] == TAG_ARRAY,
{
    null_header_reads(TAG_ARRAY, rest);
}

/// What the set decoder and its lookahead make of an encoded set.
proof fn set_reads(elements: Seq<FrameView>, rest: Seq<u8>)
    requires
        elements.len() <= usize::MAX,
        forall|i: int| 0 <= i < elements.len() ==> encodable(#[trigger] elements[i]),
    ensures
        ({
            let encoded = wire(FrameView::Members(elements));
            &&& set_frame(encoded + rest) == Ok::<(Seq<FrameView>, nat), Fault>(
                (reread_upto(elements, elements.len()), encoded.len()),
            )
            &&& counted_span(encoded + rest, TAG_SET) == Ok::<nat, Fault>(encoded.len())
            &&& (encoded + rest).len() > 0
            &&& (encoded + rest)[0] == TAG_SET
        }),
    decreases elements, elements.len() + 2,
{
    counted_reads(elements, TAG_SET, rest);
    let digits = decimal_digits(elements.len());
    assert(usize_value(digits) == Some(elements.len() as usize));
}

/// What reading and lookahead make of one encoded entry in front of
/// `tail`, given what they make of its frame: they go on behind the entry.
#[verifier::rlimit(30)]
proof fn entry_reads(
    key: Seq<char>,
    value: FrameView,
    tail: Seq<u8>,
    count: nat,
    done: Seq<(Seq<char>, FrameView)>,
)
    requires
        count > 0,
        line_safe(encode_utf8(key).push(TAG_SIMPLE_STRING)),
        gives_back(reread(value), wire(value), tail),
    ensures
        ({
            let data = simple_string_wire(key) + wire(value) + tail;
            let used = simple_string_wire(key).len() + wire(value).len();
            &&& elements_span(data, count, true) == (match elements_span(
                tail,
                (count - 1) as nat,
                true,
            ) {
                Ok(more) => Ok::<nat, Fault>(used + more),
                Err(fault) => Err(fault),
            })
            &&& entries_frames(data, count, done) == (match entries_frames(
                tail,
                (count - 1) as nat,
                put(done, reread_text(key), reread(value)),
            ) {
                Ok((all, more)) => Ok::<(Seq<(Seq<char>, FrameView)>, nat), Fault>(
                    (all, used + more),
                ),
                Err(fault) => Err(fault),
            })
        }),
{
    let key_wire = simple_string_wire(key);
    let value_wire = wire(value);
    let data = key_wire + value_wire + tail;
    simple_string_reads_back(key, value_wire + tail);
    assert(data =~= key_wire + (value_wire + tail));
    assert(data.skip(key_wire.len() as int) =~= value_wire + tail);
    assert(rest_of(data, key_wire.len()) == value_wire + tail);
    assert((value_wire + tail).skip(value_wire.len() as int) =~= tail);
    assert(rest_of(value_wire + tail, value_wire.len()) == tail);
    assert(data.skip((key_wire.len() + value_wire.len()) as int) =~= tail);
    entries_step(data, count, done);
    assert(entry_span(data, true) == Ok::<nat, Fault>(key_wire.len() + value_wire.len()));
}

/// Encoded entries are read back as a run: lookahead finds their length,
/// and reading sets each in turn in what was read before.
proof fn entries_read_back(
    entries: Seq<(Seq<char>, FrameView)>,
    from: nat,
    rest: Seq<u8>,
    done: Seq<(Seq<char>, FrameView)>,
)
    requires
        from <= entries.len(),
        forall|i: int|
            from <= i < entries.len() ==> line_safe(
                encode_utf8((#[trigger] entries[i]).0).push(TAG_SIMPLE_STRING),
            ) && encodable(entries[i].1),
        done == reread_entries_upto(entries, from),
    ensures
        elements_span(
            entries_wire_from(entries, from) + rest,
            (entries.len() - from) as nat,
            true,
        ) == Ok::<nat, Fault>(entries_wire_from(entries, from).len()),
        entries_frames(
            entries_wire_from(entries, from) + rest,
            (entries.len() - from) as nat,
            done,
        ) == Ok::<(Seq<(Seq<char>, FrameView)>, nat), Fault>(
            (reread_entries_upto(entries, entries.len()), entries_wire_from(entries, from).len()),
        ),
    decreases entries, entries.len() - from,
{
    let data = entries_wire_from(entries, from) + rest;
    if from == entries.len() {
        assert(entries_wire_from(entries, from) =~= Seq::<u8>::empty());
    } else {
        let key = entries[from as int].0;
        let value = entries[from as int].1;
        let key_wire = simple_string_wire(key);
        let value_wire = wire(value);
        let tail = entries_wire_from(entries, from + 1) + rest;
        let count = (entries.len() - from) as nat;
        let next = put(done, reread_text(key), reread(value));
        assert(entries[from as int] == (key, value));
        assert(next == reread_entries_upto(entries, from + 1)) by {
            reveal(reread);
        }
        reads_back(value, tail);
        entry_reads(key, value, tail, count, done);
        entries_read_back(entries, from + 1, rest, next);
        assert(data =~= key_wire + value_wire + tail);
        assert(entries_wire_from(entries, from).len() == key_wire.len() + value_wire.len()
            + entries_wire_from(entries, from + 1).len());
    }
}

/// What the header, the lookahead and the reading make of an encoded map.
proof fn keyed_reads(entries: Seq<(Seq<char>, FrameView)>, rest: Seq<u8>)
    requires
        forall|i: int|
            0 <= i < entries.len() ==> line_safe(
                encode_utf8((#[trigger] entries[i]).0).push(TAG_SIMPLE_STRING),
            ) && encodable(entries[i].1),
    ensures
        ({
            let encoded = count_header(TAG_MAP, entries.len()) + entries_wire_upto(
                entries,
                entries.len(),
            );
            let end = (1 + decimal_digits(entries.len()).len()) as nat;
            &&& simple_frame_end(encoded + rest, TAG_MAP) == Ok::<nat, Fault>(end)
            &&& (encoded + rest).subrange(1, end as int) == decimal_digits(entries.len())
            &&& signed_value(decimal_digits(entries.len())) == Some(entries.len() as int)
            &&& !has_sign(decimal_digits(entries.len()))
            &&& (encoded + rest)[0] == TAG_MAP
            &&& end + 2 <= encoded.len() <= (encoded + rest).len()
            &&& total_span(encoded + rest, end, entries.len(), TAG_MAP) == Ok::<nat, Fault>(
                encoded.len(),
            )
            &&& entries_frames(
                (encoded + rest).skip(end + 2 as int),
                entries.len(),
                Seq::empty(),
            ) == Ok::<(Seq<(Seq<char>, FrameView)>, nat), Fault>(
                (
                    reread_entries_upto(entries, entries.len()),
                    (encoded.len() - end - 2) as nat,
                ),
            )
        }),
    decreases entries, entries.len() + 1,
{
    let body = entries_wire_upto(entries, entries.len());
    let encoded = count_header(TAG_MAP, entries.len()) + body;
    let buf = encoded + rest;
    let end: int = 1 + decimal_digits(entries.len()).len() as int;
    count_header_reads(TAG_MAP, entries.len(), body + rest);
    digits_round_trip(entries.len());
    assert(buf =~= count_header(TAG_MAP, entries.len()) + (body + rest));
    entries_wire_upto_then_from(entries, 0);
    assert(entries_wire_upto(entries, 0) =~= Seq::<u8>::empty());
    assert(body =~= entries_wire_from(entries, 0));
    assert(reread_entries_upto(entries, 0) =~= Seq::<(Seq<char>, FrameView)>::empty()) by {
        reveal(reread);
    }
    entries_read_back(entries, 0, rest, Seq::empty());
    assert(buf.skip(end + 2) == body + rest);
    assert(encoded.len() == end + 2 + body.len());
    assert(buf.len() == encoded.len() + rest.len());
}

/// What the map decoder and its lookahead make of an encoded map.
proof fn map_reads(entries: Seq<(Seq<char>, FrameView)>, rest: Seq<u8>)
    requires
        entries.len() <= usize::MAX,
        forall|i: int|
            0 <= i < entries.len() ==> line_safe(
                encode_utf8((#[trigger] entries[i]).0).push(TAG_SIMPLE_STRING),
            ) && encodable(entries[i].1),
    ensures
        ({
            let encoded = count_header(TAG_MAP, entries.len()) + entries_wire_upto(
                entries,
                entries.len(),
            );
            &&& map_frame(encoded + rest) == Ok::<(Seq<(Seq<char>, FrameView)>, nat), Fault>(
                (reread_entries_upto(entries, entries.len()), encoded.len()),
            )
            &&& counted_span(encoded + rest, TAG_MAP) == Ok::<nat, Fault>(encoded.len())
            &&& (encoded + rest).len() > 0
            &&& (encoded + rest)[0] == TAG_MAP
        }),
    decreases entries, entries.len() + 2,
{
    keyed_reads(entries, rest);
    let encoded = count_header(TAG_MAP, entries.len()) + entries_wire_upto(
        entries,
        entries.len(),
    );
    let buf = encoded + rest;
    let digits = decimal_digits(entries.len());
    let end = (1 + digits.len()) as nat;
    assert(usize_value(digits) == Some(entries.len() as usize));
    assert(length_field(buf, TAG_MAP) == Ok::<(nat, nat), Fault>((end, entries.len())));
}

/// An encoded array is read back, whatever follows it.
proof fn array_reads_back(elements: Seq<FrameView>, null: bool, rest: Seq<u8>)
    requires
        null || (elements.len() <= isize::MAX && forall|i: int|
            0 <= i < elements.len() ==> encodable(#[trigger] elements[i])),
    ensures
        gives_back(
            reread(FrameView::Array(elements, null)),
            wire(FrameView::Array(elements, null)),
            rest,
        ),
    decreases elements, elements.len() + 3,
{
    reveal(reread);
    if null {
        null_array_reads(rest);
    } else {
        array_reads(elements, rest);
    }
    reveal(any_frame);
}

/// An encoded set is read back, whatever follows it.
proof fn set_reads_back(elements: Seq<FrameView>, rest: Seq<u8>)
    requires
        elements.len() <= usize::MAX,
        forall|i: int| 0 <= i < elements.len() ==> encodable(#[trigger] elements[i]),
    ensures
        gives_back(
            reread(FrameView::Members(elements)),
            wire(FrameView::Members(elements)),
            rest,
        ),
    decreases elements, elements.len() + 3,
{
    reveal(reread);
    set_reads(elements, rest);
    reveal(any_frame);
}

/// An encoded map is read back, whatever follows it.
proof fn map_reads_back(entries: Seq<(Seq<char>, FrameView)>, rest: Seq<u8>)
    requires
        entries.len() <= usize::MAX,
        forall|i: int|
            0 <= i < entries.len() ==> line_safe(
                encode_utf8((#[trigger] entries[i]).0).push(TAG_SIMPLE_STRING),
            ) && encodable(entries[i].1),
    ensures
        gives_back(
            reread(FrameView::Mapping(entries)),
            wire(FrameView::Mapping(entries)),
            rest,
        ),
    decreases entries, entries.len() + 3,
{
    reveal(reread);
    map_reads(entries, rest);
    reveal(any_frame);
}

/// **Reading back.** The encoding of any encodable frame, whatever follows
/// it, decodes to one frame and stops right behind the encoding, and
/// lookahead finds the same length. The frame that comes out is
/// [`reread`] of the frame that went in, at every depth of nesting.
pub proof fn reads_back(frame: FrameView, rest: Seq<u8>)
    requires
        encodable(frame),
    ensures
        gives_back(reread(frame), wire(frame), rest),
    decreases frame, 0nat,
{
    reveal(encodable);
    reveal(reread);
    match frame {
        FrameView::SimpleString(text) => simple_string_reads_back(text, rest),
        FrameView::SimpleError(text) => simple_error_round_trip(text, rest),
        FrameView::Integer(value) => integer_round_trip(value, rest),
        FrameView::Double(text) => double_round_trip(text, rest),
        FrameView::Bool(value) => bool_round_trip(value, rest),
        FrameView::Null => null_round_trip(rest),
        FrameView::BulkString(data, null) => {
            if null {
                bulk_round_trip(Seq::empty(), true, rest);
            } else {
                bulk_round_trip(data, false, rest);
            }
        },
        FrameView::Array(elements, null) => array_reads_back(elements, null, rest),
        FrameView::Members(elements) => set_reads_back(elements, rest),
        FrameView::Mapping(entries) => map_reads_back(entries, rest),
    }
}

/// A restorable frame is encodable, and is read back as itself.
pub proof fn restorable_is_reread_as_itself(frame: FrameView)
    requires
        restorable(frame),
    ensures
        encodable(frame),
        reread(frame) == frame,
    decreases frame, 0nat,
{
    reveal(restorable);
    reveal(encodable);
    reveal(reread);
    match frame {
        FrameView::BulkString(data, null) => {
            if null {
                assert(data =~= Seq::<u8>::empty());
            }
        },
        FrameView::Array(elements, null) => {
            if null {
                assert(elements =~= Seq::<FrameView>::empty());
            } else {
                restorable_run(elements, elements.len());
                assert(elements.take(elements.len() as int) =~= elements);
            }
        },
        FrameView::Members(elements) => {
            restorable_run(elements, elements.len());
            assert(elements.take(elements.len() as int) =~= elements);
        },
        FrameView::Mapping(entries) => {
            assert(entries =~= Seq::<(Seq<char>, FrameView)>::empty());
        },
        _ => {},
    }
}

/// Restorable frames are encodable, and are read back as they are.
proof fn restorable_run(elements: Seq<FrameView>, n: nat)
    requires
        n <= elements.len(),
        forall|i: int| 0 <= i < elements.len() ==> restorable(#[trigger] elements[i]),
    ensures
        forall|i: int| 0 <= i < elements.len() ==> encodable(#[trigger] elements[i]),
        reread_upto(elements, n) == elements.take(n as int),
    decreases elements, n + 1,
{
    assert forall|i: int| 0 <= i < elements.len() implies encodable(#[trigger] elements[i]) by {
        restorable_is_reread_as_itself(elements[i]);
    }
    if n == 0 {
        assert(elements.take(0) =~= Seq::<FrameView>::empty());
        assert(reread_upto(elements, 0) =~= Seq::<FrameView>::empty()) by {
            reveal(reread);
        }
    } else {
        restorable_run(elements, (n - 1) as nat);
        restorable_is_reread_as_itself(elements[n - 1]);
        assert(elements.take(n as int) =~= elements.take(n - 1).push(elements[n - 1]));
        assert(reread_upto(elements, n) == reread_upto(elements, (n - 1) as nat).push(
            reread(elements[n - 1]),
        )) by {
            reveal(reread);
        }
    }
}

/// **Round trip.** A frame that is restorable comes back from its encoding,
/// whatever follows it: decoding gives the frame and stops right behind the
/// encoding, and lookahead finds the same length. This holds at every depth
/// of nesting.
pub proof fn round_trip(frame: FrameView, rest: Seq<u8>)
    requires
        restorable(frame),
    ensures
        gives_back(frame, wire(frame), rest),
{
    restorable_is_reread_as_itself(frame);
    reads_back(frame, rest);
}

/// **Fragmentation.** Cut anywhere before its end, the encoding of a frame
/// is not complete: decoding reports so, and lookahead finds no length
/// within the cut. So while the pieces of a frame arrive, each attempt
/// leaves the buffer waiting, and the attempt that follows the last byte
/// gives what the whole encoding gives, whatever comes behind it.
pub proof fn prefix_waits(frame: FrameView, k: int)
    requires
        encodable(frame),
        wire(frame).len() <= usize::MAX,
        0 <= k < wire(frame).len(),
    ensures
        any_frame(wire(frame).take(k)) == Err::<(FrameView, nat), Fault>(Fault::NotComplete),
        falls_short(frame_span(wire(frame).take(k)), k),
{
    reads_back(frame, Seq::empty());
    assert(wire(frame) + Seq::<u8>::empty() =~= wire(frame));
    frame_waits(wire(frame), k);
    span_waits(wire(frame), k);
}

/// **Null is not empty.** The null bulk string is encoded as `$-1` and a
/// line end, the empty one as `$0` and two line ends; the two encodings
/// differ, and each decodes to the bulk string it came from, so the two stay
/// apart on the way back too.
pub proof fn null_is_not_empty(rest: Seq<u8>)
    ensures
        bulk_wire(Seq::empty(), true) == seq![36u8, 45u8, 49u8, 13u8, 10u8],
        bulk_wire(Seq::empty(), false) == seq![36u8, 48u8, 13u8, 10u8, 13u8, 10u8],
        bulk_wire(Seq::empty(), true) != bulk_wire(Seq::empty(), false),
        FrameView::BulkString(Seq::empty(), true) != FrameView::BulkString(Seq::empty(), false),
        gives_back(
            FrameView::BulkString(Seq::empty(), true),
            bulk_wire(Seq::empty(), true),
            rest,
        ),
        gives_back(
            FrameView::BulkString(Seq::empty(), false),
            bulk_wire(Seq::empty(), false),
            rest,
        ),
{
    let empty = Seq::<u8>::empty();
    assert(bulk_wire(empty, true) =~= seq![36u8, 45u8, 49u8, 13u8, 10u8]);
    assert(decimal_digits(0) =~= seq![48u8]);
    assert(bulk_wire(empty, false) =~= seq![36u8, 48u8, 13u8, 10u8, 13u8, 10u8]);
    assert(bulk_wire(empty, true).len() != bulk_wire(empty, false).len());
    bulk_round_trip(empty, true, rest);
    bulk_round_trip(empty, false, rest);
}

} // verus!
