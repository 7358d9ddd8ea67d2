//! What holds of lookahead on any input, whoever encoded it: the span of a
//! frame depends on the frame's bytes alone, and a buffer that is cut inside
//! a frame holds no frame.

use crate::decode::any_frame;
use crate::decode::array_frame;
use crate::decode::bool_frame;
use crate::decode::bulk_frame;
use crate::decode::counted_frames;
use crate::decode::double_frame;
use crate::decode::elements_frames;
use crate::decode::elements_step;
use crate::decode::entries_frames;
use crate::decode::entries_step;
use crate::decode::integer_frame;
use crate::decode::map_frame;
use crate::decode::rest_of;
use crate::decode::set_frame;
use crate::decode::text_frame;
use crate::encode::bool_wire;
use crate::encode::null_wire;
use crate::error::Fault;
use crate::frame::FrameView;
use crate::scan::fixed_frame;
use crate::frame::TAG_ARRAY;
use crate::frame::TAG_BOOL;
use crate::frame::TAG_BULK_STRING;
use crate::frame::TAG_DOUBLE;
use crate::frame::TAG_INTEGER;
use crate::frame::TAG_MAP;
use crate::frame::TAG_NULL;
use crate::frame::TAG_SET;
use crate::frame::TAG_SIMPLE_ERROR;
use crate::frame::TAG_SIMPLE_STRING;
use crate::lines::crlf_found;
use crate::lines::header_prefix_waits;
use crate::scan::crlf_at;
use crate::scan::first_crlf_is_first;
use crate::scan::length_field;
use crate::scan::nullable_length_field;
use crate::scan::simple_frame_end;
use crate::scan::simple_frame_end_bounds;
use crate::span::array_span;
use crate::span::bulk_span;
use crate::span::counted_span;
use crate::span::elements_span;
use crate::span::entry_span;
use crate::span::frame_span;
use crate::span::is_composite;
use crate::span::is_keyed;
use crate::span::simple_span;
use crate::span::total_span;
use vstd::prelude::*;

verus! {

/// Whether `a` and `b` begin with the same `n` bytes.
pub open spec fn same_front(a: Seq<u8>, b: Seq<u8>, n: nat) -> bool {
    n <= a.len() && n <= b.len() && a.take(n as int) == b.take(n as int)
}

/// Whether lookahead finds no whole frame within `k` bytes: it is not
/// complete, or the length it finds reaches beyond them.
pub open spec fn falls_short(found: Result<nat, Fault>, k: int) -> bool {
    found == Err::<nat, Fault>(Fault::NotComplete) || (found is Ok && found->Ok_0 > k)
}

/// Buffers with the same front hold the same byte at each place in it.
pub proof fn same_front_at(a: Seq<u8>, b: Seq<u8>, n: nat, i: int)
    requires
        same_front(a, b, n),
        0 <= i < n,
    ensures
        a[i] == b[i],
{
    assert(a.take(n as int)[i] == b.take(n as int)[i]);
}

/// Buffers with the same front have every shorter front in common.
pub proof fn same_front_less(a: Seq<u8>, b: Seq<u8>, n: nat, m: nat)
    requires
        same_front(a, b, n),
        m <= n,
    ensures
        same_front(a, b, m),
{
    assert forall|i: int| 0 <= i < m implies a.take(m as int)[i] == b.take(m as int)[i] by {
        same_front_at(a, b, n, i);
    }
    assert(a.take(m as int) =~= b.take(m as int));
}

/// Behind the first `h` bytes of a common front, the rest of it is common
/// too.
pub proof fn same_front_skip(a: Seq<u8>, b: Seq<u8>, n: nat, h: nat)
    requires
        same_front(a, b, n),
        h <= n,
    ensures
        same_front(a.skip(h as int), b.skip(h as int), (n - h) as nat),
{
    let x = a.skip(h as int).take(n - h);
    let y = b.skip(h as int).take(n - h);
    assert forall|i: int| 0 <= i < n - h implies x[i] == y[i] by {
        same_front_at(a, b, n, i + h);
    }
    assert(x =~= y);
}

/// A buffer and its first `k` bytes have every front of at most `k` bytes in
/// common.
pub proof fn cut_keeps_front(a: Seq<u8>, k: int, n: nat)
    requires
        n <= k <= a.len(),
    ensures
        same_front(a, a.take(k), n),
        a.take(k).len() == k,
{
    assert(a.take(n as int) =~= a.take(k).take(n as int));
}

/// Cutting and skipping may change places.
pub proof fn cut_then_skip(a: Seq<u8>, k: int, h: nat)
    requires
        h <= k <= a.len(),
    ensures
        a.take(k).skip(h as int) == a.skip(h as int).take(k - h),
{
    assert(a.take(k).skip(h as int) =~= a.skip(h as int).take(k - h));
}

/// The header line of a frame is found the same in any buffer that begins
/// with it.
pub proof fn header_same(a: Seq<u8>, b: Seq<u8>, tag: u8)
    requires
        simple_frame_end(a, tag) is Ok,
        same_front(a, b, simple_frame_end(a, tag)->Ok_0 + 2),
    ensures
        simple_frame_end(b, tag) == simple_frame_end(a, tag),
        b.subrange(1, simple_frame_end(a, tag)->Ok_0 as int) == a.subrange(
            1,
            simple_frame_end(a, tag)->Ok_0 as int,
        ),
        length_field(b, tag) is Ok ==> length_field(b, tag) == length_field(a, tag),
        length_field(a, tag) is Ok ==> length_field(b, tag) == length_field(a, tag),
        nullable_length_field(a, tag) is Ok ==> nullable_length_field(b, tag)
            == nullable_length_field(a, tag),
{
    let end = simple_frame_end(a, tag)->Ok_0;
    simple_frame_end_bounds(a, tag);
    first_crlf_is_first(a, 1);
    same_front_at(a, b, end + 2, 0);
    same_front_at(a, b, end + 2, end as int);
    same_front_at(a, b, end + 2, end + 1 as int);
    assert(crate::scan::nth_crlf(a, 1, 1) == Some(end as int));
    assert forall|k: int| 1 <= k < end implies !crlf_at(b, k) by {
        same_front_at(a, b, end + 2, k);
        same_front_at(a, b, end + 2, k + 1);
        assert(!crlf_at(a, k));
    }
    crlf_found(b, 1, end as int);
    assert forall|i: int| 0 <= i < end - 1 implies b.subrange(1, end as int)[i] == a.subrange(
        1,
        end as int,
    )[i] by {
        same_front_at(a, b, end + 2, i + 1);
    }
    assert(b.subrange(1, end as int) =~= a.subrange(1, end as int));
}

/// **The span of a frame depends on its bytes alone.** Where lookahead finds
/// a whole frame in `a`, it finds the same length in any buffer that begins
/// with the frame's bytes.
pub proof fn span_same(a: Seq<u8>, b: Seq<u8>)
    requires
        frame_span(a) is Ok,
        frame_span(a)->Ok_0 <= a.len(),
        same_front(a, b, frame_span(a)->Ok_0),
    ensures
        frame_span(b) == frame_span(a),
    decreases a.len(), 0nat,
{
    let n = frame_span(a)->Ok_0;
    let tag = a[0];
    same_front_at(a, b, n, 0);
    if tag == TAG_SIMPLE_STRING || tag == TAG_SIMPLE_ERROR || tag == TAG_INTEGER || tag
        == TAG_DOUBLE {
        header_same(a, b, tag);
    } else if tag == TAG_BOOL || tag == TAG_NULL {
    } else if tag == TAG_BULK_STRING {
        let end = simple_frame_end(a, tag)->Ok_0;
        simple_frame_end_bounds(a, tag);
        same_front_less(a, b, n, end + 2);
        header_same(a, b, tag);
    } else if tag == TAG_ARRAY {
        let end = simple_frame_end(a, tag)->Ok_0;
        simple_frame_end_bounds(a, tag);
        same_front_less(a, b, n, end + 2);
        header_same(a, b, tag);
        let length = nullable_length_field(a, tag)->Ok_0.1;
        if length != -1 {
            counted_same(a, b, end, length as nat, tag);
        }
    } else if tag == TAG_SET || tag == TAG_MAP {
        let end = simple_frame_end(a, tag)->Ok_0;
        simple_frame_end_bounds(a, tag);
        same_front_less(a, b, n, end + 2);
        header_same(a, b, tag);
        let count = length_field(a, tag)->Ok_0.1;
        counted_same(a, b, end, count, tag);
    }
}

/// The elements behind a header are found the same in any buffer that
/// begins with the whole frame.
proof fn counted_same(a: Seq<u8>, b: Seq<u8>, end: nat, count: nat, tag: u8)
    requires
        is_composite(tag),
        total_span(a, end, count, tag) is Ok,
        same_front(a, b, total_span(a, end, count, tag)->Ok_0),
    ensures
        total_span(b, end, count, tag) == total_span(a, end, count, tag),
        total_span(a, end, count, tag)->Ok_0 <= a.len(),
    decreases a.len(), 0nat, 0nat,
{
    let n = total_span(a, end, count, tag)->Ok_0;
    let head = end + 2;
    let within = elements_span(a.skip(head as int), count, is_keyed(tag))->Ok_0;
    elements_fit(a.skip(head as int), count, is_keyed(tag));
    same_front_skip(a, b, n, head);
    elements_same(a.skip(head as int), b.skip(head as int), count, is_keyed(tag));
}

/// Elements that lookahead finds lie inside the data.
proof fn elements_fit(data: Seq<u8>, count: nat, keyed: bool)
    requires
        elements_span(data, count, keyed) is Ok,
    ensures
        elements_span(data, count, keyed)->Ok_0 <= data.len(),
    decreases count,
{
    if count > 0 {
        let first = entry_span(data, keyed)->Ok_0;
        elements_fit(data.skip(first as int), (count - 1) as nat, keyed);
    }
}

/// A run of elements is found the same in any data that begins with it.
proof fn elements_same(data: Seq<u8>, other: Seq<u8>, count: nat, keyed: bool)
    requires
        elements_span(data, count, keyed) is Ok,
        same_front(data, other, elements_span(data, count, keyed)->Ok_0),
    ensures
        elements_span(other, count, keyed) == elements_span(data, count, keyed),
    decreases data.len(), 2nat, count,
{
    if count > 0 {
        let all = elements_span(data, count, keyed)->Ok_0;
        let first = entry_span(data, keyed)->Ok_0;
        same_front_less(data, other, all, first);
        entry_same(data, other, keyed);
        same_front_skip(data, other, all, first);
        elements_same(
            data.skip(first as int),
            other.skip(first as int),
            (count - 1) as nat,
            keyed,
        );
    }
}

/// One element is found the same in any data that begins with it.
proof fn entry_same(data: Seq<u8>, other: Seq<u8>, keyed: bool)
    requires
        entry_span(data, keyed) is Ok,
        entry_span(data, keyed)->Ok_0 <= data.len(),
        same_front(data, other, entry_span(data, keyed)->Ok_0),
    ensures
        entry_span(other, keyed) == entry_span(data, keyed),
    decreases data.len(), 1nat,
{
    let first = entry_span(data, keyed)->Ok_0;
    if keyed {
        let key = simple_span(data, TAG_SIMPLE_STRING)->Ok_0;
        same_front_less(data, other, first, key);
        header_same(data, other, TAG_SIMPLE_STRING);
        same_front_skip(data, other, first, key);
        span_same(data.skip(key as int), other.skip(key as int));
    } else {
        span_same(data, other);
    }
}

/// **A cut frame holds no frame.** Where lookahead finds a whole frame in
/// `a`, it finds none in the first `k` bytes of `a` if the frame is longer
/// than that.
pub proof fn span_waits(a: Seq<u8>, k: int)
    requires
        frame_span(a) is Ok,
        frame_span(a)->Ok_0 <= a.len(),
        0 <= k < frame_span(a)->Ok_0,
    ensures
        falls_short(frame_span(a.take(k)), k),
    decreases a.len(), 0nat,
{
    let n = frame_span(a)->Ok_0;
    let cut = a.take(k);
    let tag = a[0];
    if k > 0 {
        assert(cut[0] == tag);
        if tag == TAG_SIMPLE_STRING || tag == TAG_SIMPLE_ERROR || tag == TAG_INTEGER || tag
            == TAG_DOUBLE {
            header_prefix_waits(a, tag, k);
        } else if tag == TAG_BOOL || tag == TAG_NULL {
        } else {
            let end = simple_frame_end(a, tag)->Ok_0;
            simple_frame_end_bounds(a, tag);
            if k < end + 2 {
                header_prefix_waits(a, tag, k);
            } else {
                cut_keeps_front(a, k, end + 2);
                header_same(a, cut, tag);
                if tag == TAG_BULK_STRING {
                } else if tag == TAG_ARRAY {
                    let length = nullable_length_field(a, tag)->Ok_0.1;
                    if length != -1 {
                        counted_waits(a, k, end, length as nat, tag);
                    }
                } else {
                    let count = length_field(a, tag)->Ok_0.1;
                    counted_waits(a, k, end, count, tag);
                }
            }
        }
    }
}

/// The elements behind a header are not complete where the buffer is cut
/// inside them.
proof fn counted_waits(a: Seq<u8>, k: int, end: nat, count: nat, tag: u8)
    requires
        is_composite(tag),
        total_span(a, end, count, tag) is Ok,
        end + 2 <= k < total_span(a, end, count, tag)->Ok_0,
    ensures
        total_span(a.take(k), end, count, tag) == Err::<nat, Fault>(Fault::NotComplete),
    decreases a.len(), 0nat, 0nat,
{
    let head = end + 2;
    elements_fit(a.skip(head as int), count, is_keyed(tag));
    cut_then_skip(a, k, head);
    elements_wait(a.skip(head as int), count, is_keyed(tag), k - head);
}

/// A run of elements is not complete where the data is cut inside it.
proof fn elements_wait(data: Seq<u8>, count: nat, keyed: bool, k: int)
    requires
        elements_span(data, count, keyed) is Ok,
        0 <= k < elements_span(data, count, keyed)->Ok_0,
    ensures
        elements_span(data.take(k), count, keyed) == Err::<nat, Fault>(Fault::NotComplete),
    decreases data.len(), 2nat, count,
{
    let first = entry_span(data, keyed)->Ok_0;
    let cut = data.take(k);
    elements_fit(data, count, keyed);
    if k < first {
        entry_waits(data, keyed, k);
    } else {
        cut_keeps_front(data, k, first);
        entry_same(data, cut, keyed);
        cut_then_skip(data, k, first);
        elements_wait(data.skip(first as int), (count - 1) as nat, keyed, k - first);
    }
}

/// One element falls short where the data is cut inside it.
proof fn entry_waits(data: Seq<u8>, keyed: bool, k: int)
    requires
        entry_span(data, keyed) is Ok,
        entry_span(data, keyed)->Ok_0 <= data.len(),
        0 <= k < entry_span(data, keyed)->Ok_0,
    ensures
        falls_short(entry_span(data.take(k), keyed), k),
    decreases data.len(), 1nat,
{
    let cut = data.take(k);
    if keyed {
        let key = simple_span(data, TAG_SIMPLE_STRING)->Ok_0;
        simple_frame_end_bounds(data, TAG_SIMPLE_STRING);
        if k < key {
            header_prefix_waits(data, TAG_SIMPLE_STRING, k);
        } else {
            cut_keeps_front(data, k, key);
            header_same(data, cut, TAG_SIMPLE_STRING);
            cut_then_skip(data, k, key);
            span_waits(data.skip(key as int), k - key);
        }
    } else {
        span_waits(data, k);
    }
}

/// How many bytes the frame at the front of `a` occupies, where there is
/// one.
pub open spec fn used_by(a: Seq<u8>) -> nat {
    any_frame(a)->Ok_0.1
}

/// **Reading agrees with lookahead.** A frame that is read lies inside the
/// buffer, and lookahead finds the length that reading uses.
#[verifier::rlimit(50)]
#[verifier::spinoff_prover]
pub proof fn frame_fits(a: Seq<u8>)
    requires
        any_frame(a) is Ok,
        a.len() <= usize::MAX,
    ensures
        used_by(a) <= a.len(),
        frame_span(a) == Ok::<nat, Fault>(used_by(a)),
    decreases a.len(), 1nat,
{
    let tag = a[0];
    assert(a.len() > 0) by {
        reveal(any_frame);
    }
    if tag == TAG_SIMPLE_STRING || tag == TAG_SIMPLE_ERROR || tag == TAG_INTEGER || tag
        == TAG_DOUBLE {
        reveal(any_frame);
        simple_frame_end_bounds(a, tag);
    } else if tag == TAG_BOOL || tag == TAG_NULL {
        reveal(any_frame);
    } else if tag == TAG_BULK_STRING {
        assert(bulk_frame(a) is Ok && bulk_frame(a)->Ok_0.1 == used_by(a)) by {
            reveal(any_frame);
        }
        simple_frame_end_bounds(a, tag);
    } else if tag == TAG_ARRAY {
        assert(array_frame(a) is Ok && array_frame(a)->Ok_0.1 == used_by(a)) by {
            reveal(any_frame);
        }
        simple_frame_end_bounds(a, tag);
        let end = simple_frame_end(a, tag)->Ok_0;
        let length = nullable_length_field(a, tag)->Ok_0.1;
        if length != -1 {
            counted_fits(a, end, length as nat, tag);
        }
    } else if tag == TAG_SET {
        assert(set_frame(a) is Ok && set_frame(a)->Ok_0.1 == used_by(a)) by {
            reveal(any_frame);
        }
        let end = simple_frame_end(a, tag)->Ok_0;
        let count = length_field(a, tag)->Ok_0.1;
        counted_fits(a, end, count, tag);
    } else {
        assert(tag == TAG_MAP && map_frame(a) is Ok && map_frame(a)->Ok_0.1 == used_by(a)) by {
            reveal(any_frame);
        }
        let end = simple_frame_end(a, tag)->Ok_0;
        let count = length_field(a, tag)->Ok_0.1;
        keyed_fits(a, end, count);
    }
}

/// The elements that are read behind a header end where lookahead says.
proof fn counted_fits(a: Seq<u8>, end: nat, count: nat, tag: u8)
    requires
        tag == TAG_ARRAY || tag == TAG_SET,
        counted_frames(a, end, count, tag) is Ok,
        a.len() <= usize::MAX,
    ensures
        counted_frames(a, end, count, tag)->Ok_0.1 <= a.len(),
        total_span(a, end, count, tag) == Ok::<nat, Fault>(
            counted_frames(a, end, count, tag)->Ok_0.1,
        ),
    decreases a.len(), 0nat,
{
    let head = end + 2;
    elements_used(a.skip(head as int), count, Seq::empty());
}

/// The entries that are read behind a header end where lookahead says.
proof fn keyed_fits(a: Seq<u8>, end: nat, count: nat)
    requires
        length_field(a, TAG_MAP) == Ok::<(nat, nat), Fault>((end, count)),
        map_frame(a) is Ok,
        a.len() <= usize::MAX,
    ensures
        map_frame(a)->Ok_0.1 <= a.len(),
        total_span(a, end, count, TAG_MAP) == Ok::<nat, Fault>(map_frame(a)->Ok_0.1),
    decreases a.len(), 0nat,
{
    let head = end + 2;
    entries_used(a.skip(head as int), count, Seq::empty());
}

/// A run of frames that is read ends where lookahead says.
proof fn elements_used(data: Seq<u8>, count: nat, done: Seq<FrameView>)
    requires
        elements_frames(data, count, done) is Ok,
        elements_span(data, count, false) is Ok,
        data.len() <= usize::MAX,
    ensures
        elements_span(data, count, false) == Ok::<nat, Fault>(
            elements_frames(data, count, done)->Ok_0.1,
        ),
    decreases data.len(), 2nat, count,
{
    if count > 0 {
        elements_step(data, count, done);
        frame_fits(data);
        let first = any_frame(data)->Ok_0.0;
        let used = used_by(data);
        assert(entry_span(data, false) == frame_span(data));
        assert(rest_of(data, used) == data.skip(used as int));
        elements_used(data.skip(used as int), (count - 1) as nat, done.push(first));
    }
}

/// A run of entries that is read ends where lookahead says.
proof fn entries_used(data: Seq<u8>, count: nat, done: Seq<(Seq<char>, FrameView)>)
    requires
        entries_frames(data, count, done) is Ok,
        elements_span(data, count, true) is Ok,
        data.len() <= usize::MAX,
    ensures
        elements_span(data, count, true) == Ok::<nat, Fault>(
            entries_frames(data, count, done)->Ok_0.1,
        ),
    decreases data.len(), 2nat, count,
{
    if count > 0 {
        entries_step(data, count, done);
        simple_frame_end_bounds(data, TAG_SIMPLE_STRING);
        let key = text_frame(data, TAG_SIMPLE_STRING)->Ok_0.0;
        let key_used = text_frame(data, TAG_SIMPLE_STRING)->Ok_0.1;
        assert(simple_span(data, TAG_SIMPLE_STRING) == Ok::<nat, Fault>(key_used));
        let behind = data.skip(key_used as int);
        assert(rest_of(data, key_used) == behind);
        frame_fits(behind);
        let value = any_frame(behind)->Ok_0.0;
        let value_used = used_by(behind);
        assert(entry_span(data, true) == Ok::<nat, Fault>(key_used + value_used));
        assert(behind.skip(value_used as int) =~= data.skip((key_used + value_used) as int));
        assert(rest_of(behind, value_used) == data.skip((key_used + value_used) as int));
        entries_used(
            data.skip((key_used + value_used) as int),
            (count - 1) as nat,
            crate::map::put(done, key, value),
        );
    }
}

/// **A frame depends on its bytes alone.** Where a frame is read from `a`,
/// the same frame is read, over the same bytes, from any buffer that begins
/// with them.
pub proof fn frame_same(a: Seq<u8>, b: Seq<u8>)
    requires
        any_frame(a) is Ok,
        a.len() <= usize::MAX,
        same_front(a, b, used_by(a)),
    ensures
        any_frame(b) == any_frame(a),
    decreases a.len(), 1nat,
{
    frame_fits(a);
    let n = used_by(a);
    let tag = a[0];
    same_front_at(a, b, n, 0);
    if tag == TAG_SIMPLE_STRING || tag == TAG_SIMPLE_ERROR || tag == TAG_INTEGER || tag
        == TAG_DOUBLE {
        reveal(any_frame);
        header_same(a, b, tag);
    } else if tag == TAG_BOOL {
        reveal(any_frame);
        assert(b.subrange(0, 4) =~= a.subrange(0, 4)) by {
            assert(a.take(4) == b.take(4));
        }
    } else if tag == TAG_NULL {
        reveal(any_frame);
        assert(b.subrange(0, 3) =~= a.subrange(0, 3)) by {
            assert(a.take(3) == b.take(3));
        }
    } else if tag == TAG_BULK_STRING {
        bulk_same(a, b);
        reveal(any_frame);
    } else if tag == TAG_ARRAY {
        reveal(any_frame);
        let end = simple_frame_end(a, tag)->Ok_0;
        simple_frame_end_bounds(a, tag);
        same_front_less(a, b, n, end + 2);
        header_same(a, b, tag);
        let length = nullable_length_field(a, tag)->Ok_0.1;
        if length != -1 {
            counted_frames_same(a, b, end, length as nat, tag);
        }
    } else if tag == TAG_SET {
        reveal(any_frame);
        let end = simple_frame_end(a, tag)->Ok_0;
        simple_frame_end_bounds(a, tag);
        let count = length_field(a, tag)->Ok_0.1;
        counted_fits(a, end, count, tag);
        same_front_less(a, b, n, end + 2);
        header_same(a, b, tag);
        counted_frames_same(a, b, end, count, tag);
    } else {
        reveal(any_frame);
        let end = simple_frame_end(a, tag)->Ok_0;
        simple_frame_end_bounds(a, tag);
        let count = length_field(a, tag)->Ok_0.1;
        keyed_fits(a, end, count);
        same_front_less(a, b, n, end + 2);
        header_same(a, b, tag);
        keyed_frames_same(a, b, end, count);
    }
}

/// A bulk string is read the same from any buffer that begins with it.
proof fn bulk_same(a: Seq<u8>, b: Seq<u8>)
    requires
        bulk_frame(a) is Ok,
        same_front(a, b, bulk_frame(a)->Ok_0.1),
    ensures
        bulk_frame(b) == bulk_frame(a),
{
    let n = bulk_frame(a)->Ok_0.1;
    let end = simple_frame_end(a, TAG_BULK_STRING)->Ok_0;
    simple_frame_end_bounds(a, TAG_BULK_STRING);
    same_front_less(a, b, n, end + 2);
    header_same(a, b, TAG_BULK_STRING);
    let length = nullable_length_field(a, TAG_BULK_STRING)->Ok_0.1;
    if length != -1 {
        let from = end + 2;
        let x = a.subrange(from as int, from + length);
        let y = b.subrange(from as int, from + length);
        assert forall|i: int| 0 <= i < length implies x[i] == y[i] by {
            same_front_at(a, b, n, from + i);
        }
        assert(x =~= y);
    }
}

/// The elements behind a header are read the same from any buffer that
/// begins with the whole frame.
#[verifier::rlimit(50)]
#[verifier::spinoff_prover]
proof fn counted_frames_same(a: Seq<u8>, b: Seq<u8>, end: nat, count: nat, tag: u8)
    requires
        tag == TAG_ARRAY || tag == TAG_SET,
        counted_frames(a, end, count, tag) is Ok,
        a.len() <= usize::MAX,
        same_front(a, b, counted_frames(a, end, count, tag)->Ok_0.1),
    ensures
        counted_frames(b, end, count, tag) == counted_frames(a, end, count, tag),
    decreases a.len(), 0nat,
{
    let n = counted_frames(a, end, count, tag)->Ok_0.1;
    let head = end + 2;
    counted_fits(a, end, count, tag);
    counted_same(a, b, end, count, tag);
    same_front_skip(a, b, n, head);
    elements_frames_same(a.skip(head as int), b.skip(head as int), count, Seq::empty());
}

/// The entries behind a header are read the same from any buffer that
/// begins with the whole frame.
proof fn keyed_frames_same(a: Seq<u8>, b: Seq<u8>, end: nat, count: nat)
    requires
        length_field(a, TAG_MAP) == Ok::<(nat, nat), Fault>((end, count)),
        length_field(b, TAG_MAP) == Ok::<(nat, nat), Fault>((end, count)),
        map_frame(a) is Ok,
        a.len() <= usize::MAX,
        same_front(a, b, map_frame(a)->Ok_0.1),
    ensures
        map_frame(b) == map_frame(a),
    decreases a.len(), 0nat,
{
    let n = map_frame(a)->Ok_0.1;
    let head = end + 2;
    keyed_fits(a, end, count);
    counted_same(a, b, end, count, TAG_MAP);
    same_front_skip(a, b, n, head);
    entries_frames_same(a.skip(head as int), b.skip(head as int), count, Seq::empty());
}

/// A run of frames is read the same from any data that begins with it.
proof fn elements_frames_same(data: Seq<u8>, other: Seq<u8>, count: nat, done: Seq<FrameView>)
    requires
        elements_frames(data, count, done) is Ok,
        data.len() <= usize::MAX,
        same_front(data, other, elements_frames(data, count, done)->Ok_0.1),
    ensures
        elements_frames(other, count, done) == elements_frames(data, count, done),
    decreases data.len(), 2nat, count,
{
    if count > 0 {
        let all = elements_frames(data, count, done)->Ok_0.1;
        elements_step(data, count, done);
        elements_step(other, count, done);
        frame_fits(data);
        let first = any_frame(data)->Ok_0.0;
        let used = used_by(data);
        same_front_less(data, other, all, used);
        frame_same(data, other);
        same_front_skip(data, other, all, used);
        assert(rest_of(data, used) == data.skip(used as int));
        assert(rest_of(other, used) == other.skip(used as int));
        elements_frames_same(
            data.skip(used as int),
            other.skip(used as int),
            (count - 1) as nat,
            done.push(first),
        );
    }
}

/// A run of entries is read the same from any data that begins with it.
proof fn entries_frames_same(
    data: Seq<u8>,
    other: Seq<u8>,
    count: nat,
    done: Seq<(Seq<char>, FrameView)>,
)
    requires
        entries_frames(data, count, done) is Ok,
        data.len() <= usize::MAX,
        same_front(data, other, entries_frames(data, count, done)->Ok_0.1),
    ensures
        entries_frames(other, count, done) == entries_frames(data, count, done),
    decreases data.len(), 2nat, count,
{
    if count > 0 {
        let all = entries_frames(data, count, done)->Ok_0.1;
        entries_step(data, count, done);
        entries_step(other, count, done);
        simple_frame_end_bounds(data, TAG_SIMPLE_STRING);
        let key = text_frame(data, TAG_SIMPLE_STRING)->Ok_0.0;
        let key_used = text_frame(data, TAG_SIMPLE_STRING)->Ok_0.1;
        same_front_less(data, other, all, key_used);
        header_same(data, other, TAG_SIMPLE_STRING);
        let behind = data.skip(key_used as int);
        let other_behind = other.skip(key_used as int);
        assert(rest_of(data, key_used) == behind);
        assert(rest_of(other, key_used) == other_behind);
        frame_fits(behind);
        let value = any_frame(behind)->Ok_0.0;
        let value_used = used_by(behind);
        same_front_skip(data, other, all, key_used);
        same_front_less(behind, other_behind, (all - key_used) as nat, value_used);
        frame_same(behind, other_behind);
        same_front_skip(behind, other_behind, (all - key_used) as nat, value_used);
        assert(rest_of(behind, value_used) == behind.skip(value_used as int));
        assert(rest_of(other_behind, value_used) == other_behind.skip(value_used as int));
        entries_frames_same(
            behind.skip(value_used as int),
            other_behind.skip(value_used as int),
            (count - 1) as nat,
            crate::map::put(done, key, value),
        );
    }
}

/// **Fragmentation, for any input.** Where a frame is read from `a`, the
/// first `k` bytes of `a` are not complete if the frame is longer than
/// that: whatever was encoded, and by whom, a buffer that holds only a part
/// of the frame waits.
pub proof fn frame_waits(a: Seq<u8>, k: int)
    requires
        any_frame(a) is Ok,
        a.len() <= usize::MAX,
        0 <= k < used_by(a),
    ensures
        any_frame(a.take(k)) == Err::<(FrameView, nat), Fault>(Fault::NotComplete),
{
    frame_fits(a);
    let n = used_by(a);
    let cut = a.take(k);
    let tag = a[0];
    if k == 0 {
        reveal(any_frame);
    } else {
        assert(cut[0] == tag);
        if tag == TAG_SIMPLE_STRING || tag == TAG_SIMPLE_ERROR || tag == TAG_INTEGER || tag
            == TAG_DOUBLE {
            reveal(any_frame);
            header_prefix_waits(a, tag, k);
        } else if tag == TAG_BOOL || tag == TAG_NULL {
            reveal(any_frame);
        } else {
            reveal(any_frame);
            let end = simple_frame_end(a, tag)->Ok_0;
            simple_frame_end_bounds(a, tag);
            if k < end + 2 {
                header_prefix_waits(a, tag, k);
            } else {
                cut_keeps_front(a, k, end + 2);
                header_same(a, cut, tag);
                if tag == TAG_BULK_STRING {
                } else if tag == TAG_ARRAY {
                    let length = nullable_length_field(a, tag)->Ok_0.1;
                    if length != -1 {
                        counted_fits(a, end, length as nat, tag);
                        counted_waits(a, k, end, length as nat, tag);
                    }
                } else if tag == TAG_SET {
                    let count = length_field(a, tag)->Ok_0.1;
                    counted_fits(a, end, count, tag);
                    counted_waits(a, k, end, count, tag);
                } else {
                    let count = length_field(a, tag)->Ok_0.1;
                    keyed_fits(a, end, count);
                    counted_waits(a, k, end, count, tag);
                }
            }
        }
    }
}

} // verus!
