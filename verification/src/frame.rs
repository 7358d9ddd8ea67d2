//! The frame type model: the closed set of values that a RESP message holds.

use crate::map::RespMap;
use vstd::prelude::*;
use vstd::slice::slice_to_vec;
use vstd::string::*;

verus! {

/// Tag bytes, one per kind of frame.
pub const TAG_SIMPLE_STRING: u8 = 43;

pub const TAG_SIMPLE_ERROR: u8 = 45;

pub const TAG_INTEGER: u8 = 58;

pub const TAG_DOUBLE: u8 = 44;

pub const TAG_BOOL: u8 = 35;

pub const TAG_NULL: u8 = 95;

pub const TAG_BULK_STRING: u8 = 36;

pub const TAG_ARRAY: u8 = 42;

pub const TAG_MAP: u8 = 37;

pub const TAG_SET: u8 = 126;

/// A status reply: text without line breaks.
#[derive(Debug, Clone, PartialEq)]
pub struct SimpleString(pub String);

/// An error reply.
#[derive(Debug, Clone, PartialEq)]
pub struct SimpleError(pub String);

/// The scalar null.
#[derive(Debug, Clone, PartialEq)]
pub struct RespNull;

/// A double, held as the text of the number as it stands on the wire: sign,
/// digits, fraction and exponent, without tag and line end.
#[derive(Debug, Clone, PartialEq)]
pub struct RespDouble(pub Vec<u8>);

/// A byte string and its null flag. A null bulk string is not an empty one.
#[derive(Debug, Clone, PartialEq)]
pub struct BulkString(pub Vec<u8>, pub bool);

/// A sequence of frames and its null flag.
#[derive(Debug, PartialEq)]
pub struct RespArray(pub Vec<RespFrame>, pub bool);

/// A sequence of frames. Nothing keeps an element from occurring twice.
#[derive(Debug, PartialEq)]
pub struct RespSet(pub Vec<RespFrame>);

/// One value on the wire, of whatever kind.
#[derive(Debug, PartialEq)]
pub enum RespFrame {
    SimpleString(SimpleString),
    Null(RespNull),
    Double(RespDouble),
    Array(RespArray),
    Mapping(RespMap),
    BulkString(BulkString),
    SimpleError(SimpleError),
    Bool(bool),
    Integer(i64),
    Members(RespSet),
}

/// What a frame is, as a mathematical value.
pub enum FrameView {
    SimpleString(Seq<char>),
    SimpleError(Seq<char>),
    Integer(i64),
    Double(Seq<u8>),
    Bool(bool),
    Null,
    BulkString(Seq<u8>, bool),
    Array(Seq<FrameView>, bool),
    Mapping(Seq<(Seq<char>, FrameView)>),
    Members(Seq<FrameView>),
}

impl RespFrame {
    /// The value that this frame stands for.
    pub open spec fn view(&self) -> FrameView
        decreases self,
    {
        match self {
            RespFrame::SimpleString(s) => FrameView::SimpleString(s.0@),
            RespFrame::SimpleError(e) => FrameView::SimpleError(e.0@),
            RespFrame::Integer(v) => FrameView::Integer(*v),
            RespFrame::Double(d) => FrameView::Double(d.0@),
            RespFrame::Bool(b) => FrameView::Bool(*b),
            RespFrame::Null(_) => FrameView::Null,
            RespFrame::BulkString(b) => FrameView::BulkString(b.0@, b.1),
            RespFrame::Array(a) => FrameView::Array(views_upto(a.0@, a.0@.len()), a.1),
            RespFrame::Members(s) => FrameView::Members(views_upto(s.0@, s.0@.len())),
            RespFrame::Mapping(m) => FrameView::Mapping(m.entries()),
        }
    }
}

/// A copy of a run of frames.
pub fn duplicate_frames(frames: &Vec<RespFrame>) -> (copy: Vec<RespFrame>)
    ensures
        frames_view(copy@) == frames_view(frames@),
    decreases frames_view(frames@), 0nat,
{
    let mut copy: Vec<RespFrame> = Vec::new();
    proof {
        frames_view_at(frames@);
    }
    let mut i: usize = 0;
    while i < frames.len()
        invariant
            i <= frames.len(),
            copy@.len() == i,
            frames_view(frames@).len() == frames@.len(),
            forall|k: int|
                0 <= k < frames@.len() ==> (#[trigger] frames_view(frames@)[k]) == frames@[k]@,
            forall|k: int| 0 <= k < i ==> (#[trigger] copy@[k])@ == frames@[k]@,
        decreases frames.len() - i,
    {
        proof {
            assert(frames_view(frames@)[i as int] == frames@[i as int]@);
        }
        let one = frames[i].duplicate();
        copy.push(one);
        i = i + 1;
    }
    proof {
        frames_view_at(copy@);
        assert(frames_view(copy@) =~= frames_view(frames@));
    }
    copy
}

impl RespFrame {
    /// A copy of this frame, equal to it through and through.
    pub fn duplicate(&self) -> (copy: RespFrame)
        ensures
            copy@ == self@,
        decreases self@, 1nat,
    {
        match self {
            RespFrame::SimpleString(s) => RespFrame::SimpleString(SimpleString(s.0.clone())),
            RespFrame::SimpleError(e) => RespFrame::SimpleError(SimpleError(e.0.clone())),
            RespFrame::Integer(v) => RespFrame::Integer(*v),
            RespFrame::Double(d) => RespFrame::Double(RespDouble(slice_to_vec(d.0.as_slice()))),
            RespFrame::Bool(b) => RespFrame::Bool(*b),
            RespFrame::Null(_) => RespFrame::Null(RespNull),
            RespFrame::BulkString(b) => RespFrame::BulkString(
                BulkString(slice_to_vec(b.0.as_slice()), b.1),
            ),
            RespFrame::Array(a) => {
                proof {
                    assert(decreases_to!(self@ => self@->Array_0));
                }
                RespFrame::Array(RespArray(duplicate_frames(&a.0), a.1))
            },
            RespFrame::Members(s) => {
                proof {
                    assert(decreases_to!(self@ => self@->Members_0));
                }
                RespFrame::Members(RespSet(duplicate_frames(&s.0)))
            },
            RespFrame::Mapping(m) => {
                proof {
                    map_view(*m);
                    assert(decreases_to!(self@ => self@->Mapping_0));
                }
                RespFrame::Mapping(m.duplicate())
            },
        }
    }
}

impl Clone for RespFrame {
    fn clone(&self) -> (copy: Self)
        ensures
            copy@ == self@,
    {
        self.duplicate()
    }
}

impl Clone for RespArray {
    fn clone(&self) -> (copy: Self)
        ensures
            frames_view(copy.0@) == frames_view(self.0@),
            copy.1 == self.1,
    {
        RespArray(duplicate_frames(&self.0), self.1)
    }
}

impl Clone for RespSet {
    fn clone(&self) -> (copy: Self)
        ensures
            frames_view(copy.0@) == frames_view(self.0@),
    {
        RespSet(duplicate_frames(&self.0))
    }
}

/// The views of the first `n` of a run of frames.
pub open spec fn views_upto(frames: Seq<RespFrame>, n: nat) -> Seq<FrameView>
    decreases frames, n,
{
    if n == 0 || n > frames.len() {
        Seq::empty()
    } else {
        views_upto(frames, (n - 1) as nat).push(frames[n - 1]@)
    }
}

/// The views of the first `n` of a run of keyed frames.
pub open spec fn entry_views_upto(entries: Seq<(String, RespFrame)>, n: nat) -> Seq<
    (Seq<char>, FrameView),
>
    decreases entries, n,
{
    if n == 0 || n > entries.len() {
        Seq::empty()
    } else {
        entry_views_upto(entries, (n - 1) as nat).push((entries[n - 1].0@, entries[n - 1].1@))
    }
}

/// The views of a run of frames, in order.
pub open spec fn frames_view(frames: Seq<RespFrame>) -> Seq<FrameView> {
    views_upto(frames, frames.len())
}

/// The views of a run of keyed frames, in order.
pub open spec fn entries_view(entries: Seq<(String, RespFrame)>) -> Seq<(Seq<char>, FrameView)> {
    entry_views_upto(entries, entries.len())
}

impl SimpleString {
    pub fn new(s: String) -> (made: Self)
        ensures
            made.0@ == s@,
    {
        SimpleString(s)
    }
}

impl SimpleError {
    pub fn new(s: String) -> (made: Self)
        ensures
            made.0@ == s@,
    {
        SimpleError(s)
    }
}

impl RespDouble {
    pub fn new(text: Vec<u8>) -> (made: Self)
        ensures
            made.0@ == text@,
    {
        RespDouble(text)
    }
}

impl BulkString {
    pub fn new(s: Vec<u8>) -> (made: Self)
        ensures
            made.0@ == s@,
            !made.1,
    {
        BulkString(s, false)
    }

    /// The null bulk string.
    pub fn nill_new() -> (made: Self)
        ensures
            made.0@ == Seq::<u8>::empty(),
            made.1,
    {
        BulkString(Vec::new(), true)
    }
}

impl RespArray {
    pub fn new(s: Vec<RespFrame>) -> (made: Self)
        ensures
            made.0@ == s@,
            !made.1,
    {
        RespArray(s, false)
    }

    /// The null array.
    pub fn nill_new() -> (made: Self)
        ensures
            made.0@ == Seq::<RespFrame>::empty(),
            made.1,
    {
        RespArray(Vec::new(), true)
    }
}

impl RespSet {
    pub fn new() -> (made: Self)
        ensures
            made.0@ == Seq::<RespFrame>::empty(),
    {
        RespSet(Vec::new())
    }
}

/// The views of the first `n` frames are `n` values, each the view of the
/// frame at its place.
pub proof fn views_upto_at(frames: Seq<RespFrame>, n: nat)
    requires
        n <= frames.len(),
    ensures
        views_upto(frames, n).len() == n,
        forall|i: int| 0 <= i < n ==> (#[trigger] views_upto(frames, n)[i]) == frames[i]@,
    decreases n,
{
    if n > 0 {
        views_upto_at(frames, (n - 1) as nat);
    }
}

/// The view of a run of frames has the view of each frame at its place.
pub proof fn frames_view_at(frames: Seq<RespFrame>)
    ensures
        frames_view(frames).len() == frames.len(),
        forall|i: int| 0 <= i < frames.len() ==> (#[trigger] frames_view(frames)[i]) == frames[i]@,
{
    views_upto_at(frames, frames.len());
}

/// The views of the first `n` entries are `n` pairs, each the views of the
/// key and the frame at its place.
pub proof fn entry_views_upto_at(entries: Seq<(String, RespFrame)>, n: nat)
    requires
        n <= entries.len(),
    ensures
        entry_views_upto(entries, n).len() == n,
        forall|i: int|
            0 <= i < n ==> (#[trigger] entry_views_upto(entries, n)[i]) == (
                entries[i].0@,
                entries[i].1@,
            ),
    decreases n,
{
    if n > 0 {
        entry_views_upto_at(entries, (n - 1) as nat);
    }
}

/// The view of a run of entries has the views of each entry at its place.
pub proof fn entries_view_at(entries: Seq<(String, RespFrame)>)
    ensures
        entries_view(entries).len() == entries.len(),
        forall|i: int|
            0 <= i < entries.len() ==> (#[trigger] entries_view(entries)[i]) == (
                entries[i].0@,
                entries[i].1@,
            ),
{
    entry_views_upto_at(entries, entries.len());
}

/// The view of an array frame is the views of its elements.
pub proof fn array_view(a: RespArray)
    ensures
        RespFrame::Array(a)@ == FrameView::Array(frames_view(a.0@), a.1),
{
}

/// The view of a set frame is the views of its elements.
pub proof fn set_view(s: RespSet)
    ensures
        RespFrame::Members(s)@ == FrameView::Members(frames_view(s.0@)),
{
}

/// The view of a map frame is its entries.
pub proof fn map_view(m: RespMap)
    ensures
        RespFrame::Mapping(m)@ == FrameView::Mapping(m.entries()),
{
}

/// The view of a run with one more frame at its end.
pub proof fn frames_view_push(frames: Seq<RespFrame>, frame: RespFrame)
    ensures
        frames_view(frames.push(frame)) == frames_view(frames).push(frame@),
{
    frames_view_at(frames);
    frames_view_at(frames.push(frame));
    assert(frames_view(frames.push(frame)) =~= frames_view(frames).push(frame@));
}

} // verus!
