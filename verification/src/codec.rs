//! Decoding off a receive buffer, and encoding, for each kind of value.
//!
//! A decoder first reads the frame from the buffer's bytes without touching
//! them, and takes the frame's bytes off the front only when it has the whole
//! frame. So the buffer changes on success alone.

use crate::buffer::buffer_advance;
use crate::buffer::buffer_bytes;
use crate::buffer::buffer_extend;
use crate::buffer::buffered;
use crate::decode::any_frame;
use crate::decode::array_frame;
use crate::decode::bool_frame;
use crate::decode::bulk_frame;
use crate::decode::double_frame;
use crate::decode::integer_frame;
use crate::decode::map_frame;
use crate::decode::parse_array;
use crate::decode::parse_bulk_string;
use crate::decode::parse_double;
use crate::decode::parse_frame;
use crate::decode::parse_integer;
use crate::decode::parse_map;
use crate::decode::parse_set;
use crate::decode::parse_text;
use crate::decode::set_frame;
use crate::decode::text_frame;
use crate::encode::bool_wire;
use crate::encode::null_wire;
use crate::encode::push_bool;
use crate::encode::push_bulk;
use crate::encode::push_double;
use crate::encode::push_frame;
use crate::encode::push_integer;
use crate::encode::push_null;
use crate::encode::push_simple_error;
use crate::encode::push_simple_string;
use crate::encode::wire;
use crate::encode::LETTER_F;
use crate::encode::LETTER_T;
use crate::error::length_agrees;
use crate::error::Fault;
use crate::error::RespError;
use crate::frame::array_view;
use crate::frame::frames_view;
use crate::frame::map_view;
use crate::frame::set_view;
use crate::frame::BulkString;
use crate::frame::FrameView;
use crate::frame::RespArray;
use crate::frame::RespDouble;
use crate::frame::RespFrame;
use crate::map::RespMap;
use crate::frame::RespNull;
use crate::frame::RespSet;
use crate::frame::SimpleError;
use crate::frame::SimpleString;
use crate::frame::TAG_BOOL;
use crate::frame::TAG_DOUBLE;
use crate::frame::TAG_INTEGER;
use crate::frame::TAG_MAP;
use crate::frame::TAG_NULL;
use crate::frame::TAG_SET;
use crate::frame::TAG_SIMPLE_ERROR;
use crate::frame::TAG_SIMPLE_STRING;
use crate::scan::extract_fixed_data;
use crate::scan::fixed_frame;
use crate::scan::CR;
use crate::scan::LF;
use crate::span::array_expect_length;
use crate::span::array_span;
use crate::span::bulk_expect_length;
use crate::span::bulk_span;
use crate::span::counted_expect_length;
use crate::span::counted_span;
use crate::span::expect_length;
use crate::span::frame_span;
use crate::span::simple_expect_length;
use crate::span::simple_span;
use bytes::BytesMut;
use vstd::prelude::*;

verus! {

/// A value that has a wire form.
pub trait RespEncode: Sized {
    /// The frame that this value stands for.
    spec fn as_frame(&self) -> FrameView;

    /// The bytes of this value on the wire.
    fn encode(self) -> (out: Vec<u8>)
        ensures
            out@ == wire(self.as_frame()),
    ;
}

/// A value that can be taken off the front of a receive buffer.
pub trait RespDecode: RespEncode {
    /// The tag byte of the kind, as text; empty where the kind is found by
    /// the tag.
    const PREFIX: &'static str;

    /// What the bytes at the front of a buffer hold: the frame of the value
    /// and the bytes it occupies, or why no value can be handed out.
    spec fn framed(buf: Seq<u8>) -> Result<(FrameView, nat), Fault>;

    /// How many bytes lookahead finds for the value at the front of a
    /// buffer.
    spec fn span(buf: Seq<u8>) -> Result<nat, Fault>;

    /// Takes one value off the front of the buffer. On any error the buffer
    /// keeps every byte.
    fn decode(buf: &mut BytesMut) -> (got: Result<Self, RespError>)
        ensures
            match Self::framed(buffered(*old(buf))) {
                Ok((frame, used)) => got is Ok && got->Ok_0.as_frame() == frame && used
                    <= buffered(*old(buf)).len() && buffered(*final(buf)) == buffered(
                    *old(buf),
                ).skip(used as int),
                Err(fault) => got is Err && got->Err_0.reports(fault) && buffered(*final(buf))
                    == buffered(*old(buf)),
            },
    ;

    /// Looks ahead for the length of the value at the front of `buf`.
    fn expect_length(buf: &[u8]) -> (length: Result<usize, RespError>)
        ensures
            length_agrees(length, Self::span(buf@)),
    ;
}

impl RespEncode for RespFrame {
    open spec fn as_frame(&self) -> FrameView {
        self@
    }

    fn encode(self) -> (out: Vec<u8>) {
        let mut out: Vec<u8> = Vec::new();
        push_frame(&mut out, &self);
        out
    }
}

impl RespDecode for RespFrame {
    const PREFIX: &'static str = "";

    open spec fn framed(buf: Seq<u8>) -> Result<(FrameView, nat), Fault> {
        any_frame(buf)
    }

    open spec fn span(buf: Seq<u8>) -> Result<nat, Fault> {
        frame_span(buf)
    }

    fn decode(buf: &mut BytesMut) -> (got: Result<Self, RespError>) {
        match parse_frame(buffer_bytes(buf)) {
            Ok((frame, used)) => {
                buffer_advance(buf, used);
                Ok(frame)
            },
            Err(error) => Err(error),
        }
    }

    fn expect_length(buf: &[u8]) -> (length: Result<usize, RespError>) {
        expect_length(buf)
    }
}

impl RespEncode for SimpleString {
    open spec fn as_frame(&self) -> FrameView {
        FrameView::SimpleString(self.0@)
    }

    fn encode(self) -> (out: Vec<u8>) {
        let mut out: Vec<u8> = Vec::new();
        push_simple_string(&mut out, &self.0);
        out
    }
}

impl RespDecode for SimpleString {
    const PREFIX: &'static str = "+";

    open spec fn framed(buf: Seq<u8>) -> Result<(FrameView, nat), Fault> {
        match text_frame(buf, TAG_SIMPLE_STRING) {
            Ok((text, used)) => Ok((FrameView::SimpleString(text), used)),
            Err(fault) => Err(fault),
        }
    }

    open spec fn span(buf: Seq<u8>) -> Result<nat, Fault> {
        simple_span(buf, TAG_SIMPLE_STRING)
    }

    fn decode(buf: &mut BytesMut) -> (got: Result<Self, RespError>) {
        match parse_text(buffer_bytes(buf), TAG_SIMPLE_STRING) {
            Ok((text, used)) => {
                buffer_advance(buf, used);
                Ok(SimpleString(text))
            },
            Err(error) => Err(error),
        }
    }

    fn expect_length(buf: &[u8]) -> (length: Result<usize, RespError>) {
        simple_expect_length(buf, TAG_SIMPLE_STRING)
    }
}

impl RespEncode for SimpleError {
    open spec fn as_frame(&self) -> FrameView {
        FrameView::SimpleError(self.0@)
    }

    fn encode(self) -> (out: Vec<u8>) {
        let mut out: Vec<u8> = Vec::new();
        push_simple_error(&mut out, &self.0);
        out
    }
}

impl RespDecode for SimpleError {
    const PREFIX: &'static str = "-";

    open spec fn framed(buf: Seq<u8>) -> Result<(FrameView, nat), Fault> {
        match text_frame(buf, TAG_SIMPLE_ERROR) {
            Ok((text, used)) => Ok((FrameView::SimpleError(text), used)),
            Err(fault) => Err(fault),
        }
    }

    open spec fn span(buf: Seq<u8>) -> Result<nat, Fault> {
        simple_span(buf, TAG_SIMPLE_ERROR)
    }

    fn decode(buf: &mut BytesMut) -> (got: Result<Self, RespError>) {
        match parse_text(buffer_bytes(buf), TAG_SIMPLE_ERROR) {
            Ok((text, used)) => {
                buffer_advance(buf, used);
                Ok(SimpleError(text))
            },
            Err(error) => Err(error),
        }
    }

    fn expect_length(buf: &[u8]) -> (length: Result<usize, RespError>) {
        simple_expect_length(buf, TAG_SIMPLE_ERROR)
    }
}

impl RespEncode for i64 {
    open spec fn as_frame(&self) -> FrameView {
        FrameView::Integer(*self)
    }

    fn encode(self) -> (out: Vec<u8>) {
        let mut out: Vec<u8> = Vec::new();
        push_integer(&mut out, self);
        out
    }
}

impl RespDecode for i64 {
    const PREFIX: &'static str = ":";

    open spec fn framed(buf: Seq<u8>) -> Result<(FrameView, nat), Fault> {
        match integer_frame(buf) {
            Ok((value, used)) => Ok((FrameView::Integer(value), used)),
            Err(fault) => Err(fault),
        }
    }

    open spec fn span(buf: Seq<u8>) -> Result<nat, Fault> {
        simple_span(buf, TAG_INTEGER)
    }

    fn decode(buf: &mut BytesMut) -> (got: Result<Self, RespError>) {
        match parse_integer(buffer_bytes(buf)) {
            Ok((value, used)) => {
                buffer_advance(buf, used);
                Ok(value)
            },
            Err(error) => Err(error),
        }
    }

    fn expect_length(buf: &[u8]) -> (length: Result<usize, RespError>) {
        simple_expect_length(buf, TAG_INTEGER)
    }
}

impl RespEncode for RespDouble {
    open spec fn as_frame(&self) -> FrameView {
        FrameView::Double(self.0@)
    }

    fn encode(self) -> (out: Vec<u8>) {
        let mut out: Vec<u8> = Vec::new();
        push_double(&mut out, &self.0);
        out
    }
}

impl RespDecode for RespDouble {
    const PREFIX: &'static str = ",";

    open spec fn framed(buf: Seq<u8>) -> Result<(FrameView, nat), Fault> {
        match double_frame(buf) {
            Ok((text, used)) => Ok((FrameView::Double(text), used)),
            Err(fault) => Err(fault),
        }
    }

    open spec fn span(buf: Seq<u8>) -> Result<nat, Fault> {
        simple_span(buf, TAG_DOUBLE)
    }

    fn decode(buf: &mut BytesMut) -> (got: Result<Self, RespError>) {
        match parse_double(buffer_bytes(buf)) {
            Ok((value, used)) => {
                buffer_advance(buf, used);
                Ok(value)
            },
            Err(error) => Err(error),
        }
    }

    fn expect_length(buf: &[u8]) -> (length: Result<usize, RespError>) {
        simple_expect_length(buf, TAG_DOUBLE)
    }
}

impl RespEncode for bool {
    open spec fn as_frame(&self) -> FrameView {
        FrameView::Bool(*self)
    }

    fn encode(self) -> (out: Vec<u8>) {
        let mut out: Vec<u8> = Vec::new();
        push_bool(&mut out, self);
        out
    }
}

impl RespDecode for bool {
    const PREFIX: &'static str = "#";

    open spec fn framed(buf: Seq<u8>) -> Result<(FrameView, nat), Fault> {
        match bool_frame(buf) {
            Ok((value, used)) => Ok((FrameView::Bool(value), used)),
            Err(fault) => Err(fault),
        }
    }

    open spec fn span(buf: Seq<u8>) -> Result<nat, Fault> {
        Ok(4)
    }

    fn decode(buf: &mut BytesMut) -> (got: Result<Self, RespError>) {
        let yes: Vec<u8> = vec![TAG_BOOL, LETTER_T, CR, LF];
        let no: Vec<u8> = vec![TAG_BOOL, LETTER_F, CR, LF];
        proof {
            assert(yes@ =~= bool_wire(true));
            assert(no@ =~= bool_wire(false));
        }
        match extract_fixed_data(buf, yes.as_slice()) {
            Ok(_) => Ok(true),
            Err(RespError::NotComplete) => Err(RespError::NotComplete),
            Err(_) => match extract_fixed_data(buf, no.as_slice()) {
                Ok(_) => Ok(false),
                Err(error) => Err(error),
            },
        }
    }

    fn expect_length(buf: &[u8]) -> (length: Result<usize, RespError>) {
        Ok(4)
    }
}

impl RespEncode for RespNull {
    open spec fn as_frame(&self) -> FrameView {
        FrameView::Null
    }

    fn encode(self) -> (out: Vec<u8>) {
        let mut out: Vec<u8> = Vec::new();
        push_null(&mut out);
        out
    }
}

impl RespDecode for RespNull {
    const PREFIX: &'static str = "_";

    open spec fn framed(buf: Seq<u8>) -> Result<(FrameView, nat), Fault> {
        match fixed_frame(buf, null_wire()) {
            Ok(used) => Ok((FrameView::Null, used)),
            Err(fault) => Err(fault),
        }
    }

    open spec fn span(buf: Seq<u8>) -> Result<nat, Fault> {
        Ok(3)
    }

    fn decode(buf: &mut BytesMut) -> (got: Result<Self, RespError>) {
        let expect: Vec<u8> = vec![TAG_NULL, CR, LF];
        proof {
            assert(expect@ =~= null_wire());
        }
        match extract_fixed_data(buf, expect.as_slice()) {
            Ok(_) => Ok(RespNull),
            Err(error) => Err(error),
        }
    }

    fn expect_length(buf: &[u8]) -> (length: Result<usize, RespError>) {
        Ok(3)
    }
}

impl RespEncode for BulkString {
    open spec fn as_frame(&self) -> FrameView {
        FrameView::BulkString(self.0@, self.1)
    }

    fn encode(self) -> (out: Vec<u8>) {
        let mut out: Vec<u8> = Vec::new();
        push_bulk(&mut out, &self);
        out
    }
}

impl RespDecode for BulkString {
    const PREFIX: &'static str = "$";

    open spec fn framed(buf: Seq<u8>) -> Result<(FrameView, nat), Fault> {
        match bulk_frame(buf) {
            Ok(((data, null), used)) => Ok((FrameView::BulkString(data, null), used)),
            Err(fault) => Err(fault),
        }
    }

    open spec fn span(buf: Seq<u8>) -> Result<nat, Fault> {
        bulk_span(buf)
    }

    fn decode(buf: &mut BytesMut) -> (got: Result<Self, RespError>) {
        match parse_bulk_string(buffer_bytes(buf)) {
            Ok((value, used)) => {
                buffer_advance(buf, used);
                Ok(value)
            },
            Err(error) => Err(error),
        }
    }

    fn expect_length(buf: &[u8]) -> (length: Result<usize, RespError>) {
        bulk_expect_length(buf)
    }
}

impl RespEncode for RespArray {
    open spec fn as_frame(&self) -> FrameView {
        FrameView::Array(frames_view(self.0@), self.1)
    }

    fn encode(self) -> (out: Vec<u8>) {
        let mut out: Vec<u8> = Vec::new();
        proof {
            array_view(self);
        }
        push_frame(&mut out, &RespFrame::Array(self));
        out
    }
}

impl RespDecode for RespArray {
    const PREFIX: &'static str = "*";

    open spec fn framed(buf: Seq<u8>) -> Result<(FrameView, nat), Fault> {
        match array_frame(buf) {
            Ok(((elements, null), used)) => Ok((FrameView::Array(elements, null), used)),
            Err(fault) => Err(fault),
        }
    }

    open spec fn span(buf: Seq<u8>) -> Result<nat, Fault> {
        array_span(buf)
    }

    fn decode(buf: &mut BytesMut) -> (got: Result<Self, RespError>) {
        match parse_array(buffer_bytes(buf)) {
            Ok((value, used)) => {
                buffer_advance(buf, used);
                Ok(value)
            },
            Err(error) => Err(error),
        }
    }

    fn expect_length(buf: &[u8]) -> (length: Result<usize, RespError>) {
        array_expect_length(buf)
    }
}

impl RespEncode for RespSet {
    open spec fn as_frame(&self) -> FrameView {
        FrameView::Members(frames_view(self.0@))
    }

    fn encode(self) -> (out: Vec<u8>) {
        let mut out: Vec<u8> = Vec::new();
        proof {
            set_view(self);
        }
        push_frame(&mut out, &RespFrame::Members(self));
        out
    }
}

impl RespDecode for RespSet {
    const PREFIX: &'static str = "~";

    open spec fn framed(buf: Seq<u8>) -> Result<(FrameView, nat), Fault> {
        match set_frame(buf) {
            Ok((elements, used)) => Ok((FrameView::Members(elements), used)),
            Err(fault) => Err(fault),
        }
    }

    open spec fn span(buf: Seq<u8>) -> Result<nat, Fault> {
        counted_span(buf, TAG_SET)
    }

    fn decode(buf: &mut BytesMut) -> (got: Result<Self, RespError>) {
        match parse_set(buffer_bytes(buf)) {
            Ok((value, used)) => {
                buffer_advance(buf, used);
                Ok(value)
            },
            Err(error) => Err(error),
        }
    }

    fn expect_length(buf: &[u8]) -> (length: Result<usize, RespError>) {
        counted_expect_length(buf, TAG_SET)
    }
}

impl RespEncode for RespMap {
    open spec fn as_frame(&self) -> FrameView {
        FrameView::Mapping(self.entries())
    }

    fn encode(self) -> (out: Vec<u8>) {
        let mut out: Vec<u8> = Vec::new();
        proof {
            map_view(self);
        }
        push_frame(&mut out, &RespFrame::Mapping(self));
        out
    }
}

impl RespDecode for RespMap {
    const PREFIX: &'static str = "%";

    open spec fn framed(buf: Seq<u8>) -> Result<(FrameView, nat), Fault> {
        match map_frame(buf) {
            Ok((entries, used)) => Ok((FrameView::Mapping(entries), used)),
            Err(fault) => Err(fault),
        }
    }

    open spec fn span(buf: Seq<u8>) -> Result<nat, Fault> {
        counted_span(buf, TAG_MAP)
    }

    fn decode(buf: &mut BytesMut) -> (got: Result<Self, RespError>) {
        match parse_map(buffer_bytes(buf)) {
            Ok((value, used)) => {
                buffer_advance(buf, used);
                Ok(value)
            },
            Err(error) => Err(error),
        }
    }

    fn expect_length(buf: &[u8]) -> (length: Result<usize, RespError>) {
        counted_expect_length(buf, TAG_MAP)
    }
}

/// One step of reading a connection: the next frame off the buffer, or
/// nothing while the buffer waits for more bytes. Only a fault of the input
/// is an error, and it ends the connection. The buffer loses the frame's
/// bytes when a frame is handed out, and nothing otherwise.
pub fn next_frame(src: &mut BytesMut) -> (got: Result<Option<RespFrame>, RespError>)
    ensures
        match any_frame(buffered(*old(src))) {
            Ok((frame, used)) => got is Ok && got->Ok_0 is Some && got->Ok_0->Some_0@ == frame
                && used <= buffered(*old(src)).len() && buffered(*final(src)) == buffered(
                *old(src),
            ).skip(used as int),
            Err(Fault::NotComplete) => got is Ok && got->Ok_0 is None && buffered(*final(src))
                == buffered(*old(src)),
            Err(fault) => got is Err && got->Err_0.reports(fault) && buffered(*final(src))
                == buffered(*old(src)),
        },
{
    match RespFrame::decode(src) {
        Ok(frame) => Ok(Some(frame)),
        Err(RespError::NotComplete) => Ok(None),
        Err(error) => Err(error),
    }
}

/// Writes a frame behind what a send buffer holds.
pub fn write_frame(item: RespFrame, dst: &mut BytesMut)
    ensures
        buffered(*final(dst)) == buffered(*old(dst)) + wire(item@),
{
    let encoded = item.encode();
    buffer_extend(dst, encoded.as_slice());
}

} // verus!
