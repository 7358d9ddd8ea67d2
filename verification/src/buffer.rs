//! The receive buffer. It is a `bytes::BytesMut`, which the verifier cannot
//! look into; what it holds is named by [`buffered`], and the operations
//! the codec needs are stated over that name.

use bytes::Buf;
use bytes::BytesMut;
use vstd::prelude::*;

verus! {

#[verifier::external_type_specification]
#[verifier::external_body]
pub struct ExBytesMut(bytes::BytesMut);

/// The bytes that a receive buffer currently holds, front first.
pub uninterp spec fn buffered(buf: BytesMut) -> Seq<u8>;

/// `BytesMut::as_ref`: the buffer's contents as a slice. Believed, not proved:
/// the slice shows exactly the bytes held, in order.
#[verifier::external_body]
pub(crate) fn buffer_bytes(buf: &BytesMut) -> (bytes: &[u8])
    ensures
        bytes@ == buffered(*buf),
{
    buf.as_ref()
}

/// `Buf::advance` on a `BytesMut`. Believed, not proved: the first `count`
/// bytes leave and the rest stay in order. The outside function panics when
/// `count` exceeds what is held, so the caller must rule that out.
#[verifier::external_body]
pub(crate) fn buffer_advance(buf: &mut BytesMut, count: usize)
    requires
        count <= buffered(*old(buf)).len(),
    ensures
        buffered(*final(buf)) == buffered(*old(buf)).skip(count as int),
{
    buf.advance(count)
}

/// `BytesMut::extend_from_slice`. Believed, not proved: the bytes of `more`
/// are added behind what is held, in order.
#[verifier::external_body]
pub(crate) fn buffer_extend(buf: &mut BytesMut, more: &[u8])
    ensures
        buffered(*final(buf)) == buffered(*old(buf)) + more@,
{
    buf.extend_from_slice(more)
}

} // verus!
