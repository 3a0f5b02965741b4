//! The byte buffers of a session, `BytesMut` of the `bytes` crate.

use bytes::BytesMut;
use std::borrow::Borrow;
use vstd::prelude::*;

verus! {

/// `bytes::BytesMut`, a growable buffer of bytes that can give up its front.
#[verifier::external_type_specification]
#[verifier::external_body]
pub struct ExBytesMut(BytesMut);

/// The bytes that a buffer holds, front first.
pub uninterp spec fn buffered(buffer: BytesMut) -> Seq<u8>;

/// `BytesMut::new`: a buffer that holds nothing.
#[verifier::external_body]
pub(crate) fn new_buffer() -> (r: BytesMut)
    ensures
        buffered(r) == Seq::<u8>::empty(),
{
    BytesMut::new()
}

/// `BytesMut::borrow`, of its `Borrow<[u8]>`: the bytes that the buffer holds,
/// as a slice.
#[verifier::external_body]
pub(crate) fn as_slice(buffer: &BytesMut) -> (r: &[u8])
    ensures
        r@ == buffered(*buffer),
{
    buffer.borrow()
}

/// `BytesMut::is_empty`: whether the buffer holds no byte.
#[verifier::external_body]
pub(crate) fn is_empty(buffer: &BytesMut) -> (r: bool)
    ensures
        r == (buffered(*buffer).len() == 0),
{
    buffer.is_empty()
}

/// `BytesMut::split_to`, of which only the rest is kept: the first `at` bytes
/// leave the buffer and the others stay, in their order. It panics where the
/// buffer holds fewer bytes than that.
#[verifier::external_body]
pub(crate) fn drop_front(buffer: &mut BytesMut, at: usize)
    requires
        at <= buffered(*old(buffer)).len(),
    ensures
        buffered(*final(buffer)) == buffered(*old(buffer)).skip(at as int),
{
    let _ = buffer.split_to(at);
}

/// `BytesMut::extend_from_slice`: the bytes of `extend` join the buffer at its
/// end. A buffer that would grow beyond `isize::MAX` bytes cannot be allocated,
/// and the call panics.
#[verifier::external_body]
pub(crate) fn append(buffer: &mut BytesMut, extend: &[u8])
    requires
        buffered(*old(buffer)).len() + extend@.len() <= isize::MAX,
    ensures
        buffered(*final(buffer)) == buffered(*old(buffer)) + extend@,
{
    buffer.extend_from_slice(extend)
}

} // verus!
