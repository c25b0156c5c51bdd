//! The growable byte buffer of the `bytes` crate, which holds what was
//! received and not yet parsed, and what is to be sent.
//!
//! Nothing here is proved of `BytesMut` itself: the contracts say what its
//! methods do to the bytes it holds. As vstd does for `Vec`, they leave aside
//! growth beyond the memory of the machine.

use bytes::{Buf, BufMut, BytesMut};
use vstd::prelude::*;

verus! {

/// `bytes::BytesMut`, opaque to the proofs.
#[verifier::external_type_specification]
#[verifier::external_body]
pub struct ExBytesMut(BytesMut);

/// The readable bytes that a buffer holds.
pub uninterp spec fn contents(buf: BytesMut) -> Seq<u8>;

/// The bytes in an optional vector.
pub open spec fn bytes_in(v: Option<Vec<u8>>) -> Option<Seq<u8>> {
    match v {
        Some(b) => Some(b@),
        None => None,
    }
}

/// `BytesMut::len`: the number of readable bytes.
#[verifier::external_body]
pub(crate) fn buffer_len(buf: &BytesMut) -> (n: usize)
    ensures
        n == contents(*buf).len(),
{
    buf.len()
}

/// Indexing through `BytesMut`'s `Deref` to a slice: the byte at `i`.
#[verifier::external_body]
pub(crate) fn byte_at(buf: &BytesMut, i: usize) -> (b: u8)
    requires
        i < contents(*buf).len(),
    ensures
        b == contents(*buf)[i as int],
{
    buf[i]
}

/// `Buf::advance` on a `BytesMut`: drops the first `count` bytes.
#[verifier::external_body]
pub(crate) fn advance(buf: &mut BytesMut, count: usize)
    requires
        count <= contents(*old(buf)).len(),
    ensures
        contents(*final(buf)) == contents(*old(buf)).skip(count as int),
{
    buf.advance(count)
}

/// `BytesMut::split_to`: takes the first `count` bytes off, as a vector.
#[verifier::external_body]
pub(crate) fn split_to(buf: &mut BytesMut, count: usize) -> (front: Vec<u8>)
    requires
        count <= contents(*old(buf)).len(),
    ensures
        front@ == contents(*old(buf)).take(count as int),
        contents(*final(buf)) == contents(*old(buf)).skip(count as int),
{
    buf.split_to(count).to_vec()
}

/// `BufMut::put_u8` on a `BytesMut`: appends one byte.
#[verifier::external_body]
pub(crate) fn put_u8(buf: &mut BytesMut, b: u8)
    ensures
        contents(*final(buf)) == contents(*old(buf)).push(b),
{
    buf.put_u8(b)
}

/// `BytesMut::extend_from_slice`: appends the bytes of a slice.
#[verifier::external_body]
pub(crate) fn append(buf: &mut BytesMut, bytes: &[u8])
    ensures
        contents(*final(buf)) == contents(*old(buf)) + bytes@,
{
    buf.extend_from_slice(bytes)
}

/// `BytesMut::clear`: drops all bytes.
#[verifier::external_body]
pub(crate) fn clear(buf: &mut BytesMut)
    ensures
        contents(*final(buf)) == Seq::<u8>::empty(),
{
    buf.clear()
}

} // verus!
