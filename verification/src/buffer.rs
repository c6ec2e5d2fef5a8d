//! The `bytes` crate's growable buffer, as the verified code sees it.
//!
//! Nothing in this module is proved. Each function hands its arguments to one
//! method of `bytes::BytesMut` and its contract records what that method's
//! documentation and source say about the buffer's contents.

use bytes::Buf;
use bytes::BufMut;
use bytes::BytesMut;
use vstd::prelude::*;

use crate::big_endian::be_bytes;

verus! {

/// `bytes::BytesMut`, the growable byte buffer. The verified code sees nothing
/// inside one: what it holds is known through `buffer_bytes` alone.
#[verifier::external_type_specification]
#[verifier::external_body]
pub struct ExBytesMut(BytesMut);

/// The bytes that a buffer holds, first to last: what its `Deref` to a slice
/// shows.
pub uninterp spec fn buffer_bytes(buf: BytesMut) -> Seq<u8>;

/// `BytesMut::with_capacity`: a buffer that holds no bytes yet. The vector
/// behind it cannot be made with a capacity above `isize::MAX`.
#[verifier::external_body]
pub(crate) fn buffer_with_capacity(capacity: usize) -> (buf: BytesMut)
    requires
        capacity <= isize::MAX,
    ensures
        buffer_bytes(buf) == Seq::<u8>::empty(),
{
    BytesMut::with_capacity(capacity)
}

/// `BufMut::put_u8` on a `BytesMut`: appends the one byte.
#[verifier::external_body]
pub(crate) fn buffer_put_u8(buf: &mut BytesMut, value: u8)
    requires
        buffer_bytes(*old(buf)).len() + 1 <= isize::MAX,
    ensures
        buffer_bytes(*final(buf)) == buffer_bytes(*old(buf)).push(value),
{
    buf.put_u8(value)
}

/// `BufMut::put_u16` on a `BytesMut`: appends the two bytes of `value`, most
/// significant first.
#[verifier::external_body]
pub(crate) fn buffer_put_u16(buf: &mut BytesMut, value: u16)
    requires
        buffer_bytes(*old(buf)).len() + 2 <= isize::MAX,
    ensures
        buffer_bytes(*final(buf)) == buffer_bytes(*old(buf)) + be_bytes(value as nat, 2),
{
    buf.put_u16(value)
}

/// `BufMut::put_u32` on a `BytesMut`: appends the four bytes of `value`, most
/// significant first.
#[verifier::external_body]
pub(crate) fn buffer_put_u32(buf: &mut BytesMut, value: u32)
    requires
        buffer_bytes(*old(buf)).len() + 4 <= isize::MAX,
    ensures
        buffer_bytes(*final(buf)) == buffer_bytes(*old(buf)) + be_bytes(value as nat, 4),
{
    buf.put_u32(value)
}

/// `BufMut::put_u64` on a `BytesMut`: appends the eight bytes of `value`, most
/// significant first.
#[verifier::external_body]
pub(crate) fn buffer_put_u64(buf: &mut BytesMut, value: u64)
    requires
        buffer_bytes(*old(buf)).len() + 8 <= isize::MAX,
    ensures
        buffer_bytes(*final(buf)) == buffer_bytes(*old(buf)) + be_bytes(value as nat, 8),
{
    buf.put_u64(value)
}

/// The slice method `to_vec` through `BytesMut`'s `Deref`: a copy of the
/// buffer's bytes.
#[verifier::external_body]
pub(crate) fn buffer_to_vec(buf: &BytesMut) -> (bytes: Vec<u8>)
    ensures
        bytes@ == buffer_bytes(*buf),
{
    buf.to_vec()
}

/// `BytesMut`'s `AsRef<[u8]>`: the buffer's bytes, borrowed.
#[verifier::external_body]
pub(crate) fn buffer_as_slice(buf: &BytesMut) -> (bytes: &[u8])
    ensures
        bytes@ == buffer_bytes(*buf),
{
    buf.as_ref()
}

/// `Buf::advance` on a `BytesMut`: drops the first `count` bytes. It panics
/// when `count` exceeds the bytes held, which the precondition rules out.
#[verifier::external_body]
pub(crate) fn buffer_advance(buf: &mut BytesMut, count: usize)
    requires
        count <= buffer_bytes(*old(buf)).len(),
    ensures
        buffer_bytes(*final(buf)) == buffer_bytes(*old(buf)).skip(count as int),
{
    buf.advance(count)
}

} // verus!
