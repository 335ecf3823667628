//! The growable byte buffer of the `bytes` crate, as far as packet encoding
//! uses it. Nothing in this file is proved: each contract restates what the
//! crate's source shows of the method it names.

use bytes::BufMut;
use bytes::BytesMut;
use vstd::prelude::*;

use crate::byte_order::be_bytes;

verus! {

/// `bytes::BytesMut`, opaque to the verifier.
#[verifier::external_type_specification]
#[verifier::external_body]
pub struct ExBytesMut(BytesMut);

/// The bytes that a buffer holds, first written first.
pub uninterp spec fn buffer_contents(buf: BytesMut) -> Seq<u8>;

/// `BytesMut::with_capacity`: a buffer that holds no bytes. The capacity is
/// only a hint, but one above `isize::MAX` makes the allocation panic.
#[verifier::external_body]
pub(crate) fn buffer_with_capacity(capacity: usize) -> (buf: BytesMut)
    requires
        capacity <= isize::MAX,
    ensures
        buffer_contents(buf) == Seq::<u8>::empty(),
{
    BytesMut::with_capacity(capacity)
}

/// `BufMut::put_u8` on a `BytesMut`: appends the byte, growing the buffer as
/// needed. Growth past `isize::MAX` bytes panics.
#[verifier::external_body]
pub(crate) fn buffer_put_u8(buf: &mut BytesMut, byte: u8)
    requires
        buffer_contents(*old(buf)).len() + 1 <= isize::MAX,
    ensures
        buffer_contents(*final(buf)) == buffer_contents(*old(buf)).push(byte),
{
    buf.put_u8(byte)
}

/// `BufMut::put_u32` on a `BytesMut`: appends the four bytes of the word in
/// big-endian order.
#[verifier::external_body]
pub(crate) fn buffer_put_u32(buf: &mut BytesMut, word: u32)
    requires
        buffer_contents(*old(buf)).len() + 4 <= isize::MAX,
    ensures
        buffer_contents(*final(buf)) == buffer_contents(*old(buf)) + be_bytes(word),
{
    buf.put_u32(word)
}

/// `BufMut::put_slice` on a `BytesMut`: appends the bytes of the slice in
/// order.
#[verifier::external_body]
pub(crate) fn buffer_put_slice(buf: &mut BytesMut, src: &[u8])
    requires
        buffer_contents(*old(buf)).len() + src@.len() <= isize::MAX,
    ensures
        buffer_contents(*final(buf)) == buffer_contents(*old(buf)) + src@,
{
    buf.put_slice(src)
}

/// `to_vec` on the slice that a `BytesMut` dereferences to: a copy of the
/// bytes it holds.
#[verifier::external_body]
pub(crate) fn buffer_to_vec(buf: &BytesMut) -> (bytes: Vec<u8>)
    ensures
        bytes@ == buffer_contents(*buf),
{
    buf.to_vec()
}

} // verus!
