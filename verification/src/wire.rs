//! Big-endian integer layout and the growable byte buffer it is written to.
use bytes::BufMut;
use bytes::BytesMut;
use vstd::prelude::*;

verus! {

/// The `width` low-order bytes of `value` in two's complement, most
/// significant byte first.
pub open spec fn be_bytes(value: int, width: nat) -> Seq<u8>
    decreases width,
{
    if width == 0 {
        Seq::<u8>::empty()
    } else {
        be_bytes(value / 256, (width - 1) as nat).push((value % 256) as u8)
    }
}

/// A big-endian layout has as many bytes as its width.
pub proof fn lemma_be_bytes_len(value: int, width: nat)
    ensures
        be_bytes(value, width).len() == width,
    decreases width,
{
    if width > 0 {
        lemma_be_bytes_len(value / 256, (width - 1) as nat);
    }
}

#[verifier::external_type_specification]
#[verifier::external_body]
pub struct ExBytesMut(BytesMut);

/// The bytes that a `bytes::BytesMut` holds, first written first.
pub uninterp spec fn buffer_bytes(buf: BytesMut) -> Seq<u8>;

/// `BytesMut::with_capacity`: a buffer that holds no bytes yet. The
/// capacity is only a hint for the allocation.
#[verifier::external_body]
pub(crate) fn buffer_with_capacity(capacity: usize) -> (buf: BytesMut)
    requires
        capacity <= isize::MAX,
    ensures
        buffer_bytes(buf) == Seq::<u8>::empty(),
{
    BytesMut::with_capacity(capacity)
}

/// `BufMut::put_i64` on a `BytesMut`: appends the eight bytes of `n` in
/// big-endian order, growing the buffer as needed.
#[verifier::external_body]
pub(crate) fn buffer_put_i64(buf: &mut BytesMut, n: i64)
    requires
        buffer_bytes(*old(buf)).len() + 8 <= isize::MAX,
    ensures
        buffer_bytes(*final(buf)) == buffer_bytes(*old(buf)) + be_bytes(n as int, 8),
{
    buf.put_i64(n)
}

/// `BufMut::put_i32` on a `BytesMut`: appends the four bytes of `n` in
/// big-endian order, growing the buffer as needed.
#[verifier::external_body]
pub(crate) fn buffer_put_i32(buf: &mut BytesMut, n: i32)
    requires
        buffer_bytes(*old(buf)).len() + 4 <= isize::MAX,
    ensures
        buffer_bytes(*final(buf)) == buffer_bytes(*old(buf)) + be_bytes(n as int, 4),
{
    buf.put_i32(n)
}

/// `BufMut::put_i16` on a `BytesMut`: appends the two bytes of `n` in
/// big-endian order, growing the buffer as needed.
#[verifier::external_body]
pub(crate) fn buffer_put_i16(buf: &mut BytesMut, n: i16)
    requires
        buffer_bytes(*old(buf)).len() + 2 <= isize::MAX,
    ensures
        buffer_bytes(*final(buf)) == buffer_bytes(*old(buf)) + be_bytes(n as int, 2),
{
    buf.put_i16(n)
}

/// `BufMut::put_slice` on a `BytesMut`: appends the bytes of `src` in
/// order, growing the buffer as needed.
#[verifier::external_body]
pub(crate) fn buffer_put_slice(buf: &mut BytesMut, src: &[u8])
    requires
        buffer_bytes(*old(buf)).len() + src@.len() <= isize::MAX,
    ensures
        buffer_bytes(*final(buf)) == buffer_bytes(*old(buf)) + src@,
{
    buf.put_slice(src)
}

/// `<[u8]>::to_vec` through the buffer's `Deref`: a copy of the bytes held.
#[verifier::external_body]
pub(crate) fn buffer_to_vec(buf: &BytesMut) -> (bytes: Vec<u8>)
    ensures
        bytes@ == buffer_bytes(*buf),
{
    buf.to_vec()
}

} // verus!
