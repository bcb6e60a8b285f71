//! The `bytes` buffers that the encoders fill and the decoders hand out.
use bytes::{BufMut, Bytes, BytesMut};
use vstd::prelude::*;
use crate::be;

verus! {

/// `bytes::BytesMut`: a growable byte buffer.
#[verifier::external_type_specification]
#[verifier::external_body]
pub struct ExBytesMut(bytes::BytesMut);

/// `bytes::Bytes`: an immutable byte buffer.
#[verifier::external_type_specification]
#[verifier::external_body]
pub struct ExBytes(bytes::Bytes);

/// The bytes written to a `BytesMut` so far.
pub uninterp spec fn written(buf: bytes::BytesMut) -> Seq<u8>;

/// The bytes that a `Bytes` holds.
pub uninterp spec fn held(buf: bytes::Bytes) -> Seq<u8>;

/// Whether a buffer of `n` bytes is within the allocation limit of a `BytesMut`.
pub open spec fn fits(n: nat) -> bool {
    n <= isize::MAX
}

/// Wraps `BytesMut::new`: the new buffer is empty.
#[verifier::external_body]
pub(crate) fn new_buf() -> (r: BytesMut)
    ensures
        written(r) == Seq::<u8>::empty(),
{
    BytesMut::new()
}

/// Wraps `BufMut::put_u8` of a `BytesMut`: the byte is appended.
#[verifier::external_body]
pub(crate) fn put_u8(buf: &mut BytesMut, n: u8)
    requires
        fits(written(*old(buf)).len() + 1),
    ensures
        written(*final(buf)) == written(*old(buf)).push(n),
{
    buf.put_u8(n);
}

/// Wraps `BufMut::put_u16` of a `BytesMut`: two bytes are appended, big-endian.
#[verifier::external_body]
pub(crate) fn put_u16(buf: &mut BytesMut, n: u16)
    requires
        fits(written(*old(buf)).len() + 2),
    ensures
        written(*final(buf)) == written(*old(buf)) + be::bytes(n as nat, 2),
{
    buf.put_u16(n);
}

/// Wraps `BufMut::put_u32` of a `BytesMut`: four bytes are appended, big-endian.
#[verifier::external_body]
pub(crate) fn put_u32(buf: &mut BytesMut, n: u32)
    requires
        fits(written(*old(buf)).len() + 4),
    ensures
        written(*final(buf)) == written(*old(buf)) + be::bytes(n as nat, 4),
{
    buf.put_u32(n);
}

/// Wraps `BufMut::put_u64` of a `BytesMut`: eight bytes are appended, big-endian.
#[verifier::external_body]
pub(crate) fn put_u64(buf: &mut BytesMut, n: u64)
    requires
        fits(written(*old(buf)).len() + 8),
    ensures
        written(*final(buf)) == written(*old(buf)) + be::bytes(n as nat, 8),
{
    buf.put_u64(n);
}

/// Wraps `BytesMut::extend_from_slice`: the slice is appended.
#[verifier::external_body]
pub(crate) fn put_slice(buf: &mut BytesMut, data: &[u8])
    requires
        fits(written(*old(buf)).len() + data@.len()),
    ensures
        written(*final(buf)) == written(*old(buf)) + data@,
{
    buf.extend_from_slice(data);
}

/// Wraps `BytesMut::freeze`: the result holds what was written.
#[verifier::external_body]
pub(crate) fn freeze(buf: BytesMut) -> (r: Bytes)
    ensures
        held(r) == written(buf),
{
    buf.freeze()
}

/// Wraps `Bytes::copy_from_slice`: the result holds a copy of the slice.
#[verifier::external_body]
pub(crate) fn copy_bytes(data: &[u8]) -> (r: Bytes)
    ensures
        held(r) == data@,
{
    Bytes::copy_from_slice(data)
}

/// Wraps `Bytes::as_ref`: the slice of the bytes that are held.
#[verifier::external_body]
pub(crate) fn as_slice(buf: &Bytes) -> (r: &[u8])
    ensures
        r@ == held(*buf),
{
    buf.as_ref()
}

} // verus!
