//! The receive and send buffers of the frame codec: `bytes::BytesMut`, seen
//! through the bytes it holds.

use vstd::prelude::*;
use bytes::BytesMut;

verus! {

#[verifier::external_type_specification]
#[verifier::external_body]
pub struct ExBytesMut(BytesMut);

/// The bytes that a buffer holds, in order.
pub uninterp spec fn buf_bytes(b: BytesMut) -> Seq<u8>;

/// Relies on `BytesMut::new`: the new buffer is empty.
pub assume_specification[ BytesMut::new ]() -> (r: BytesMut)
    ensures
        buf_bytes(r) == Seq::<u8>::empty(),
;

/// Relies on `BytesMut::len`: the number of bytes held.
pub assume_specification[ BytesMut::len ](b: &BytesMut) -> (r: usize)
    ensures
        r == buf_bytes(*b).len(),
;

/// Relies on `BytesMut::split_to`: the first `at` bytes leave the buffer and
/// are returned; it panics when `at` exceeds the length.
pub assume_specification[ BytesMut::split_to ](b: &mut BytesMut, at: usize) -> (r: BytesMut)
    requires
        at <= buf_bytes(*old(b)).len(),
    ensures
        buf_bytes(r) == buf_bytes(*old(b)).take(at as int),
        buf_bytes(*final(b)) == buf_bytes(*old(b)).skip(at as int),
;

/// Relies on `BytesMut::extend_from_slice`: the bytes are appended; it
/// panics when the new length overflows the capacity arithmetic.
pub assume_specification[ BytesMut::extend_from_slice ](b: &mut BytesMut, extend: &[u8])
    requires
        buf_bytes(*old(b)).len() + extend@.len() <= isize::MAX,
    ensures
        buf_bytes(*final(b)) == buf_bytes(*old(b)) + extend@,
;

/// Relies on `BytesMut::unsplit`: the bytes of `other` are appended, by
/// `extend_from_slice` where the two are not adjacent.
pub assume_specification[ BytesMut::unsplit ](b: &mut BytesMut, other: BytesMut)
    requires
        buf_bytes(*old(b)).len() + buf_bytes(other).len() <= isize::MAX,
    ensures
        buf_bytes(*final(b)) == buf_bytes(*old(b)) + buf_bytes(other),
;

/// Relies on `impl From<&[u8]> for BytesMut`: a buffer holding a copy of the
/// slice.
#[verifier::external_body]
pub(crate) fn buf_from_slice(s: &[u8]) -> (r: BytesMut)
    ensures
        buf_bytes(r) == s@,
{
    BytesMut::from(s)
}

/// Relies on `impl From<BytesMut> for Vec<u8>`: the same bytes, as a vector.
#[verifier::external_body]
pub(crate) fn buf_into_vec(b: BytesMut) -> (r: Vec<u8>)
    ensures
        r@ == buf_bytes(b),
{
    Vec::from(b)
}

} // verus!
