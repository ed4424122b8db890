//! Trusted view of the byte queue the decoder buffers incoming chunks in.
//!
//! The queue itself is `httpbis::BytesDeque`, a deque of `bytes::Bytes`
//! chunks that presents them as one contiguous byte stream. Verified code
//! reaches it only through the wrappers below, whose contracts speak of the
//! two uninterpreted contents functions `deque_view` and `bytes_view`.

use vstd::prelude::*;

use crate::frame_header::be32;
use bytes::{Buf, Bytes};
use httpbis::{BufGetBytes, BytesDeque};

verus! {

#[verifier::external_type_specification]
#[verifier::external_body]
pub struct ExBytes(Bytes);

#[verifier::external_type_specification]
#[verifier::external_body]
pub struct ExBytesDeque(BytesDeque);

/// The bytes a `bytes::Bytes` chunk holds, in order.
pub uninterp spec fn bytes_view(b: Bytes) -> Seq<u8>;

/// The bytes a `httpbis::BytesDeque` holds, in order from front to back,
/// with its chunk boundaries erased.
pub uninterp spec fn deque_view(q: BytesDeque) -> Seq<u8>;

/// Relies on `httpbis::BytesDeque::new`: it returns an empty deque.
#[verifier::external_body]
pub(crate) fn deque_new() -> (q: BytesDeque)
    ensures
        deque_view(q) == Seq::<u8>::empty(),
{
    BytesDeque::new()
}

/// Relies on `httpbis::BytesDeque::extend`: it appends the chunk's bytes at
/// the tail of the deque.
#[verifier::external_body]
pub(crate) fn deque_extend(q: &mut BytesDeque, bytes: Bytes)
    ensures
        deque_view(*final(q)) == deque_view(*old(q)) + bytes_view(bytes),
{
    q.extend(bytes)
}

/// Relies on `bytes::Buf::remaining` for `BytesDeque`: it reports the total
/// buffered byte count without consuming anything.
#[verifier::external_body]
pub(crate) fn deque_remaining(q: &BytesDeque) -> (n: usize)
    ensures
        n == deque_view(*q).len(),
{
    q.remaining()
}

/// Relies on `bytes::Buf::get_u8`: it removes and returns the first byte.
#[verifier::external_body]
pub(crate) fn deque_get_u8(q: &mut BytesDeque) -> (b: u8)
    requires
        deque_view(*old(q)).len() >= 1,
    ensures
        b == deque_view(*old(q))[0],
        deque_view(*final(q)) == deque_view(*old(q)).skip(1),
{
    q.get_u8()
}

/// Relies on `bytes::Buf::get_u32`: it removes the first four bytes and
/// returns the unsigned 32-bit integer they spell in big-endian order.
#[verifier::external_body]
pub(crate) fn deque_get_u32(q: &mut BytesDeque) -> (n: u32)
    requires
        deque_view(*old(q)).len() >= 4,
    ensures
        n == be32(
            deque_view(*old(q))[0],
            deque_view(*old(q))[1],
            deque_view(*old(q))[2],
            deque_view(*old(q))[3],
        ),
        deque_view(*final(q)) == deque_view(*old(q)).skip(4),
{
    q.get_u32()
}

/// Relies on `httpbis::BufGetBytes::get_bytes` for `BytesDeque`: it removes
/// exactly the first `n` buffered bytes and returns them as one owned chunk.
#[verifier::external_body]
pub(crate) fn deque_get_bytes(q: &mut BytesDeque, n: usize) -> (b: Bytes)
    requires
        n <= deque_view(*old(q)).len(),
    ensures
        bytes_view(b) == deque_view(*old(q)).take(n as int),
        deque_view(*final(q)) == deque_view(*old(q)).skip(n as int),
{
    BufGetBytes::get_bytes(q, n)
}

} // verus!
