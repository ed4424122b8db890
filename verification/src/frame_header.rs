//! The wire-level frame header: a compression-flag byte followed by the body
//! length as an unsigned 32-bit big-endian integer, and the parser that strips
//! such a header from the front of the byte queue.

use vstd::prelude::*;

use crate::byte_queue::{deque_get_u32, deque_get_u8, deque_remaining, deque_view};
use httpbis::BytesDeque;

verus! {

/// Number of bytes in a frame header: one compression-flag byte and a
/// four-byte big-endian body length.
pub const HEADER_LEN: usize = 5;

/// Upper bound accepted for a declared body length. A header that declares a
/// longer body is rejected as malformed, so a corrupt or hostile length field
/// cannot commit the decoder to buffering an absurd amount of data.
pub const MAX_FRAME_LEN: u32 = 0x0400_0000;

/// The unsigned 32-bit integer spelled by four bytes in big-endian order.
pub open spec fn be32(b0: u8, b1: u8, b2: u8, b3: u8) -> u32 {
    (((b0 as u32) << 24) | ((b1 as u32) << 16) | ((b2 as u32) << 8) | (b3 as u32))
}

/// The four bytes that spell a 32-bit integer in big-endian order.
pub open spec fn len_bytes(n: u32) -> Seq<u8> {
    seq![
        (((n >> 24) & 0xff) as u8),
        (((n >> 16) & 0xff) as u8),
        (((n >> 8) & 0xff) as u8),
        ((n & 0xff) as u8),
    ]
}

/// A compression flag is 0 (uncompressed) or 1 (compressed). The flag's
/// meaning belongs to a higher layer; the decoder only checks its range.
pub open spec fn flag_ok(flag: u8) -> bool {
    flag == 0 || flag == 1
}

/// The body length declared by the header at the front of `buf`.
pub open spec fn header_body_len(buf: Seq<u8>) -> u32
    recommends
        buf.len() >= HEADER_LEN,
{
    be32(buf[1], buf[2], buf[3], buf[4])
}

/// The first `HEADER_LEN` bytes of `buf` form a well-formed header.
pub open spec fn header_ok(buf: Seq<u8>) -> bool
    recommends
        buf.len() >= HEADER_LEN,
{
    flag_ok(buf[0]) && header_body_len(buf) <= MAX_FRAME_LEN
}

/// Why a buffered header could not be decoded. Either error is fatal to the
/// decoder instance that reported it: its queue state is no longer meaningful
/// and the stream should be torn down.
#[derive(Clone, Copy, Debug, PartialEq, Eq, Structural)]
pub enum FrameError {
    /// The compression-flag byte (carried here) was neither 0 nor 1.
    InvalidCompressionFlag(u8),
    /// The declared body length (carried here) exceeds `MAX_FRAME_LEN`.
    FrameTooLarge(u32),
}

/// The error a malformed buffered header is reported as: a flag byte out of
/// range takes precedence, since the flag is read before the length.
pub open spec fn header_error(buf: Seq<u8>) -> FrameError
    recommends
        buf.len() >= HEADER_LEN,
        !header_ok(buf),
{
    if !flag_ok(buf[0]) {
        FrameError::InvalidCompressionFlag(buf[0])
    } else {
        FrameError::FrameTooLarge(header_body_len(buf))
    }
}

/// Reading a 32-bit integer back out of its big-endian bytes returns it.
pub proof fn lemma_be32_len_bytes(n: u32)
    ensures
        be32(len_bytes(n)[0], len_bytes(n)[1], len_bytes(n)[2], len_bytes(n)[3]) == n,
{
    assert((((((n >> 24) & 0xff) as u8) as u32) << 24 | ((((n >> 16) & 0xff) as u8) as u32) << 16
        | ((((n >> 8) & 0xff) as u8) as u32) << 8 | (((n & 0xff) as u8) as u32)) == n)
        by (bit_vector);
}

/// Tries to strip one frame header from the front of the queue.
///
/// With fewer than `HEADER_LEN` bytes buffered it returns `Ok(None)` and
/// leaves the queue byte-for-byte unchanged, so the same header can be retried
/// once more bytes arrive. With a well-formed header buffered it consumes
/// exactly `HEADER_LEN` bytes and returns the declared body length. A
/// malformed header is reported as an error; the queue state after an error is
/// deliberately unspecified, since the decoder must not be reused then.
pub fn parse_frame_header(q: &mut BytesDeque) -> (r: Result<Option<u32>, FrameError>)
    ensures
        deque_view(*old(q)).len() < HEADER_LEN ==> r == Ok::<Option<u32>, FrameError>(None)
            && deque_view(*final(q)) == deque_view(*old(q)),
        deque_view(*old(q)).len() >= HEADER_LEN && header_ok(deque_view(*old(q))) ==> r == Ok::<
            Option<u32>,
            FrameError,
        >(Some(header_body_len(deque_view(*old(q))))) && deque_view(*final(q)) == deque_view(
            *old(q),
        ).skip(HEADER_LEN as int),
        deque_view(*old(q)).len() >= HEADER_LEN && !flag_ok(deque_view(*old(q))[0]) ==> r == Err::<
            Option<u32>,
            FrameError,
        >(FrameError::InvalidCompressionFlag(deque_view(*old(q))[0])),
        deque_view(*old(q)).len() >= HEADER_LEN && flag_ok(deque_view(*old(q))[0])
            && header_body_len(deque_view(*old(q))) > MAX_FRAME_LEN ==> r == Err::<
            Option<u32>,
            FrameError,
        >(FrameError::FrameTooLarge(header_body_len(deque_view(*old(q))))),
        r is Err <==> deque_view(*old(q)).len() >= HEADER_LEN && !header_ok(deque_view(*old(q))),
        r matches Ok(Some(n)) ==> n <= MAX_FRAME_LEN,
{
    if deque_remaining(q) < HEADER_LEN {
        return Ok(None);
    }
    let flag = deque_get_u8(q);
    if flag > 1 {
        return Err(FrameError::InvalidCompressionFlag(flag));
    }
    let len = deque_get_u32(q);
    if len > MAX_FRAME_LEN {
        return Err(FrameError::FrameTooLarge(len));
    }
    proof {
        assert(deque_view(*q) =~= deque_view(*old(q)).skip(HEADER_LEN as int));
    }
    Ok(Some(len))
}

} // verus!
