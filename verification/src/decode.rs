//! Mathematical model of the decoder: its state is the pending body length
//! (if a header has been parsed whose body is still incomplete) together with
//! the buffered bytes, and one extraction attempt is the `step` function.

use vstd::prelude::*;

use crate::frame_header::{header_body_len, header_error, header_ok, FrameError, HEADER_LEN};

verus! {

/// Abstract decoder state: the body length recorded from an already-consumed
/// header (`None` while the next buffered bytes are expected to be a fresh
/// header) and the bytes buffered but not yet consumed.
#[verifier::ext_equal]
pub ghost struct DecodeState {
    pub pending: Option<u32>,
    pub buf: Seq<u8>,
}

/// What one extraction attempt produces: at most one frame body, and the
/// state left behind (which may differ from the starting state even when no
/// frame is emitted, because a complete header is consumed as soon as it is
/// seen).
#[verifier::ext_equal]
pub ghost struct StepOutcome {
    pub emitted: Option<Seq<u8>>,
    pub state: DecodeState,
}

/// An extraction attempt on `s` does not hit a malformed header: either a
/// header was already consumed earlier, or too few bytes are buffered to
/// read one, or the buffered header is well-formed.
pub open spec fn step_ok(s: DecodeState) -> bool {
    s.pending is Some || s.buf.len() < HEADER_LEN || header_ok(s.buf)
}

/// The state once the pending length is known: if no header was consumed yet
/// and a full one is buffered, its bytes are consumed and its declared length
/// recorded; otherwise the state is unchanged.
pub open spec fn after_header(s: DecodeState) -> DecodeState
    recommends
        step_ok(s),
{
    if s.pending is None && s.buf.len() >= HEADER_LEN {
        DecodeState { pending: Some(header_body_len(s.buf)), buf: s.buf.skip(HEADER_LEN as int) }
    } else {
        s
    }
}

/// One extraction attempt: resolve the pending length, then, if the whole
/// declared body is buffered, remove and emit it and clear the pending
/// length; otherwise emit nothing and keep waiting.
pub open spec fn step(s: DecodeState) -> StepOutcome
    recommends
        step_ok(s),
{
    let r = after_header(s);
    match r.pending {
        Option::Some(len) => if r.buf.len() >= len {
            StepOutcome {
                emitted: Option::Some(r.buf.take(len as int)),
                state: DecodeState { pending: Option::None, buf: r.buf.skip(len as int) },
            }
        } else {
            StepOutcome { emitted: Option::None, state: r }
        },
        Option::None => StepOutcome { emitted: Option::None, state: r },
    }
}

/// Termination measure for repeated extraction: each emitting step either
/// consumes buffered bytes or clears the pending length.
pub open spec fn drain_measure(s: DecodeState) -> int {
    s.buf.len() + if s.pending is Some {
        1int
    } else {
        0int
    }
}

/// Repeated extraction from `s` never hits a malformed header.
pub open spec fn drain_ok(s: DecodeState) -> bool
    decreases drain_measure(s),
{
    step_ok(s) && (step(s).emitted is Some ==> drain_ok(step(s).state))
}

/// The frame bodies that repeated extraction emits from `s`, in order, until
/// an attempt emits nothing (or would hit a malformed header).
pub open spec fn drain_frames(s: DecodeState) -> Seq<Seq<u8>>
    decreases drain_measure(s),
{
    if step_ok(s) {
        match step(s).emitted {
            Option::Some(frame) => seq![frame] + drain_frames(step(s).state),
            Option::None => Seq::empty(),
        }
    } else {
        Seq::empty()
    }
}

/// The state repeated extraction leaves behind once an attempt emits nothing.
/// When a malformed header is hit the decoder is unusable and this value is
/// not meaningful; contracts use it only under `drain_ok`.
pub open spec fn drain_state(s: DecodeState) -> DecodeState
    decreases drain_measure(s),
{
    if step_ok(s) {
        match step(s).emitted {
            Option::Some(_) => drain_state(step(s).state),
            Option::None => step(s).state,
        }
    } else {
        s
    }
}

/// The error repeated extraction from `s` stops with: the malformed header
/// reached after every frame before it was emitted.
pub open spec fn drain_error(s: DecodeState) -> FrameError
    recommends
        !drain_ok(s),
    decreases drain_measure(s),
{
    if step_ok(s) && step(s).emitted is Some {
        drain_error(step(s).state)
    } else {
        header_error(s.buf)
    }
}

/// Nothing is left to decode: no pending length and no buffered bytes.
pub open spec fn is_drained(s: DecodeState) -> bool {
    s.pending is None && s.buf.len() == 0
}

} // verus!
