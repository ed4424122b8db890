//! The frame decoder: an append-only byte queue plus the pending body length
//! of an already-parsed header, with extraction of complete frames.

use vstd::prelude::*;

use crate::byte_queue::{
    bytes_view, deque_extend, deque_get_bytes, deque_new, deque_remaining, deque_view,
};
use crate::decode::{
    after_header, drain_error, drain_frames, drain_measure, drain_ok, drain_state, is_drained,
    step, step_ok, DecodeState,
};
use crate::frame_header::{header_error, parse_frame_header, FrameError, MAX_FRAME_LEN};
use bytes::Bytes;
use httpbis::BytesDeque;

verus! {

/// Streaming decoder of length-delimited frames. One instance serves one
/// logical stream: chunks go in through [`Self::enqueue`] in arrival order,
/// complete frames come out through [`Self::next_frame`] or
/// [`Self::next_frames`] in the order their headers appeared, and
/// [`Self::is_empty`] tells a caller at stream end whether everything
/// buffered was consumed as whole frames.
pub struct GrpcFrameParser {
    /// Body length of the frame being assembled, recorded when its header
    /// was stripped from the queue; `None` while the front of the queue is
    /// expected to be a fresh header.
    next_frame_len: Option<u32>,
    /// Buffered bytes not yet consumed: everything after the last stripped
    /// header or extracted body.
    buffer: BytesDeque,
}

impl GrpcFrameParser {
    /// The abstract state this decoder is in.
    pub closed spec fn state(self) -> DecodeState {
        DecodeState { pending: self.next_frame_len, buf: deque_view(self.buffer) }
    }

    /// A recorded pending length always came from a header that passed
    /// validation, so it never exceeds `MAX_FRAME_LEN`.
    pub closed spec fn wf(self) -> bool {
        match self.next_frame_len {
            Option::Some(len) => len <= MAX_FRAME_LEN,
            Option::None => true,
        }
    }

    /// Appends one chunk at the tail of the queue. The chunk may be empty
    /// and need not align with any frame boundary; nothing is parsed here.
    pub fn enqueue(&mut self, bytes: Bytes)
        ensures
            final(self).state().pending == old(self).state().pending,
            final(self).state().buf == old(self).state().buf + bytes_view(bytes),
            final(self).wf() == old(self).wf(),
    {
        deque_extend(&mut self.buffer, bytes);
    }

    /// Makes sure the pending length is populated if a full header is
    /// buffered, consuming that header; reports the pending length.
    fn fill_next_frame_len(&mut self) -> (r: Result<Option<u32>, FrameError>)
        requires
            old(self).wf(),
        ensures
            final(self).wf(),
            r is Ok <==> step_ok(old(self).state()),
            r is Ok ==> final(self).state() == after_header(old(self).state()),
            r matches Ok(p) ==> p == after_header(old(self).state()).pending,
            r matches Err(e) ==> e == header_error(old(self).state().buf),
    {
        match self.next_frame_len {
            Option::Some(len) => Ok(Some(len)),
            Option::None => {
                match parse_frame_header(&mut self.buffer) {
                    Ok(parsed) => {
                        self.next_frame_len = parsed;
                        Ok(parsed)
                    },
                    Err(e) => Err(e),
                }
            },
        }
    }

    /// Tries to extract at most one complete frame from the buffered bytes.
    ///
    /// Returns `Ok(Some(body))` when the whole declared body of the frame at
    /// the front is buffered, consuming it; `Ok(None)` when more bytes must
    /// arrive first (with fewer than a header's worth of bytes buffered the
    /// queue is left byte-for-byte unchanged); and a [`FrameError`] exactly
    /// when a malformed header is at the front, after which the decoder must
    /// not be used further.
    pub fn next_frame(&mut self) -> (r: Result<Option<Bytes>, FrameError>)
        requires
            old(self).wf(),
        ensures
            final(self).wf(),
            r is Ok <==> step_ok(old(self).state()),
            r is Ok ==> final(self).state() == step(old(self).state()).state,
            r matches Ok(Some(frame)) ==> step(old(self).state()).emitted == Some(
                bytes_view(frame),
            ),
            r matches Ok(None) ==> step(old(self).state()).emitted is None,
            r matches Err(e) ==> e == header_error(old(self).state().buf),
    {
        match self.fill_next_frame_len() {
            Err(e) => Err(e),
            Ok(None) => Ok(None),
            Ok(Some(len)) => {
                if deque_remaining(&self.buffer) >= len as usize {
                    self.next_frame_len = None;
                    let frame = deque_get_bytes(&mut self.buffer, len as usize);
                    Ok(Some(frame))
                } else {
                    Ok(None)
                }
            },
        }
    }

    /// Extracts every frame currently resolvable from the buffered bytes, in
    /// the order their headers appeared in the stream.
    ///
    /// Repeats single-frame extraction until an attempt yields nothing, so a
    /// chunk that completed several frames hands them all back at once, and a
    /// second call with no intervening [`Self::enqueue`] returns an empty
    /// vector. Stops at the first malformed header and reports it.
    pub fn next_frames(&mut self) -> (r: Result<Vec<Bytes>, FrameError>)
        requires
            old(self).wf(),
        ensures
            final(self).wf(),
            r is Ok <==> drain_ok(old(self).state()),
            r matches Ok(frames) ==> {
                &&& final(self).state() == drain_state(old(self).state())
                &&& frames@.len() == drain_frames(old(self).state()).len()
                &&& forall|i: int|
                    0 <= i < frames@.len() ==> bytes_view(frames@[i]) == drain_frames(
                        old(self).state(),
                    )[i]
            },
            r matches Err(e) ==> e == drain_error(old(self).state()),
    {
        let mut frames: Vec<Bytes> = Vec::new();
        loop
            invariant
                self.wf(),
                drain_ok(old(self).state()) <==> drain_ok(self.state()),
                !drain_ok(self.state()) ==> drain_error(old(self).state()) == drain_error(
                    self.state(),
                ),
                drain_ok(self.state()) ==> {
                    &&& drain_frames(old(self).state()) == frames@.map_values(
                        |b: Bytes| bytes_view(b),
                    ) + drain_frames(self.state())
                    &&& drain_state(old(self).state()) == drain_state(self.state())
                },
            decreases drain_measure(self.state()),
        {
            let ghost pre = self.state();
            match self.next_frame() {
                Err(e) => {
                    proof {
                        assert(!drain_ok(pre));
                        assert(drain_error(pre) == header_error(pre.buf));
                    }
                    return Err(e);
                },
                Ok(None) => {
                    proof {
                        assert(drain_ok(pre));
                        assert(drain_frames(pre) =~= Seq::<Seq<u8>>::empty());
                        assert(drain_frames(old(self).state()) =~= frames@.map_values(
                            |b: Bytes| bytes_view(b),
                        ));
                    }
                    return Ok(frames);
                },
                Ok(Some(frame)) => {
                    proof {
                        assert(drain_ok(pre) <==> drain_ok(self.state()));
                        if drain_ok(pre) {
                            assert(drain_frames(pre) =~= seq![bytes_view(frame)] + drain_frames(
                                self.state(),
                            ));
                            assert(drain_state(pre) == drain_state(self.state()));
                        }
                    }
                    let ghost prev_frames = frames@;
                    frames.push(frame);
                    proof {
                        assert(frames@ =~= prev_frames.push(frame));
                        if drain_ok(self.state()) {
                            assert(frames@.map_values(|b: Bytes| bytes_view(b)) =~= prev_frames
                                .map_values(|b: Bytes| bytes_view(b)).push(bytes_view(frame)));
                            assert(drain_frames(old(self).state()) =~= frames@.map_values(
                                |b: Bytes| bytes_view(b),
                            ) + drain_frames(self.state()));
                        }
                    }
                },
            }
        }
    }

    /// Reports whether nothing at all is buffered: no pending length and no
    /// buffered bytes. A caller checks this at stream end; `false` there
    /// means the stream was cut inside a frame.
    pub fn is_empty(&self) -> (r: bool)
        ensures
            r == is_drained(self.state()),
    {
        self.next_frame_len.is_none() && deque_remaining(&self.buffer) == 0
    }
}

impl Default for GrpcFrameParser {
    /// A fresh decoder: no pending length, nothing buffered.
    fn default() -> (r: Self)
        ensures
            r.state() == (DecodeState { pending: Option::None, buf: Seq::<u8>::empty() }),
            r.wf(),
    {
        GrpcFrameParser { next_frame_len: None, buffer: deque_new() }
    }
}

} // verus!
