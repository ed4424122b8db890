//! Laws of the decoder, stated and proved over the abstract model: feeding a
//! chunk only appends bytes, so what the model says of `drain_frames` and
//! `drain_state` carries over, through the contracts of `enqueue`,
//! `next_frames` and `is_empty`, to every run of the decoder.

use vstd::prelude::*;

use crate::decode::{
    after_header, drain_frames, drain_measure, drain_ok, drain_state, is_drained, step, step_ok,
    DecodeState,
};
use crate::frame_header::{
    flag_ok, header_body_len, header_ok, lemma_be32_len_bytes, len_bytes, HEADER_LEN,
    MAX_FRAME_LEN,
};

verus! {

/// The decoder state with nothing yet consumed from `buf` and no header
/// parsed: a fresh decoder that was handed the bytes `buf`.
pub open spec fn start_state(buf: Seq<u8>) -> DecodeState {
    DecodeState { pending: Option::None, buf }
}

/// The state `s` after the chunk `extra` is appended to its buffered bytes:
/// exactly what `enqueue` does to the abstract state.
pub open spec fn feed(s: DecodeState, extra: Seq<u8>) -> DecodeState {
    DecodeState { pending: s.pending, buf: s.buf + extra }
}

/// `s` is starved: an extraction attempt can make no progress at all, for
/// want of header bytes or of body bytes.
pub open spec fn stalled(s: DecodeState) -> bool {
    match s.pending {
        Option::Some(len) => s.buf.len() < len,
        Option::None => s.buf.len() < HEADER_LEN,
    }
}

/// A flag byte and a body that a well-formed frame can carry.
pub open spec fn frame_wf(flag: u8, body: Seq<u8>) -> bool {
    flag_ok(flag) && body.len() <= MAX_FRAME_LEN
}

/// The wire bytes of one frame: flag byte, big-endian body length, body.
pub open spec fn encode_frame(flag: u8, body: Seq<u8>) -> Seq<u8>
    recommends
        frame_wf(flag, body),
{
    seq![flag] + len_bytes(body.len() as u32) + body
}

/// Every frame in the list is well-formed.
pub open spec fn frames_wf(frames: Seq<(u8, Seq<u8>)>) -> bool {
    forall|i: int| 0 <= i < frames.len() ==> frame_wf(frames[i].0, frames[i].1)
}

/// The wire bytes of a list of frames, back to back with no separators.
pub open spec fn encode_frames(frames: Seq<(u8, Seq<u8>)>) -> Seq<u8>
    decreases frames.len(),
{
    if frames.len() == 0 {
        Seq::empty()
    } else {
        encode_frame(frames[0].0, frames[0].1) + encode_frames(frames.skip(1))
    }
}

/// The bodies of a list of frames, in order, with the flags dropped.
pub open spec fn payloads(frames: Seq<(u8, Seq<u8>)>) -> Seq<Seq<u8>> {
    frames.map_values(|f: (u8, Seq<u8>)| f.1)
}

/// With no pending length and fewer bytes than a header needs, an extraction
/// attempt consumes nothing: the state is left byte-for-byte unchanged.
pub proof fn lemma_short_buffer_untouched(s: DecodeState)
    requires
        s.pending is None,
        s.buf.len() < HEADER_LEN,
    ensures
        step_ok(s),
        step(s).emitted is None,
        step(s).state == s,
{
}

/// A starved state drains to itself: no frames come out and nothing changes.
pub proof fn lemma_stalled_drain(s: DecodeState)
    requires
        stalled(s),
    ensures
        drain_ok(s),
        drain_frames(s) == Seq::<Seq<u8>>::empty(),
        drain_state(s) == s,
{
    assert(drain_frames(s) =~= Seq::<Seq<u8>>::empty());
}

/// Draining always stops in a starved state: whatever is left afterwards is
/// too short to yield a header or the rest of the announced body.
pub proof fn lemma_drain_state_stalled(s: DecodeState)
    requires
        drain_ok(s),
    ensures
        stalled(drain_state(s)),
    decreases drain_measure(s),
{
    if step(s).emitted is Some {
        lemma_drain_state_stalled(step(s).state);
    }
}

/// Draining is idempotent: a second drain with no chunk fed in between
/// yields no frames and leaves the state exactly where the first left it.
pub proof fn lemma_drain_idempotent(s: DecodeState)
    requires
        drain_ok(s),
    ensures
        drain_ok(drain_state(s)),
        drain_frames(drain_state(s)) == Seq::<Seq<u8>>::empty(),
        drain_state(drain_state(s)) == drain_state(s),
{
    lemma_drain_state_stalled(s);
    lemma_stalled_drain(drain_state(s));
}

/// An extraction attempt that emits a frame emits the same frame after more
/// bytes are appended, and the extra bytes simply ride along at the tail.
proof fn lemma_step_emit_feed(s: DecodeState, extra: Seq<u8>)
    requires
        step_ok(s),
        step(s).emitted is Some,
    ensures
        step_ok(feed(s, extra)),
        step(feed(s, extra)).emitted == step(s).emitted,
        step(feed(s, extra)).state == feed(step(s).state, extra),
{
    let t = feed(s, extra);
    if s.pending is Some {
        let len = s.pending->0;
        assert(s.buf.len() >= len);
        assert(t.buf.take(len as int) =~= s.buf.take(len as int));
        assert(t.buf.skip(len as int) =~= s.buf.skip(len as int) + extra);
        assert(step(t).state =~= feed(step(s).state, extra));
    } else {
        assert(s.buf.len() >= HEADER_LEN);
        assert(header_ok(s.buf));
        assert(t.buf[0] == s.buf[0]);
        assert(t.buf[1] == s.buf[1] && t.buf[2] == s.buf[2] && t.buf[3] == s.buf[3] && t.buf[4]
            == s.buf[4]);
        assert(header_body_len(t.buf) == header_body_len(s.buf));
        let len = header_body_len(s.buf);
        assert(t.buf.skip(HEADER_LEN as int) =~= s.buf.skip(HEADER_LEN as int) + extra);
        assert(s.buf.skip(HEADER_LEN as int).len() >= len);
        assert(t.buf.skip(HEADER_LEN as int).take(len as int) =~= s.buf.skip(
            HEADER_LEN as int,
        ).take(len as int));
        assert(t.buf.skip(HEADER_LEN as int).skip(len as int) =~= s.buf.skip(
            HEADER_LEN as int,
        ).skip(len as int) + extra);
        assert(step(t).state =~= feed(step(s).state, extra));
    }
}

/// After an extraction attempt that emits nothing, appending bytes and
/// draining gives the same outcome whether the attempt's (possible) header
/// consumption happened before or after the append.
proof fn lemma_step_stall_feed(s: DecodeState, extra: Seq<u8>)
    requires
        step_ok(s),
        step(s).emitted is None,
    ensures
        drain_ok(feed(s, extra)) == drain_ok(feed(step(s).state, extra)),
        drain_frames(feed(s, extra)) == drain_frames(feed(step(s).state, extra)),
        drain_state(feed(s, extra)) == drain_state(feed(step(s).state, extra)),
{
    if s.pending is None && s.buf.len() >= HEADER_LEN {
        let a = feed(s, extra);
        let b = feed(step(s).state, extra);
        assert(a.buf[0] == s.buf[0]);
        assert(a.buf[1] == s.buf[1] && a.buf[2] == s.buf[2] && a.buf[3] == s.buf[3] && a.buf[4]
            == s.buf[4]);
        assert(header_ok(a.buf));
        assert(header_body_len(a.buf) == header_body_len(s.buf));
        assert(a.buf.skip(HEADER_LEN as int) =~= s.buf.skip(HEADER_LEN as int) + extra);
        assert(after_header(a) =~= b);
        assert(step(a) == step(b));
        assert(drain_ok(a) == drain_ok(b));
        assert(drain_frames(a) == drain_frames(b));
        assert(drain_state(a) == drain_state(b));
    } else {
        assert(step(s).state == s);
    }
}

/// A state whose drain hits a malformed header still hits it after more
/// bytes are appended: appending cannot repair an error.
proof fn lemma_drain_fail_feed(s: DecodeState, extra: Seq<u8>)
    requires
        !drain_ok(s),
    ensures
        !drain_ok(feed(s, extra)),
    decreases drain_measure(s),
{
    if !step_ok(s) {
        let t = feed(s, extra);
        assert(t.buf[0] == s.buf[0]);
        assert(t.buf[1] == s.buf[1] && t.buf[2] == s.buf[2] && t.buf[3] == s.buf[3] && t.buf[4]
            == s.buf[4]);
        assert(header_body_len(t.buf) == header_body_len(s.buf));
        assert(!step_ok(t));
    } else {
        assert(step(s).emitted is Some && !drain_ok(step(s).state));
        lemma_step_emit_feed(s, extra);
        lemma_drain_fail_feed(step(s).state, extra);
    }
}

/// Chunk-boundary independence, one append at a time: draining, then
/// appending `extra`, then draining again, emits the same frames overall and
/// ends in the same state as appending `extra` before the first drain.
pub proof fn lemma_drain_then_feed(s: DecodeState, extra: Seq<u8>)
    requires
        drain_ok(s),
    ensures
        drain_ok(feed(s, extra)) == drain_ok(feed(drain_state(s), extra)),
        drain_ok(feed(s, extra)) ==> drain_frames(feed(s, extra)) == drain_frames(s)
            + drain_frames(feed(drain_state(s), extra)),
        drain_ok(feed(s, extra)) ==> drain_state(feed(s, extra)) == drain_state(
            feed(drain_state(s), extra),
        ),
    decreases drain_measure(s),
{
    if step(s).emitted is Some {
        let frame = step(s).emitted->0;
        lemma_step_emit_feed(s, extra);
        lemma_drain_then_feed(step(s).state, extra);
        if drain_ok(feed(s, extra)) {
            assert(drain_frames(feed(s, extra)) =~= seq![frame] + drain_frames(
                feed(step(s).state, extra),
            ));
            assert(seq![frame] + (drain_frames(step(s).state) + drain_frames(
                feed(drain_state(s), extra),
            )) =~= (seq![frame] + drain_frames(step(s).state)) + drain_frames(
                feed(drain_state(s), extra),
            ));
        }
    } else {
        lemma_step_stall_feed(s, extra);
        assert(drain_frames(s) =~= Seq::<Seq<u8>>::empty());
        if drain_ok(feed(s, extra)) {
            assert(Seq::<Seq<u8>>::empty() + drain_frames(feed(drain_state(s), extra))
                =~= drain_frames(feed(drain_state(s), extra)));
        }
    }
}

/// One well-formed frame at the front of a fresh buffer is extracted whole:
/// its body comes out and exactly its bytes are consumed.
pub proof fn lemma_decode_one(flag: u8, body: Seq<u8>, rest: Seq<u8>)
    requires
        frame_wf(flag, body),
    ensures
        step_ok(start_state(encode_frame(flag, body) + rest)),
        step(start_state(encode_frame(flag, body) + rest)).emitted == Some(body),
        step(start_state(encode_frame(flag, body) + rest)).state == start_state(rest),
{
    let n = body.len() as u32;
    let buf = encode_frame(flag, body) + rest;
    lemma_be32_len_bytes(n);
    assert(buf[0] == flag);
    assert(buf[1] == len_bytes(n)[0] && buf[2] == len_bytes(n)[1] && buf[3] == len_bytes(n)[2]
        && buf[4] == len_bytes(n)[3]);
    assert(header_body_len(buf) == n);
    assert(buf.skip(HEADER_LEN as int) =~= body + rest);
    assert((body + rest).take(n as int) =~= body);
    assert((body + rest).skip(n as int) =~= rest);
    assert(step(start_state(buf)).state =~= start_state(rest));
}

/// Handing a fresh decoder the exact bytes of a list of well-formed frames
/// and draining yields exactly their bodies, in order, and leaves the
/// decoder with no pending length and no buffered byte.
pub proof fn lemma_decode_frames(frames: Seq<(u8, Seq<u8>)>)
    requires
        frames_wf(frames),
    ensures
        drain_ok(start_state(encode_frames(frames))),
        drain_frames(start_state(encode_frames(frames))) == payloads(frames),
        drain_state(start_state(encode_frames(frames))) == start_state(Seq::<u8>::empty()),
        is_drained(drain_state(start_state(encode_frames(frames)))),
    decreases frames.len(),
{
    if frames.len() == 0 {
        lemma_stalled_drain(start_state(encode_frames(frames)));
        assert(payloads(frames) =~= Seq::<Seq<u8>>::empty());
        assert(start_state(encode_frames(frames)) =~= start_state(Seq::<u8>::empty()));
    } else {
        let flag = frames[0].0;
        let body = frames[0].1;
        let rest = encode_frames(frames.skip(1));
        assert(frame_wf(flag, body));
        assert(frames_wf(frames.skip(1)));
        lemma_decode_one(flag, body, rest);
        lemma_decode_frames(frames.skip(1));
        let s = start_state(encode_frames(frames));
        assert(drain_frames(s) =~= seq![body] + drain_frames(start_state(rest)));
        assert(payloads(frames) =~= seq![body] + payloads(frames.skip(1)));
    }
}

/// One delivery of bytes after another, with the seams erased.
pub open spec fn concat_chunks(chunks: Seq<Seq<u8>>) -> Seq<u8>
    decreases chunks.len(),
{
    if chunks.len() == 0 {
        Seq::empty()
    } else {
        chunks[0] + concat_chunks(chunks.skip(1))
    }
}

/// Feeding the chunks one at a time, draining after each, never hits a
/// malformed header.
pub open spec fn session_ok(s: DecodeState, chunks: Seq<Seq<u8>>) -> bool
    decreases chunks.len(),
{
    if chunks.len() == 0 {
        true
    } else {
        drain_ok(feed(s, chunks[0])) && session_ok(drain_state(feed(s, chunks[0])), chunks.skip(1))
    }
}

/// All the frames that come out when the chunks are fed one at a time, each
/// followed by a full drain, in emission order.
pub open spec fn session_frames(s: DecodeState, chunks: Seq<Seq<u8>>) -> Seq<Seq<u8>>
    decreases chunks.len(),
{
    if chunks.len() == 0 {
        Seq::empty()
    } else {
        drain_frames(feed(s, chunks[0])) + session_frames(
            drain_state(feed(s, chunks[0])),
            chunks.skip(1),
        )
    }
}

/// The state left after the chunks are fed one at a time, each followed by a
/// full drain.
pub open spec fn session_state(s: DecodeState, chunks: Seq<Seq<u8>>) -> DecodeState
    decreases chunks.len(),
{
    if chunks.len() == 0 {
        s
    } else {
        session_state(drain_state(feed(s, chunks[0])), chunks.skip(1))
    }
}

/// Chunk-boundary independence: from any starved state (a fresh decoder, or
/// one a drain just left), feeding a byte sequence chunk by chunk with a
/// drain after each yields exactly the frames, and exactly the final state,
/// of feeding the whole sequence at once — however the sequence was split,
/// even through the middle of a header or a body.
pub proof fn lemma_chunking_independent(s: DecodeState, chunks: Seq<Seq<u8>>)
    requires
        stalled(s),
    ensures
        session_ok(s, chunks) == drain_ok(feed(s, concat_chunks(chunks))),
        session_ok(s, chunks) ==> session_frames(s, chunks) == drain_frames(
            feed(s, concat_chunks(chunks)),
        ),
        session_ok(s, chunks) ==> session_state(s, chunks) == drain_state(
            feed(s, concat_chunks(chunks)),
        ),
    decreases chunks.len(),
{
    lemma_stalled_drain(s);
    if chunks.len() == 0 {
        assert(feed(s, concat_chunks(chunks)) =~= s);
    } else {
        let s1 = feed(s, chunks[0]);
        let rest = concat_chunks(chunks.skip(1));
        assert(feed(s, concat_chunks(chunks)) =~= feed(s1, rest));
        if drain_ok(s1) {
            lemma_drain_state_stalled(s1);
            lemma_drain_then_feed(s1, rest);
            lemma_chunking_independent(drain_state(s1), chunks.skip(1));
        } else {
            lemma_drain_fail_feed(s1, rest);
        }
    }
}

/// Putting it together: split the exact bytes of a list of well-formed
/// frames into chunks any way at all; feeding a fresh decoder those chunks,
/// draining after each, emits exactly the frames' bodies in their original
/// order and leaves the decoder empty.
pub proof fn lemma_session_decodes_frames(frames: Seq<(u8, Seq<u8>)>, chunks: Seq<Seq<u8>>)
    requires
        frames_wf(frames),
        concat_chunks(chunks) == encode_frames(frames),
    ensures
        session_ok(start_state(Seq::<u8>::empty()), chunks),
        session_frames(start_state(Seq::<u8>::empty()), chunks) == payloads(frames),
        is_drained(session_state(start_state(Seq::<u8>::empty()), chunks)),
{
    let s = start_state(Seq::<u8>::empty());
    lemma_chunking_independent(s, chunks);
    assert(feed(s, concat_chunks(chunks)) =~= start_state(encode_frames(frames)));
    lemma_decode_frames(frames);
}

/// A complete header followed by too few body bytes drains to a state that
/// still records the declared length, so the decoder does not report empty:
/// at stream end that signals a truncated final frame.
pub proof fn lemma_truncated_frame(flag: u8, declared: u32, partial: Seq<u8>)
    requires
        flag_ok(flag),
        declared <= MAX_FRAME_LEN,
        partial.len() < declared,
    ensures
        drain_ok(start_state(seq![flag] + len_bytes(declared) + partial)),
        drain_frames(start_state(seq![flag] + len_bytes(declared) + partial)) == Seq::<
            Seq<u8>,
        >::empty(),
        drain_state(start_state(seq![flag] + len_bytes(declared) + partial)) == (DecodeState {
            pending: Some(declared),
            buf: partial,
        }),
        !is_drained(drain_state(start_state(seq![flag] + len_bytes(declared) + partial))),
{
    let buf = seq![flag] + len_bytes(declared) + partial;
    lemma_be32_len_bytes(declared);
    assert(buf[0] == flag);
    assert(buf[1] == len_bytes(declared)[0] && buf[2] == len_bytes(declared)[1] && buf[3]
        == len_bytes(declared)[2] && buf[4] == len_bytes(declared)[3]);
    assert(header_body_len(buf) == declared);
    assert(buf.skip(HEADER_LEN as int) =~= partial);
    assert(step(start_state(buf)).state =~= (DecodeState {
        pending: Some(declared),
        buf: partial,
    }));
    assert(drain_frames(start_state(buf)) =~= Seq::<Seq<u8>>::empty());
}

} // verus!
