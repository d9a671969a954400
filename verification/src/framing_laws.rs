//! What the framing of a byte stream guarantees: frames are found alike
//! however the stream was cut into reads.
use crate::codec::{le_bytes, lemma_le_bytes_len, lemma_le_round_trip, lemma_pow256_widths};
use crate::stream_handler::{
    after_frame, frame_bytes, frame_kind, frame_outcome, frame_payload, frame_ready, spec_run,
    Outcome, StreamEvent, HEADER_LEN,
};
use vstd::prelude::*;

verus! {

/// A frame: its type byte and its payload.
pub struct Frame {
    pub kind: u8,
    pub payload: Seq<u8>,
}

/// The whole frames at the front of `buf`, one after the other, and the
/// bytes that follow the last of them.
pub open spec fn split_frames(buf: Seq<u8>) -> (Seq<Frame>, Seq<u8>)
    decreases buf.len(),
{
    if frame_ready(buf) {
        let (frames, rest) = split_frames(after_frame(buf));
        (seq![Frame { kind: frame_kind(buf), payload: frame_payload(buf) }] + frames, rest)
    } else {
        (Seq::empty(), buf)
    }
}

/// Bytes that arrive behind a whole frame change nothing of that frame:
/// it is still the first, and they follow it.
pub proof fn lemma_frame_then_more(buf: Seq<u8>, more: Seq<u8>)
    requires
        frame_ready(buf),
    ensures
        frame_ready(buf + more),
        frame_kind(buf + more) == frame_kind(buf),
        frame_payload(buf + more) == frame_payload(buf),
        after_frame(buf + more) == after_frame(buf) + more,
{
    let all = buf + more;
    assert(all.subrange(1, HEADER_LEN as int) =~= buf.subrange(1, HEADER_LEN as int));
    assert(frame_payload(all) =~= frame_payload(buf));
    assert(after_frame(all) =~= after_frame(buf) + more);
}

/// Receiving bytes is adding them to those held: the handler does on the
/// bytes of a read what it would do, asked to go on, had it held them
/// already.
pub proof fn lemma_received_is_appended(pending: Seq<u8>, bytes: Vec<u8>)
    ensures
        spec_run(pending, StreamEvent::Received(bytes)) == spec_run(
            pending + bytes@,
            StreamEvent::Resume,
        ),
{
    assert((pending + bytes@) + Seq::<u8>::empty() =~= pending + bytes@);
}

/// Asked to go on, the handler takes the first whole frame of the bytes it
/// holds, and asks for more when it holds none.
pub proof fn lemma_resume_takes_first_frame(pending: Seq<u8>)
    ensures
        split_frames(pending).0.len() == 0 ==> spec_run(pending, StreamEvent::Resume) == (
            pending,
            Outcome::Read,
        ),
        split_frames(pending).0.len() > 0 ==> spec_run(pending, StreamEvent::Resume) == (
            after_frame(pending),
            frame_outcome(split_frames(pending).0[0].kind, split_frames(pending).0[0].payload),
        ) && split_frames(after_frame(pending)) == (
            split_frames(pending).0.drop_first(),
            split_frames(pending).1,
        ),
{
    assert(pending + Seq::<u8>::empty() =~= pending);
    if frame_ready(pending) {
        let (frames, rest) = split_frames(after_frame(pending));
        let first = Frame { kind: frame_kind(pending), payload: frame_payload(pending) };
        assert((seq![first] + frames).drop_first() =~= frames);
    }
}

/// The frames of a stream do not depend on how it is cut: the frames of
/// two pieces received one after the other are those of the first piece,
/// then those of what the first piece left with the second piece behind
/// it, and they are the frames of the two pieces joined.
pub proof fn lemma_frames_of_pieces(first: Seq<u8>, second: Seq<u8>)
    ensures
        split_frames(first + second) == (
            split_frames(first).0 + split_frames(split_frames(first).1 + second).0,
            split_frames(split_frames(first).1 + second).1,
        ),
    decreases first.len(),
{
    if frame_ready(first) {
        lemma_frame_then_more(first, second);
        lemma_frames_of_pieces(after_frame(first), second);
        let head = Frame { kind: frame_kind(first), payload: frame_payload(first) };
        let left = split_frames(after_frame(first)).0;
        let right = split_frames(split_frames(first).1 + second).0;
        assert(seq![head] + (left + right) =~= (seq![head] + left) + right);
    } else {
        let right = split_frames(first + second).0;
        assert(Seq::<Frame>::empty() + right =~= right);
    }
}

/// A frame that was laid out is found again, with what follows it: its
/// type byte and payload are read back, and the bytes behind it are left.
pub proof fn lemma_frame_round_trip(kind: u8, payload: Seq<u8>, rest: Seq<u8>)
    requires
        payload.len() <= u32::MAX,
    ensures
        frame_bytes(kind, payload).len() == HEADER_LEN + payload.len(),
        frame_ready(frame_bytes(kind, payload) + rest),
        frame_kind(frame_bytes(kind, payload) + rest) == kind,
        frame_payload(frame_bytes(kind, payload) + rest) == payload,
        after_frame(frame_bytes(kind, payload) + rest) == rest,
{
    let buf = frame_bytes(kind, payload) + rest;
    let field = le_bytes(payload.len(), 4);
    lemma_le_bytes_len(payload.len(), 4);
    lemma_pow256_widths();
    lemma_le_round_trip(payload.len(), 4);
    assert(buf.subrange(1, HEADER_LEN as int) =~= field);
    assert(frame_payload(buf) =~= payload);
    assert(after_frame(buf) =~= rest);
}

/// No frame is found before its last byte has arrived: a frame cut short
/// is not ready.
pub proof fn lemma_frame_needs_all_bytes(kind: u8, payload: Seq<u8>, received: int)
    requires
        payload.len() <= u32::MAX,
        0 <= received < HEADER_LEN + payload.len(),
    ensures
        !frame_ready(frame_bytes(kind, payload).take(received)),
{
    let frame = frame_bytes(kind, payload);
    let part = frame.take(received);
    let field = le_bytes(payload.len(), 4);
    lemma_le_bytes_len(payload.len(), 4);
    lemma_pow256_widths();
    lemma_le_round_trip(payload.len(), 4);
    if received >= HEADER_LEN {
        assert(part.subrange(1, HEADER_LEN as int) =~= field);
    }
}

} // verus!
