//! Length-delimited framing.
//!
//! A channel's byte stream is a concatenation of frames. A frame is the
//! length of its payload, as four bytes in big-endian order, followed by the
//! payload. A payload holds at most [`MAX_FRAME_LEN`] bytes: a header that
//! announces more is corrupt.

use crate::wire::{
    be32, be32_value, lemma_be32_value_of_be32, lemma_be32_value_prefix, push_all, push_be32,
    read_be32, LEN_BYTES,
};
use vstd::prelude::*;

verus! {

broadcast use crate::wire::lemma_be32_len;

/// Largest payload of a frame, in bytes.
pub const MAX_FRAME_LEN: usize = 8_388_608;

/// The bytes of the frame that carries `payload`.
pub open spec fn frame(payload: Seq<u8>) -> Seq<u8> {
    be32(payload.len()) + payload
}

/// The byte stream that carries `payloads`, one frame each, in order.
pub open spec fn frames(payloads: Seq<Seq<u8>>) -> Seq<u8>
    decreases payloads.len(),
{
    if payloads.len() == 0 {
        Seq::empty()
    } else {
        frame(payloads.first()) + frames(payloads.drop_first())
    }
}

/// Whether every payload fits into a frame.
pub open spec fn all_fit(payloads: Seq<Seq<u8>>) -> bool {
    forall|i: int| 0 <= i < payloads.len() ==> (#[trigger] payloads[i]).len() <= MAX_FRAME_LEN
}

/// What stands at the front of a buffer.
pub enum FrameHead {
    /// A whole frame with this payload, followed by `rest`.
    Complete { payload: Seq<u8>, rest: Seq<u8> },
    /// Not yet a whole frame: the header or a part of the payload is missing.
    Incomplete,
    /// A header that announces more than [`MAX_FRAME_LEN`] bytes.
    TooLong,
}

/// Looks at the front of `buf`.
pub open spec fn frame_head(buf: Seq<u8>) -> FrameHead {
    if buf.len() < LEN_BYTES {
        FrameHead::Incomplete
    } else if be32_value(buf) > MAX_FRAME_LEN {
        FrameHead::TooLong
    } else if buf.len() < LEN_BYTES + be32_value(buf) {
        FrameHead::Incomplete
    } else {
        FrameHead::Complete {
            payload: buf.subrange(LEN_BYTES as int, LEN_BYTES + be32_value(buf)),
            rest: buf.skip(LEN_BYTES + be32_value(buf)),
        }
    }
}

/// What is left of `buf` once the whole frame at its front, if there is
/// one, is taken off.
pub open spec fn after_frame(buf: Seq<u8>) -> Seq<u8> {
    match frame_head(buf) {
        FrameHead::Complete { payload, rest } => rest,
        _ => buf,
    }
}

/// A buffer taken apart: the payloads of the whole frames at its front, and
/// what follows them.
pub struct Split {
    /// Payloads of the whole frames, in order.
    pub payloads: Seq<Seq<u8>>,
    /// What follows the last whole frame.
    pub rest: Seq<u8>,
    /// Whether `rest` begins with a corrupt header rather than a frame that
    /// is not yet whole.
    pub too_long: bool,
}

/// Takes whole frames off the front of `buf` for as long as there are any.
pub open spec fn split(buf: Seq<u8>) -> Split
    decreases buf.len(),
{
    match frame_head(buf) {
        FrameHead::Complete { payload, rest } => {
            let tail = split(rest);
            Split {
                payloads: seq![payload] + tail.payloads,
                rest: tail.rest,
                too_long: tail.too_long,
            }
        },
        FrameHead::Incomplete => Split { payloads: Seq::empty(), rest: buf, too_long: false },
        FrameHead::TooLong => Split { payloads: Seq::empty(), rest: buf, too_long: true },
    }
}

/// A frame at the front of a buffer is found again, with what follows it.
pub proof fn lemma_head_of_frame(payload: Seq<u8>, tail: Seq<u8>)
    requires
        payload.len() <= MAX_FRAME_LEN,
    ensures
        frame_head(frame(payload) + tail) == (FrameHead::Complete { payload, rest: tail }),
{
    let buf = frame(payload) + tail;
    lemma_be32_value_of_be32(payload.len());
    lemma_be32_value_prefix(be32(payload.len()), payload + tail);
    assert(buf =~= be32(payload.len()) + (payload + tail));
    assert(buf.subrange(LEN_BYTES as int, LEN_BYTES + payload.len()) =~= payload);
    assert(buf.skip(LEN_BYTES + payload.len()) =~= tail);
}

/// A frame cut short anywhere before its end is not yet a whole frame, and
/// it is not taken for a corrupt one.
pub proof fn lemma_truncated_frame(payload: Seq<u8>, cut: int)
    requires
        payload.len() <= MAX_FRAME_LEN,
        0 <= cut < frame(payload).len(),
    ensures
        frame_head(frame(payload).subrange(0, cut)) == FrameHead::Incomplete,
{
    let part = frame(payload).subrange(0, cut);
    lemma_be32_value_of_be32(payload.len());
    if cut >= LEN_BYTES {
        assert(part.subrange(0, LEN_BYTES as int) =~= be32(payload.len()));
        lemma_be32_value_prefix(part, Seq::empty());
    }
}

/// Taking apart a stream of frames followed by `tail` gives the frames'
/// payloads, then whatever taking apart `tail` alone gives.
pub proof fn lemma_split_frames(payloads: Seq<Seq<u8>>, tail: Seq<u8>)
    requires
        all_fit(payloads),
    ensures
        split(frames(payloads) + tail).payloads == payloads + split(tail).payloads,
        split(frames(payloads) + tail).rest == split(tail).rest,
        split(frames(payloads) + tail).too_long == split(tail).too_long,
    decreases payloads.len(),
{
    if payloads.len() == 0 {
        assert(frames(payloads) + tail =~= tail);
        assert(payloads + split(tail).payloads =~= split(tail).payloads);
    } else {
        let first = payloads.first();
        let others = payloads.drop_first();
        let after = frames(others) + tail;
        assert(first == payloads[0]);
        assert(all_fit(others)) by {
            assert forall|i: int| 0 <= i < others.len() implies (#[trigger] others[i]).len()
                <= MAX_FRAME_LEN by {
                assert(others[i] == payloads[i + 1]);
            }
        }
        assert(frames(payloads) + tail =~= frame(first) + after);
        lemma_head_of_frame(first, after);
        lemma_split_frames(others, tail);
        assert(seq![first] + (others + split(tail).payloads) =~= payloads + split(tail).payloads);
    }
}

/// A stream of whole frames followed by a frame cut short holds exactly the
/// whole frames: the cut frame is kept as unfinished input, and nothing is
/// reported as corrupt.
pub proof fn lemma_split_truncated_stream(payloads: Seq<Seq<u8>>, last: Seq<u8>, cut: int)
    requires
        all_fit(payloads),
        last.len() <= MAX_FRAME_LEN,
        0 <= cut < frame(last).len(),
    ensures
        split(frames(payloads) + frame(last).subrange(0, cut)) == (Split {
            payloads,
            rest: frame(last).subrange(0, cut),
            too_long: false,
        }),
{
    let part = frame(last).subrange(0, cut);
    lemma_truncated_frame(last, cut);
    lemma_split_frames(payloads, part);
    assert(payloads + Seq::<Seq<u8>>::empty() =~= payloads);
}

/// Where the frame at the front of a buffer lies.
#[derive(Clone, Copy, Debug, PartialEq, Eq)]
pub enum Peek {
    /// A whole frame: its payload runs from `start` up to `end`, where the
    /// next frame begins.
    Complete { start: usize, end: usize },
    /// Not yet a whole frame.
    Incomplete,
    /// A header that announces more than [`MAX_FRAME_LEN`] bytes.
    TooLong,
}

/// Looks at what stands in `buf` from position `at` on.
pub fn peek_frame(buf: &[u8], at: usize) -> (peek: Peek)
    requires
        at <= buf@.len(),
    ensures
        match frame_head(buf@.skip(at as int)) {
            FrameHead::Complete { payload, rest } => peek matches Peek::Complete { start, end }
                && at + LEN_BYTES == start && start <= end <= buf@.len()
                && payload == buf@.subrange(start as int, end as int)
                && rest == buf@.skip(end as int),
            FrameHead::Incomplete => peek == Peek::Incomplete,
            FrameHead::TooLong => peek == Peek::TooLong,
        },
{
    let ghost tail = buf@.skip(at as int);
    let left: usize = buf.len() - at;
    if left < LEN_BYTES {
        return Peek::Incomplete;
    }
    let announced: u32 = read_be32(buf, at);
    if announced as usize > MAX_FRAME_LEN {
        return Peek::TooLong;
    }
    let len: usize = announced as usize;
    if left - LEN_BYTES < len {
        return Peek::Incomplete;
    }
    let start: usize = at + LEN_BYTES;
    let end: usize = start + len;
    proof {
        assert(tail.subrange(LEN_BYTES as int, LEN_BYTES + len) =~= buf@.subrange(
            start as int,
            end as int,
        ));
        assert(tail.skip(LEN_BYTES + len) =~= buf@.skip(end as int));
    }
    Peek::Complete { start, end }
}

/// Builds the frame that carries `payload`, or nothing if the payload is
/// longer than a frame may be.
pub fn encode_frame(payload: &[u8]) -> (out: Option<Vec<u8>>)
    ensures
        out is Some <==> payload@.len() <= MAX_FRAME_LEN,
        out matches Some(bytes) ==> bytes@ == frame(payload@),
{
    if payload.len() > MAX_FRAME_LEN {
        return None;
    }
    let mut bytes: Vec<u8> = Vec::new();
    push_be32(&mut bytes, payload.len() as u32);
    push_all(&mut bytes, payload);
    assert(bytes@ =~= frame(payload@));
    Some(bytes)
}

} // verus!
