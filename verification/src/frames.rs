//! How the published bytes of a segment divide into frames.
//!
//! A frame is a little-endian 64-bit length followed by that many payload
//! bytes. The published bytes are those at logical offsets from `head` up to
//! `tail`; they are well framed when they divide exactly into frames.

use vstd::prelude::*;
use vstd::bytes::*;
use vstd::arithmetic::div_mod::*;
use crate::layout::{capacity_of, copy_out, slot, window, HEADER_SIZE, PREFIX_WIDTH};

verus! {

/// The payload length announced by the prefix at logical offset `at`.
pub open spec fn frame_len(seg: Seq<u8>, at: int) -> nat {
    spec_u64_from_le_bytes(window(seg, at, PREFIX_WIDTH as nat)) as nat
}

/// The logical offset just past the frame that starts at `at`.
pub open spec fn frame_end(seg: Seq<u8>, at: int) -> int {
    at + PREFIX_WIDTH + frame_len(seg, at)
}

/// Whether the bytes from `head` up to `tail` divide exactly into frames.
pub open spec fn framed(seg: Seq<u8>, head: int, tail: int) -> bool
    decreases tail - head,
{
    if head >= tail {
        head == tail
    } else {
        frame_end(seg, head) <= tail && framed(seg, frame_end(seg, head), tail)
    }
}

/// The payloads of the frames from `head` up to `tail`, oldest first.
pub open spec fn frames(seg: Seq<u8>, head: int, tail: int) -> Seq<Seq<u8>>
    decreases tail - head,
{
    if head >= tail || frame_end(seg, head) > tail {
        Seq::empty()
    } else {
        seq![window(seg, head + PREFIX_WIDTH, frame_len(seg, head))] + frames(
            seg,
            frame_end(seg, head),
            tail,
        )
    }
}

/// The bytes that a queue of payloads takes up once each has its prefix.
pub open spec fn footprint(queue: Seq<Seq<u8>>) -> int
    decreases queue.len(),
{
    if queue.len() == 0 {
        0
    } else {
        PREFIX_WIDTH + queue[0].len() + footprint(queue.drop_first())
    }
}

/// Two segments of one size that agree on a run of logical offsets show the
/// same window over any part of that run.
pub proof fn lemma_window_agrees(a: Seq<u8>, b: Seq<u8>, from: int, to: int, start: int, len: nat)
    requires
        a.len() == b.len(),
        forall|x: int| from <= x < to ==> a[slot(capacity_of(a), x)] == b[slot(capacity_of(b), x)],
        from <= start,
        start + len <= to,
    ensures
        window(a, start, len) == window(b, start, len),
{
    assert forall|i: int| 0 <= i < len implies window(a, start, len)[i] == window(
        b,
        start,
        len,
    )[i] by {
        assert(from <= start + i < to);
    }
    assert(window(a, start, len) =~= window(b, start, len));
}

/// A window read one whole lap later shows the same bytes.
pub proof fn lemma_window_lap(seg: Seq<u8>, start: int, len: nat)
    requires
        capacity_of(seg) > 0,
    ensures
        window(seg, start + capacity_of(seg), len) == window(seg, start, len),
{
    let capacity = capacity_of(seg);
    assert forall|i: int| 0 <= i < len implies #[trigger] window(seg, start + capacity, len)[i]
        == window(seg, start, len)[i] by {
        lemma_mod_add_multiples_vanish(start + i, capacity);
        assert(capacity + (start + i) == start + capacity + i);
    }
    assert(window(seg, start + capacity, len) =~= window(seg, start, len));
}

/// A window splits into its first `cut` bytes and the rest.
pub proof fn lemma_window_split(seg: Seq<u8>, start: int, len: nat, cut: nat)
    requires
        0 <= cut <= len,
    ensures
        window(seg, start, len) == window(seg, start, cut) + window(
            seg,
            start + cut,
            (len - cut) as nat,
        ),
        window(seg, start, len).subrange(0, cut as int) == window(seg, start, cut),
        window(seg, start, len).subrange(cut as int, len as int) == window(
            seg,
            start + cut,
            (len - cut) as nat,
        ),
{
    let whole = window(seg, start, len);
    let left = window(seg, start, cut);
    let right = window(seg, start + cut, (len - cut) as nat);
    assert forall|i: int| cut <= i < len implies whole[i] == right[i - cut] by {
        assert(start + cut + (i - cut) == start + i);
    }
    assert(whole =~= left + right);
    assert(whole.subrange(0, cut as int) =~= left);
    assert(whole.subrange(cut as int, len as int) =~= right);
}

/// Framing depends only on the published bytes: two segments of one size that
/// agree from `head` up to `tail` are framed alike and hold the same payloads.
pub proof fn lemma_frames_agree(a: Seq<u8>, b: Seq<u8>, head: int, tail: int, floor: int)
    requires
        a.len() == b.len(),
        floor <= head,
        forall|x: int| floor <= x < tail ==> a[slot(capacity_of(a), x)] == b[slot(capacity_of(b), x)],
    ensures
        framed(a, head, tail) == framed(b, head, tail),
        framed(a, head, tail) ==> frames(a, head, tail) == frames(b, head, tail),
    decreases tail - head,
{
    if head < tail {
        if head + PREFIX_WIDTH <= tail {
            lemma_window_agrees(a, b, floor, tail, head, PREFIX_WIDTH as nat);
            let next = frame_end(a, head);
            assert(next == frame_end(b, head));
            if next <= tail {
                lemma_window_agrees(a, b, floor, tail, head + PREFIX_WIDTH, frame_len(a, head));
                lemma_frames_agree(a, b, next, tail, floor);
            }
        }
    }
}

/// A well-framed run followed by one more frame is well framed, and its
/// payloads are those of the run followed by the payload of that frame.
pub proof fn lemma_frames_append(seg: Seq<u8>, head: int, tail: int)
    requires
        framed(seg, head, tail),
    ensures
        framed(seg, head, frame_end(seg, tail)),
        frames(seg, head, frame_end(seg, tail)) == frames(seg, head, tail).push(
            window(seg, tail + PREFIX_WIDTH, frame_len(seg, tail)),
        ),
    decreases tail - head,
{
    let end = frame_end(seg, tail);
    let last = window(seg, tail + PREFIX_WIDTH, frame_len(seg, tail));
    if head >= tail {
        assert(framed(seg, end, end));
        assert(frames(seg, end, end) =~= Seq::<Seq<u8>>::empty());
        assert(frames(seg, head, end) =~= frames(seg, head, tail).push(last));
    } else {
        let next = frame_end(seg, head);
        lemma_frames_append(seg, next, tail);
        assert(frames(seg, head, end) =~= frames(seg, head, tail).push(last));
    }
}

/// The payloads of a well-framed run, with their prefixes, take up exactly the
/// bytes from `head` up to `tail`.
pub proof fn lemma_frames_footprint(seg: Seq<u8>, head: int, tail: int)
    requires
        framed(seg, head, tail),
    ensures
        footprint(frames(seg, head, tail)) == tail - head,
    decreases tail - head,
{
    if head < tail {
        let next = frame_end(seg, head);
        lemma_frames_footprint(seg, next, tail);
        let rest = frames(seg, next, tail);
        let all = frames(seg, head, tail);
        assert(all.drop_first() =~= rest);
        assert(all[0].len() == frame_len(seg, head));
    }
}

/// The logical offset just past a frame of `len` payload bytes that starts at
/// `at`: what the counter that stood at `at` becomes once the frame is
/// published or consumed. It is not reduced modulo anything.
pub fn past_frame(at: u64, len: usize) -> (end: u64)
    requires
        at + PREFIX_WIDTH + len <= u64::MAX,
    ensures
        end == at + PREFIX_WIDTH + len,
{
    at + PREFIX_WIDTH as u64 + len as u64
}

/// Reads the frame that starts at logical offset `head`, of a segment whose
/// published bytes end at `tail`. Gives the payload, or `None` where the
/// frame would run past `tail`.
pub fn read_frame(seg: &[u8], head: u64, tail: u64) -> (payload: Option<Vec<u8>>)
    requires
        seg@.len() >= HEADER_SIZE,
        head < tail,
        tail - head <= capacity_of(seg@),
    ensures
        payload is Some <==> frame_end(seg@, head as int) <= tail,
        payload is Some ==> payload.unwrap()@ == window(
            seg@,
            head + PREFIX_WIDTH,
            frame_len(seg@, head as int),
        ),
{
    let total: usize = seg.len();
    if tail - head < PREFIX_WIDTH as u64 {
        return None;
    }
    let prefix: Vec<u8> = copy_out(seg, head, PREFIX_WIDTH);
    let announced: u64 = u64_from_le_bytes(prefix.as_slice());
    if announced > tail - head - PREFIX_WIDTH as u64 {
        return None;
    }
    Some(copy_out(seg, head + PREFIX_WIDTH as u64, announced as usize))
}

/// The length prefix of a frame of `len` payload bytes: `len` as a
/// little-endian 64-bit number.
pub fn prefix_of(len: usize) -> (prefix: Vec<u8>)
    ensures
        prefix@ == spec_u64_to_le_bytes(len as u64),
        prefix@.len() == PREFIX_WIDTH,
{
    u64_to_le_bytes(len as u64)
}

} // verus!
