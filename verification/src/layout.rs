//! Byte layout of a segment and wrap-safe access to its data region.
//!
//! A segment is one flat run of bytes. Its first [`HEADER_SIZE`] bytes hold two
//! little-endian 64-bit counters, `head` at offset 0 and `tail` at offset
//! [`WORD_SIZE`]. Everything after the header is the data region, which is only
//! ever addressed by a logical offset taken modulo the region's size.

use vstd::prelude::*;
use vstd::bytes::*;
use vstd::arithmetic::div_mod::*;

verus! {

/// Width in bytes of one header counter.
pub const WORD_SIZE: usize = 8;

/// Width in bytes of the header: the `head` counter followed by the `tail` counter.
pub const HEADER_SIZE: usize = 16;

/// Width in bytes of the little-endian length that precedes every payload.
pub const PREFIX_WIDTH: usize = 8;

/// Size of the data region of a segment holding the bytes `seg`.
pub open spec fn capacity_of(seg: Seq<u8>) -> int {
    seg.len() - HEADER_SIZE
}

/// Position inside the segment of the data byte at logical offset `offset`.
pub open spec fn slot(capacity: int, offset: int) -> int {
    HEADER_SIZE + offset % capacity
}

/// The `len` data bytes found at logical offsets `start`, `start + 1`, ...
pub open spec fn window(seg: Seq<u8>, start: int, len: nat) -> Seq<u8> {
    Seq::new(len, |i: int| seg[slot(capacity_of(seg), start + i)])
}

/// The segment `seg` after `bytes` were laid down from logical offset `start` on.
pub open spec fn overlay(seg: Seq<u8>, start: int, bytes: Seq<u8>) -> Seq<u8> {
    Seq::new(
        seg.len(),
        |p: int|
            if p >= HEADER_SIZE && (p - HEADER_SIZE - start) % capacity_of(seg) < bytes.len() {
                bytes[(p - HEADER_SIZE - start) % capacity_of(seg)]
            } else {
                seg[p]
            },
    )
}

/// The counter stored little-endian in the eight bytes of `seg` from `at` on.
pub open spec fn counter_at(seg: Seq<u8>, at: int) -> u64 {
    spec_u64_from_le_bytes(seg.subrange(at, at + WORD_SIZE))
}

/// The segment `seg` with the counter at `at` replaced by `value`.
pub open spec fn with_counter(seg: Seq<u8>, at: int, value: u64) -> Seq<u8> {
    seg.subrange(0, at) + spec_u64_to_le_bytes(value) + seg.subrange(at + WORD_SIZE, seg.len() as int)
}

/// The consumer's counter as stored in the header.
pub open spec fn head_of(seg: Seq<u8>) -> u64 {
    counter_at(seg, 0)
}

/// The producer's counter as stored in the header.
pub open spec fn tail_of(seg: Seq<u8>) -> u64 {
    counter_at(seg, WORD_SIZE as int)
}

/// Reducing an offset that is `q` whole laps plus `r` gives `r`.
pub proof fn lemma_lap(capacity: int, q: int, r: int)
    requires
        capacity > 0,
        0 <= r < capacity,
    ensures
        (q * capacity + r) % capacity == r,
{
    lemma_fundamental_div_mod_converse_mod(q * capacity + r, capacity, q, r);
}

/// Measuring a wrapped position against `start` is the same as measuring the
/// logical offset against `start`.
pub proof fn lemma_wrapped_distance(capacity: int, offset: int, start: int)
    requires
        capacity > 0,
    ensures
        (offset % capacity - start) % capacity == (offset - start) % capacity,
{
    lemma_fundamental_div_mod(offset, capacity);
    lemma_mod_multiples_vanish(offset / capacity, offset % capacity - start, capacity);
    assert(capacity * (offset / capacity) + (offset % capacity - start) == offset - start);
}

/// Where a byte laid down from `start` on lands, seen from a logical offset
/// that is less than one lap away from `start`.
pub proof fn lemma_overlay_at(seg: Seq<u8>, start: int, bytes: Seq<u8>, offset: int)
    requires
        capacity_of(seg) > 0,
        bytes.len() <= capacity_of(seg),
        bytes.len() - capacity_of(seg) <= offset - start < capacity_of(seg),
    ensures
        overlay(seg, start, bytes)[slot(capacity_of(seg), offset)] == if 0 <= offset - start
            < bytes.len() {
            bytes[offset - start]
        } else {
            seg[slot(capacity_of(seg), offset)]
        },
{
    let capacity = capacity_of(seg);
    lemma_mod_bound(offset, capacity);
    lemma_wrapped_distance(capacity, offset, start);
    if offset - start >= 0 {
        lemma_lap(capacity, 0, offset - start);
    } else {
        lemma_lap(capacity, -1, offset - start + capacity);
    }
}

/// Bytes laid down from any logical offset on, whether or not they run over
/// the end of the data region, are read back from that offset unchanged.
pub proof fn law_copy_round_trip(seg: Seq<u8>, start: int, bytes: Seq<u8>)
    requires
        seg.len() >= HEADER_SIZE,
        bytes.len() <= capacity_of(seg),
    ensures
        window(overlay(seg, start, bytes), start, bytes.len()) == bytes,
{
    let after = overlay(seg, start, bytes);
    assert forall|i: int| 0 <= i < bytes.len() implies window(after, start, bytes.len())[i]
        == bytes[i] by {
        lemma_overlay_at(seg, start, bytes, start + i);
    }
    assert(window(after, start, bytes.len()) =~= bytes);
}

/// `overlay` never touches the header and keeps the segment's size.
pub proof fn lemma_overlay_header(seg: Seq<u8>, start: int, bytes: Seq<u8>)
    requires
        seg.len() >= HEADER_SIZE,
    ensures
        overlay(seg, start, bytes).len() == seg.len(),
        overlay(seg, start, bytes).subrange(0, HEADER_SIZE as int) == seg.subrange(
            0,
            HEADER_SIZE as int,
        ),
        head_of(overlay(seg, start, bytes)) == head_of(seg),
        tail_of(overlay(seg, start, bytes)) == tail_of(seg),
{
    let after = overlay(seg, start, bytes);
    assert(after.subrange(0, HEADER_SIZE as int) =~= seg.subrange(0, HEADER_SIZE as int));
    assert(after.subrange(0, 8) =~= seg.subrange(0, 8));
    assert(after.subrange(8, 16) =~= seg.subrange(8, 16));
}

/// Turns a logical offset into an index of the data region.
pub fn wrap(capacity: usize, offset: u64) -> (index: usize)
    requires
        capacity > 0,
    ensures
        index == offset as int % capacity as int,
        index < capacity,
{
    let index: u64 = offset % (capacity as u64);
    index as usize
}

/// Reads the data byte at logical offset `offset`.
pub fn read_at(seg: &[u8], offset: u64) -> (byte: u8)
    requires
        seg@.len() > HEADER_SIZE,
    ensures
        byte == seg@[slot(capacity_of(seg@), offset as int)],
{
    let capacity: usize = seg.len() - HEADER_SIZE;
    let index: usize = wrap(capacity, offset);
    seg[HEADER_SIZE + index]
}

/// Copies `len` data bytes out of the segment, starting at logical offset
/// `start`, in at most two contiguous runs: up to the end of the data region,
/// then on from its beginning.
pub fn copy_out(seg: &[u8], start: u64, len: usize) -> (bytes: Vec<u8>)
    requires
        seg@.len() > HEADER_SIZE,
        len <= capacity_of(seg@),
    ensures
        bytes@ == window(seg@, start as int, len as nat),
{
    let total: usize = seg.len();
    let capacity: usize = total - HEADER_SIZE;
    let first: usize = wrap(capacity, start);
    let room: usize = capacity - first;
    let direct: usize = if len <= room { len } else { room };
    let mut bytes: Vec<u8> = Vec::with_capacity(len);
    let mut i: usize = 0;
    while i < direct
        invariant
            i <= direct <= room,
            direct <= len,
            first + room == capacity,
            capacity + HEADER_SIZE == total,
            total == seg@.len(),
            bytes@.len() == i,
            forall|k: int| 0 <= k < i ==> bytes@[k] == seg@[HEADER_SIZE + first + k],
        decreases direct - i,
    {
        bytes.push(seg[HEADER_SIZE + first + i]);
        i += 1;
    }
    let wrapped: usize = len - direct;
    let mut j: usize = 0;
    while j < wrapped
        invariant
            j <= wrapped,
            wrapped + direct == len,
            len <= capacity,
            capacity + HEADER_SIZE == total,
            total == seg@.len(),
            first + direct <= capacity,
            bytes@.len() == direct + j,
            forall|k: int| 0 <= k < direct ==> bytes@[k] == seg@[HEADER_SIZE + first + k],
            forall|k: int| direct <= k < direct + j ==> bytes@[k] == seg@[HEADER_SIZE + k - direct],
        decreases wrapped - j,
    {
        bytes.push(seg[HEADER_SIZE + j]);
        j += 1;
    }
    proof {
        let expected = window(seg@, start as int, len as nat);
        assert forall|k: int| 0 <= k < len implies bytes@[k] == expected[k] by {
            lemma_fundamental_div_mod(start as int, capacity as int);
            let laps = start as int / capacity as int;
            if k < direct {
                lemma_lap(capacity as int, laps, first + k);
                assert(start + k == laps * capacity + (first + k)) by (nonlinear_arith)
                    requires
                        start as int == capacity as int * laps + first as int,
                ;
            } else {
                lemma_lap(capacity as int, laps + 1, k - direct);
                assert(start + k == (laps + 1) * capacity + (k - direct)) by (nonlinear_arith)
                    requires
                        start as int == capacity as int * laps + first as int,
                        direct as int == capacity as int - first as int,
                ;
            }
        }
        assert(bytes@ =~= expected);
    }
    bytes
}

/// Copies `src` into the data region from logical offset `start` on, in at
/// most two contiguous runs: up to the end of the data region, then on from
/// its beginning. The header is not touched.
pub fn copy_in(seg: &mut [u8], start: u64, src: &[u8])
    requires
        old(seg)@.len() > HEADER_SIZE,
        src@.len() <= capacity_of(old(seg)@),
    ensures
        final(seg)@ == overlay(old(seg)@, start as int, src@),
{
    let ghost before = seg@;
    let len: usize = src.len();
    let total: usize = seg.len();
    let capacity: usize = total - HEADER_SIZE;
    let first: usize = wrap(capacity, start);
    let room: usize = capacity - first;
    let direct: usize = if len <= room { len } else { room };
    let mut i: usize = 0;
    while i < direct
        invariant
            i <= direct <= room,
            direct <= len,
            len == src@.len(),
            first + room == capacity,
            capacity + HEADER_SIZE == total,
            total == seg@.len(),
            seg@.len() == before.len(),
            forall|p: int|
                0 <= p < seg@.len() ==> seg@[p] == if HEADER_SIZE + first <= p < HEADER_SIZE + first
                    + i {
                    src@[p - HEADER_SIZE - first]
                } else {
                    before[p]
                },
        decreases direct - i,
    {
        seg[HEADER_SIZE + first + i] = src[i];
        i += 1;
    }
    let wrapped: usize = len - direct;
    let mut j: usize = 0;
    while j < wrapped
        invariant
            j <= wrapped,
            wrapped <= first,
            wrapped + direct == len,
            len == src@.len(),
            len <= capacity,
            direct <= room,
            first + room == capacity,
            capacity + HEADER_SIZE == total,
            total == seg@.len(),
            seg@.len() == before.len(),
            forall|p: int|
                0 <= p < seg@.len() ==> seg@[p] == if HEADER_SIZE + first <= p < HEADER_SIZE + first
                    + direct {
                    src@[p - HEADER_SIZE - first]
                } else if HEADER_SIZE <= p < HEADER_SIZE + j {
                    src@[direct + p - HEADER_SIZE]
                } else {
                    before[p]
                },
        decreases wrapped - j,
    {
        seg[HEADER_SIZE + j] = src[direct + j];
        j += 1;
    }
    proof {
        let expected = overlay(before, start as int, src@);
        assert forall|p: int| 0 <= p < seg@.len() implies seg@[p] == expected[p] by {
            if p >= HEADER_SIZE {
                let d = p - HEADER_SIZE;
                lemma_wrapped_distance(capacity as int, start as int, d);
                lemma_mod_bound(d - start, capacity as int);
                lemma_fundamental_div_mod(start as int, capacity as int);
                let laps = start as int / capacity as int;
                if d >= first {
                    lemma_lap(capacity as int, -laps, d - first);
                    assert(d - start == (-laps) * capacity + (d - first)) by (nonlinear_arith)
                        requires
                            start as int == capacity as int * laps + first as int,
                    ;
                } else {
                    lemma_lap(capacity as int, -laps - 1, d - first + capacity);
                    assert(d - start == (-laps - 1) * capacity + (d - first + capacity))
                        by (nonlinear_arith)
                        requires
                            start as int == capacity as int * laps + first as int,
                    ;
                }
            }
        }
        assert(seg@ =~= expected);
    }
}

/// Reads the counter stored in the eight bytes from `at` on.
pub fn load_counter(seg: &[u8], at: usize) -> (value: u64)
    requires
        at + WORD_SIZE <= seg@.len(),
    ensures
        value == counter_at(seg@, at as int),
{
    let total: usize = seg.len();
    u64_from_le_bytes(vstd::slice::slice_subrange(seg, at, at + WORD_SIZE))
}

/// Stores `value` little-endian in the eight bytes from `at` on.
pub fn store_counter(seg: &mut [u8], at: usize, value: u64)
    requires
        at + WORD_SIZE <= old(seg)@.len(),
    ensures
        final(seg)@ == with_counter(old(seg)@, at as int, value),
{
    let ghost before = seg@;
    let encoded: Vec<u8> = u64_to_le_bytes(value);
    let total: usize = seg.len();
    let mut i: usize = 0;
    while i < WORD_SIZE
        invariant
            i <= WORD_SIZE,
            encoded@.len() == WORD_SIZE,
            at + WORD_SIZE <= total,
            total == seg@.len(),
            seg@.len() == before.len(),
            forall|p: int|
                0 <= p < seg@.len() ==> seg@[p] == if at <= p < at + i {
                    encoded@[p - at]
                } else {
                    before[p]
                },
        decreases WORD_SIZE - i,
    {
        seg[at + i] = encoded[i];
        i += 1;
    }
    assert(seg@ =~= with_counter(before, at as int, value));
}

} // verus!
