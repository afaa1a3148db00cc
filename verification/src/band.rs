//! The ring: a segment read as a header and a data region that wraps.

use vstd::prelude::*;
use vstd::bytes::*;
use crate::error::Error;
use crate::frames::{
    frame_end, frame_len, framed, frames, lemma_frames_agree, lemma_frames_append,
    lemma_frames_footprint, lemma_window_agrees, lemma_window_lap, lemma_window_split, past_frame, read_frame,
};
use crate::layout::{
    capacity_of, copy_in, copy_out, counter_at, head_of, lemma_overlay_at, lemma_overlay_header,
    load_counter, overlay, slot, store_counter, tail_of, window, with_counter, HEADER_SIZE,
    PREFIX_WIDTH, WORD_SIZE,
};
use crate::shm::SharedMemory;
use crate::state::ChannelState;

verus! {

/// Replacing one header counter changes that counter and nothing else.
pub proof fn lemma_with_counter(seg: Seq<u8>, at: int, value: u64)
    requires
        seg.len() >= HEADER_SIZE,
        at == 0 || at == WORD_SIZE,
    ensures
        with_counter(seg, at, value).len() == seg.len(),
        counter_at(with_counter(seg, at, value), at) == value,
        counter_at(with_counter(seg, at, value), WORD_SIZE - at) == counter_at(seg, WORD_SIZE - at),
        forall|p: int|
            HEADER_SIZE <= p < seg.len() ==> with_counter(seg, at, value)[p] == seg[p],
{
    lemma_auto_spec_u64_to_from_le_bytes();
    let after = with_counter(seg, at, value);
    assert(after.subrange(at, at + WORD_SIZE) =~= spec_u64_to_le_bytes(value));
    let other = WORD_SIZE - at;
    assert(after.subrange(other, other + WORD_SIZE) =~= seg.subrange(other, other + WORD_SIZE));
}

/// A header of zeros holds two counters that are zero.
pub proof fn lemma_zero_header(seg: Seq<u8>)
    requires
        seg.len() >= HEADER_SIZE,
        forall|p: int| 0 <= p < HEADER_SIZE ==> seg[p] == 0u8,
    ensures
        head_of(seg) == 0,
        tail_of(seg) == 0,
{
    lemma_auto_spec_u64_to_from_le_bytes();
    spec_u64_to_le_bytes_to_open(0u64);
    let zero = spec_u64_to_le_bytes(0u64);
    assert forall|i: int| 0 <= i < 8 implies zero[i] == 0u8 by {
        assert(0u64 & 0xff == 0 && (0u64 >> 8) & 0xff == 0 && (0u64 >> 16) & 0xff == 0 && (0u64
            >> 24) & 0xff == 0 && (0u64 >> 32) & 0xff == 0 && (0u64 >> 40) & 0xff == 0 && (0u64
            >> 48) & 0xff == 0 && (0u64 >> 56) & 0xff == 0) by (bit_vector);
    }
    assert(seg.subrange(0, 8) =~= zero);
    assert(seg.subrange(8, 16) =~= zero);
}

/// Whether the bytes `seg` are a segment that a ring can be attached to.
pub open spec fn attachable(seg: Seq<u8>) -> bool {
    &&& seg.len() >= HEADER_SIZE
    &&& head_of(seg) <= tail_of(seg)
    &&& tail_of(seg) - head_of(seg) <= capacity_of(seg)
    &&& framed(seg, head_of(seg) as int, tail_of(seg) as int)
}

/// What the `System` error says of a segment shorter than the header.
pub const TOO_SHORT: &'static str = "segment is shorter than its header";

/// What the `System` error says of counters that are out of order or too far
/// apart.
pub const OUT_OF_RANGE: &'static str = "segment counters are out of range";

/// What the `System` error says of published bytes that end inside a frame.
pub const TORN: &'static str = "segment ends inside a frame";

/// Why a ring cannot be attached to the bytes `seg`, where it cannot.
pub open spec fn refusal(seg: Seq<u8>) -> Seq<char> {
    if seg.len() < HEADER_SIZE {
        TOO_SHORT@
    } else if head_of(seg) > tail_of(seg) || tail_of(seg) - head_of(seg) > capacity_of(seg) {
        OUT_OF_RANGE@
    } else {
        TORN@
    }
}

/// The size of the segment that carries a data region of `capacity` bytes.
/// A segment larger than the largest signed word is refused as `TooBig`.
pub fn segment_len(capacity: usize) -> (total: Result<usize, Error>)
    ensures
        capacity + HEADER_SIZE > isize::MAX ==> total == Err::<usize, Error>(Error::TooBig),
        capacity + HEADER_SIZE <= isize::MAX ==> total == Ok::<usize, Error>(
            (capacity + HEADER_SIZE) as usize,
        ),
{
    if capacity > isize::MAX as usize - HEADER_SIZE {
        return Err(Error::TooBig);
    }
    Ok(capacity + HEADER_SIZE)
}

/// Looks at the size of a segment and at its two counters: gives the size of
/// the data region where the segment holds the header and the counters are in
/// order and no further apart than the data region holds, and a `System`
/// error that says which of these fails otherwise.
pub fn survey(total: usize, head: u64, tail: u64) -> (capacity: Result<usize, Error>)
    ensures
        capacity is Ok <==> total >= HEADER_SIZE && head <= tail && tail - head <= total
            - HEADER_SIZE,
        capacity is Ok ==> capacity->Ok_0 == total - HEADER_SIZE,
        capacity is Err ==> capacity->Err_0 is System && capacity->Err_0->System_0@ == (if total
            < HEADER_SIZE {
            TOO_SHORT@
        } else {
            OUT_OF_RANGE@
        }),
{
    if total < HEADER_SIZE {
        return Err(Error::System(TOO_SHORT.to_owned()));
    }
    let capacity: usize = total - HEADER_SIZE;
    if head > tail || tail - head > capacity as u64 {
        return Err(Error::System(OUT_OF_RANGE.to_owned()));
    }
    Ok(capacity)
}

/// A segment read as a ring.
pub struct RubberBand {
    shm: SharedMemory,
}

impl View for RubberBand {
    type V = ChannelState;

    open spec fn view(&self) -> ChannelState {
        ChannelState {
            capacity: self.spec_capacity() as nat,
            head: self.spec_head() as nat,
            tail: self.spec_tail() as nat,
            queue: frames(self.bytes(), self.spec_head() as int, self.spec_tail() as int),
            free: window(
                self.bytes(),
                self.spec_tail() as int,
                (self.spec_capacity() - (self.spec_tail() - self.spec_head())) as nat,
            ),
        }
    }
}

impl RubberBand {
    /// Every byte of the segment, header first.
    pub closed spec fn bytes(&self) -> Seq<u8> {
        self.shm@
    }

    /// Size of the data region.
    pub open spec fn spec_capacity(&self) -> int {
        capacity_of(self.bytes())
    }

    /// The consumer's counter.
    pub open spec fn spec_head(&self) -> u64 {
        head_of(self.bytes())
    }

    /// The producer's counter.
    pub open spec fn spec_tail(&self) -> u64 {
        tail_of(self.bytes())
    }

    /// The invariant of the ring: the header is there, the producer is ahead
    /// of the consumer by no more than the data region holds, and the bytes
    /// between them divide exactly into frames.
    pub open spec fn wf(&self) -> bool {
        attachable(self.bytes())
    }

    /// A well-formed ring shows a well-formed channel.
    pub proof fn lemma_view_wf(&self)
        requires
            self.wf(),
        ensures
            self@.wf(),
            self@.used() == self.spec_tail() - self.spec_head(),
            self@.capacity == self.spec_capacity(),
    {
        lemma_frames_footprint(self.bytes(), self.spec_head() as int, self.spec_tail() as int);
    }

    /// Size of the data region in bytes.
    pub fn capacity(&self) -> (capacity: usize)
        requires
            self.wf(),
        ensures
            capacity == self@.capacity,
    {
        self.shm.len() - HEADER_SIZE
    }

    /// The consumer's counter: bytes consumed so far.
    pub fn head(&self) -> (head: u64)
        requires
            self.wf(),
        ensures
            head == self@.head,
    {
        load_counter(self.shm.as_ptr(), 0)
    }

    /// The producer's counter: bytes published so far.
    pub fn tail(&self) -> (tail: u64)
        requires
            self.wf(),
        ensures
            tail == self@.tail,
    {
        load_counter(self.shm.as_ptr(), WORD_SIZE)
    }

    /// Makes a ring over a new zero-filled segment with a data region of
    /// `capacity` bytes. A segment larger than the largest signed word is
    /// refused as `TooBig`.
    pub fn create(capacity: usize) -> (made: Result<RubberBand, Error>)
        ensures
            capacity + HEADER_SIZE > isize::MAX ==> made == Err::<RubberBand, Error>(Error::TooBig),
            capacity + HEADER_SIZE <= isize::MAX ==> made is Ok && made->Ok_0.wf() && made->Ok_0@
                == ChannelState::fresh(capacity as nat),
    {
        match segment_len(capacity) {
            Ok(_) => {},
            Err(e) => {
                return Err(e);
            },
        }
        let shm = match SharedMemory::create(capacity) {
            Ok(shm) => shm,
            Err(e) => {
                return Err(e);
            },
        };
        let band = RubberBand { shm };
        proof {
            lemma_zero_header(band.bytes());
            assert(band@.queue =~= ChannelState::fresh(capacity as nat).queue);
            assert(band@.free =~= ChannelState::fresh(capacity as nat).free);
        }
        Ok(band)
    }

    /// Attaches to an existing segment. A segment that is too short for the
    /// header, whose counters are out of order or further apart than the data
    /// region holds, or whose published bytes do not divide into frames, is
    /// refused as a `System` error.
    pub fn open(shm: SharedMemory) -> (made: Result<RubberBand, Error>)
        ensures
            made is Ok <==> attachable(shm@),
            made is Ok ==> made->Ok_0.bytes() == shm@ && made->Ok_0.wf(),
            made is Err ==> made->Err_0 is System && made->Err_0->System_0@ == refusal(shm@),
    {
        let total: usize = shm.len();
        let head: u64 = if total >= HEADER_SIZE {
            load_counter(shm.as_ptr(), 0)
        } else {
            0
        };
        let tail: u64 = if total >= HEADER_SIZE {
            load_counter(shm.as_ptr(), WORD_SIZE)
        } else {
            0
        };
        let capacity: usize = match survey(total, head, tail) {
            Ok(capacity) => capacity,
            Err(e) => {
                return Err(e);
            },
        };
        let mut at: u64 = head;
        while at < tail
            invariant
                head == head_of(shm@),
                tail == tail_of(shm@),
                head <= at <= tail,
                tail - head <= capacity,
                capacity + HEADER_SIZE == shm@.len(),
                framed(shm@, head as int, tail as int) == framed(shm@, at as int, tail as int),
            decreases tail - at,
        {
            match read_frame(shm.as_ptr(), at, tail) {
                Some(payload) => {
                    at = past_frame(at, payload.len());
                },
                None => {
                    return Err(Error::System(TORN.to_owned()));
                },
            }
        }
        Ok(RubberBand { shm })
    }

    /// Copies `len` data bytes out of the ring, from logical offset `start` on.
    pub fn read(&self, start: u64, len: usize) -> (bytes: Vec<u8>)
        requires
            self.wf(),
            len <= self@.capacity,
        ensures
            bytes@ == window(self.bytes(), start as int, len as nat),
    {
        if len == 0 {
            let bytes: Vec<u8> = Vec::new();
            assert(bytes@ =~= window(self.bytes(), start as int, 0));
            return bytes;
        }
        copy_out(self.shm.as_ptr(), start, len)
    }

    /// Copies `bytes` into the free room of the ring, from logical offset
    /// `start` on. What is published, and the two counters, stay as they are.
    pub fn write(&mut self, start: u64, bytes: &[u8])
        requires
            old(self).wf(),
            old(self)@.tail <= start,
            start + bytes@.len() <= old(self)@.head + old(self)@.capacity,
        ensures
            final(self).wf(),
            final(self)@ == old(self)@.patched((start - old(self)@.tail) as nat, bytes@),
            final(self).bytes() == overlay(old(self).bytes(), start as int, bytes@),
    {
        if bytes.len() == 0 {
            proof {
                assert(self@.free =~= self@.patched((start - self@.tail) as nat, bytes@).free);
                assert(self.bytes() =~= overlay(self.bytes(), start as int, bytes@));
            }
            return ;
        }
        let ghost before = self.bytes();
        let ghost head = self.spec_head() as int;
        let ghost tail = self.spec_tail() as int;
        let ghost capacity = self.spec_capacity();
        copy_in(self.shm.as_mut_ptr(), start, bytes);
        proof {
            let after = self.bytes();
            lemma_overlay_header(before, start as int, bytes@);
            assert forall|x: int| head <= x < tail + (capacity - (tail - head)) implies after[slot(
                capacity,
                x,
            )] == if 0 <= x - start < bytes@.len() {
                bytes@[x - start]
            } else {
                before[slot(capacity, x)]
            } by {
                lemma_overlay_at(before, start as int, bytes@, x);
            }
            lemma_frames_agree(before, after, head, tail, head);
            let at = (start - tail) as nat;
            assert(self@.free =~= old(self)@.patched(at, bytes@).free) by {
                assert forall|i: int| 0 <= i < capacity - (tail - head) implies self@.free[i]
                    == old(self)@.patched(at, bytes@).free[i] by {
                    assert(head <= tail + i < tail + (capacity - (tail - head)));
                }
            }
        }
    }

    /// Publishes the frame that starts at `tail`: moves `tail` past its prefix
    /// and its `len` payload bytes. The prefix must already announce `len`.
    pub fn publish(&mut self, len: usize)
        requires
            old(self).wf(),
            old(self)@.admits(len as nat),
            old(self)@.announced() == len,
        ensures
            final(self).wf(),
            final(self)@ == old(self)@.committed(len as nat),
    {
        let ghost before = self.bytes();
        let ghost head = self.spec_head() as int;
        let ghost tail = self.spec_tail() as int;
        let ghost capacity = self.spec_capacity();
        let ghost room = (capacity - (tail - head)) as nat;
        let tail_now: u64 = self.tail();
        let new_tail: u64 = past_frame(tail_now, len);
        store_counter(self.shm.as_mut_ptr(), WORD_SIZE, new_tail);
        proof {
            let after = self.bytes();
            let taken = (PREFIX_WIDTH + len) as nat;
            lemma_with_counter(before, WORD_SIZE as int, new_tail);
            lemma_window_split(before, tail, room, PREFIX_WIDTH as nat);
            assert(frame_len(before, tail) == len);
            lemma_frames_append(before, head, tail);
            lemma_frames_agree(before, after, head, new_tail as int, head);
            lemma_window_split(before, tail, room, taken);
            lemma_window_split(before, tail, taken, PREFIX_WIDTH as nat);
            assert(old(self)@.staged(len as nat) =~= window(
                before,
                tail + PREFIX_WIDTH,
                len as nat,
            ));
            lemma_window_agrees(
                before,
                after,
                new_tail as int,
                new_tail + (room - taken),
                new_tail as int,
                (room - taken) as nat,
            );
            assert(self@.free =~= old(self)@.committed(len as nat).free);
        }
    }

    /// Takes the oldest frame out of the ring: copies its payload, then moves
    /// `head` past it.
    pub fn consume(&mut self) -> (payload: Vec<u8>)
        requires
            old(self).wf(),
            old(self)@.head < old(self)@.tail,
        ensures
            final(self).wf(),
            old(self)@.queue.len() > 0,
            payload@ == old(self)@.queue[0],
            final(self)@ == old(self)@.received(),
    {
        let ghost before = self.bytes();
        let ghost head = self.spec_head() as int;
        let ghost tail = self.spec_tail() as int;
        let ghost capacity = self.spec_capacity();
        let ghost room = (capacity - (tail - head)) as nat;
        let head_now: u64 = self.head();
        let tail_now: u64 = self.tail();
        assert(frame_end(before, head) <= tail);
        let payload: Vec<u8> = read_frame(self.shm.as_ptr(), head_now, tail_now).unwrap();
        let len: usize = payload.len();
        let new_head: u64 = past_frame(head_now, len);
        store_counter(self.shm.as_mut_ptr(), 0, new_head);
        proof {
            let after = self.bytes();
            let taken = (PREFIX_WIDTH + len) as nat;
            lemma_with_counter(before, 0, new_head);
            lemma_frames_agree(before, after, new_head as int, tail, head);
            assert(old(self)@.queue.drop_first() =~= frames(before, new_head as int, tail));
            lemma_window_agrees(before, after, tail, tail + room + taken, tail, room + taken);
            lemma_window_split(before, tail, room + taken, room);
            lemma_window_lap(before, head, taken);
            lemma_window_split(before, head, taken, PREFIX_WIDTH as nat);
            lemma_auto_spec_u64_to_from_le_bytes();
            assert(self@.free =~= old(self)@.received().free);
        }
        payload
    }

    /// Gives the segment back.
    pub fn into_shared_memory(self) -> (shm: SharedMemory)
        ensures
            shm@ == self.bytes(),
    {
        self.shm
    }
}

} // verus!
