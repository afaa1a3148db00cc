//! The channel as a mathematical value, and what each operation does to it.

use vstd::prelude::*;
use vstd::bytes::*;
use crate::frames::footprint;
use crate::layout::PREFIX_WIDTH;

verus! {

/// One request made of a channel.
pub enum Step {
    /// Reserve room for the payload, fill it in and commit it.
    Send(Seq<u8>),
    /// Take the oldest payload.
    Receive,
}

/// What a channel holds at one moment.
pub struct ChannelState {
    /// Size of the data region in bytes; fixed for the life of the segment.
    pub capacity: nat,
    /// Bytes consumed so far; never reduced.
    pub head: nat,
    /// Bytes published so far; never reduced.
    pub tail: nat,
    /// The payloads published and not yet consumed, oldest first.
    pub queue: Seq<Seq<u8>>,
    /// The bytes of the unpublished part of the data region, in logical order
    /// from `tail` on.
    pub free: Seq<u8>,
}

impl ChannelState {
    /// Bytes published and not yet consumed, prefixes included.
    pub open spec fn used(self) -> int {
        self.tail - self.head
    }

    /// Bytes that a new frame may take.
    pub open spec fn available(self) -> int {
        self.capacity - self.used()
    }

    /// The invariant of every channel.
    pub open spec fn wf(self) -> bool {
        &&& self.head <= self.tail <= u64::MAX
        &&& self.used() <= self.capacity
        &&& footprint(self.queue) == self.used()
        &&& self.free.len() == self.available()
    }

    /// A channel of the given size on which nothing was ever published.
    pub open spec fn fresh(capacity: nat) -> ChannelState {
        ChannelState {
            capacity,
            head: 0,
            tail: 0,
            queue: Seq::empty(),
            free: Seq::new(capacity, |i: int| 0u8),
        }
    }

    /// A payload of `size` bytes can never be framed in this channel.
    pub open spec fn too_big(self, size: nat) -> bool {
        size + PREFIX_WIDTH > self.capacity
    }

    /// A payload of `size` bytes would fit the channel, but not its free room.
    pub open spec fn full(self, size: nat) -> bool {
        !self.too_big(size) && size + PREFIX_WIDTH > self.available()
    }

    /// There is room for a payload of `size` bytes, but publishing it would
    /// take `tail` past what a 64-bit counter can hold.
    pub open spec fn exhausted(self, size: nat) -> bool {
        !self.too_big(size) && !self.full(size) && self.tail + PREFIX_WIDTH + size > u64::MAX
    }

    /// A reservation of `size` payload bytes is granted.
    pub open spec fn admits(self, size: nat) -> bool {
        size + PREFIX_WIDTH <= self.available() && self.tail + PREFIX_WIDTH + size <= u64::MAX
    }

    /// The channel after `bytes` were written into its free room, `at` bytes
    /// past `tail`.
    pub open spec fn patched(self, at: nat, bytes: Seq<u8>) -> ChannelState {
        ChannelState {
            free: Seq::new(
                self.free.len(),
                |i: int|
                    if at <= i < at + bytes.len() {
                        bytes[i - at]
                    } else {
                        self.free[i]
                    },
            ),
            ..self
        }
    }

    /// The channel after `bytes` were written into the reserved payload area,
    /// `at` bytes from its start.
    pub open spec fn filled(self, at: nat, bytes: Seq<u8>) -> ChannelState {
        self.patched(PREFIX_WIDTH as nat + at, bytes)
    }

    /// The length that the prefix at `tail` announces at present.
    pub open spec fn announced(self) -> nat {
        spec_u64_from_le_bytes(self.free.subrange(0, PREFIX_WIDTH as int)) as nat
    }

    /// The first `len` bytes of the reserved payload area.
    pub open spec fn staged(self, len: nat) -> Seq<u8> {
        self.free.subrange(PREFIX_WIDTH as int, PREFIX_WIDTH + len)
    }

    /// The channel after a reservation was committed with `len` payload bytes.
    pub open spec fn committed(self, len: nat) -> ChannelState {
        ChannelState {
            tail: (self.tail + PREFIX_WIDTH + len) as nat,
            queue: self.queue.push(self.staged(len)),
            free: self.free.skip(PREFIX_WIDTH + len),
            ..self
        }
    }

    /// The channel after its oldest payload was consumed.
    pub open spec fn received(self) -> ChannelState
        recommends
            self.queue.len() > 0,
    {
        ChannelState {
            head: (self.head + PREFIX_WIDTH + self.queue[0].len()) as nat,
            queue: self.queue.drop_first(),
            free: self.free + spec_u64_to_le_bytes(self.queue[0].len() as u64) + self.queue[0],
            ..self
        }
    }

    /// The channel after one request: a payload that is granted room joins
    /// the back of the queue, a receive takes the front of a queue that is
    /// not empty, and a request that cannot be met changes nothing.
    pub open spec fn step(self, step: Step) -> ChannelState {
        match step {
            Step::Send(payload) => if self.admits(payload.len()) {
                self.filled(0, payload).committed(payload.len())
            } else {
                self
            },
            Step::Receive => if self.queue.len() > 0 {
                self.received()
            } else {
                self
            },
        }
    }

    /// The payload that a request adds to the channel, if it adds one.
    pub open spec fn taken_in(self, step: Step) -> Seq<Seq<u8>> {
        match step {
            Step::Send(payload) => if self.admits(payload.len()) {
                seq![payload]
            } else {
                Seq::empty()
            },
            Step::Receive => Seq::empty(),
        }
    }

    /// The payload that a request hands out of the channel, if it hands one
    /// out.
    pub open spec fn handed_out(self, step: Step) -> Seq<Seq<u8>> {
        match step {
            Step::Send(payload) => Seq::empty(),
            Step::Receive => if self.queue.len() > 0 {
                seq![self.queue[0]]
            } else {
                Seq::empty()
            },
        }
    }

    /// The channel after a run of requests, made in order.
    pub open spec fn replay(self, steps: Seq<Step>) -> ChannelState
        decreases steps.len(),
    {
        if steps.len() == 0 {
            self
        } else {
            self.step(steps[0]).replay(steps.drop_first())
        }
    }

    /// The payloads that a run of requests added to the channel, in order.
    pub open spec fn accepted(self, steps: Seq<Step>) -> Seq<Seq<u8>>
        decreases steps.len(),
    {
        if steps.len() == 0 {
            Seq::empty()
        } else {
            self.taken_in(steps[0]) + self.step(steps[0]).accepted(steps.drop_first())
        }
    }

    /// The payloads that a run of requests handed out of the channel, in
    /// order.
    pub open spec fn delivered(self, steps: Seq<Step>) -> Seq<Seq<u8>>
        decreases steps.len(),
    {
        if steps.len() == 0 {
            Seq::empty()
        } else {
            self.handed_out(steps[0]) + self.step(steps[0]).delivered(steps.drop_first())
        }
    }

    /// The channel after its `count` oldest payloads were consumed.
    pub open spec fn drained(self, count: nat) -> ChannelState
        decreases count,
    {
        if count == 0 {
            self
        } else {
            self.received().drained((count - 1) as nat)
        }
    }
}

/// Appending a payload to a queue adds its framed size to the footprint.
pub proof fn lemma_footprint_push(queue: Seq<Seq<u8>>, payload: Seq<u8>)
    ensures
        footprint(queue.push(payload)) == footprint(queue) + PREFIX_WIDTH + payload.len(),
    decreases queue.len(),
{
    let longer = queue.push(payload);
    if queue.len() == 0 {
        assert(longer.drop_first() =~= Seq::<Seq<u8>>::empty());
        assert(footprint(longer.drop_first()) == 0);
    } else {
        assert(longer.drop_first() =~= queue.drop_first().push(payload));
        lemma_footprint_push(queue.drop_first(), payload);
    }
}

/// An empty queue is the only one with no footprint.
pub proof fn lemma_footprint_zero(queue: Seq<Seq<u8>>)
    ensures
        footprint(queue) >= 0,
        footprint(queue) == 0 <==> queue.len() == 0,
    decreases queue.len(),
{
    if queue.len() > 0 {
        lemma_footprint_zero(queue.drop_first());
    }
}

/// A fresh channel is well formed and empty.
pub proof fn law_fresh(capacity: nat)
    ensures
        ChannelState::fresh(capacity).wf(),
        ChannelState::fresh(capacity).used() == 0,
        ChannelState::fresh(capacity).queue.len() == 0,
{
}

/// Writing into the reserved area keeps the channel well formed and changes
/// neither the counters nor what is published.
pub proof fn law_fill_keeps(s: ChannelState, at: nat, bytes: Seq<u8>)
    requires
        s.wf(),
    ensures
        s.filled(at, bytes).wf(),
        s.filled(at, bytes).head == s.head,
        s.filled(at, bytes).tail == s.tail,
        s.filled(at, bytes).queue == s.queue,
{
}

/// Committing a granted reservation keeps the channel well formed.
pub proof fn law_commit_keeps(s: ChannelState, len: nat)
    requires
        s.wf(),
        s.admits(len),
    ensures
        s.committed(len).wf(),
        s.committed(len).used() == s.used() + PREFIX_WIDTH + len,
{
    lemma_footprint_push(s.queue, s.staged(len));
}

/// Consuming the oldest payload keeps the channel well formed and frees the
/// bytes of its frame.
pub proof fn law_receive_keeps(s: ChannelState)
    requires
        s.wf(),
        s.queue.len() > 0,
    ensures
        s.received().wf(),
        s.received().available() == s.available() + PREFIX_WIDTH + s.queue[0].len(),
{
    lemma_footprint_zero(s.queue.drop_first());
    lemma_auto_spec_u64_to_from_le_bytes();
}

/// A channel is empty exactly when its two counters are equal.
pub proof fn law_empty_iff_counters_meet(s: ChannelState)
    requires
        s.wf(),
    ensures
        s.queue.len() == 0 <==> s.head == s.tail,
{
    lemma_footprint_zero(s.queue);
}

/// A payload that fits the channel's size, written into an empty channel and
/// committed, is what the next receive yields, byte for byte; the channel is
/// then empty again.
pub proof fn law_round_trip(s: ChannelState, payload: Seq<u8>)
    requires
        s.wf(),
        s.queue.len() == 0,
        payload.len() + PREFIX_WIDTH <= s.capacity,
        s.tail + PREFIX_WIDTH + payload.len() <= u64::MAX,
    ensures
        s.admits(payload.len()),
        s.filled(0, payload).committed(payload.len()).queue.len() == 1,
        s.filled(0, payload).committed(payload.len()).queue[0] == payload,
        s.filled(0, payload).committed(payload.len()).received().queue.len() == 0,
        s.filled(0, payload).committed(payload.len()).received().head == s.filled(
            0,
            payload,
        ).committed(payload.len()).received().tail,
{
    lemma_footprint_zero(s.queue);
    let staged = s.filled(0, payload).staged(payload.len());
    assert(staged =~= payload);
}

/// A payload that cannot fit the channel's size is too big in every state of
/// a channel of that size.
pub proof fn law_too_big_in_every_state(s: ChannelState, t: ChannelState, size: nat)
    requires
        s.wf(),
        t.wf(),
        s.capacity == t.capacity,
    ensures
        s.too_big(size) == t.too_big(size),
        s.too_big(size) ==> !s.admits(size) && !s.full(size) && !s.exhausted(size),
{
}

/// Every request meets exactly one of the four outcomes of a reservation.
pub proof fn law_outcomes_partition(s: ChannelState, size: nat)
    requires
        s.wf(),
    ensures
        s.admits(size) || s.too_big(size) || s.full(size) || s.exhausted(size),
        !(s.admits(size) && s.too_big(size)),
        !(s.admits(size) && s.full(size)),
        !(s.admits(size) && s.exhausted(size)),
        !(s.too_big(size) && s.full(size)),
        !(s.too_big(size) && s.exhausted(size)),
        !(s.full(size) && s.exhausted(size)),
{
}

/// With every byte in use, one more byte is refused as `Full`; once frames
/// that take up at least that byte and its prefix have been consumed, the
/// same request is granted, at the place where `tail` still stands.
pub proof fn law_full_then_room(s: ChannelState, count: nat)
    requires
        s.wf(),
        s.used() == s.capacity,
        s.capacity >= PREFIX_WIDTH + 1,
        count <= s.queue.len(),
        footprint(s.queue.subrange(0, count as int)) >= PREFIX_WIDTH + 1,
        s.tail + PREFIX_WIDTH + 1 <= u64::MAX,
    ensures
        s.full(1),
        s.drained(count).wf(),
        s.drained(count).tail == s.tail,
        s.drained(count).available() == footprint(s.queue.subrange(0, count as int)),
        s.drained(count).admits(1),
{
    law_drain_in_order(s, count);
}

/// Two payloads committed one after the other are received in that order.
pub proof fn law_fifo(s: ChannelState, first: Seq<u8>, second: Seq<u8>)
    requires
        s.wf(),
        s.queue.len() == 0,
        s.admits(first.len()),
        s.filled(0, first).committed(first.len()).admits(second.len()),
    ensures
        ({
            let one = s.filled(0, first).committed(first.len());
            let two = one.filled(0, second).committed(second.len());
            &&& two.queue.len() == 2
            &&& two.queue[0] == first
            &&& two.received().queue.len() == 1
            &&& two.received().queue[0] == second
            &&& two.received().received().queue.len() == 0
        }),
{
    let one = s.filled(0, first).committed(first.len());
    let two = one.filled(0, second).committed(second.len());
    assert(s.filled(0, first).staged(first.len()) =~= first);
    assert(one.filled(0, second).staged(second.len()) =~= second);
}

/// Consuming `count` payloads takes them from the front of the queue in the
/// order in which they were published, whatever offsets their frames lie at,
/// and leaves the later ones as they are.
pub proof fn law_drain_in_order(s: ChannelState, count: nat)
    requires
        s.wf(),
        count <= s.queue.len(),
    ensures
        s.drained(count).wf(),
        s.drained(count).queue == s.queue.skip(count as int),
        s.drained(count).tail == s.tail,
        s.drained(count).capacity == s.capacity,
        s.drained(count).head == s.head + footprint(s.queue.subrange(0, count as int)),
        forall|k: nat| k < count ==> (#[trigger] s.drained(k)).queue.len() > 0 && s.drained(
            k,
        ).queue[0] == s.queue[k as int],
    decreases count,
{
    if count == 0 {
        assert(s.queue.skip(0) =~= s.queue);
        assert(s.queue.subrange(0, 0) =~= Seq::<Seq<u8>>::empty());
    } else {
        law_receive_keeps(s);
        let next = s.received();
        law_drain_in_order(next, (count - 1) as nat);
        assert(s.queue.subrange(0, count as int).drop_first() =~= next.queue.subrange(
            0,
            count - 1,
        ));
        assert(next.queue.skip(count - 1) =~= s.queue.skip(count as int));
        assert forall|k: nat| k < count implies (#[trigger] s.drained(k)).queue.len() > 0
            && s.drained(k).queue[0] == s.queue[k as int] by {
            if k > 0 {
                assert(s.drained(k) == next.drained((k - 1) as nat));
                assert(next.queue[k - 1] == s.queue[k as int]);
            }
        }
    }
}

/// Committing publishes exactly as many payload bytes as the reservation
/// holds at that moment, and they are the bytes staged for it.
pub proof fn law_commit_publishes(s: ChannelState, len: nat)
    requires
        s.wf(),
        s.admits(len),
    ensures
        s.committed(len).queue.len() == s.queue.len() + 1,
        s.committed(len).queue.last() == s.staged(len),
        s.committed(len).queue.last().len() == len,
        s.committed(len).queue.subrange(0, s.queue.len() as int) == s.queue,
        s.committed(len).head == s.head,
{
    assert(s.committed(len).queue.subrange(0, s.queue.len() as int) =~= s.queue);
}

/// Putting a payload in front of a queue adds its framed size to the
/// footprint.
pub proof fn lemma_footprint_prepend(payload: Seq<u8>, queue: Seq<Seq<u8>>)
    ensures
        footprint(seq![payload] + queue) == PREFIX_WIDTH + payload.len() + footprint(queue),
{
    assert((seq![payload] + queue).drop_first() =~= queue);
}

/// Any run of sends and receives, whatever the offsets at which its frames
/// come to lie and however often they pass the end of the data region, does
/// what it would do on a queue without bounds: what was in the channel,
/// followed by what was taken in, is what was handed out, followed by what is
/// left. `tail` grows by the framed size of what was taken in, `head` by that
/// of what was handed out, and neither is ever reduced.
pub proof fn law_replay_matches_queue(s: ChannelState, steps: Seq<Step>)
    requires
        s.wf(),
    ensures
        s.replay(steps).wf(),
        s.replay(steps).capacity == s.capacity,
        s.queue + s.accepted(steps) == s.delivered(steps) + s.replay(steps).queue,
        s.replay(steps).tail == s.tail + footprint(s.accepted(steps)),
        s.replay(steps).head == s.head + footprint(s.delivered(steps)),
    decreases steps.len(),
{
    let empty = Seq::<Seq<u8>>::empty();
    if steps.len() == 0 {
        assert(s.queue + empty =~= empty + s.queue);
    } else {
        let next = s.step(steps[0]);
        let rest = steps.drop_first();
        match steps[0] {
            Step::Send(payload) => {
                if s.admits(payload.len()) {
                    law_fill_keeps(s, 0, payload);
                    law_commit_keeps(s.filled(0, payload), payload.len());
                    assert(s.filled(0, payload).staged(payload.len()) =~= payload);
                    lemma_footprint_prepend(payload, next.accepted(rest));
                }
            },
            Step::Receive => {
                if s.queue.len() > 0 {
                    law_receive_keeps(s);
                    lemma_footprint_prepend(s.queue[0], next.delivered(rest));
                }
            },
        }
        law_replay_matches_queue(next, rest);
        assert(empty + next.accepted(rest) =~= next.accepted(rest));
        assert(empty + next.delivered(rest) =~= next.delivered(rest));
        assert(s.queue + s.accepted(steps) =~= s.delivered(steps) + s.replay(steps).queue) by {
            assert(next.queue + next.accepted(rest) == next.delivered(rest) + next.replay(
                rest,
            ).queue);
            match steps[0] {
                Step::Send(payload) => {
                    if s.admits(payload.len()) {
                        assert(s.queue + (seq![payload] + next.accepted(rest)) =~= s.queue.push(
                            payload,
                        ) + next.accepted(rest));
                    }
                },
                Step::Receive => {
                    if s.queue.len() > 0 {
                        assert(s.queue + next.accepted(rest) =~= seq![s.queue[0]] + (
                        s.queue.drop_first() + next.accepted(rest)));
                        assert(seq![s.queue[0]] + (next.delivered(rest) + next.replay(rest).queue)
                            =~= (seq![s.queue[0]] + next.delivered(rest)) + next.replay(
                            rest,
                        ).queue);
                    }
                },
            }
        }
    }
}

} // verus!
