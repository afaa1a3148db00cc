//! The write side of the channel: reserve room, fill it, commit it.

use vstd::prelude::*;
use vstd::bytes::*;
use crate::band::RubberBand;
use crate::error::Error;
use crate::frames::prefix_of;
use crate::layout::PREFIX_WIDTH;
use crate::receiver::Receiver;
use crate::shm::SharedMemory;
use crate::state::ChannelState;

verus! {

/// The producer's handle on a channel. It alone moves `tail`, and it writes
/// only into the free room past `tail`.
pub struct Sender {
    rubber_band: RubberBand,
}

/// Room for one payload that was granted and is not yet published: where the
/// payload starts, and how many bytes of it will be published.
#[derive(Debug)]
pub struct Reservation {
    start: u64,
    len: usize,
}

/// What the `System` error says when `tail` cannot be moved any further.
pub const EXHAUSTED: &'static str = "byte counter is exhausted";

/// Decides a request for room for `size` payload bytes, from the size of the
/// data region and the two counters alone:
/// `TooBig` where the payload and its prefix exceed the data region;
/// else `Full` where they exceed the room that is free;
/// else a `System` error where `tail` cannot be moved that far;
/// else a reservation that starts just past the prefix at `tail`.
pub fn grant(capacity: usize, head: u64, tail: u64, size: usize) -> (granted: Result<
    Reservation,
    Error,
>)
    requires
        head <= tail,
        tail - head <= capacity,
    ensures
        size + PREFIX_WIDTH > capacity ==> granted == Err::<Reservation, Error>(Error::TooBig),
        size + PREFIX_WIDTH <= capacity && size + PREFIX_WIDTH > capacity - (tail - head)
            ==> granted == Err::<Reservation, Error>(Error::Full),
        size + PREFIX_WIDTH <= capacity - (tail - head) && tail + PREFIX_WIDTH + size > u64::MAX
            ==> granted is Err && granted->Err_0 is System && granted->Err_0->System_0@
            == EXHAUSTED@,
        size + PREFIX_WIDTH <= capacity - (tail - head) && tail + PREFIX_WIDTH + size <= u64::MAX
            ==> granted is Ok && granted->Ok_0.spec_len() == size && granted->Ok_0.spec_start()
            == tail + PREFIX_WIDTH,
{
    if capacity < PREFIX_WIDTH || size > capacity - PREFIX_WIDTH {
        return Err(Error::TooBig);
    }
    let total: usize = size + PREFIX_WIDTH;
    let used: u64 = tail - head;
    let available: u64 = capacity as u64 - used;
    if total as u64 > available {
        return Err(Error::Full);
    }
    if total as u64 > u64::MAX - tail {
        return Err(Error::System(EXHAUSTED.to_owned()));
    }
    Ok(Reservation { start: tail + PREFIX_WIDTH as u64, len: size })
}

impl View for Sender {
    type V = ChannelState;

    open spec fn view(&self) -> ChannelState {
        self.band()@
    }
}

impl Sender {
    /// The ring that this handle writes to.
    pub closed spec fn band(&self) -> RubberBand {
        self.rubber_band
    }

    /// The invariant of the handle: that of its ring.
    pub open spec fn wf(&self) -> bool {
        self.band().wf()
    }

    /// Takes the write side of a ring.
    pub fn new(rubber_band: RubberBand) -> (sender: Sender)
        ensures
            sender.band() == rubber_band,
    {
        Sender { rubber_band }
    }

    /// Makes a channel over a new segment with a data region of `capacity`
    /// bytes, and takes its write side. A segment larger than the largest
    /// signed word is refused as `TooBig`.
    pub fn create(capacity: usize) -> (made: Result<Sender, Error>)
        ensures
            capacity + crate::layout::HEADER_SIZE > isize::MAX ==> made == Err::<Sender, Error>(
                Error::TooBig,
            ),
            capacity + crate::layout::HEADER_SIZE <= isize::MAX ==> made is Ok && made->Ok_0.wf()
                && made->Ok_0@ == ChannelState::fresh(capacity as nat),
    {
        match RubberBand::create(capacity) {
            Ok(rubber_band) => Ok(Sender { rubber_band }),
            Err(e) => Err(e),
        }
    }

    /// Takes the write side of an existing segment, which is refused as a
    /// `System` error unless a ring can be attached to it.
    pub fn open(shm: SharedMemory) -> (made: Result<Sender, Error>)
        ensures
            made is Ok <==> crate::band::attachable(shm@),
            made is Ok ==> made->Ok_0.band().bytes() == shm@ && made->Ok_0.wf(),
            made is Err ==> made->Err_0 is System && made->Err_0->System_0@ == crate::band::refusal(
                shm@,
            ),
    {
        match RubberBand::open(shm) {
            Ok(rubber_band) => Ok(Sender { rubber_band }),
            Err(e) => Err(e),
        }
    }

    /// Asks for room for a payload of `size` bytes. The channel is left as it
    /// is, whatever the answer:
    /// `TooBig` where the payload and its prefix exceed the data region;
    /// else `Full` where they exceed the free room;
    /// else a `System` error where `tail` cannot be moved that far;
    /// else a reservation that starts just past the prefix at `tail`.
    pub fn reserve(&mut self, size: usize) -> (granted: Result<Reservation, Error>)
        requires
            old(self).wf(),
        ensures
            *final(self) == *old(self),
            old(self)@.too_big(size as nat) ==> granted == Err::<Reservation, Error>(Error::TooBig),
            old(self)@.full(size as nat) ==> granted == Err::<Reservation, Error>(Error::Full),
            old(self)@.exhausted(size as nat) ==> granted is Err && granted->Err_0 is System
                && granted->Err_0->System_0@ == EXHAUSTED@,
            old(self)@.admits(size as nat) ==> granted is Ok && granted->Ok_0.spec_len() == size
                && granted->Ok_0.spec_start() == old(self)@.tail + PREFIX_WIDTH
                && granted->Ok_0.fits(old(self)@),
    {
        proof {
            self.rubber_band.lemma_view_wf();
        }
        let capacity: usize = self.rubber_band.capacity();
        let head: u64 = self.rubber_band.head();
        let tail: u64 = self.rubber_band.tail();
        grant(capacity, head, tail, size)
    }

    /// Whether `reservation` is one that this channel can take at present.
    pub fn holds(&self, reservation: &Reservation) -> (fits: bool)
        requires
            self.wf(),
        ensures
            fits == reservation.fits(self@),
    {
        proof {
            self.rubber_band.lemma_view_wf();
        }
        let capacity: usize = self.rubber_band.capacity();
        let head: u64 = self.rubber_band.head();
        let tail: u64 = self.rubber_band.tail();
        reservation.granted_by(capacity, head, tail)
    }

    /// Writes the length prefix at `tail` and publishes the frame of `len`
    /// payload bytes that follows it.
    fn commit(&mut self, len: usize)
        requires
            old(self).wf(),
            old(self)@.admits(len as nat),
        ensures
            final(self).wf(),
            final(self)@ == old(self)@.committed(len as nat),
    {
        proof {
            self.rubber_band.lemma_view_wf();
            lemma_auto_spec_u64_to_from_le_bytes();
        }
        let tail: u64 = self.rubber_band.tail();
        let prefix: Vec<u8> = prefix_of(len);
        self.rubber_band.write(tail, prefix.as_slice());
        proof {
            let before = old(self)@;
            let marked = self@;
            assert(marked.free.subrange(0, PREFIX_WIDTH as int) =~= prefix@);
            assert(marked.staged(len as nat) =~= before.staged(len as nat));
            assert(marked.free.skip(PREFIX_WIDTH + len) =~= before.free.skip(PREFIX_WIDTH + len));
        }
        self.rubber_band.publish(len);
    }

    /// Size of the data region in bytes.
    pub fn capacity(&self) -> (capacity: usize)
        requires
            self.wf(),
        ensures
            capacity == self@.capacity,
    {
        self.rubber_band.capacity()
    }

    /// Bytes consumed so far.
    pub fn head(&self) -> (head: u64)
        requires
            self.wf(),
        ensures
            head == self@.head,
    {
        self.rubber_band.head()
    }

    /// Bytes published so far.
    pub fn tail(&self) -> (tail: u64)
        requires
            self.wf(),
        ensures
            tail == self@.tail,
    {
        self.rubber_band.tail()
    }

    /// Gives the ring back.
    pub fn into_band(self) -> (rubber_band: RubberBand)
        ensures
            rubber_band == self.band(),
    {
        self.rubber_band
    }

    /// Hands the channel over to the read side.
    pub fn into_receiver(self) -> (receiver: Receiver)
        ensures
            receiver.band() == self.band(),
    {
        Receiver::new(self.rubber_band)
    }
}

impl Reservation {
    /// Logical offset of the first payload byte.
    pub closed spec fn spec_start(&self) -> u64 {
        self.start
    }

    /// Number of payload bytes that a commit will publish.
    pub closed spec fn spec_len(&self) -> usize {
        self.len
    }

    /// Whether a channel in state `s` can take this reservation: it starts
    /// just past the prefix at `tail`, and its frame fits the free room.
    pub open spec fn fits(&self, s: ChannelState) -> bool {
        &&& self.spec_start() == s.tail + PREFIX_WIDTH
        &&& s.admits(self.spec_len() as nat)
    }

    /// Whether a channel with a data region of `capacity` bytes and the
    /// counters `head` and `tail` would grant this reservation at present: it
    /// starts just past the prefix at `tail`, its frame fits the free room,
    /// and `tail` can be moved past it.
    pub fn granted_by(&self, capacity: usize, head: u64, tail: u64) -> (granted: bool)
        requires
            head <= tail,
            tail - head <= capacity,
        ensures
            granted == (self.spec_start() == tail + PREFIX_WIDTH && self.spec_len() + PREFIX_WIDTH
                <= capacity - (tail - head) && tail + PREFIX_WIDTH + self.spec_len() <= u64::MAX),
    {
        match grant(capacity, head, tail, self.len) {
            Ok(granted) => granted.start == self.start,
            Err(_) => false,
        }
    }

    /// Logical offset of the first payload byte.
    pub fn start(&self) -> (start: u64)
        ensures
            start == self.spec_start(),
    {
        self.start
    }

    /// Number of payload bytes that a commit will publish.
    pub fn len(&self) -> (len: usize)
        ensures
            len == self.spec_len(),
    {
        self.len
    }

    /// Reduces the number of bytes that will be published to `len`, which
    /// must not exceed the present number.
    pub fn shrink(&mut self, len: usize)
        requires
            len <= old(self).spec_len(),
        ensures
            final(self).spec_len() == len,
            final(self).spec_start() == old(self).spec_start(),
    {
        self.len = len;
    }

    /// Copies `bytes` into the reserved payload area, `at` bytes from its
    /// start. Nothing is published, and the counters stay as they are.
    pub fn write(&self, sender: &mut Sender, at: usize, bytes: &[u8])
        requires
            old(sender).wf(),
            self.fits(old(sender)@),
            at + bytes@.len() <= self.spec_len(),
        ensures
            final(sender).wf(),
            final(sender)@ == old(sender)@.filled(at as nat, bytes@),
            self.fits(final(sender)@),
    {
        proof {
            sender.rubber_band.lemma_view_wf();
        }
        sender.rubber_band.write(self.start + at as u64, bytes);
    }

    /// Reads back the byte `at` bytes from the start of the reserved payload
    /// area.
    pub fn get(&self, sender: &Sender, at: usize) -> (byte: u8)
        requires
            sender.wf(),
            self.fits(sender@),
            at < self.spec_len(),
        ensures
            byte == sender@.staged(self.spec_len() as nat)[at as int],
    {
        proof {
            sender.rubber_band.lemma_view_wf();
        }
        let one: Vec<u8> = sender.rubber_band.read(self.start + at as u64, 1);
        one[0]
    }

    /// Publishes the reservation: writes its length prefix, then moves `tail`
    /// past the frame. The payload published is what the reserved area holds
    /// at this moment, cut to the reservation's present length.
    pub fn commit(self, sender: &mut Sender)
        requires
            old(sender).wf(),
            self.fits(old(sender)@),
        ensures
            final(sender).wf(),
            final(sender)@ == old(sender)@.committed(self.spec_len() as nat),
    {
        sender.commit(self.len)
    }
}

} // verus!
