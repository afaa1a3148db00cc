//! The read side of the channel.

use vstd::prelude::*;
use crate::band::RubberBand;
use crate::error::Error;
use crate::sender::Sender;
use crate::shm::SharedMemory;
use crate::state::{ChannelState, Step};

verus! {

/// The consumer's handle on a channel. It alone moves `head`, and it reads
/// only what is published.
pub struct Receiver {
    rubber_band: RubberBand,
}

/// What one poll of the channel came to.
#[derive(Debug)]
pub enum Poll {
    /// A payload was there and has been consumed.
    Ready(Vec<u8>),
    /// Nothing was there, and the time allowed is not yet up.
    Wait,
    /// Nothing was there, and the time allowed is up.
    TimedOut,
}

/// Whether a receive that has found nothing goes on waiting: it does while
/// the time `waited` so far is short of the time `timeout` allowed.
pub fn keep_waiting(waited: u64, timeout: u64) -> (go_on: bool)
    ensures
        go_on == (waited < timeout),
{
    waited < timeout
}

impl View for Receiver {
    type V = ChannelState;

    open spec fn view(&self) -> ChannelState {
        self.band()@
    }
}

impl Receiver {
    /// The ring that this handle reads from.
    pub closed spec fn band(&self) -> RubberBand {
        self.rubber_band
    }

    /// The invariant of the handle: that of its ring.
    pub open spec fn wf(&self) -> bool {
        self.band().wf()
    }

    /// Takes the read side of a ring.
    pub fn new(rubber_band: RubberBand) -> (receiver: Receiver)
        ensures
            receiver.band() == rubber_band,
    {
        Receiver { rubber_band }
    }

    /// Takes the read side of an existing segment, which is refused as a
    /// `System` error unless a ring can be attached to it.
    pub fn open(shm: SharedMemory) -> (made: Result<Receiver, Error>)
        ensures
            made is Ok <==> crate::band::attachable(shm@),
            made is Ok ==> made->Ok_0.band().bytes() == shm@ && made->Ok_0.wf(),
            made is Err ==> made->Err_0 is System && made->Err_0->System_0@ == crate::band::refusal(
                shm@,
            ),
    {
        match RubberBand::open(shm) {
            Ok(rubber_band) => Ok(Receiver { rubber_band }),
            Err(e) => Err(e),
        }
    }

    /// Takes the oldest payload, if there is one. An empty channel gives
    /// `None` and is left as it is; otherwise the payload is copied out and
    /// only then is `head` moved past its frame.
    pub fn try_recv(&mut self) -> (got: Option<Vec<u8>>)
        requires
            old(self).wf(),
        ensures
            final(self).wf(),
            old(self)@.queue.len() == 0 ==> got.is_none() && *final(self) == *old(self),
            old(self)@.queue.len() > 0 ==> got.is_some() && got.unwrap()@ == old(self)@.queue[0]
                && final(self)@ == old(self)@.received(),
            final(self)@ == old(self)@.step(Step::Receive),
    {
        proof {
            self.rubber_band.lemma_view_wf();
            crate::state::law_empty_iff_counters_meet(self@);
        }
        let head: u64 = self.rubber_band.head();
        let tail: u64 = self.rubber_band.tail();
        if head == tail {
            return None;
        }
        Some(self.rubber_band.consume())
    }

    /// One step of a receive that waits: takes the oldest payload if there is
    /// one; otherwise says whether to go on waiting, given the time `waited`
    /// so far and the time `timeout` allowed, both in milliseconds.
    pub fn poll(&mut self, waited: u64, timeout: u64) -> (step: Poll)
        requires
            old(self).wf(),
        ensures
            final(self).wf(),
            old(self)@.queue.len() > 0 ==> step is Ready && step->Ready_0@ == old(self)@.queue[0]
                && final(self)@ == old(self)@.received(),
            old(self)@.queue.len() == 0 ==> *final(self) == *old(self),
            old(self)@.queue.len() == 0 && waited < timeout ==> step is Wait,
            old(self)@.queue.len() == 0 && waited >= timeout ==> step is TimedOut,
    {
        match self.try_recv() {
            Some(payload) => Poll::Ready(payload),
            None => if keep_waiting(waited, timeout) {
                Poll::Wait
            } else {
                Poll::TimedOut
            },
        }
    }

    /// Size of the data region in bytes.
    pub fn capacity(&self) -> (capacity: usize)
        requires
            self.wf(),
        ensures
            capacity == self@.capacity,
    {
        self.rubber_band.capacity()
    }

    /// Bytes consumed so far.
    pub fn head(&self) -> (head: u64)
        requires
            self.wf(),
        ensures
            head == self@.head,
    {
        self.rubber_band.head()
    }

    /// Bytes published so far.
    pub fn tail(&self) -> (tail: u64)
        requires
            self.wf(),
        ensures
            tail == self@.tail,
    {
        self.rubber_band.tail()
    }

    /// Gives the ring back.
    pub fn into_band(self) -> (rubber_band: RubberBand)
        ensures
            rubber_band == self.band(),
    {
        self.rubber_band
    }

    /// Hands the channel over to the write side.
    pub fn into_sender(self) -> (sender: Sender)
        ensures
            sender.band() == self.band(),
    {
        Sender::new(self.rubber_band)
    }
}

} // verus!
