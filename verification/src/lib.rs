//! A single-producer, single-consumer byte channel over one shared segment.
//!
//! A segment is a header of two counters, `head` and `tail`, followed by a
//! data region that is addressed modulo its size. The producer reserves room,
//! fills it and commits it as one frame, a length prefix and a payload; the
//! consumer takes frames out in the order in which they were committed. The
//! counters only ever grow, so that an empty channel (`head == tail`) and a
//! full one (`tail - head == capacity`) cannot be mistaken for each other.
//!
//! - [`layout`]: where the counters and the data bytes lie, and wrap-safe
//!   copies in and out of the data region.
//! - [`frames`]: how the published bytes divide into frames.
//! - [`state`]: the channel as a mathematical value, each operation as a
//!   function on it, and the laws that hold of them.
//! - [`shm`], [`name`]: the segment and the name it is created under.
//! - [`band`]: the ring over a segment.
//! - [`sender`], [`receiver`]: the two handles.
//! - [`error`]: the ways in which a request is refused.

pub mod band;
pub mod error;
pub mod frames;
pub mod layout;
pub mod name;
pub mod receiver;
pub mod sender;
pub mod shm;
pub mod state;
