//! The segment that carries a channel: the memory object, its mapping, and
//! the two together.
//!
//! The segment kept here lives in this process's own memory. It has the size,
//! the zero-filled start and the byte-level access of a mapped shared-memory
//! object, so that everything built on it works on plain bytes.

use vstd::prelude::*;
use crate::error::Error;
use crate::layout::HEADER_SIZE;
use crate::name::fresh_name;

verus! {

/// The largest size a memory object can be given: the largest file offset.
pub const MAX_OBJECT_LEN: u64 = 0x7fff_ffff_ffff_ffff;

/// What the `System` error says of an object of no bytes that was to be
/// mapped.
pub const NOTHING_TO_MAP: &'static str = "cannot map an object of no bytes";

/// How many names are tried for a new memory object before giving up.
pub const MAX_NAME_ATTEMPTS: u32 = 8;

/// What came of one attempt to make a memory object under a new name.
#[derive(Debug, Clone, Copy, PartialEq, Eq, Structural)]
pub enum Attempt {
    /// The object was made.
    Opened,
    /// The name was already taken.
    Collision,
    /// The attempt failed for another reason.
    Failed,
}

/// What to do after an attempt to make a memory object.
#[derive(Debug, Clone, Copy, PartialEq, Eq, Structural)]
pub enum NextStep {
    /// Go on with the object that was made.
    Proceed,
    /// Try again under another fresh name.
    Retry,
    /// Report the failure.
    GiveUp,
}

/// Decides what follows the attempt number `attempts` (counted from one): a
/// taken name is tried again until `MAX_NAME_ATTEMPTS` names were used up;
/// any other failure is final.
pub fn after_attempt(attempts: u32, outcome: Attempt) -> (next: NextStep)
    ensures
        next == match outcome {
            Attempt::Opened => NextStep::Proceed,
            Attempt::Collision => if attempts < MAX_NAME_ATTEMPTS {
                NextStep::Retry
            } else {
                NextStep::GiveUp
            },
            Attempt::Failed => NextStep::GiveUp,
        },
{
    match outcome {
        Attempt::Opened => NextStep::Proceed,
        Attempt::Collision => if attempts < MAX_NAME_ATTEMPTS {
            NextStep::Retry
        } else {
            NextStep::GiveUp
        },
        Attempt::Failed => NextStep::GiveUp,
    }
}

/// A memory object: a name that nothing else uses, and a size.
#[derive(Debug)]
pub struct Shm {
    len: usize,
    name: String,
}

impl Shm {
    /// The size the object has at present.
    pub closed spec fn spec_len(&self) -> nat {
        self.len as nat
    }

    /// The name the object was created under.
    pub closed spec fn spec_name(&self) -> Seq<char> {
        self.name@
    }

    /// Makes an empty object under a fresh random name.
    pub fn create() -> (made: Result<Shm, Error>)
        ensures
            made is Ok,
            made->Ok_0.spec_len() == 0,
            exists|a: u64, b: u64| made->Ok_0.spec_name() == crate::name::object_name(a, b),
    {
        Ok(Shm { len: 0, name: fresh_name() })
    }

    /// Gives the object the size `len`.
    pub fn resize(&mut self, len: usize) -> (done: Result<(), Error>)
        requires
            len <= MAX_OBJECT_LEN,
        ensures
            done is Ok,
            final(self).spec_len() == len,
            final(self).spec_name() == old(self).spec_name(),
    {
        self.len = len;
        Ok(())
    }

    /// The size the object has at present.
    pub fn len(&self) -> (len: usize)
        ensures
            len == self.spec_len(),
    {
        self.len
    }

    /// The name the object was created under.
    pub fn name(&self) -> (name: &str)
        ensures
            name@ == self.spec_name(),
    {
        self.name.as_str()
    }
}

/// The bytes of a memory object, as seen through a mapping of it.
pub struct ShmMap {
    data: Vec<u8>,
}

impl View for ShmMap {
    type V = Seq<u8>;

    closed spec fn view(&self) -> Seq<u8> {
        self.data@
    }
}

impl ShmMap {
    /// Maps the whole of `shm`. A newly sized object reads as zeros. An
    /// object of no bytes cannot be mapped and is refused as a `System` error.
    pub fn create(shm: &Shm) -> (made: Result<ShmMap, Error>)
        ensures
            made is Ok <==> shm.spec_len() > 0,
            made is Ok ==> made->Ok_0@ == Seq::new(shm.spec_len(), |i: int| 0u8),
            made is Err ==> made->Err_0 is System && made->Err_0->System_0@ == NOTHING_TO_MAP@,
    {
        if shm.len() == 0 {
            return Err(Error::System(NOTHING_TO_MAP.to_owned()));
        }
        let data: Vec<u8> = vec![0u8; shm.len()];
        assert(data@ =~= Seq::new(shm.spec_len(), |i: int| 0u8));
        Ok(ShmMap { data })
    }

    /// The mapped bytes, to read.
    pub fn as_ptr(&self) -> (bytes: &[u8])
        ensures
            bytes@ == self@,
    {
        self.data.as_slice()
    }

    /// The mapped bytes, to read and write in place.
    pub fn as_mut_ptr(&mut self) -> (bytes: &mut [u8])
        ensures
            bytes@ == old(self)@,
            final(self)@ == final(bytes)@,
    {
        self.data.as_mut_slice()
    }

    /// The number of mapped bytes.
    pub fn len(&self) -> (len: usize)
        ensures
            len == self@.len(),
    {
        self.data.len()
    }
}

/// A memory object together with its mapping.
pub struct SharedMemory {
    shm: Shm,
    map: ShmMap,
}

impl View for SharedMemory {
    type V = Seq<u8>;

    closed spec fn view(&self) -> Seq<u8> {
        self.map@
    }
}

impl SharedMemory {
    /// Makes a segment for a data region of `capacity` bytes: the header and
    /// the data region, all zero.
    pub fn create(capacity: usize) -> (made: Result<SharedMemory, Error>)
        requires
            capacity + HEADER_SIZE <= MAX_OBJECT_LEN,
            capacity + HEADER_SIZE <= usize::MAX,
        ensures
            made is Ok,
            made->Ok_0@ == Seq::new((capacity + HEADER_SIZE) as nat, |i: int| 0u8),
    {
        let mut shm = match Shm::create() {
            Ok(shm) => shm,
            Err(e) => { return Err(e); },
        };
        match shm.resize(capacity + HEADER_SIZE) {
            Ok(()) => {},
            Err(e) => { return Err(e); },
        }
        let map = match ShmMap::create(&shm) {
            Ok(map) => map,
            Err(e) => { return Err(e); },
        };
        Ok(SharedMemory { map, shm })
    }

    /// Attaches to a segment that exists already, given as the bytes that it
    /// holds. A segment of no bytes cannot be mapped and is refused as a
    /// `System` error.
    pub fn open(bytes: Vec<u8>) -> (made: Result<SharedMemory, Error>)
        ensures
            made is Ok <==> bytes@.len() > 0,
            made is Ok ==> made->Ok_0@ == bytes@,
            made is Err ==> made->Err_0 is System && made->Err_0->System_0@ == NOTHING_TO_MAP@,
    {
        if bytes.len() == 0 {
            return Err(Error::System(NOTHING_TO_MAP.to_owned()));
        }
        let shm = Shm { len: bytes.len(), name: String::new() };
        Ok(SharedMemory { map: ShmMap { data: bytes }, shm })
    }

    /// The segment's bytes, to read.
    pub fn as_ptr(&self) -> (bytes: &[u8])
        ensures
            bytes@ == self@,
    {
        self.map.as_ptr()
    }

    /// The segment's bytes, to read and write in place.
    pub fn as_mut_ptr(&mut self) -> (bytes: &mut [u8])
        ensures
            bytes@ == old(self)@,
            final(self)@ == final(bytes)@,
    {
        self.map.as_mut_ptr()
    }

    /// The segment's size in bytes.
    pub fn len(&self) -> (len: usize)
        ensures
            len == self@.len(),
    {
        self.map.len()
    }
}

} // verus!
