//! The ways in which the channel can refuse a request.

use vstd::prelude::*;

verus! {

/// Why an operation on the channel did not go through.
#[derive(Debug, PartialEq, Eq)]
pub enum Error {
    /// The request can never fit in this channel, whatever is consumed.
    TooBig,
    /// There is not enough free room at the moment; it may come back once the
    /// consumer has made progress.
    Full,
    /// The segment underneath failed or is unusable; the text says how.
    System(String),
}

impl Error {
    /// The text that `description` gives for this error.
    pub open spec fn spec_description(&self) -> Seq<char> {
        match self {
            Error::TooBig => "requested reservation is too big to fit"@,
            Error::Full => "not enough room available"@,
            Error::System(text) => text@,
        }
    }

    /// A short text that says what went wrong.
    pub fn description(&self) -> (text: String)
        ensures
            text@ == self.spec_description(),
    {
        match self {
            Error::TooBig => "requested reservation is too big to fit".to_owned(),
            Error::Full => "not enough room available".to_owned(),
            Error::System(text) => text.clone(),
        }
    }

    /// The underlying failure, where there is one: only `System` carries it.
    pub fn cause(&self) -> (text: Option<String>)
        ensures
            match self {
                Error::System(inner) => text == Some(*inner),
                _ => text.is_none(),
            },
    {
        match self {
            Error::System(inner) => Some(inner.clone()),
            _ => None,
        }
    }

    /// Whether the same request may succeed later on the same channel.
    pub fn is_transient(&self) -> (transient: bool)
        ensures
            transient == (self is Full),
    {
        match self {
            Error::Full => true,
            _ => false,
        }
    }
}

} // verus!
