//! What can go wrong between a request and its result, short of the
//! transport failing.

use vstd::prelude::*;

verus! {

/// Why an operation did not give its result.
#[derive(Debug, Clone, Copy, PartialEq, Eq, Structural)]
pub enum Error {
    /// The reply was not a text frame, was not the JSON of a reply, or held
    /// a length that is no hexadecimal number.
    MalformedReply,
    /// The reply held fewer results than the operation reads.
    OutOfBounds,
    /// The device sent more bytes than were asked for.
    Overrun,
}

impl Error {
    /// The sentence that `to_string` gives.
    pub open spec fn message_spec(self) -> Seq<char> {
        match self {
            Error::MalformedReply => "malformed reply"@,
            Error::OutOfBounds => "reply holds too few results"@,
            Error::Overrun => "more bytes received than requested"@,
        }
    }

    /// A sentence for the error, for a log or a message.
    pub fn to_string(&self) -> (s: String)
        ensures
            s@ == self.message_spec(),
    {
        match self {
            Error::MalformedReply => "malformed reply".to_owned(),
            Error::OutOfBounds => "reply holds too few results".to_owned(),
            Error::Overrun => "more bytes received than requested".to_owned(),
        }
    }
}

} // verus!
