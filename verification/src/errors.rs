//! The error taxonomy of the server: every failure is surfaced immediately
//! to the caller; none is retried or recovered locally.

use vstd::prelude::*;

verus! {

/// One variant per failure site.  `Decode` is the only variant the verified
/// connection handler itself produces; the others are constructed at the
/// I/O edge around the library.
#[derive(Clone, Copy, Debug, PartialEq, Eq, Structural)]
pub enum ServerError {
    /// The listening endpoint could not be created or configured.
    Creation,
    /// The operating system failed to accept a connection.
    Accept,
    /// Reading the request bytes from the stream failed.
    Read,
    /// The request bytes are not a valid encoded request.
    Decode,
    /// A response could not be serialized.
    Encode,
    /// Writing a frame onto the stream failed.
    Write,
}

impl ServerError {
    /// A short description of the failure, for diagnostics.
    pub fn describe(&self) -> (s: &'static str)
        ensures
            s@ == match *self {
                ServerError::Creation => "could not create the socket"@,
                ServerError::Accept => "could not accept a connection"@,
                ServerError::Read => "failed at reading the stream"@,
                ServerError::Decode => "could not deserialize the request message"@,
                ServerError::Encode => "could not serialize a response"@,
                ServerError::Write => "could not write a response onto the stream"@,
            },
    {
        match *self {
            ServerError::Creation => "could not create the socket",
            ServerError::Accept => "could not accept a connection",
            ServerError::Read => "failed at reading the stream",
            ServerError::Decode => "could not deserialize the request message",
            ServerError::Encode => "could not serialize a response",
            ServerError::Write => "could not write a response onto the stream",
        }
    }
}

} // verus!
