//! The two message types of the wire protocol and their mathematical views.

use vstd::prelude::*;

verus! {

/// The status carried by a response frame.  Exactly these three variants
/// exist: two `Processing` frames precede one terminal `Ok` or `Error` frame.
#[derive(Clone, Copy, Debug, PartialEq, Eq, Structural)]
pub enum CommandStatus {
    Processing,
    Okay,
    Error,
}

impl CommandStatus {
    /// A terminal frame carries `Ok` or `Error`; an interim frame carries
    /// `Processing`.
    pub open spec fn is_terminal(self) -> bool {
        self == CommandStatus::Okay || self == CommandStatus::Error
    }
}

/// A request as decoded from the bytes a client sent: only the `id` field
/// has meaning to the dispatch logic.
#[derive(Debug)]
pub struct Request {
    pub id: String,
}

/// The mathematical value of a [`Request`].
pub struct SpecRequest {
    pub id: Seq<char>,
}

impl View for Request {
    type V = SpecRequest;

    open spec fn view(&self) -> SpecRequest {
        SpecRequest { id: self.id@ }
    }
}

/// A response the server sends: a label, a status, and a human-readable
/// message.  Immutable once constructed.
#[derive(Debug)]
pub struct Response {
    pub id: String,
    pub status: CommandStatus,
    pub message: String,
}

/// The mathematical value of a [`Response`].
pub struct SpecResponse {
    pub id: Seq<char>,
    pub status: CommandStatus,
    pub message: Seq<char>,
}

impl View for Response {
    type V = SpecResponse;

    open spec fn view(&self) -> SpecResponse {
        SpecResponse { id: self.id@, status: self.status, message: self.message@ }
    }
}

impl Request {
    pub fn new(id: &str) -> (r: Request)
        ensures
            r@.id == id@,
    {
        Request { id: id.to_owned() }
    }
}

impl Response {
    pub fn new(id: &str, status: CommandStatus, message: &str) -> (r: Response)
        ensures
            r@.id == id@,
            r@.status == status,
            r@.message == message@,
    {
        Response { id: id.to_owned(), status, message: message.to_owned() }
    }
}

impl PartialEq for Request {
    fn eq(&self, o: &Request) -> bool {
        self.id == o.id
    }
}

impl vstd::std_specs::cmp::PartialEqSpecImpl for Request {
    open spec fn obeys_eq_spec() -> bool {
        true
    }

    open spec fn eq_spec(&self, o: &Request) -> bool {
        self.id@ == o.id@
    }
}

impl PartialEq for Response {
    fn eq(&self, o: &Response) -> bool {
        self.id == o.id && self.status == o.status && self.message == o.message
    }
}

impl vstd::std_specs::cmp::PartialEqSpecImpl for Response {
    open spec fn obeys_eq_spec() -> bool {
        true
    }

    open spec fn eq_spec(&self, o: &Response) -> bool {
        self.id@ == o.id@ && self.status == o.status && self.message@ == o.message@
    }
}

} // verus!
