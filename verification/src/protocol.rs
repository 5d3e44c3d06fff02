//! The per-connection protocol: read one request, emit two interim frames,
//! dispatch, emit one terminal frame.
//!
//! The functions here compute every frame of one exchange; the caller
//! performs the reads, the writes and the fixed pacing delay between
//! interim emissions.

use vstd::prelude::*;

use crate::codec::{
    decode_request, encode_frame, spec_encode_response, spec_frame, spec_parse_request, zero_free,
    lemma_encode_zero_free,
};
use crate::errors::ServerError;
use crate::message::{CommandStatus, Request, Response, SpecResponse};

verus! {

/// The interim response, emitted while a request is being handled.
pub open spec fn spec_interim() -> SpecResponse {
    SpecResponse {
        id: "processing"@,
        status: CommandStatus::Processing,
        message: "still processing..."@,
    }
}

/// The interim response, emitted while a request is being handled.
pub fn interim_response() -> (r: Response)
    ensures
        r@ == spec_interim(),
{
    Response::new("processing", CommandStatus::Processing, "still processing...")
}

/// The whole dispatch table of the server: the literal tag `request`
/// selects the success response; any other id selects the fallback.
pub open spec fn spec_dispatch(id: Seq<char>) -> SpecResponse {
    if id == "request"@ {
        SpecResponse { id: "response"@, status: CommandStatus::Okay, message: "Roger that"@ }
    } else {
        SpecResponse { id: "what"@, status: CommandStatus::Error, message: "Sorry what?"@ }
    }
}

/// Selects the terminal response for a decoded request.
pub fn dispatch(req: &Request) -> (r: Response)
    ensures
        r@ == spec_dispatch(req@.id),
{
    let tag: String = "request".to_owned();
    if req.id == tag {
        Response::new("response", CommandStatus::Okay, "Roger that")
    } else {
        Response::new("what", CommandStatus::Error, "Sorry what?")
    }
}

/// The three responses of one successful exchange, in emission order.
pub open spec fn spec_responses(id: Seq<char>) -> Seq<SpecResponse> {
    seq![spec_interim(), spec_interim(), spec_dispatch(id)]
}

/// The three frames of one successful exchange, in emission order.
pub open spec fn spec_frames(id: Seq<char>) -> Seq<Seq<char>> {
    seq![
        spec_frame(spec_interim()),
        spec_frame(spec_interim()),
        spec_frame(spec_dispatch(id)),
    ]
}

/// The views of a vector of frames.
pub open spec fn views_of(frames: Seq<String>) -> Seq<Seq<char>> {
    Seq::new(frames.len(), |k: int| frames[k]@)
}

/// Executes the compute part of one connection: decode the request and
/// produce, in order, every frame the server writes onto the stream.
/// Exactly the texts the request grammar accepts succeed; everything
/// else is the decode failure, which the caller treats as fatal.
pub fn handle_message(msg: &str) -> (r: Result<Vec<String>, ServerError>)
    ensures
        match spec_parse_request(msg@) {
            Some(idv) => r matches Ok(frames) && views_of(frames@) == spec_frames(idv),
            None => r == Err::<Vec<String>, ServerError>(ServerError::Decode),
        },
{
    let req = match decode_request(msg) {
        Ok(rq) => rq,
        Err(e) => {
            return Err(e);
        },
    };
    let mut frames: Vec<String> = Vec::new();
    let interim_a = interim_response();
    frames.push(encode_frame(&interim_a));
    let interim_b = interim_response();
    frames.push(encode_frame(&interim_b));
    let terminal = dispatch(&req);
    frames.push(encode_frame(&terminal));
    proof {
        assert(views_of(frames@) =~= spec_frames(req@.id));
    }
    Ok(frames)
}

/// Exactly three frames are emitted per successful connection: two
/// `Processing` frames followed by one terminal frame; each frame is its
/// encoded payload plus a single zero sentinel, and no payload contains
/// the sentinel.
pub proof fn lemma_frame_discipline(id: Seq<char>)
    ensures
        spec_responses(id).len() == 3,
        spec_frames(id).len() == 3,
        forall|k: int|
            0 <= k < 3 ==> #[trigger] spec_frames(id)[k] == spec_encode_response(
                spec_responses(id)[k],
            ).push('\u{0}'),
        forall|k: int| 0 <= k < 3 ==> zero_free(spec_encode_response(#[trigger] spec_responses(id)[k])),
        spec_responses(id)[0].status == CommandStatus::Processing,
        spec_responses(id)[1].status == CommandStatus::Processing,
        spec_responses(id)[2].status.is_terminal(),
        spec_responses(id)[2] == spec_dispatch(id),
{
    lemma_encode_zero_free(spec_interim());
    lemma_encode_zero_free(spec_dispatch(id));
    assert forall|k: int| 0 <= k < 3 implies #[trigger] spec_frames(id)[k] == spec_encode_response(
        spec_responses(id)[k],
    ).push('\u{0}') by {
        if k == 0 || k == 1 {
            assert(spec_responses(id)[k] == spec_interim());
        } else {
            assert(spec_responses(id)[k] == spec_dispatch(id));
        }
    }
}

/// For every valid request whose id is the tag `request`, the terminal
/// response is `response` / `Ok` / `Roger that`.
pub proof fn lemma_success_terminal(id: Seq<char>)
    requires
        id == "request"@,
    ensures
        spec_responses(id)[2].id == "response"@,
        spec_responses(id)[2].status == CommandStatus::Okay,
        spec_responses(id)[2].message == "Roger that"@,
{
}

/// For every valid request whose id is any other string, the empty one
/// included, the terminal response is `what` / `Error` / `Sorry what?`.
pub proof fn lemma_fallback_terminal(id: Seq<char>)
    requires
        id != "request"@,
    ensures
        spec_responses(id)[2].id == "what"@,
        spec_responses(id)[2].status == CommandStatus::Error,
        spec_responses(id)[2].message == "Sorry what?"@,
{
}

} // verus!
