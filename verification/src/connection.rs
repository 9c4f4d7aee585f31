//! What to do with the bytes that a connection sent: answer at once, or look
//! up the file that the request names and answer then.

use vstd::prelude::*;
use crate::request::{spec_parse, Request, RequestView};
use crate::response::{spec_refusal, static_response, Response, ResponseCode, ResponseView};

verus! {

/// The most bytes of a request that are read from a connection. A request
/// that is longer is cut off there.
pub const REQUEST_LEN: usize = 1024;

/// What to do next for a connection.
#[derive(Debug, Clone, PartialEq, Eq)]
pub enum Plan<'a> {
    /// Send this response: no file is needed.
    Answer(Response),
    /// Look up the file that this request names, then let
    /// [`Response::handle`] decide.
    Lookup(Request<'a>),
}

/// What a plan holds.
pub enum PlanView {
    Answer(ResponseView),
    Lookup(RequestView),
}

impl<'a> View for Plan<'a> {
    type V = PlanView;

    open spec fn view(&self) -> PlanView {
        match self {
            Plan::Answer(response) => PlanView::Answer(response@),
            Plan::Lookup(request) => PlanView::Lookup(request@),
        }
    }
}

/// What to do with the bytes that a connection sent. Bytes that are no
/// request are answered with a bad request that says why; a request that is
/// turned away is answered with its refusal; for any other, the file is to
/// be looked up.
pub open spec fn spec_plan(bytes: Seq<u8>) -> PlanView {
    match spec_parse(bytes) {
        Err(e) => PlanView::Answer(static_response(ResponseCode::BadRequest, e.spec_description())),
        Ok(request) => match spec_refusal(request) {
            Some(refusal) => PlanView::Answer(refusal),
            None => PlanView::Lookup(request),
        },
    }
}

/// Decides what to do with the bytes that a connection sent.
pub fn plan<'a>(bytes: &'a [u8]) -> (next: Plan<'a>)
    ensures
        next@ == spec_plan(bytes@),
{
    match Request::parse(bytes) {
        Err(e) => Plan::Answer(Response::bad_request(e.description())),
        Ok(request) => match Response::refusal(&request) {
            Some(refusal) => Plan::Answer(refusal),
            None => Plan::Lookup(request),
        },
    }
}

} // verus!
