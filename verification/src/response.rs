//! What is answered to a request.

use vstd::prelude::*;
use vstd::string::*;
use vstd::utf8::encode_utf8;

verus! {

/// The status of an answer that carries content.
pub const STATUS_OK: u16 = 200;

/// The status of an answer to a path that names nothing.
pub const STATUS_NOT_FOUND: u16 = 404;

/// The status of an answer that could not be computed.
pub const STATUS_INTERNAL_ERROR: u16 = 500;

/// A status and a body.
#[derive(Clone, Debug, PartialEq, Eq)]
pub struct Response {
    pub status: u16,
    pub body: Vec<u8>,
}

/// What a [`Response`] is, as mathematical values.
pub struct ResponseView {
    pub status: u16,
    pub body: Seq<u8>,
}

impl View for Response {
    type V = ResponseView;

    open spec fn view(&self) -> ResponseView {
        ResponseView { status: self.status, body: self.body@ }
    }
}

/// The answer that carries `body`.
pub open spec fn ok_response(body: Seq<u8>) -> ResponseView {
    ResponseView { status: STATUS_OK, body }
}

/// The answer to a path that names nothing: no body.
pub open spec fn not_found_response() -> ResponseView {
    ResponseView { status: STATUS_NOT_FOUND, body: Seq::empty() }
}

/// The answer that stands for a failure while computing one: no body.
pub open spec fn internal_error_response() -> ResponseView {
    ResponseView { status: STATUS_INTERNAL_ERROR, body: Seq::empty() }
}

/// The answer to a path that no asset serves, given what the fallback handler
/// said of it: its text as bytes, or not found.
pub open spec fn fallback_response(fallback: Option<Seq<char>>) -> ResponseView {
    match fallback {
        Some(text) => ok_response(encode_utf8(text)),
        None => not_found_response(),
    }
}

/// The answer to a request, given the content of the asset that its path
/// names, if there is one, and what the fallback handler says of the path.
/// The handler counts only where no content is served.
pub open spec fn response_for(
    content: Option<Seq<u8>>,
    fallback: Option<Seq<char>>,
) -> ResponseView {
    match content {
        Some(body) => ok_response(body),
        None => fallback_response(fallback),
    }
}

/// The text of an optional string.
pub open spec fn text_of(text: Option<String>) -> Option<Seq<char>> {
    match text {
        Some(t) => Some(t@),
        None => None,
    }
}

/// The bytes of an optional byte vector.
pub open spec fn bytes_of(bytes: Option<Vec<u8>>) -> Option<Seq<u8>> {
    match bytes {
        Some(b) => Some(b@),
        None => None,
    }
}

impl Response {
    /// The answer that carries `body`.
    pub fn ok(body: Vec<u8>) -> (response: Response)
        ensures
            response@ == ok_response(body@),
    {
        Response { status: STATUS_OK, body }
    }

    /// The answer to a path that names nothing.
    pub fn not_found() -> (response: Response)
        ensures
            response@ == not_found_response(),
    {
        Response { status: STATUS_NOT_FOUND, body: Vec::new() }
    }

    /// The answer that stands for a failure while computing one.
    pub fn internal_error() -> (response: Response)
        ensures
            response@ == internal_error_response(),
    {
        Response { status: STATUS_INTERNAL_ERROR, body: Vec::new() }
    }

    /// The answer to a path that no asset serves, given what the fallback
    /// handler said of it.
    pub fn from_fallback(fallback: Option<String>) -> (response: Response)
        ensures
            response@ == fallback_response(text_of(fallback)),
    {
        match fallback {
            Some(text) => Response::ok(text.as_str().as_bytes_vec()),
            None => Response::not_found(),
        }
    }
}

} // verus!
