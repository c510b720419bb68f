//! What the server answers to the bytes that came over one connection.

use crate::headers::Fields;
use crate::request::{parse_request, HttpRequest};
use crate::response::{error_page, index_page, render, HttpResponse, ResponseView, Status};
use crate::text::same;
use vstd::prelude::*;
use vstd::string::*;

verus! {

/// The address that the index page shows for the client.
pub const CLIENT_ADDR: &'static str = "foo bar baz";

/// The response to the request text `text`: the index page for a request
/// for `/` in HTTP/1.1, "not found" for another path, and "bad request" for
/// another version and for a text that holds no request.
pub open spec fn response_for(text: Seq<char>) -> ResponseView {
    match parse_request(text) {
        Ok(request) => if request.version != "HTTP/1.1"@ {
            error_page(Status::BadRequest, Fields::empty())
        } else if request.path != "/"@ {
            error_page(Status::NotFound, Fields::empty())
        } else {
            index_page(CLIENT_ADDR@, Fields::empty())
        },
        Err(_) => error_page(Status::BadRequest, Fields::empty()),
    }
}

/// The text that `String::from_utf8_lossy` of the standard library makes of
/// `bytes`.
pub uninterp spec fn lossy_text(bytes: Seq<u8>) -> Seq<char>;

/// `String::from_utf8_lossy` of the standard library, as an owned string:
/// the result depends on the bytes alone and is what the contracts call
/// `lossy_text`. Nothing more is claimed of it.
#[verifier::external_body]
fn from_utf8_lossy(bytes: &[u8]) -> (text: String)
    ensures
        text@ == lossy_text(bytes@),
{
    String::from_utf8_lossy(bytes).into_owned()
}

/// Answers the request text `text`.
pub fn respond(text: &str) -> (r: HttpResponse)
    ensures
        r@ == response_for(text@),
{
    match HttpRequest::parse(text) {
        Ok(request) => {
            if !same(request.version(), "HTTP/1.1") {
                HttpResponse::error(Status::BadRequest, None)
            } else if !same(request.path(), "/") {
                HttpResponse::error(Status::NotFound, None)
            } else {
                HttpResponse::index(CLIENT_ADDR, None)
            }
        },
        Err(_) => HttpResponse::error(Status::BadRequest, None),
    }
}

/// Answers the bytes that were read from a connection: the bytes are taken
/// as text, and the response to that text is rendered.
pub fn answer(buffer: &[u8]) -> (out: String)
    ensures
        out@ == render(response_for(lossy_text(buffer@))),
{
    let text: String = from_utf8_lossy(buffer);
    let response: HttpResponse = respond(text.as_str());
    response.to_string()
}

} // verus!
