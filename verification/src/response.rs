//! HTTP responses: status codes, the two pages the server knows, and the
//! rendering of a response to the text that goes on the wire.

use crate::headers::{put, Fields, Headers};
use crate::text::{decimal, decimal_exec, replace, replace_exec};
use vstd::prelude::*;
use vstd::string::*;
use vstd::utf8::encode_utf8;

verus! {

/// The HTTP version the server speaks.
pub const VERSION: &'static str = "HTTP/1.1";

/// The page sent with an error: `{CODE}` stands for the status code and
/// `{MESSAGE}` for its reason phrase.
pub const ERR_TEMPLATE: &'static str =
    "<!DOCTYPE html>\n<html lang=\"en\">\n<head>\n    <meta charset=\"utf-8\">\n    <title>Error {CODE}</title>\n</head>\n<body>\n    <h1>{CODE}</h1>\n    <p>{MESSAGE}</p>\n</body>\n</html>";

/// The page sent for `/`: `{IP_ADDR}` stands for the client's address.
pub const INDEX_TEMPLATE: &'static str =
    "<!DOCTYPE html>\n<html lang=\"en\">\n<head>\n    <meta charset=\"utf-8\">\n    <title>Secret Black Site</title>\n</head>\n<body>\n    <p>Your IP address is: {IP_ADDR}</p>\n</body>\n</html>\n";

/// The status codes the server can answer with.
#[derive(Clone, Copy, Debug, PartialEq, Eq, Structural)]
pub enum Status {
    Okay,
    BadRequest,
    NotFound,
    InternalServerError,
    NotImplemented,
}

impl Status {
    /// The numeric code of a status.
    pub open spec fn spec_code(self) -> u16 {
        match self {
            Status::Okay => 200,
            Status::BadRequest => 400,
            Status::NotFound => 404,
            Status::InternalServerError => 500,
            Status::NotImplemented => 501,
        }
    }

    /// The reason phrase of a status.
    pub open spec fn spec_message(self) -> Seq<char> {
        match self {
            Status::Okay => "Ok"@,
            Status::BadRequest => "Bad Request"@,
            Status::NotFound => "Not Found"@,
            Status::InternalServerError => "Internal Server Error"@,
            Status::NotImplemented => "Not Implemented"@,
        }
    }

    /// The numeric status code.
    pub fn code(&self) -> (c: u16)
        ensures
            c == self.spec_code(),
    {
        match self {
            Status::Okay => 200,
            Status::BadRequest => 400,
            Status::NotFound => 404,
            Status::InternalServerError => 500,
            Status::NotImplemented => 501,
        }
    }

    /// The reason phrase that goes with the code.
    pub fn message(&self) -> (m: &'static str)
        ensures
            m@ == self.spec_message(),
    {
        match self {
            Status::Okay => "Ok",
            Status::BadRequest => "Bad Request",
            Status::NotFound => "Not Found",
            Status::InternalServerError => "Internal Server Error",
            Status::NotImplemented => "Not Implemented",
        }
    }
}

/// The length in bytes of `text` once encoded as UTF-8.
pub open spec fn byte_len(text: Seq<char>) -> nat {
    encode_utf8(text).len()
}

/// The body of the error page for `status`.
pub open spec fn error_body(status: Status) -> Seq<char> {
    replace(
        replace(ERR_TEMPLATE@, "{CODE}"@, decimal(status.spec_code() as nat)),
        "{MESSAGE}"@,
        status.spec_message(),
    )
}

/// The body of the index page shown to the client at `ip_addr`.
pub open spec fn index_body(ip_addr: Seq<char>) -> Seq<char> {
    replace(INDEX_TEMPLATE@, "{IP_ADDR}"@, ip_addr)
}

/// The header fields of a response that carries the HTML page `body`: the
/// fields that were given, with the content type and the content length set.
pub open spec fn page_headers(given: Fields, body: Seq<char>) -> Fields {
    put(
        put(given, "Content-Type"@, "text/html"@),
        "Content-Length"@,
        decimal(byte_len(body)),
    )
}

/// What a response holds.
pub struct ResponseView {
    pub status: Status,
    pub headers: Fields,
    pub body: Seq<char>,
}

/// The fields that a caller hands over, or none.
pub open spec fn given_fields(headers: Option<Headers>) -> Fields {
    match headers {
        Some(h) => h@,
        None => Fields::empty(),
    }
}

/// The response that tells of the error `status`, with the fields `given`.
pub open spec fn error_page(status: Status, given: Fields) -> ResponseView {
    ResponseView {
        status,
        headers: page_headers(given, error_body(status)),
        body: error_body(status),
    }
}

/// The response to a request for `/` from the client at `ip_addr`, with the
/// fields `given`.
pub open spec fn index_page(ip_addr: Seq<char>, given: Fields) -> ResponseView {
    ResponseView {
        status: Status::Okay,
        headers: page_headers(given, index_body(ip_addr)),
        body: index_body(ip_addr),
    }
}

/// The header fields, one line each, in their order.
pub open spec fn header_lines(fields: Fields) -> Seq<char>
    decreases fields.len(),
{
    if fields.len() == 0 {
        Seq::empty()
    } else {
        header_lines(fields.drop_last()) + fields.last().0 + ": "@ + fields.last().1 + "\r\n"@
    }
}

/// The text of a response: the status line, the header lines, an empty line
/// and the body.
pub open spec fn render(r: ResponseView) -> Seq<char> {
    VERSION@ + " "@ + decimal(r.status.spec_code() as nat) + " "@ + r.status.spec_message()
        + "\r\n"@ + header_lines(r.headers) + "\r\n"@ + r.body
}

/// A response: a status, header fields and a body.
pub struct HttpResponse {
    status: Status,
    headers: Headers,
    body: String,
}

impl View for HttpResponse {
    type V = ResponseView;

    closed spec fn view(&self) -> ResponseView {
        ResponseView { status: self.status, headers: self.headers@, body: self.body@ }
    }
}

/// Puts the content type and the content length of `body` into `headers`.
fn set_page_headers(headers: Option<Headers>, body: &String) -> (out: Headers)
    ensures
        out@ == page_headers(given_fields(headers), body@),
{
    let mut out: Headers = match headers {
        Some(h) => h,
        None => Headers::new(),
    };
    let length: usize = body.as_str().as_bytes().len();
    out.insert(String::from_str("Content-Type"), String::from_str("text/html"));
    out.insert(String::from_str("Content-Length"), decimal_exec(length));
    out
}

impl HttpResponse {
    /// A response with the HTML page that describes the error `status`.
    /// The fields in `headers` are kept, but for the content type and the
    /// content length, which are set.
    pub fn error(status: Status, headers: Option<Headers>) -> (r: HttpResponse)
        ensures
            r@ == error_page(status, given_fields(headers)),
    {
        proof {
            reveal_strlit("{CODE}");
            reveal_strlit("{MESSAGE}");
        }
        let code: String = decimal_exec(status.code() as usize);
        let with_code: String = replace_exec(ERR_TEMPLATE, "{CODE}", code.as_str());
        let body: String = replace_exec(with_code.as_str(), "{MESSAGE}", status.message());
        let headers: Headers = set_page_headers(headers, &body);
        HttpResponse { status, headers, body }
    }

    /// The response to a request for `/`: status 200 and the index page with
    /// the client's address. The fields in `headers` are kept, but for the
    /// content type and the content length, which are set.
    pub fn index(ip_addr: &str, headers: Option<Headers>) -> (r: HttpResponse)
        ensures
            r@ == index_page(ip_addr@, given_fields(headers)),
    {
        proof {
            reveal_strlit("{IP_ADDR}");
        }
        let body: String = replace_exec(INDEX_TEMPLATE, "{IP_ADDR}", ip_addr);
        let headers: Headers = set_page_headers(headers, &body);
        HttpResponse { status: Status::Okay, headers, body }
    }

    /// The response as text: the status line, one line for each header
    /// field in the order of the fields, an empty line, and the body.
    pub fn to_string(&self) -> (out: String)
        ensures
            out@ == render(self@),
    {
        let mut out: String = String::from_str(VERSION);
        out.append(" ");
        let code: String = decimal_exec(self.status.code() as usize);
        out.append(code.as_str());
        out.append(" ");
        out.append(self.status.message());
        out.append("\r\n");
        let n: usize = self.headers.len();
        let mut i: usize = 0;
        let ghost head = out@;
        assert(self.headers@.subrange(0, 0) =~= Fields::empty());
        while i < n
            invariant
                n == self.headers@.len(),
                i <= n,
                out@ == head + header_lines(self.headers@.subrange(0, i as int)),
            decreases n - i,
        {
            let ghost before = self.headers@.subrange(0, i as int);
            let ghost after = self.headers@.subrange(0, i + 1);
            proof {
                assert(after.drop_last() =~= before);
                assert(after.last() == self.headers@[i as int]);
            }
            out.append(self.headers.name_at(i));
            out.append(": ");
            out.append(self.headers.value_at(i));
            out.append("\r\n");
            i += 1;
            assert(out@ =~= head + header_lines(after));
        }
        assert(self.headers@.subrange(0, n as int) =~= self.headers@);
        out.append("\r\n");
        out.append(self.body.as_str());
        assert(out@ =~= render(self@));
        out
    }

    /// The header fields of the response.
    pub fn headers(&self) -> (h: &Headers)
        ensures
            h@ == self@.headers,
    {
        &self.headers
    }

    /// The body of the response.
    pub fn body(&self) -> (b: &str)
        ensures
            b@ == self@.body,
    {
        self.body.as_str()
    }

    /// The status of the response.
    pub fn status(&self) -> (s: &Status)
        ensures
            *s == self@.status,
    {
        &self.status
    }
}

} // verus!
