//! HTTP requests: the request line and the header fields, read from text.

use crate::headers::{put, Fields, Headers};
use crate::text::{
    contains_exec, find, join, join_exec, lemma_split_len, split, split_terminator,
    split_terminator_exec, views,
};
use vstd::prelude::*;
use vstd::string::*;

verus! {

/// The request methods the server knows.
#[derive(Clone, Copy, Debug, PartialEq, Eq, Structural)]
pub enum Method {
    Get,
    Head,
}

/// Why a text is not a request.
#[derive(Clone, Copy, Debug, PartialEq, Eq, Structural)]
pub enum RequestError {
    /// The text is empty.
    NoRequestLine,
    /// The request line is empty.
    NoMethod,
    /// The method is neither `GET` nor `HEAD`.
    UnsupportedMethod,
    /// Nothing follows the method.
    NoPath,
    /// Nothing follows the path.
    NoVersion,
}

/// `s` in upper case, as `str::to_uppercase` of the standard library gives it.
pub uninterp spec fn uppercase(s: Seq<char>) -> Seq<char>;

/// `str::to_uppercase` of the standard library: the result depends on the
/// characters of `s` alone, by the Unicode case tables, and is what the
/// contracts call `uppercase`. Nothing more is claimed of it.
#[verifier::external_body]
fn to_uppercase(s: &str) -> (r: String)
    ensures
        r@ == uppercase(s@),
{
    s.to_uppercase()
}

impl Method {
    /// The method that an upper-case name stands for.
    pub open spec fn of_upper(upper: Seq<char>) -> Option<Method> {
        if upper == "GET"@ {
            Some(Method::Get)
        } else if upper == "HEAD"@ {
            Some(Method::Head)
        } else {
            None
        }
    }

    /// The name of a method.
    pub open spec fn spec_name(self) -> Seq<char> {
        match self {
            Method::Get => "GET"@,
            Method::Head => "HEAD"@,
        }
    }

    /// The method named by `upper`, which is taken as it stands: `GET` or
    /// `HEAD` in capitals, and nothing else, names a method.
    pub fn from_upper(upper: &str) -> (m: Option<Method>)
        ensures
            m == Method::of_upper(upper@),
    {
        if crate::text::same(upper, "GET") {
            Some(Method::Get)
        } else if crate::text::same(upper, "HEAD") {
            Some(Method::Head)
        } else {
            None
        }
    }

    /// The method named by `word`, in whatever case it is written.
    pub fn parse(word: &str) -> (m: Result<Method, RequestError>)
        ensures
            m == match Method::of_upper(uppercase(word@)) {
                Some(method) => Ok::<Method, RequestError>(method),
                None => Err(RequestError::UnsupportedMethod),
            },
    {
        let upper: String = to_uppercase(word);
        match Method::from_upper(upper.as_str()) {
            Some(method) => Ok(method),
            None => Err(RequestError::UnsupportedMethod),
        }
    }

    /// The method named by `word`, in whatever case it is written, or the
    /// words that say that there is no such method.
    pub fn try_from(word: &str) -> (m: Result<Method, &'static str>)
        ensures
            match Method::of_upper(uppercase(word@)) {
                Some(method) => m == Ok::<Method, &'static str>(method),
                None => m is Err && m->Err_0@ == RequestError::UnsupportedMethod.spec_message(),
            },
    {
        match Method::parse(word) {
            Ok(method) => Ok(method),
            Err(e) => Err(e.message()),
        }
    }

    /// The name of the method, in capitals.
    pub fn name(&self) -> (n: &'static str)
        ensures
            n@ == self.spec_name(),
    {
        match self {
            Method::Get => "GET",
            Method::Head => "HEAD",
        }
    }
}

impl RequestError {
    /// What went wrong, in words.
    pub open spec fn spec_message(self) -> Seq<char> {
        match self {
            RequestError::NoRequestLine => "Error getting first line of request."@,
            RequestError::NoMethod => "Error getting request method."@,
            RequestError::UnsupportedMethod => "Unsupported method"@,
            RequestError::NoPath => "Error getting request path."@,
            RequestError::NoVersion => "Error getting request HTTP version."@,
        }
    }

    /// What went wrong, in words.
    pub fn message(&self) -> (m: &'static str)
        ensures
            m@ == self.spec_message(),
    {
        match self {
            RequestError::NoRequestLine => "Error getting first line of request.",
            RequestError::NoMethod => "Error getting request method.",
            RequestError::UnsupportedMethod => "Unsupported method",
            RequestError::NoPath => "Error getting request path.",
            RequestError::NoVersion => "Error getting request HTTP version.",
        }
    }
}

/// What a request holds.
pub struct RequestView {
    pub method: Method,
    pub path: Seq<char>,
    pub version: Seq<char>,
    pub headers: Fields,
}

/// The name of the header field that `line` holds: what stands before the
/// first `": "`.
pub open spec fn field_name(line: Seq<char>) -> Seq<char> {
    split_terminator(line, ": "@)[0]
}

/// The value of the header field that `line` holds: what follows the first
/// `": "`, without a `": "` at its very end.
pub open spec fn field_value(line: Seq<char>) -> Seq<char> {
    let parts = split_terminator(line, ": "@);
    join(parts.subrange(1, parts.len() as int), ": "@)
}

/// The header fields that `lines` hold. A line without `": "` holds none;
/// where a name comes again, the later value stands.
pub open spec fn header_fields(lines: Seq<Seq<char>>) -> Fields
    decreases lines.len(),
{
    if lines.len() == 0 {
        Fields::empty()
    } else {
        let before = header_fields(lines.drop_last());
        let line = lines.last();
        if find(line, ": "@) is Some {
            put(before, field_name(line), field_value(line))
        } else {
            before
        }
    }
}

/// The request that the text `s` holds, or why it holds none.
///
/// The lines of `s` end in `"\r\n"`. The first is the request line: method,
/// path and version, with one space between them; what follows the version
/// is not looked at. The other lines hold the header fields.
pub open spec fn parse_request(s: Seq<char>) -> Result<RequestView, RequestError> {
    let lines = split_terminator(s, "\r\n"@);
    if lines.len() == 0 {
        Err(RequestError::NoRequestLine)
    } else {
        let words = split_terminator(lines[0], " "@);
        if words.len() == 0 {
            Err(RequestError::NoMethod)
        } else {
            match Method::of_upper(uppercase(words[0])) {
                None => Err(RequestError::UnsupportedMethod),
                Some(method) => if words.len() < 2 {
                    Err(RequestError::NoPath)
                } else if words.len() < 3 {
                    Err(RequestError::NoVersion)
                } else {
                    Ok(
                        RequestView {
                            method,
                            path: words[1],
                            version: words[2],
                            headers: header_fields(lines.subrange(1, lines.len() as int)),
                        },
                    )
                },
            }
        }
    }
}

/// A request: method, path, version and header fields. Path and version are
/// parts of the text that was read.
pub struct HttpRequest<'a> {
    method: Method,
    path: &'a str,
    version: &'a str,
    headers: Headers,
}

impl<'a> View for HttpRequest<'a> {
    type V = RequestView;

    closed spec fn view(&self) -> RequestView {
        RequestView {
            method: self.method,
            path: self.path@,
            version: self.version@,
            headers: self.headers@,
        }
    }
}

/// Reads the header fields from the lines that follow the request line.
fn read_headers(lines: &Vec<&str>) -> (headers: Headers)
    requires
        lines@.len() >= 1,
    ensures
        headers@ == header_fields(views(lines@).subrange(1, lines@.len() as int)),
{
    proof {
        reveal_strlit(": ");
    }
    let n: usize = lines.len();
    let ghost all = views(lines@);
    let mut headers: Headers = Headers::new();
    let mut i: usize = 1;
    assert(all.subrange(1, 1) =~= Seq::<Seq<char>>::empty());
    while i < n
        invariant
            n == lines@.len(),
            all == views(lines@),
            1 <= i <= n,
            ": "@.len() == 2,
            headers@ == header_fields(all.subrange(1, i as int)),
        decreases n - i,
    {
        let line: &str = lines[i];
        proof {
            let before = all.subrange(1, i as int);
            let after = all.subrange(1, i + 1);
            assert(after.drop_last() =~= before);
            assert(after.last() == line@);
        }
        if contains_exec(line, ": ") {
            let parts: Vec<&str> = split_terminator_exec(line, ": ");
            proof {
                lemma_split_len(line@, ": "@);
                assert(split(line@, ": "@).len() >= 2);
                assert(views(parts@).len() == parts@.len());
                assert(views(parts@)[0] == parts@[0]@);
            }
            let name: String = String::from_str(parts[0]);
            let value: String = join_exec(&parts, 1, ": ");
            headers.insert(name, value);
        }
        i += 1;
    }
    headers
}

impl<'a> HttpRequest<'a> {
    /// Reads a request from the text `s`.
    pub fn parse(s: &'a str) -> (r: Result<HttpRequest<'a>, RequestError>)
        ensures
            match parse_request(s@) {
                Ok(v) => r is Ok && r->Ok_0@ == v,
                Err(e) => r == Err::<HttpRequest<'a>, RequestError>(e),
            },
    {
        proof {
            reveal_strlit("\r\n");
            reveal_strlit(" ");
        }
        let lines: Vec<&'a str> = split_terminator_exec(s, "\r\n");
        if lines.len() == 0 {
            return Err(RequestError::NoRequestLine);
        }
        let words: Vec<&'a str> = split_terminator_exec(lines[0], " ");
        if words.len() == 0 {
            return Err(RequestError::NoMethod);
        }
        let method: Method = match Method::parse(words[0]) {
            Ok(method) => method,
            Err(e) => {
                return Err(e);
            },
        };
        if words.len() < 2 {
            return Err(RequestError::NoPath);
        }
        if words.len() < 3 {
            return Err(RequestError::NoVersion);
        }
        let headers: Headers = read_headers(&lines);
        Ok(HttpRequest { method, path: words[1], version: words[2], headers })
    }

    /// Reads a request from the text `s`; where it holds none, the error
    /// says why in words.
    pub fn try_from(s: &'a str) -> (r: Result<HttpRequest<'a>, &'static str>)
        ensures
            match parse_request(s@) {
                Ok(v) => r is Ok && r->Ok_0@ == v,
                Err(e) => r is Err && r->Err_0@ == e.spec_message(),
            },
    {
        match HttpRequest::parse(s) {
            Ok(request) => Ok(request),
            Err(e) => Err(e.message()),
        }
    }

    /// The name of the request's method, in capitals.
    pub fn method(&self) -> (m: String)
        ensures
            m@ == self@.method.spec_name(),
    {
        String::from_str(self.method.name())
    }

    /// The path that is asked for.
    pub fn path(&self) -> (p: &str)
        ensures
            p@ == self@.path,
    {
        self.path
    }

    /// The HTTP version of the request.
    pub fn version(&self) -> (v: &str)
        ensures
            v@ == self@.version,
    {
        self.version
    }

    /// The header fields of the request.
    pub fn headers(&self) -> (h: &Headers)
        ensures
            h@ == self@.headers,
    {
        &self.headers
    }
}

} // verus!
