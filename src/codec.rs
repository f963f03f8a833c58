use vstd::prelude::*;
use vstd::slice::{slice_subrange, slice_to_vec};
use crate::content_length::{body_length, declared_body_len};
use crate::error::{ErrorKind, HttpRequestError};
use crate::external::{
    http_accepts_header_name, http_accepts_header_value, http_accepts_method,
    http_accepts_status, http_accepts_target, http_canonical_reason, canonical_reason_of, httparse_request, httparse_response,
    is_header_name, is_header_value, is_token, request_head_of, response_head_of, uri_accepts,
};
use crate::head::{head_end, head_len, read_head};
use crate::message::{FieldView, HeaderField, Request, RequestView, Response, ResponseView, fields_view};

verus! {

/// The most header lines a head may carry; a head with more is a parse error.
pub const MAX_HEADERS: usize = 16;

/// A header whose name and value http accepts.
pub open spec fn field_accepted(f: FieldView) -> bool {
    is_header_name(f.0) && is_header_value(f.1)
}

/// Every header has a name and a value that http accepts.
pub open spec fn headers_accepted(hs: Seq<FieldView>) -> bool {
    forall|i: int| 0 <= i < hs.len() ==> field_accepted(#[trigger] hs[i])
}

/// A request that http can represent: token method, URI target, valid headers.
pub open spec fn request_accepted(m: RequestView) -> bool {
    is_token(m.method) && uri_accepts(m.target) && headers_accepted(m.headers)
}

/// A response that http can represent: status code 100 to 999, valid headers.
pub open spec fn response_accepted(m: ResponseView) -> bool {
    100 <= m.code <= 999 && headers_accepted(m.headers)
}

/// A parsed request head and the length of the body that must follow it.
pub open spec fn request_head_spec(head: Seq<u8>) -> Result<(RequestView, nat), ErrorKind> {
    match request_head_of(head, MAX_HEADERS as nat) {
        None => Err(ErrorKind::Parsing),
        Some((method, target, headers)) => match declared_body_len(headers) {
            Err(k) => Err(k),
            Ok(n) => Ok((RequestView { method, target, headers, body: Seq::empty() }, n)),
        },
    }
}

/// A parsed response head and the length of the body that must follow it.
pub open spec fn response_head_spec(head: Seq<u8>) -> Result<(ResponseView, nat), ErrorKind> {
    match response_head_of(head, MAX_HEADERS as nat) {
        None => Err(ErrorKind::Parsing),
        Some((code, reason, headers)) => match declared_body_len(headers) {
            Err(k) => Err(k),
            Ok(n) => Ok((ResponseView { code, reason, headers, body: Seq::empty() }, n)),
        },
    }
}

/// The `n` body bytes that follow a head of length `h` in `s`; an I/O error when the
/// stream ends sooner.
pub open spec fn body_spec(s: Seq<u8>, h: nat, n: nat) -> Result<Seq<u8>, ErrorKind> {
    if h + n > s.len() {
        Err(ErrorKind::Io)
    } else {
        Ok(s.subrange(h as int, (h + n) as int))
    }
}

/// The request that the stream `s` holds, or the kind of error that reading it meets.
pub open spec fn parse_request_spec(s: Seq<u8>) -> Result<RequestView, ErrorKind> {
    let h = head_len(s);
    match request_head_spec(s.subrange(0, h as int)) {
        Err(k) => Err(k),
        Ok((m, n)) => match body_spec(s, h, n) {
            Err(k) => Err(k),
            Ok(body) => {
                let r = RequestView { body, ..m };
                if request_accepted(r) {
                    Ok(r)
                } else {
                    Err(ErrorKind::BodyWriting)
                }
            },
        },
    }
}

/// The response that the stream `s` holds, or the kind of error that reading it meets.
pub open spec fn parse_response_spec(s: Seq<u8>) -> Result<ResponseView, ErrorKind> {
    let h = head_len(s);
    match response_head_spec(s.subrange(0, h as int)) {
        Err(k) => Err(k),
        Ok((m, n)) => match body_spec(s, h, n) {
            Err(k) => Err(k),
            Ok(body) => {
                let r = ResponseView { body, ..m };
                if response_accepted(r) {
                    Ok(r)
                } else {
                    Err(ErrorKind::BodyWriting)
                }
            },
        },
    }
}

fn parsing_error(text: String) -> (r: HttpRequestError)
    ensures
        r.kind() == ErrorKind::Parsing,
{
    HttpRequestError::ParsingError(text)
}

fn incomplete_head() -> (r: HttpRequestError)
    ensures
        r.kind() == ErrorKind::Parsing,
{
    HttpRequestError::ParsingError(String::from_str("incomplete head"))
}

fn body_writing_error(text: &str) -> (r: HttpRequestError)
    ensures
        r.kind() == ErrorKind::BodyWriting,
{
    HttpRequestError::BodyWritingError(String::from_str(text))
}

/// Parses a request head (as `read_head` returns it); gives the request with an empty
/// body and the length of the body that must follow.
pub fn parse_request_head(head: &[u8]) -> (r: Result<(Request, usize), HttpRequestError>)
    ensures
        match r {
            Ok((m, n)) => request_head_spec(head@) == Ok::<(RequestView, nat), ErrorKind>(
                (m@, n as nat),
            ),
            Err(e) => request_head_spec(head@) == Err::<(RequestView, nat), ErrorKind>(e.kind()),
        },
{
    match httparse_request(head, MAX_HEADERS) {
        Err(text) => Err(parsing_error(text)),
        Ok(None) => Err(incomplete_head()),
        Ok(Some(m)) => match body_length(&m.headers) {
            Err(e) => Err(e),
            Ok(n) => {
                assert(m@.body =~= Seq::<u8>::empty());
                Ok((m, n))
            },
        },
    }
}

/// Parses a response head (as `read_head` returns it); gives the response with an
/// empty body and the length of the body that must follow.
pub fn parse_response_head(head: &[u8]) -> (r: Result<(Response, usize), HttpRequestError>)
    ensures
        match r {
            Ok((m, n)) => response_head_spec(head@) == Ok::<(ResponseView, nat), ErrorKind>(
                (m@, n as nat),
            ),
            Err(e) => response_head_spec(head@) == Err::<(ResponseView, nat), ErrorKind>(
                e.kind(),
            ),
        },
{
    match httparse_response(head, MAX_HEADERS) {
        Err(text) => Err(parsing_error(text)),
        Ok(None) => Err(incomplete_head()),
        Ok(Some(m)) => match body_length(&m.headers) {
            Err(e) => Err(e),
            Ok(n) => {
                assert(m@.body =~= Seq::<u8>::empty());
                Ok((m, n))
            },
        },
    }
}

/// Whether http accepts every header name and value.
pub fn check_headers(hs: &Vec<HeaderField>) -> (r: bool)
    ensures
        r == headers_accepted(fields_view(hs@)),
{
    let ghost fv = fields_view(hs@);
    let mut i: usize = 0;
    while i < hs.len()
        invariant
            i <= hs@.len(),
            fv == fields_view(hs@),
            forall|k: int| 0 <= k < i ==> field_accepted(#[trigger] fv[k]),
        decreases hs.len() - i,
    {
        if !http_accepts_header_name(hs[i].name.as_slice()) || !http_accepts_header_value(
            hs[i].value.as_slice(),
        ) {
            assert(fv[i as int] == hs@[i as int]@);
            assert(!field_accepted(fv[i as int]));
            return false;
        }
        i = i + 1;
    }
    true
}

/// Completes a parsed request head with its body. Fails with a body-writing error when
/// http would not accept the method, the target or a header.
pub fn finish_request(head: Request, body: Vec<u8>) -> (r: Result<Request, HttpRequestError>)
    ensures
        ({
            let m = RequestView { body: body@, ..head@ };
            match r {
                Ok(q) => request_accepted(m) && q@ == m,
                Err(e) => !request_accepted(m) && e.kind() == ErrorKind::BodyWriting,
            }
        }),
{
    if !http_accepts_method(head.method.as_slice()) {
        return Err(body_writing_error("invalid HTTP method"));
    }
    if !http_accepts_target(head.target.as_slice()) {
        return Err(body_writing_error("invalid uri"));
    }
    if !check_headers(&head.headers) {
        return Err(body_writing_error("invalid HTTP header"));
    }
    Ok(Request { method: head.method, target: head.target, headers: head.headers, body })
}

/// Completes a parsed response head with its body. Fails with a body-writing error
/// when http would not accept the status code or a header.
pub fn finish_response(head: Response, body: Vec<u8>) -> (r: Result<Response, HttpRequestError>)
    ensures
        ({
            let m = ResponseView { body: body@, ..head@ };
            match r {
                Ok(q) => response_accepted(m) && q@ == m,
                Err(e) => !response_accepted(m) && e.kind() == ErrorKind::BodyWriting,
            }
        }),
{
    if !http_accepts_status(head.code) {
        return Err(body_writing_error("invalid status code"));
    }
    if !check_headers(&head.headers) {
        return Err(body_writing_error("invalid HTTP header"));
    }
    Ok(Response { code: head.code, reason: head.reason, headers: head.headers, body })
}

/// The `n` bytes after the head of length `h`; an I/O error when `input` ends sooner.
pub fn read_body(input: &[u8], h: usize, n: usize) -> (r: Result<Vec<u8>, HttpRequestError>)
    ensures
        match r {
            Ok(b) => body_spec(input@, h as nat, n as nat) == Ok::<Seq<u8>, ErrorKind>(b@),
            Err(e) => body_spec(input@, h as nat, n as nat) == Err::<Seq<u8>, ErrorKind>(e.kind()),
        },
{
    if h > input.len() || input.len() - h < n {
        return Err(HttpRequestError::IOError(String::from_str("failed to fill whole buffer")));
    }
    let b = slice_subrange(input, h, h + n);
    Ok(slice_to_vec(b))
}

/// Reads one request from the start of `input`: the head, then exactly as many body
/// bytes as its first `content-length` header declares (none without one).
pub fn parse_into_request(input: &[u8]) -> (r: Result<Request, HttpRequestError>)
    ensures
        match r {
            Ok(m) => parse_request_spec(input@) == Ok::<RequestView, ErrorKind>(m@),
            Err(e) => parse_request_spec(input@) == Err::<RequestView, ErrorKind>(e.kind()),
        },
{
    let h = head_end(input);
    let head = read_head(input);
    match parse_request_head(head.as_slice()) {
        Err(e) => Err(e),
        Ok((m, n)) => match read_body(input, h, n) {
            Err(e) => Err(e),
            Ok(body) => finish_request(m, body),
        },
    }
}

/// Reads one response from the start of `input`: the head, then exactly as many body
/// bytes as its first `content-length` header declares (none without one).
pub fn parse_into_response(input: &[u8]) -> (r: Result<Response, HttpRequestError>)
    ensures
        match r {
            Ok(m) => parse_response_spec(input@) == Ok::<ResponseView, ErrorKind>(m@),
            Err(e) => parse_response_spec(input@) == Err::<ResponseView, ErrorKind>(e.kind()),
        },
{
    let h = head_end(input);
    let head = read_head(input);
    match parse_response_head(head.as_slice()) {
        Err(e) => Err(e),
        Ok((m, n)) => match read_body(input, h, n) {
            Err(e) => Err(e),
            Ok(body) => finish_response(m, body),
        },
    }
}

impl Response {
    /// A response with the given status and body, no headers, and the reason phrase
    /// that http registers for the code (empty for a code without one). A code outside
    /// 100 to 999 is a body-writing error.
    pub fn with_status(code: u16, body: Vec<u8>) -> (r: Result<Response, HttpRequestError>)
        ensures
            match r {
                Ok(m) => 100 <= code <= 999 && m.code == code && m@.headers.len() == 0 && m.body@
                    == body@ && m.reason@ == match canonical_reason_of(code) {
                    Some(t) => t,
                    None => Seq::<u8>::empty(),
                },
                Err(e) => !(100 <= code <= 999) && e.kind() == ErrorKind::BodyWriting,
            },
    {
        if !http_accepts_status(code) {
            return Err(body_writing_error("invalid status code"));
        }
        let reason = match http_canonical_reason(code) {
            Some(t) => t,
            None => Vec::new(),
        };
        let r = Response { code, reason, headers: Vec::new(), body };
        assert(r@.headers =~= Seq::<FieldView>::empty());
        Ok(r)
    }
}

} // verus!
