use vstd::prelude::*;
use crate::message::{FieldView, HeaderField, Request, Response, fields_view};

verus! {

/// What httparse reads from a request head with room for `max_headers` header lines:
/// method, request target and header fields in order; `None` when the head is
/// malformed, incomplete or has too many header lines.
pub uninterp spec fn request_head_of(head: Seq<u8>, max_headers: nat) -> Option<
    (Seq<u8>, Seq<u8>, Seq<FieldView>),
>;

/// What httparse reads from a response head with room for `max_headers` header lines:
/// status code, reason phrase and header fields in order; `None` when the head is
/// malformed, incomplete or has too many header lines.
pub uninterp spec fn response_head_of(head: Seq<u8>, max_headers: nat) -> Option<
    (u16, Seq<u8>, Seq<FieldView>),
>;

/// The reason phrase that http registers for a status code, if it has one.
pub uninterp spec fn canonical_reason_of(code: u16) -> Option<Seq<u8>>;

/// Whether http's `Uri` accepts these bytes as a request target.
pub uninterp spec fn uri_accepts(target: Seq<u8>) -> bool;

/// A `tchar` of RFC 7230: a letter, a digit, or one of ``!#$%&'*+-.^_`|~``.
pub open spec fn is_tchar(b: u8) -> bool {
    (48 <= b <= 57) || (65 <= b <= 90) || (97 <= b <= 122) || b == 33 || b == 35 || b == 36
        || b == 37 || b == 38 || b == 39 || b == 42 || b == 43 || b == 45 || b == 46 || b == 94
        || b == 95 || b == 96 || b == 124 || b == 126
}

/// One or more `tchar`s.
pub open spec fn is_token(s: Seq<u8>) -> bool {
    s.len() > 0 && forall|i: int| 0 <= i < s.len() ==> is_tchar(#[trigger] s[i])
}

/// A byte that a header value may hold: tab, or anything from space up but DEL.
pub open spec fn is_value_byte(b: u8) -> bool {
    (b >= 32 && b != 127) || b == 9
}

pub open spec fn is_header_value(v: Seq<u8>) -> bool {
    forall|i: int| 0 <= i < v.len() ==> is_value_byte(#[trigger] v[i])
}

/// A header name: a token of at most 65535 bytes.
pub open spec fn is_header_name(n: Seq<u8>) -> bool {
    is_token(n) && n.len() <= 65535
}

/// Relies on httparse::Request::parse, with a header buffer of `max_headers` entries:
/// `Ok(Some(..))` for a complete head, `Ok(None)` for an incomplete one, `Err` with
/// httparse's description of the error otherwise.
#[verifier::external_body]
pub(crate) fn httparse_request(head: &[u8], max_headers: usize) -> (r: Result<Option<Request>, String>)
    ensures
        match r {
            Ok(Some(h)) => request_head_of(head@, max_headers as nat) == Some(
                (h.method@, h.target@, fields_view(h.headers@)),
            ) && h.body@.len() == 0,
            _ => request_head_of(head@, max_headers as nat) is None,
        },
{
    let mut headers = vec![httparse::EMPTY_HEADER; max_headers];
    let mut p = httparse::Request::new(&mut headers);
    match p.parse(head) {
        Ok(httparse::Status::Complete(_)) => Ok(Some(Request {
            method: p.method.unwrap_or_default().as_bytes().to_vec(),
            target: p.path.unwrap_or_default().as_bytes().to_vec(),
            headers: p.headers.iter().map(|h| HeaderField { name: h.name.as_bytes().to_vec(), value: h.value.to_vec() }).collect(),
            body: Vec::new(),
        })),
        Ok(httparse::Status::Partial) => Ok(None),
        Err(e) => Err(e.to_string()),
    }
}

/// Relies on httparse::Response::parse, with a header buffer of `max_headers` entries:
/// `Ok(Some(..))` for a complete head, `Ok(None)` for an incomplete one, `Err` with
/// httparse's description of the error otherwise.
#[verifier::external_body]
pub(crate) fn httparse_response(head: &[u8], max_headers: usize) -> (r: Result<Option<Response>, String>)
    ensures
        match r {
            Ok(Some(h)) => response_head_of(head@, max_headers as nat) == Some(
                (h.code, h.reason@, fields_view(h.headers@)),
            ) && h.body@.len() == 0,
            _ => response_head_of(head@, max_headers as nat) is None,
        },
{
    let mut headers = vec![httparse::EMPTY_HEADER; max_headers];
    let mut p = httparse::Response::new(&mut headers);
    match p.parse(head) {
        Ok(httparse::Status::Complete(_)) => Ok(Some(Response {
            code: p.code.unwrap_or_default(),
            reason: p.reason.unwrap_or_default().as_bytes().to_vec(),
            headers: p.headers.iter().map(|h| HeaderField { name: h.name.as_bytes().to_vec(), value: h.value.to_vec() }).collect(),
            body: Vec::new(),
        })),
        Ok(httparse::Status::Partial) => Ok(None),
        Err(e) => Err(e.to_string()),
    }
}

/// Relies on http::Method::from_bytes: it accepts exactly the non-empty strings of
/// `tchar`s.
#[verifier::external_body]
pub(crate) fn http_accepts_method(m: &[u8]) -> (r: bool)
    ensures
        r == is_token(m@),
{
    http::Method::from_bytes(m).is_ok()
}

/// Relies on http::Uri's `TryFrom<&[u8]>`: whether the target parses as a URI.
#[verifier::external_body]
pub(crate) fn http_accepts_target(t: &[u8]) -> (r: bool)
    ensures
        r == uri_accepts(t@),
{
    http::Uri::try_from(t).is_ok()
}

/// Relies on http::HeaderName::from_bytes: it accepts exactly the tokens of at most
/// 65535 bytes.
#[verifier::external_body]
pub(crate) fn http_accepts_header_name(n: &[u8]) -> (r: bool)
    ensures
        r == is_header_name(n@),
{
    http::HeaderName::from_bytes(n).is_ok()
}

/// Relies on http::HeaderValue::from_bytes: it accepts exactly the values whose every
/// byte is a tab or at least a space and not DEL.
#[verifier::external_body]
pub(crate) fn http_accepts_header_value(v: &[u8]) -> (r: bool)
    ensures
        r == is_header_value(v@),
{
    http::HeaderValue::from_bytes(v).is_ok()
}

/// Relies on http::StatusCode::from_u16: it accepts exactly the codes 100 to 999.
#[verifier::external_body]
pub(crate) fn http_accepts_status(code: u16) -> (r: bool)
    ensures
        r == (100 <= code <= 999),
{
    http::StatusCode::from_u16(code).is_ok()
}

/// Relies on http::StatusCode::canonical_reason, for a code that from_u16 accepts:
/// the registered reason phrase, a function of the code alone.
#[verifier::external_body]
pub(crate) fn http_canonical_reason(code: u16) -> (r: Option<Vec<u8>>)
    requires
        100 <= code <= 999,
    ensures
        match r {
            Some(v) => canonical_reason_of(code) == Some(v@),
            None => canonical_reason_of(code) is None,
        },
{
    http::StatusCode::from_u16(code).ok().and_then(|c| c.canonical_reason()).map(|t| t.as_bytes().to_vec())
}

} // verus!
