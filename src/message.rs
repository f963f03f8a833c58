use vstd::prelude::*;

verus! {

/// A header field as bytes: its name, then its value.
pub type FieldView = (Seq<u8>, Seq<u8>);

/// One header line: a name, stored with its original casing, and a value.
#[derive(Clone, Debug)]
pub struct HeaderField {
    pub name: Vec<u8>,
    pub value: Vec<u8>,
}

impl View for HeaderField {
    type V = FieldView;

    open spec fn view(&self) -> FieldView {
        (self.name@, self.value@)
    }
}

/// The views of a sequence of header fields, in order.
pub open spec fn fields_view(hs: Seq<HeaderField>) -> Seq<FieldView> {
    Seq::new(hs.len(), |i: int| hs[i]@)
}

/// The mathematical content of a request.
pub struct RequestView {
    pub method: Seq<u8>,
    pub target: Seq<u8>,
    pub headers: Seq<FieldView>,
    pub body: Seq<u8>,
}

/// The mathematical content of a response.
pub struct ResponseView {
    pub code: u16,
    pub reason: Seq<u8>,
    pub headers: Seq<FieldView>,
    pub body: Seq<u8>,
}

/// An HTTP/1.1 request: request line, headers in wire order (duplicates kept), body.
#[derive(Clone, Debug)]
pub struct Request {
    pub method: Vec<u8>,
    pub target: Vec<u8>,
    pub headers: Vec<HeaderField>,
    pub body: Vec<u8>,
}

impl View for Request {
    type V = RequestView;

    open spec fn view(&self) -> RequestView {
        RequestView {
            method: self.method@,
            target: self.target@,
            headers: fields_view(self.headers@),
            body: self.body@,
        }
    }
}

/// An HTTP/1.1 response: status code and reason phrase, headers in wire order, body.
#[derive(Clone, Debug)]
pub struct Response {
    pub code: u16,
    pub reason: Vec<u8>,
    pub headers: Vec<HeaderField>,
    pub body: Vec<u8>,
}

impl View for Response {
    type V = ResponseView;

    open spec fn view(&self) -> ResponseView {
        ResponseView {
            code: self.code,
            reason: self.reason@,
            headers: fields_view(self.headers@),
            body: self.body@,
        }
    }
}

pub open spec fn crlf() -> Seq<u8> {
    seq![13u8, 10u8]
}

/// The protocol version token written on every start line: `HTTP/1.1`.
pub open spec fn version_token() -> Seq<u8> {
    seq![72u8, 84u8, 84u8, 80u8, 47u8, 49u8, 46u8, 49u8]
}

/// The lower-case name `content-length`.
pub open spec fn content_length_name() -> Seq<u8> {
    seq![99u8, 111u8, 110u8, 116u8, 101u8, 110u8, 116u8, 45u8, 108u8, 101u8, 110u8, 103u8, 116u8, 104u8]
}

pub open spec fn ascii_lower(b: u8) -> u8 {
    if 65 <= b <= 90 {
        (b + 32) as u8
    } else {
        b
    }
}

/// Equality of two byte strings up to ASCII case.
pub open spec fn eq_ignore_case(a: Seq<u8>, b: Seq<u8>) -> bool {
    a.len() == b.len() && forall|i: int| 0 <= i < a.len() ==> ascii_lower(#[trigger] a[i]) == ascii_lower(b[i])
}

pub open spec fn is_content_length(name: Seq<u8>) -> bool {
    eq_ignore_case(name, content_length_name())
}

/// The index of the first header named `content-length` (any case) at or after `i`.
pub open spec fn content_length_index_from(hs: Seq<FieldView>, i: int) -> Option<int>
    decreases hs.len() - i,
{
    if i < 0 || i >= hs.len() {
        None
    } else if is_content_length(hs[i].0) {
        Some(i)
    } else {
        content_length_index_from(hs, i + 1)
    }
}

pub open spec fn content_length_index(hs: Seq<FieldView>) -> Option<int> {
    content_length_index_from(hs, 0)
}

pub open spec fn has_content_length(hs: Seq<FieldView>) -> bool {
    content_length_index(hs) is Some
}

/// The decimal digits of `n`, most significant first, without leading zeros.
pub open spec fn decimal(n: nat) -> Seq<u8>
    decreases n,
{
    if n < 10 {
        seq![(48 + n) as u8]
    } else {
        decimal(n / 10).push((48 + n % 10) as u8)
    }
}

/// One header line on the wire: `NAME: VALUE` and a line end.
pub open spec fn header_line(f: FieldView) -> Seq<u8> {
    f.0 + seq![58u8, 32u8] + f.1 + crlf()
}

/// All header lines, in order.
pub open spec fn headers_bytes(hs: Seq<FieldView>) -> Seq<u8>
    decreases hs.len(),
{
    if hs.len() == 0 {
        Seq::empty()
    } else {
        headers_bytes(hs.drop_last()) + header_line(hs.last())
    }
}

/// The head of a request on the wire: request line, header lines, blank line.
pub open spec fn request_head_bytes(m: RequestView) -> Seq<u8> {
    m.method + seq![32u8] + m.target + seq![32u8] + version_token() + crlf() + headers_bytes(
        m.headers,
    ) + crlf()
}

pub open spec fn request_bytes(m: RequestView) -> Seq<u8> {
    request_head_bytes(m) + m.body
}

/// The head of a response on the wire: status line, header lines, blank line.
pub open spec fn response_head_bytes(m: ResponseView) -> Seq<u8> {
    version_token() + seq![32u8] + decimal(m.code as nat) + seq![32u8] + m.reason + crlf()
        + headers_bytes(m.headers) + crlf()
}

pub open spec fn response_bytes(m: ResponseView) -> Seq<u8> {
    response_head_bytes(m) + m.body
}

/// The response as it is sent: a `content-length` header with the body's length is
/// appended when no header of that name (in any case) is present.
pub open spec fn with_content_length(m: ResponseView) -> ResponseView {
    if has_content_length(m.headers) {
        m
    } else {
        ResponseView {
            headers: m.headers.push((content_length_name(), decimal(m.body.len()))),
            ..m
        }
    }
}

/// Serialisation into the exact bytes of an HTTP message, ready for transfer.
pub trait HttpSerialise {
    spec fn http_bytes(&self) -> Seq<u8>;

    /// Serialise into a byte vector HTTP request or response.
    fn to_http(&self) -> (r: Vec<u8>)
        ensures
            r@ == self.http_bytes(),
    ;
}

/// The bytes of `content-length`.
pub fn content_length_bytes() -> (r: Vec<u8>)
    ensures
        r@ == content_length_name(),
{
    let r = vec![99u8, 111, 110, 116, 101, 110, 116, 45, 108, 101, 110, 103, 116, 104];
    assert(r@ =~= content_length_name());
    r
}

fn push_all(out: &mut Vec<u8>, b: &[u8])
    ensures
        final(out)@ == old(out)@ + b@,
{
    out.extend_from_slice(b);
}

/// Appends the decimal digits of `n`.
pub fn push_decimal(out: &mut Vec<u8>, n: usize)
    ensures
        final(out)@ == old(out)@ + decimal(n as nat),
    decreases n,
{
    if n < 10 {
        out.push((48 + n) as u8);
        assert(decimal(n as nat) =~= seq![(48 + n) as u8]);
    } else {
        push_decimal(out, n / 10);
        out.push((48 + n % 10) as u8);
    }
}

/// The decimal digits of `n`.
pub fn decimal_bytes(n: usize) -> (r: Vec<u8>)
    ensures
        r@ == decimal(n as nat),
{
    let mut r: Vec<u8> = Vec::new();
    push_decimal(&mut r, n);
    assert(r@ =~= decimal(n as nat));
    r
}

fn push_headers(out: &mut Vec<u8>, hs: &Vec<HeaderField>)
    ensures
        final(out)@ == old(out)@ + headers_bytes(fields_view(hs@)),
{
    let ghost start = out@;
    let mut i: usize = 0;
    while i < hs.len()
        invariant
            i <= hs.len(),
            out@ == start + headers_bytes(fields_view(hs@.subrange(0, i as int))),
        decreases hs.len() - i,
    {
        let ghost before = out@;
        push_all(out, hs[i].name.as_slice());
        out.push(58u8);
        out.push(32u8);
        push_all(out, hs[i].value.as_slice());
        out.push(13u8);
        out.push(10u8);
        proof {
            let pre = fields_view(hs@.subrange(0, i as int));
            let post = fields_view(hs@.subrange(0, i + 1));
            assert(post.drop_last() =~= pre);
            assert(post.last() == hs@[i as int]@);
            assert(out@ =~= before + header_line(hs@[i as int]@));
        }
        i = i + 1;
    }
    assert(hs@.subrange(0, i as int) =~= hs@);
}

impl HttpSerialise for Request {
    open spec fn http_bytes(&self) -> Seq<u8> {
        request_bytes(self@)
    }

    /// `METHOD TARGET HTTP/1.1`, the header lines in stored order, a blank line, the body.
    fn to_http(&self) -> (r: Vec<u8>) {
        let mut out: Vec<u8> = Vec::new();
        push_all(&mut out, self.method.as_slice());
        out.push(32u8);
        push_all(&mut out, self.target.as_slice());
        out.push(32u8);
        push_version(&mut out);
        out.push(13u8);
        out.push(10u8);
        push_headers(&mut out, &self.headers);
        out.push(13u8);
        out.push(10u8);
        push_all(&mut out, self.body.as_slice());
        assert(out@ =~= request_bytes(self@));
        out
    }
}

impl HttpSerialise for Response {
    open spec fn http_bytes(&self) -> Seq<u8> {
        response_bytes(self@)
    }

    /// `HTTP/1.1 CODE REASON`, the header lines in stored order, a blank line, the body.
    fn to_http(&self) -> (r: Vec<u8>) {
        let mut out: Vec<u8> = Vec::new();
        push_version(&mut out);
        out.push(32u8);
        push_decimal(&mut out, self.code as usize);
        out.push(32u8);
        push_all(&mut out, self.reason.as_slice());
        out.push(13u8);
        out.push(10u8);
        push_headers(&mut out, &self.headers);
        out.push(13u8);
        out.push(10u8);
        push_all(&mut out, self.body.as_slice());
        assert(out@ =~= response_bytes(self@));
        out
    }
}

fn push_version(out: &mut Vec<u8>)
    ensures
        final(out)@ == old(out)@ + version_token(),
{
    let ghost start = out@;
    out.push(72u8);
    out.push(84u8);
    out.push(84u8);
    out.push(80u8);
    out.push(47u8);
    out.push(49u8);
    out.push(46u8);
    out.push(49u8);
    assert(out@ =~= start + version_token());
}

} // verus!
