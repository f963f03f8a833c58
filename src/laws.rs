use vstd::prelude::*;
use crate::codec::{
    MAX_HEADERS, body_spec, field_accepted, headers_accepted, parse_request_spec,
    parse_response_spec, request_accepted, request_head_spec, response_accepted,
    response_head_spec,
};
use crate::content_length::{all_digits, decimal_value, declared_body_len, digits_value, unsigned_digits};
use crate::error::ErrorKind;
use crate::external::{is_tchar, request_head_of, response_head_of};
use crate::head::{head_len, head_len_from, lemma_head_len_from_ends, terminator_at};
use crate::message::{
    FieldView, RequestView, ResponseView, content_length_index, content_length_index_from,
    content_length_name, crlf, decimal, eq_ignore_case, has_content_length, header_line,
    headers_bytes, is_content_length, request_bytes, request_head_bytes, response_bytes,
    response_head_bytes, version_token, with_content_length,
};

verus! {

/// No carriage return and no line feed.
pub open spec fn no_crlf(x: Seq<u8>) -> bool {
    forall|i: int| 0 <= i < x.len() ==> #[trigger] x[i] != 10u8 && x[i] != 13u8
}

/// Every line feed that is not the last byte is followed by something other than a
/// carriage return, and the bytes do not start with a carriage return: no blank line
/// can start inside them.
spec fn lines_ok(s: Seq<u8>) -> bool {
    &&& (s.len() > 0 ==> s[0] != 13u8)
    &&& forall|q: int| 0 <= q && q + 1 < s.len() && #[trigger] s[q] == 10u8 ==> s[q + 1] != 13u8
}

proof fn lemma_line_ok(content: Seq<u8>)
    requires
        content.len() > 0,
        no_crlf(content),
    ensures
        lines_ok(content + crlf()),
{
    let s = content + crlf();
    assert(s[0] == content[0]);
    assert forall|q: int| 0 <= q && q + 1 < s.len() && #[trigger] s[q] == 10u8 implies s[q + 1]
        != 13u8 by {
        if q < content.len() {
            assert(s[q] == content[q]);
        }
    }
}

proof fn lemma_lines_concat(a: Seq<u8>, b: Seq<u8>)
    requires
        lines_ok(a),
        lines_ok(b),
    ensures
        lines_ok(a + b),
{
    let s = a + b;
    assert forall|q: int| 0 <= q && q + 1 < s.len() && #[trigger] s[q] == 10u8 implies s[q + 1]
        != 13u8 by {
        if q + 1 < a.len() {
            assert(s[q] == a[q] && s[q + 1] == a[q + 1]);
        } else if q + 1 == a.len() {
            assert(s[q + 1] == b[0]);
        } else {
            assert(s[q] == b[q - a.len()] && s[q + 1] == b[q + 1 - a.len()]);
        }
    }
    if a.len() > 0 {
        assert(s[0] == a[0]);
    } else {
        assert(s =~= b);
    }
}

proof fn lemma_no_crlf_concat(a: Seq<u8>, b: Seq<u8>)
    requires
        no_crlf(a),
        no_crlf(b),
    ensures
        no_crlf(a + b),
{
    assert forall|i: int| 0 <= i < (a + b).len() implies #[trigger] (a + b)[i] != 10u8 && (a
        + b)[i] != 13u8 by {
        if i < a.len() {
            assert((a + b)[i] == a[i]);
        } else {
            assert((a + b)[i] == b[i - a.len()]);
        }
    }
}

proof fn lemma_token_no_crlf(x: Seq<u8>)
    requires
        forall|i: int| 0 <= i < x.len() ==> is_tchar(#[trigger] x[i]),
    ensures
        no_crlf(x),
{
    assert forall|i: int| 0 <= i < x.len() implies #[trigger] x[i] != 10u8 && x[i] != 13u8 by {
        assert(is_tchar(x[i]));
    }
}

proof fn lemma_field_line_ok(f: FieldView)
    requires
        field_accepted(f),
    ensures
        lines_ok(header_line(f)),
        header_line(f).last() == 10u8,
{
    lemma_token_no_crlf(f.0);
    let sep = seq![58u8, 32u8];
    assert(no_crlf(sep));
    assert(no_crlf(f.1)) by {
        assert forall|i: int| 0 <= i < f.1.len() implies #[trigger] f.1[i] != 10u8 && f.1[i]
            != 13u8 by {
            assert(crate::external::is_value_byte(f.1[i]));
        }
    }
    lemma_no_crlf_concat(f.0, sep);
    lemma_no_crlf_concat(f.0 + sep, f.1);
    lemma_line_ok(f.0 + sep + f.1);
}

proof fn lemma_header_lines_ok(hs: Seq<FieldView>)
    requires
        headers_accepted(hs),
    ensures
        lines_ok(headers_bytes(hs)),
        headers_bytes(hs).len() == 0 || headers_bytes(hs).last() == 10u8,
    decreases hs.len(),
{
    if hs.len() > 0 {
        let init = hs.drop_last();
        assert(headers_accepted(init)) by {
            assert forall|i: int| 0 <= i < init.len() implies field_accepted(#[trigger] init[i]) by {
                assert(init[i] == hs[i]);
                assert(field_accepted(hs[i]));
            }
        }
        lemma_header_lines_ok(init);
        let f = hs.last();
        assert(field_accepted(hs[hs.len() - 1]));
        lemma_field_line_ok(f);
        lemma_lines_concat(headers_bytes(init), header_line(f));
    }
}

/// The head ends just past the terminator at `k` when none comes before it.
proof fn lemma_head_len_at(s: Seq<u8>, k: int, i: int)
    requires
        0 <= i <= k,
        terminator_at(s, k),
        forall|q: int| i <= q < k ==> !#[trigger] terminator_at(s, q),
    ensures
        head_len_from(s, i) == k + 3,
    decreases k - i,
{
    if i < k {
        assert(!terminator_at(s, i));
        lemma_head_len_at(s, k, i + 1);
    }
}

/// A stream made of a head `p + crlf` whose lines are all well formed, then anything,
/// has that head.
proof fn lemma_head_of_lines(p: Seq<u8>, rest: Seq<u8>)
    requires
        p.len() > 0,
        p.last() == 10u8,
        lines_ok(p),
    ensures
        head_len(p + crlf() + rest) == p.len() + 2,
        (p + crlf() + rest).subrange(0, p.len() + 2 as int) == p + crlf(),
{
    let s = p + crlf() + rest;
    let k = p.len() - 1;
    assert(s[k] == p[k]);
    assert(s[k + 1] == 13u8 && s[k + 2] == 10u8);
    assert(terminator_at(s, k));
    assert forall|q: int| 0 <= q < k implies !#[trigger] terminator_at(s, q) by {
        assert(s[q] == p[q] && s[q + 1] == p[q + 1]);
    }
    lemma_head_len_at(s, k, 0);
    assert(s.subrange(0, p.len() + 2 as int) =~= p + crlf());
}

proof fn lemma_version_no_crlf()
    ensures
        no_crlf(version_token()),
        no_crlf(seq![32u8]),
{
    assert(no_crlf(version_token()));
    assert(no_crlf(seq![32u8]));
}

/// The start line and header lines of a request written by the serializer.
proof fn lemma_request_head_shape(m: RequestView)
    requires
        request_accepted(m),
        no_crlf(m.target),
    ensures
        ({
            let p = m.method + seq![32u8] + m.target + seq![32u8] + version_token() + crlf()
                + headers_bytes(m.headers);
            &&& request_head_bytes(m) == p + crlf()
            &&& p.len() > 0
            &&& p.last() == 10u8
            &&& lines_ok(p)
        }),
{
    let sp = seq![32u8];
    lemma_version_no_crlf();
    lemma_token_no_crlf(m.method);
    lemma_no_crlf_concat(m.method, sp);
    lemma_no_crlf_concat(m.method + sp, m.target);
    lemma_no_crlf_concat(m.method + sp + m.target, sp);
    lemma_no_crlf_concat(m.method + sp + m.target + sp, version_token());
    let content = m.method + sp + m.target + sp + version_token();
    lemma_line_ok(content);
    lemma_header_lines_ok(m.headers);
    lemma_lines_concat(content + crlf(), headers_bytes(m.headers));
    let p = content + crlf() + headers_bytes(m.headers);
    if headers_bytes(m.headers).len() == 0 {
        assert(p =~= content + crlf());
    }
}

/// A request that the serializer writes is read back as the same request, provided
/// its target has no line break, http accepts it, its first `content-length` header
/// (if any) gives the body's length and there is no body without one, and the head
/// parser reads the written head back field for field.
pub proof fn lemma_request_round_trip(m: RequestView)
    requires
        no_crlf(m.target),
        request_accepted(m),
        declared_body_len(m.headers) == Ok::<nat, ErrorKind>(m.body.len()),
        request_head_of(request_head_bytes(m), MAX_HEADERS as nat) == Some(
            (m.method, m.target, m.headers),
        ),
    ensures
        parse_request_spec(request_bytes(m)) == Ok::<RequestView, ErrorKind>(m),
{
    lemma_request_head_shape(m);
    let p = m.method + seq![32u8] + m.target + seq![32u8] + version_token() + crlf()
        + headers_bytes(m.headers);
    lemma_head_of_lines(p, m.body);
    let s = request_bytes(m);
    assert(s == p + crlf() + m.body);
    let h = head_len(s);
    assert(s.subrange(0, h as int) == request_head_bytes(m));
    assert(s.subrange(h as int, (h + m.body.len()) as int) =~= m.body);
    assert(body_spec(s, h, m.body.len()) == Ok::<Seq<u8>, ErrorKind>(m.body));
}

proof fn lemma_digits_of_decimal(n: nat)
    ensures
        decimal(n).len() > 0,
        all_digits(decimal(n)),
        digits_value(decimal(n)) == n,
    decreases n,
{
    if n >= 10 {
        lemma_digits_of_decimal(n / 10);
        let d = decimal(n);
        assert(d.drop_last() =~= decimal(n / 10));
        assert(d.last() == (48 + n % 10) as u8);
        assert((d.last() - 48) as nat == n % 10);
        assert(n == (n / 10) * 10 + n % 10);
        assert(digits_value(d) == digits_value(d.drop_last()) * 10 + (d.last() - 48) as nat);
    } else {
        let d = decimal(n);
        assert(d.drop_last() =~= Seq::<u8>::empty());
        assert(d.last() == (48 + n) as u8);
        assert(digits_value(d) == digits_value(d.drop_last()) * 10 + (d.last() - 48) as nat);
        assert forall|i: int| 0 <= i < d.len() implies crate::content_length::is_digit(
            #[trigger] d[i],
        ) by {
            if i < d.len() - 1 {
                assert(d[i] == decimal(n / 10)[i]);
            }
        }
    }
}

/// The decimal digits of a length read back as that length.
pub proof fn lemma_decimal_round_trip(n: nat)
    requires
        n <= usize::MAX,
    ensures
        decimal_value(decimal(n)) == Some(n),
{
    lemma_digits_of_decimal(n);
    let d = decimal(n);
    assert(crate::content_length::is_digit(d[0]));
    assert(unsigned_digits(d) == d);
}

proof fn lemma_index_after_push(hs: Seq<FieldView>, f: FieldView, i: int)
    requires
        0 <= i <= hs.len(),
        content_length_index_from(hs, i) is None,
        is_content_length(f.0),
    ensures
        content_length_index_from(hs.push(f), i) == Some(hs.len() as int),
    decreases hs.len() - i,
{
    let g = hs.push(f);
    if i < hs.len() {
        assert(g[i] == hs[i]);
        lemma_index_after_push(hs, f, i + 1);
    } else {
        assert(g[i] == f);
    }
}

proof fn lemma_index_kept_by_push(hs: Seq<FieldView>, f: FieldView, i: int)
    requires
        0 <= i,
        content_length_index_from(hs, i) is Some,
    ensures
        content_length_index_from(hs.push(f), i) == content_length_index_from(hs, i),
    decreases hs.len() - i,
{
    let g = hs.push(f);
    if i < hs.len() {
        assert(g[i] == hs[i]);
        if !is_content_length(hs[i].0) {
            lemma_index_kept_by_push(hs, f, i + 1);
        }
    }
}

proof fn lemma_content_length_name_is_token()
    ensures
        is_content_length(content_length_name()),
        field_accepted((content_length_name(), seq![48u8])),
        forall|i: int| 0 <= i < content_length_name().len() ==> is_tchar(#[trigger] content_length_name()[i]),
{
    let n = content_length_name();
    assert(eq_ignore_case(n, n));
    assert forall|i: int| 0 <= i < n.len() implies is_tchar(#[trigger] n[i]) by {
        assert(0 <= i < 14);
    }
    assert(field_accepted((n, seq![48u8])));
}

/// The `content-length` header that sending adds is one that http accepts.
proof fn lemma_injected_field_accepted(n: nat)
    ensures
        field_accepted((content_length_name(), decimal(n))),
{
    lemma_content_length_name_is_token();
    lemma_digits_of_decimal(n);
    let d = decimal(n);
    assert forall|i: int| 0 <= i < d.len() implies crate::external::is_value_byte(#[trigger] d[i]) by {
        assert(crate::content_length::is_digit(d[i]));
    }
}

/// Preparing a response for sending adds `content-length` only when it is absent: a
/// response that has the header (whatever its value) is left as it is, the prepared
/// response always has it, and preparing twice is preparing once.
pub proof fn lemma_injection_idempotent(m: ResponseView)
    ensures
        has_content_length(m.headers) ==> with_content_length(m) == m,
        has_content_length(with_content_length(m).headers),
        with_content_length(with_content_length(m)) == with_content_length(m),
        !has_content_length(m.headers) ==> with_content_length(m).headers == m.headers.push(
            (content_length_name(), decimal(m.body.len())),
        ),
{
    if !has_content_length(m.headers) {
        lemma_content_length_name_is_token();
        lemma_index_after_push(m.headers, (content_length_name(), decimal(m.body.len())), 0);
    }
}

/// The response line and header lines of a response written by the serializer.
proof fn lemma_response_head_shape(m: ResponseView)
    requires
        response_accepted(m),
        no_crlf(m.reason),
    ensures
        ({
            let p = version_token() + seq![32u8] + decimal(m.code as nat) + seq![32u8] + m.reason
                + crlf() + headers_bytes(m.headers);
            &&& response_head_bytes(m) == p + crlf()
            &&& p.len() > 0
            &&& p.last() == 10u8
            &&& lines_ok(p)
        }),
{
    let sp = seq![32u8];
    lemma_version_no_crlf();
    lemma_digits_of_decimal(m.code as nat);
    let d = decimal(m.code as nat);
    assert forall|i: int| 0 <= i < d.len() implies #[trigger] d[i] != 10u8 && d[i] != 13u8 by {
        assert(crate::content_length::is_digit(d[i]));
    }
    lemma_no_crlf_concat(version_token(), sp);
    lemma_no_crlf_concat(version_token() + sp, d);
    lemma_no_crlf_concat(version_token() + sp + d, sp);
    lemma_no_crlf_concat(version_token() + sp + d + sp, m.reason);
    let content = version_token() + sp + d + sp + m.reason;
    lemma_line_ok(content);
    lemma_header_lines_ok(m.headers);
    lemma_lines_concat(content + crlf(), headers_bytes(m.headers));
    let p = content + crlf() + headers_bytes(m.headers);
    if headers_bytes(m.headers).len() == 0 {
        assert(p =~= content + crlf());
    }
}

/// A response prepared for sending and written by the serializer is read back as the
/// prepared response, provided its reason phrase has no line break, http accepts it,
/// a `content-length` header it already has gives the body's length, and the head
/// parser reads the written head back field for field.
pub proof fn lemma_response_round_trip(m: ResponseView)
    requires
        no_crlf(m.reason),
        response_accepted(m),
        m.body.len() <= usize::MAX,
        has_content_length(m.headers) ==> declared_body_len(m.headers) == Ok::<nat, ErrorKind>(
            m.body.len(),
        ),
        response_head_of(response_head_bytes(with_content_length(m)), MAX_HEADERS as nat) == Some(
            (
                with_content_length(m).code,
                with_content_length(m).reason,
                with_content_length(m).headers,
            ),
        ),
    ensures
        parse_response_spec(response_bytes(with_content_length(m))) == Ok::<
            ResponseView,
            ErrorKind,
        >(with_content_length(m)),
{
    let w = with_content_length(m);
    if !has_content_length(m.headers) {
        let f = (content_length_name(), decimal(m.body.len()));
        lemma_injection_idempotent(m);
        lemma_decimal_round_trip(m.body.len());
        lemma_injected_field_accepted(m.body.len());
        assert(w.headers.last() == f);
        lemma_content_length_name_is_token();
        lemma_index_after_push(m.headers, f, 0);
        assert(content_length_index(w.headers) == Some(m.headers.len() as int));
        assert(w.headers[m.headers.len() as int] == f);
        assert(declared_body_len(w.headers) == Ok::<nat, ErrorKind>(m.body.len()));
        assert(headers_accepted(w.headers)) by {
            assert forall|i: int| 0 <= i < w.headers.len() implies field_accepted(
                #[trigger] w.headers[i],
            ) by {
                if i < m.headers.len() {
                    assert(w.headers[i] == m.headers[i]);
                }
            }
        }
    }
    lemma_response_head_shape(w);
    let p = version_token() + seq![32u8] + decimal(w.code as nat) + seq![32u8] + w.reason + crlf()
        + headers_bytes(w.headers);
    lemma_head_of_lines(p, w.body);
    let s = response_bytes(w);
    assert(s == p + crlf() + w.body);
    let h = head_len(s);
    assert(s.subrange(0, h as int) == response_head_bytes(w));
    assert(s.subrange(h as int, (h + w.body.len()) as int) =~= w.body);
    assert(body_spec(s, h, w.body.len()) == Ok::<Seq<u8>, ErrorKind>(w.body));
}

proof fn lemma_head_len_from_prefix(s: Seq<u8>, i: int)
    requires
        0 <= i,
        head_len_from(s, i) < s.len(),
    ensures
        head_len_from(s.subrange(0, head_len_from(s, i) as int), i) == head_len_from(s, i),
    decreases s.len() - i,
{
    let k = head_len_from(s, i);
    let t = s.subrange(0, k as int);
    lemma_head_len_from_ends(s, i);
    if terminator_at(s, i) {
        assert(terminator_at(t, i));
    } else {
        assert(i + 3 <= s.len());
        assert(head_len_from(s, i + 1) == k);
        lemma_head_len_from_ends(s, i + 1);
        lemma_head_len_from_prefix(s, i + 1);
        assert(i + 3 <= t.len());
        assert(t[i] == s[i] && t[i + 1] == s[i + 1] && t[i + 2] == s[i + 2]);
        assert(!terminator_at(t, i));
    }
}

/// The head of a stream, cut off right after it, is a stream with the same head.
pub proof fn lemma_head_of_head(s: Seq<u8>)
    ensures
        head_len(s.subrange(0, head_len(s) as int)) == head_len(s),
{
    lemma_head_len_from_ends(s, 0);
    if head_len(s) == s.len() {
        assert(s.subrange(0, head_len(s) as int) =~= s);
    } else {
        lemma_head_len_from_prefix(s, 0);
    }
}

/// A head without a `content-length` header is followed by an empty body: what the
/// stream holds after the head plays no part in the result.
pub proof fn lemma_no_content_length_empty_body(s: Seq<u8>)
    ensures
        ({
            let head = s.subrange(0, head_len(s) as int);
            match request_head_of(head, MAX_HEADERS as nat) {
                Some((_, _, hs)) => !has_content_length(hs) ==> {
                    &&& parse_request_spec(s) == parse_request_spec(head)
                    &&& parse_request_spec(s) is Ok ==> parse_request_spec(s)->Ok_0.body.len() == 0
                },
                None => true,
            }
        }),
        ({
            let head = s.subrange(0, head_len(s) as int);
            match response_head_of(head, MAX_HEADERS as nat) {
                Some((_, _, hs)) => !has_content_length(hs) ==> {
                    &&& parse_response_spec(s) == parse_response_spec(head)
                    &&& parse_response_spec(s) is Ok ==> parse_response_spec(s)->Ok_0.body.len()
                        == 0
                },
                None => true,
            }
        }),
{
    let h = head_len(s);
    let head = s.subrange(0, h as int);
    lemma_head_of_head(s);
    lemma_head_len_from_ends(s, 0);
    assert(head.subrange(0, h as int) =~= head);
    assert(s.subrange(h as int, h as int) =~= Seq::<u8>::empty());
    assert(head.subrange(h as int, h as int) =~= Seq::<u8>::empty());
}

/// When the head declares more body bytes than the stream holds after it, reading
/// fails with an I/O error; it never returns a shorter body.
pub proof fn lemma_short_body_fails(s: Seq<u8>)
    ensures
        ({
            let h = head_len(s);
            match request_head_spec(s.subrange(0, h as int)) {
                Ok((_, n)) => h + n > s.len() ==> parse_request_spec(s) == Err::<
                    RequestView,
                    ErrorKind,
                >(ErrorKind::Io),
                Err(_) => true,
            }
        }),
        ({
            let h = head_len(s);
            match response_head_spec(s.subrange(0, h as int)) {
                Ok((_, n)) => h + n > s.len() ==> parse_response_spec(s) == Err::<
                    ResponseView,
                    ErrorKind,
                >(ErrorKind::Io),
                Err(_) => true,
            }
        }),
{
}

proof fn lemma_headers_bytes_concat(a: Seq<FieldView>, b: Seq<FieldView>)
    ensures
        headers_bytes(a + b) == headers_bytes(a) + headers_bytes(b),
    decreases b.len(),
{
    if b.len() == 0 {
        assert(a + b =~= a);
        assert(headers_bytes(a) + headers_bytes(b) =~= headers_bytes(a));
    } else {
        lemma_headers_bytes_concat(a, b.drop_last());
        assert((a + b).drop_last() =~= a + b.drop_last());
        assert((a + b).last() == b.last());
        assert(headers_bytes(a + b) =~= headers_bytes(a) + headers_bytes(b));
    }
}

/// Reading keeps the headers exactly as the head parser found them, in order and with
/// duplicates; the serializer writes them back in that order, header `i` after the
/// ones before it and before the ones after it.
pub proof fn lemma_header_order(s: Seq<u8>, i: int)
    ensures
        parse_request_spec(s) is Ok ==> request_head_of(
            s.subrange(0, head_len(s) as int),
            MAX_HEADERS as nat,
        ) == Some(
            (
                parse_request_spec(s)->Ok_0.method,
                parse_request_spec(s)->Ok_0.target,
                parse_request_spec(s)->Ok_0.headers,
            ),
        ),
        parse_response_spec(s) is Ok ==> response_head_of(
            s.subrange(0, head_len(s) as int),
            MAX_HEADERS as nat,
        ) == Some(
            (
                parse_response_spec(s)->Ok_0.code,
                parse_response_spec(s)->Ok_0.reason,
                parse_response_spec(s)->Ok_0.headers,
            ),
        ),
        parse_request_spec(s) is Ok && 0 <= i < parse_request_spec(s)->Ok_0.headers.len() ==> {
            let hs = parse_request_spec(s)->Ok_0.headers;
            headers_bytes(hs) == headers_bytes(hs.subrange(0, i)) + header_line(hs[i])
                + headers_bytes(hs.subrange(i + 1, hs.len() as int))
        },
{
    if parse_request_spec(s) is Ok && 0 <= i < parse_request_spec(s)->Ok_0.headers.len() {
        let hs = parse_request_spec(s)->Ok_0.headers;
        lemma_header_split(hs, i);
    }
}

/// The header lines of `hs` are those of the headers before `i`, then header `i`'s,
/// then those of the headers after it.
pub proof fn lemma_header_split(hs: Seq<FieldView>, i: int)
    requires
        0 <= i < hs.len(),
    ensures
        headers_bytes(hs) == headers_bytes(hs.subrange(0, i)) + header_line(hs[i])
            + headers_bytes(hs.subrange(i + 1, hs.len() as int)),
{
    let a = hs.subrange(0, i + 1);
    let b = hs.subrange(i + 1, hs.len() as int);
    assert(hs =~= a + b);
    lemma_headers_bytes_concat(a, b);
    assert(a.drop_last() =~= hs.subrange(0, i));
    assert(a.last() == hs[i]);
}

} // verus!
