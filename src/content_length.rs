use vstd::prelude::*;
use crate::error::ErrorKind;
use crate::message::{
    FieldView, HeaderField, Response, ascii_lower, content_length_bytes,
    content_length_index, content_length_index_from, content_length_name, decimal,
    decimal_bytes, eq_ignore_case, fields_view, has_content_length, is_content_length,
    with_content_length,
};

verus! {

pub open spec fn is_digit(b: u8) -> bool {
    48 <= b <= 57
}

pub open spec fn all_digits(s: Seq<u8>) -> bool {
    forall|i: int| 0 <= i < s.len() ==> is_digit(#[trigger] s[i])
}

/// The number that a string of decimal digits spells.
pub open spec fn digits_value(s: Seq<u8>) -> nat
    decreases s.len(),
{
    if s.len() == 0 {
        0
    } else {
        digits_value(s.drop_last()) * 10 + (s.last() - 48) as nat
    }
}

/// The digits of a value, after an optional leading `+`.
pub open spec fn unsigned_digits(v: Seq<u8>) -> Seq<u8> {
    if v.len() > 0 && v[0] == 43u8 {
        v.drop_first()
    } else {
        v
    }
}

/// The value of a header read as a non-negative base-10 integer that fits a `usize`:
/// an optional `+`, then one or more digits and nothing else.
pub open spec fn decimal_value(v: Seq<u8>) -> Option<nat> {
    let d = unsigned_digits(v);
    if d.len() > 0 && all_digits(d) && digits_value(d) <= usize::MAX {
        Some(digits_value(d))
    } else {
        None
    }
}

/// The body length that a header list declares: the value of its first
/// `content-length` header, or zero when there is none.
pub open spec fn declared_body_len(hs: Seq<FieldView>) -> Result<nat, ErrorKind> {
    match content_length_index(hs) {
        None => Ok(0),
        Some(i) => match decimal_value(hs[i].1) {
            Some(n) => Ok(n),
            None => Err(ErrorKind::ContentLength),
        },
    }
}

proof fn lemma_digits_value_grows(s: Seq<u8>, j: int)
    requires
        0 <= j <= s.len(),
        all_digits(s),
    ensures
        digits_value(s.subrange(0, j)) <= digits_value(s),
    decreases s.len() - j,
{
    if j < s.len() {
        lemma_digits_value_grows(s, j + 1);
        let t = s.subrange(0, j + 1);
        assert(t.drop_last() =~= s.subrange(0, j));
        assert(digits_value(t) == digits_value(s.subrange(0, j)) * 10 + (t.last() - 48) as nat);
    } else {
        assert(s.subrange(0, j) =~= s);
    }
}

proof fn lemma_content_length_index_in_range(hs: Seq<FieldView>, i: int)
    requires
        0 <= i,
    ensures
        match content_length_index_from(hs, i) {
            Some(k) => i <= k < hs.len() && is_content_length(hs[k].0),
            None => true,
        },
    decreases hs.len() - i,
{
    if i < hs.len() && !is_content_length(hs[i].0) {
        lemma_content_length_index_in_range(hs, i + 1);
    }
}

/// Reads `v` as a non-negative base-10 integer, as `usize`'s `FromStr` does.
pub fn parse_decimal(v: &[u8]) -> (r: Option<usize>)
    ensures
        match decimal_value(v@) {
            Some(n) => r == Some(n as usize),
            None => r is None,
        },
{
    let len = v.len();
    let start: usize = if len > 0 && v[0] == 43u8 {
        1
    } else {
        0
    };
    let ghost d = unsigned_digits(v@);
    assert(d =~= v@.subrange(start as int, len as int));
    if start == len {
        return None;
    }
    let mut acc: usize = 0;
    let mut i: usize = start;
    while i < len
        invariant
            start <= i <= len,
            len == v@.len(),
            d == unsigned_digits(v@),
            d == v@.subrange(start as int, len as int),
            all_digits(v@.subrange(start as int, i as int)),
            acc == digits_value(v@.subrange(start as int, i as int)),
        decreases len - i,
    {
        let b = v[i];
        if b < 48u8 || b > 57u8 {
            assert(!is_digit(d[i - start]));
            return None;
        }
        let ghost next = v@.subrange(start as int, i + 1);
        assert(next.drop_last() =~= v@.subrange(start as int, i as int));
        assert(all_digits(next));
        match acc.checked_mul(10) {
            Some(m) => match m.checked_add((b - 48u8) as usize) {
                Some(a) => {
                    acc = a;
                },
                None => {
                    proof {
                        if all_digits(d) {
                            assert(next =~= d.subrange(0, i + 1 - start));
                            lemma_digits_value_grows(d, i + 1 - start);
                        }
                    }
                    return None;
                },
            },
            None => {
                proof {
                    if all_digits(d) {
                        assert(next =~= d.subrange(0, i + 1 - start));
                        lemma_digits_value_grows(d, i + 1 - start);
                    }
                }
                return None;
            },
        }
        i = i + 1;
    }
    assert(v@.subrange(start as int, i as int) =~= d);
    Some(acc)
}

fn lower_byte(b: u8) -> (r: u8)
    ensures
        r == ascii_lower(b),
{
    if 65u8 <= b && b <= 90u8 {
        b + 32
    } else {
        b
    }
}

/// Whether two byte strings are equal up to ASCII case.
pub fn equals_ignore_case(a: &[u8], b: &[u8]) -> (r: bool)
    ensures
        r == eq_ignore_case(a@, b@),
{
    if a.len() != b.len() {
        return false;
    }
    let mut i: usize = 0;
    while i < a.len()
        invariant
            a@.len() == b@.len(),
            i <= a@.len(),
            forall|k: int| 0 <= k < i ==> ascii_lower(#[trigger] a@[k]) == ascii_lower(b@[k]),
        decreases a.len() - i,
    {
        if lower_byte(a[i]) != lower_byte(b[i]) {
            return false;
        }
        i = i + 1;
    }
    true
}

/// The index of the first header named `content-length`, in any case.
pub fn find_content_length(hs: &Vec<HeaderField>) -> (r: Option<usize>)
    ensures
        match r {
            Some(i) => content_length_index(fields_view(hs@)) == Some(i as int),
            None => content_length_index(fields_view(hs@)) is None,
        },
{
    let name = content_length_bytes();
    let ghost fv = fields_view(hs@);
    let mut i: usize = 0;
    while i < hs.len()
        invariant
            i <= hs@.len(),
            name@ == content_length_name(),
            fv == fields_view(hs@),
            content_length_index_from(fv, i as int) == content_length_index(fv),
        decreases hs.len() - i,
    {
        if equals_ignore_case(hs[i].name.as_slice(), name.as_slice()) {
            return Some(i);
        }
        i = i + 1;
    }
    None
}

/// The length of the body that follows a head with these headers: the value of the
/// first `content-length` header, or zero without one. A value that is not a
/// non-negative integer fitting a `usize` is an error, never a default.
pub fn body_length(hs: &Vec<HeaderField>) -> (r: Result<usize, crate::error::HttpRequestError>)
    ensures
        match declared_body_len(fields_view(hs@)) {
            Ok(n) => r == Ok::<usize, crate::error::HttpRequestError>(n as usize),
            Err(k) => r is Err && r->Err_0.kind() == k,
        },
{
    proof {
        lemma_content_length_index_in_range(fields_view(hs@), 0);
    }
    match find_content_length(hs) {
        None => Ok(0),
        Some(i) => match parse_decimal(hs[i].value.as_slice()) {
            Some(n) => {
                assert(fields_view(hs@)[i as int].1 == hs@[i as int].value@);
                Ok(n)
            },
            None => {
                assert(fields_view(hs@)[i as int].1 == hs@[i as int].value@);
                Err(crate::error::HttpRequestError::ContentLengthParsingError(
                    String::from_str("invalid content-length value"),
                ))
            },
        },
    }
}

impl Response {
    /// Whether a header named `content-length` (in any case) is present.
    pub fn has_content_length(&self) -> (r: bool)
        ensures
            r == has_content_length(self@.headers),
    {
        find_content_length(&self.headers).is_some()
    }

    /// Prepares the response for sending: appends `content-length` with the body's
    /// length when no header of that name is present, and changes nothing otherwise.
    pub fn ensure_content_length(&mut self)
        ensures
            final(self)@ == with_content_length(old(self)@),
    {
        if !self.has_content_length() {
            let field = HeaderField {
                name: content_length_bytes(),
                value: decimal_bytes(self.body.len()),
            };
            proof {
                lemma_content_length_index_in_range(self@.headers, 0);
            }
            let ghost before = self.headers@;
            self.headers.push(field);
            assert(fields_view(self.headers@) =~= fields_view(before).push(field@));
        }
    }
}

} // verus!
