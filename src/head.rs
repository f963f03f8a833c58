use vstd::prelude::*;

verus! {

/// A head ends with a line that is exactly `\r\n` and follows another line, so the
/// terminator shows as `\n\r\n` starting at `q`.
pub open spec fn terminator_at(s: Seq<u8>, q: int) -> bool {
    0 <= q && q + 3 <= s.len() && s[q] == 10u8 && s[q + 1] == 13u8 && s[q + 2] == 10u8
}

/// Where the head ends when scanning for the terminator from `i` on: just past the
/// first terminator, or at the end of the stream when there is none.
pub open spec fn head_len_from(s: Seq<u8>, i: int) -> nat
    decreases s.len() - i,
{
    if i < 0 || i + 3 > s.len() {
        s.len()
    } else if terminator_at(s, i) {
        (i + 3) as nat
    } else {
        head_len_from(s, i + 1)
    }
}

/// The length of the head at the start of `s`, terminator included.
pub open spec fn head_len(s: Seq<u8>) -> nat {
    head_len_from(s, 0)
}

/// Reads the head at the start of `input`: every line up to and including the first
/// line that is exactly `\r\n` after the first line, or all of `input` when the
/// stream ends first.
pub fn read_head(input: &[u8]) -> (r: Vec<u8>)
    ensures
        r@ == input@.subrange(0, head_len(input@) as int),
{
    let n = head_end(input);
    let mut r: Vec<u8> = Vec::new();
    let mut i: usize = 0;
    while i < n
        invariant
            n == head_len(input@),
            n <= input@.len(),
            i <= n,
            r@ == input@.subrange(0, i as int),
        decreases n - i,
    {
        r.push(input[i]);
        i = i + 1;
        assert(r@ =~= input@.subrange(0, i as int));
    }
    r
}

/// Scanning from `i`, the head either runs to the end of the stream or ends just past
/// a terminator that starts at `i` or later.
pub proof fn lemma_head_len_from_ends(s: Seq<u8>, i: int)
    requires
        0 <= i,
    ensures
        head_len_from(s, i) <= s.len(),
        head_len_from(s, i) == s.len() || (head_len_from(s, i) >= i + 3 && terminator_at(
            s,
            head_len_from(s, i) - 3,
        )),
    decreases s.len() - i,
{
    if i + 3 <= s.len() && !terminator_at(s, i) {
        lemma_head_len_from_ends(s, i + 1);
    }
}

/// The length of the head at the start of `input`.
pub fn head_end(input: &[u8]) -> (r: usize)
    ensures
        r == head_len(input@),
        r <= input@.len(),
{
    let len = input.len();
    let mut i: usize = 0;
    proof {
        lemma_head_len_from_ends(input@, 0);
    }
    while len >= 3 && i <= len - 3
        invariant
            len == input@.len(),
            i <= len,
            head_len_from(input@, i as int) == head_len(input@),
        decreases len - i,
    {
        if input[i] == 10u8 && input[i + 1] == 13u8 && input[i + 2] == 10u8 {
            return i + 3;
        }
        i = i + 1;
    }
    len
}

/// Collects the head of a stream that is read one line at a time (each line up to
/// and including its `\n`, or the rest of the stream at its end).
pub struct HeadReader {
    pub buf: Vec<u8>,
    pub started: bool,
}

impl HeadReader {
    pub fn new() -> (r: HeadReader)
        ensures
            r.buf@.len() == 0,
            !r.started,
    {
        HeadReader { buf: Vec::new(), started: false }
    }

    /// Whether reading stops after `line`: the stream has ended (the line is empty),
    /// or a line after the first is exactly `\r\n`.
    pub open spec fn stops_at(started: bool, line: Seq<u8>) -> bool {
        line.len() == 0 || (started && line == crlf_line())
    }

    /// Adds a line to the head; returns whether the head is complete.
    pub fn push_line(&mut self, line: &[u8]) -> (done: bool)
        ensures
            final(self).buf@ == old(self).buf@ + line@,
            final(self).started,
            done == Self::stops_at(old(self).started, line@),
    {
        let done = line.len() == 0 || (self.started && line.len() == 2 && line[0] == 13u8
            && line[1] == 10u8);
        assert(line@.len() == 2 && line@[0] == 13u8 && line@[1] == 10u8 ==> line@ =~= crlf_line());
        self.buf.extend_from_slice(line);
        self.started = true;
        done
    }

    /// The head collected so far.
    pub fn into_head(self) -> (r: Vec<u8>)
        ensures
            r@ == self.buf@,
    {
        self.buf
    }
}

pub open spec fn crlf_line() -> Seq<u8> {
    seq![13u8, 10u8]
}

} // verus!
