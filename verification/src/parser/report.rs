//! The text of a syntax error report: the source line of the offending
//! token, a caret under the token, and what was expected and found.
//!
//! Lines are read as a buffered reader's `lines()` gives them: split at
//! `\n`, a `\r` before the `\n` dropped, a last line without `\n` kept
//! when it is not empty; lines that are not valid UTF-8 are skipped and
//! not counted.

use vstd::prelude::*;
use vstd::utf8::{decode_utf8, encode_utf8, valid_utf8};

use crate::lexer::types::Token;
use crate::parser::display::{push_tabs, tabs};
use crate::parser::{Expected, Parser};
use crate::text::{decimal, push_decimal, push_str};

verus! {

/// `std::str::from_utf8`: the text that the bytes encode, where they are
/// valid UTF-8.
#[verifier::external_body]
fn decode_text(bytes: &[u8]) -> (r: Option<String>)
    ensures
        r is Some <==> valid_utf8(bytes@),
        r is Some ==> r->0@ == decode_utf8(bytes@),
{
    match std::str::from_utf8(bytes) {
        Ok(text) => Some(text.to_string()),
        Err(_) => None,
    }
}

/// The text `String::from_utf8_lossy` makes of a byte sequence: each
/// invalid sequence replaced by U+FFFD.
pub uninterp spec fn lossy_text(bytes: Seq<u8>) -> Seq<char>;

/// `String::from_utf8_lossy`: the bytes as text, each invalid sequence
/// replaced by U+FFFD; valid UTF-8 is decoded unchanged.
#[verifier::external_body]
fn lossy_string(bytes: &[u8]) -> (r: String)
    ensures
        r@ == lossy_text(bytes@),
        valid_utf8(bytes@) ==> r@ == decode_utf8(bytes@),
{
    String::from_utf8_lossy(bytes).into_owned()
}

/// The index of the first `\n` at or after `p`, or the length when there
/// is none.
pub open spec fn line_end(b: Seq<u8>, p: int) -> int
    decreases b.len() - p,
{
    if p >= b.len() {
        b.len() as int
    } else if b[p] == 10u8 {
        p
    } else {
        line_end(b, p + 1)
    }
}

pub proof fn lemma_line_end(b: Seq<u8>, p: int)
    requires
        0 <= p,
    ensures
        p <= line_end(b, p) <= b.len() || (p > b.len() && line_end(b, p) == b.len()),
        line_end(b, p) < b.len() ==> b[line_end(b, p)] == 10u8,
    decreases b.len() - p,
{
    if p < b.len() && b[p] != 10u8 {
        lemma_line_end(b, p + 1);
    }
}

/// The text of the line `p..q`: without a `\r` that stands before the
/// closing `\n`.
pub open spec fn line_content(b: Seq<u8>, p: int, q: int) -> Seq<u8> {
    if q < b.len() && p < q && b[q - 1] == 13u8 {
        b.subrange(p, q - 1)
    } else {
        b.subrange(p, q)
    }
}

/// The `k`-th line, counted from 0, among the valid UTF-8 lines that
/// start at or after `p`.
pub open spec fn nth_line(b: Seq<u8>, p: int, k: nat) -> Option<Seq<u8>>
    decreases b.len() + 1 - p,
{
    if p < 0 || p >= b.len() {
        None
    } else {
        let q = line_end(b, p);
        let content = line_content(b, p, q);
        proof {
            lemma_line_end(b, p);
        }
        if valid_utf8(content) {
            if k == 0 {
                Some(content)
            } else {
                nth_line(b, q + 1, (k - 1) as nat)
            }
        } else {
            nth_line(b, q + 1, k)
        }
    }
}

pub proof fn lemma_nth_line_bound(b: Seq<u8>, p: int, k: nat)
    requires
        nth_line(b, p, k) is Some,
    ensures
        p + k < b.len(),
    decreases b.len() + 1 - p,
{
    let q = line_end(b, p);
    lemma_line_end(b, p);
    if valid_utf8(line_content(b, p, q)) {
        if k > 0 {
            lemma_nth_line_bound(b, q + 1, (k - 1) as nat);
        }
    } else {
        lemma_nth_line_bound(b, q + 1, k);
    }
}

/// Whether `pat` occurs in `h` at index `j`.
pub open spec fn matches_at(h: Seq<u8>, pat: Seq<u8>, j: int) -> bool {
    0 <= j && j + pat.len() <= h.len() && h.subrange(j, j + pat.len()) == pat
}

/// The first index at or after `j` where `pat` occurs in `h`.
pub open spec fn first_match(h: Seq<u8>, pat: Seq<u8>, j: int) -> Option<int>
    decreases h.len() + 1 - j,
{
    if j < 0 || j + pat.len() > h.len() {
        None
    } else if matches_at(h, pat, j) {
        Some(j)
    } else {
        first_match(h, pat, j + 1)
    }
}

pub proof fn lemma_first_match(h: Seq<u8>, pat: Seq<u8>, j: int)
    requires
        first_match(h, pat, j) is Some,
    ensures
        j <= first_match(h, pat, j)->0,
        matches_at(h, pat, first_match(h, pat, j)->0),
    decreases h.len() + 1 - j,
{
    if !matches_at(h, pat, j) {
        lemma_first_match(h, pat, j + 1);
    }
}

/// How often `x` occurs in `s`.
pub open spec fn count_byte(s: Seq<u8>, x: u8) -> nat
    decreases s.len(),
{
    if s.len() == 0 {
        0
    } else {
        count_byte(s.drop_last(), x) + if s.last() == x { 1nat } else { 0nat }
    }
}

/// Why a report cannot be made.
#[derive(Debug, PartialEq, Eq, Structural)]
pub enum ReportError {
    /// The source has no such line.
    LineNotFound,
    /// The token's span reaches past the end of the source.
    TokenOutsideSource,
    /// The token's text does not occur in its line.
    TextNotFound,
}

/// `n` copies of `c`.
pub open spec fn repeated(c: char, n: nat) -> Seq<char> {
    Seq::new(n, |i: int| c)
}

/// The label before the quoted source line: `line `, the line number
/// counted from 1, and `: `.
pub open spec fn line_label(line: nat) -> Seq<char> {
    "line "@ + decimal(line + 1) + ": "@
}

/// The bytes searched for in a token's line: the token's own bytes where
/// they are valid UTF-8, else the UTF-8 encoding of their lossy reading.
pub open spec fn token_pattern(bytes: Seq<u8>) -> Seq<u8> {
    if valid_utf8(bytes) {
        bytes
    } else {
        encode_utf8(lossy_text(bytes))
    }
}

/// The report on a token at line `span_line` and bytes `start..end` of
/// `source`, where `expected` was expected and `got` found: a banner, the
/// labelled source line, a line that puts a caret under the first
/// occurrence of the token's text in the source line (after as many tabs
/// as stand before it there) followed by what was expected and found, and
/// a closing rule.
pub open spec fn error_text(source: Seq<u8>, span_line: nat, start: nat, end: nat, expected: Seq<char>, got: Seq<char>) -> Result<Seq<char>, ReportError> {
    match nth_line(source, 0, span_line) {
        None => Err(ReportError::LineNotFound),
        Some(content) => if start <= end <= source.len() {
            let pat = token_pattern(source.subrange(start as int, end as int));
            match first_match(content, pat, 0) {
                None => Err(ReportError::TextNotFound),
                Some(j) => {
                    let label = line_label(span_line);
                    Ok(repeated('-', 10) + "ERROR"@ + repeated('-', 10) + "\n\n"@ + label
                        + decode_utf8(content) + "\n"@ + tabs(count_byte(content.subrange(0, j), 9u8))
                        + repeated(' ', (label.len() + j - 1) as nat) + "^"@ + repeated('-', 20)
                        + "expected: "@ + expected + ", got: "@ + got + "\n\n"@ + repeated('-', 25)
                        + "\n"@)
                },
            }
        } else {
            Err(ReportError::TokenOutsideSource)
        },
    }
}

/// Appends `n` copies of `c` at the end of `s`.
fn push_repeated(s: &mut String, c: char, n: usize)
    ensures
        final(s)@ == old(s)@ + repeated(c, n as nat),
{
    let mut i: usize = 0;
    while i < n
        invariant
            i <= n,
            s@ == old(s)@ + repeated(c, i as nat),
        decreases n - i,
    {
        crate::text::push_char(s, c);
        assert(repeated(c, i as nat).push(c) =~= repeated(c, (i + 1) as nat));
        i += 1;
    }
}

impl Expected {
    /// The words that name what was expected, for all but a token kind.
    pub fn label(&self) -> (r: Option<String>)
        ensures
            match *self {
                Expected::ReturnType => r is Some && r->0@ == "return type"@,
                Expected::Ident => r is Some && r->0@ == "ident"@,
                Expected::SemicolonOrAssign => r is Some && r->0@ == "semicolon or assign expr"@,
                Expected::IdentOrInteger => r is Some && r->0@ == "ident or integer"@,
                Expected::Kind(_) => r is None,
            },
    {
        match self {
            Expected::ReturnType => Some(String::from_str("return type")),
            Expected::Ident => Some(String::from_str("ident")),
            Expected::SemicolonOrAssign => Some(String::from_str("semicolon or assign expr")),
            Expected::IdentOrInteger => Some(String::from_str("ident or integer")),
            Expected::Kind(_) => None,
        }
    }
}

impl<'a> Parser<'a> {
    /// The `line`-th valid UTF-8 line of the source: its text and the
    /// bounds of its bytes.
    fn find_line(&self, line: usize) -> (r: Option<(String, usize, usize)>)
        ensures
            match nth_line(self.source(), 0, line as nat) {
                Some(content) => match r {
                    Some((text, lo, hi)) => lo <= hi <= self.source().len()
                        && self.source().subrange(lo as int, hi as int) == content
                        && text@ == decode_utf8(content),
                    None => false,
                },
                None => r is None,
            },
    {
        let buf = self.buffer();
        let ghost b = buf@;
        let mut p: usize = 0;
        let mut k: usize = line;
        loop
            invariant
                b == buf@,
                b == self.source(),
                p <= buf.len(),
                nth_line(b, 0, line as nat) == nth_line(b, p as int, k as nat),
            decreases buf.len() - p,
        {
            if p >= buf.len() {
                return None;
            }
            let mut q: usize = p;
            while q < buf.len() && buf[q] != 10u8
                invariant
                    b == buf@,
                    p <= q <= buf.len(),
                    line_end(b, p as int) == line_end(b, q as int),
                decreases buf.len() - q,
            {
                q += 1;
            }
            proof {
                lemma_line_end(b, p as int);
            }
            let e = if q < buf.len() && p < q && buf[q - 1] == 13u8 {
                q - 1
            } else {
                q
            };
            let bytes = vstd::slice::slice_subrange(buf, p, e);
            assert(bytes@ == line_content(b, p as int, q as int));
            match decode_text(bytes) {
                Some(text) => {
                    if k == 0 {
                        return Some((text, p, e));
                    }
                    k -= 1;
                },
                None => {},
            }
            if q >= buf.len() {
                return None;
            }
            p = q + 1;
        }
    }

    /// The first index in `lo..hi` of the source where `pat` occurs within
    /// the bytes `lo..hi`, counted from `lo`.
    fn find_in(&self, lo: usize, hi: usize, pat: &[u8]) -> (r: Option<usize>)
        requires
            lo <= hi <= self.source().len(),
        ensures
            match first_match(self.source().subrange(lo as int, hi as int), pat@, 0) {
                Some(j) => r == Some(j as usize),
                None => r is None,
            },
    {
        let buf = self.buffer();
        let ghost h = buf@.subrange(lo as int, hi as int);
        let n = hi - lo;
        let m = pat.len();
        if m > n {
            return None;
        }
        let mut j: usize = 0;
        while j <= n - m
            invariant
                buf@ == self.source(),
                lo <= hi <= buf.len(),
                h == buf@.subrange(lo as int, hi as int),
                n == hi - lo,
                m == pat.len(),
                m <= n,
                j <= n - m + 1,
                first_match(h, pat@, 0) == first_match(h, pat@, j as int),
            decreases n - m + 1 - j,
        {
            let mut i: usize = 0;
            while i < m && buf[lo + j + i] == pat[i]
                invariant
                    buf@ == self.source(),
                    lo <= hi <= buf.len(),
                    h == buf@.subrange(lo as int, hi as int),
                    n == hi - lo,
                    m == pat.len(),
                    j + m <= n,
                    i <= m,
                    forall|t: int| 0 <= t < i ==> h[j + t] == pat@[t],
                decreases m - i,
            {
                i += 1;
            }
            if i == m {
                assert(h.subrange(j as int, j + m) =~= pat@);
                return Some(j);
            }
            assert(h.subrange(j as int, j + m)[i as int] != pat@[i as int]);
            j += 1;
        }
        None
    }

    /// The text reported for a token where `expected` was expected and
    /// `got` found (see `error_text`).
    pub fn error_message(&self, token: &Token, expected: &str, got: &str) -> (r: Result<String, ReportError>)
        ensures
            match error_text(
                self.source(),
                token.span.line as nat,
                token.span.start as nat,
                token.span.end as nat,
                expected@,
                got@,
            ) {
                Ok(text) => r is Ok && r->Ok_0@ == text,
                Err(e) => r == Err::<String, ReportError>(e),
            },
    {
        let buf = self.buffer();
        let (line, lo, hi) = match self.find_line(token.span.line) {
            Some(found) => found,
            None => return Err(ReportError::LineNotFound),
        };
        let ghost content = buf@.subrange(lo as int, hi as int);
        proof {
            lemma_nth_line_bound(buf@, 0, token.span.line as nat);
        }
        if !(token.span.start <= token.span.end && token.span.end <= buf.len()) {
            return Err(ReportError::TokenOutsideSource);
        }
        let token_bytes = vstd::slice::slice_subrange(buf, token.span.start, token.span.end);
        let token_text = lossy_string(token_bytes);
        let pat = token_text.as_str().as_bytes();
        proof {
            if valid_utf8(token_bytes@) {
                vstd::utf8::decode_utf8_encode_utf8(token_bytes@);
            }
        }
        assert(pat@ == token_pattern(token_bytes@));
        let j = match self.find_in(lo, hi, pat) {
            Some(j) => j,
            None => return Err(ReportError::TextNotFound),
        };
        proof {
            lemma_first_match(content, pat@, 0);
        }
        let mut tab_count: usize = 0;
        let mut i: usize = 0;
        while i < j
            invariant
                buf@ == self.source(),
                lo <= hi <= buf.len(),
                content == buf@.subrange(lo as int, hi as int),
                j <= hi - lo,
                i <= j,
                tab_count == count_byte(content.subrange(0, i as int), 9u8),
                tab_count <= i,
            decreases j - i,
        {
            assert(content.subrange(0, i + 1).drop_last() =~= content.subrange(0, i as int));
            if buf[lo + i] == 9u8 {
                tab_count += 1;
            }
            i += 1;
        }
        let mut label = String::from_str("line ");
        push_decimal(&mut label, token.span.line as u64 + 1);
        push_str(&mut label, ": ");
        let label_len = label.as_str().unicode_len();
        let mut out = String::new();
        push_repeated(&mut out, '-', 10);
        push_str(&mut out, "ERROR");
        push_repeated(&mut out, '-', 10);
        push_str(&mut out, "\n\n");
        push_str(&mut out, label.as_str());
        push_str(&mut out, line.as_str());
        push_str(&mut out, "\n");
        push_tabs(&mut out, tab_count);
        let ghost before_spaces = out@;
        push_repeated(&mut out, ' ', label_len - 1);
        push_repeated(&mut out, ' ', j);
        assert(out@ =~= before_spaces + repeated(' ', (label_len + j - 1) as nat));
        push_str(&mut out, "^");
        push_repeated(&mut out, '-', 20);
        push_str(&mut out, "expected: ");
        push_str(&mut out, expected);
        push_str(&mut out, ", got: ");
        push_str(&mut out, got);
        push_str(&mut out, "\n\n");
        push_repeated(&mut out, '-', 25);
        push_str(&mut out, "\n");
        Ok(out)
    }
}

} // verus!
