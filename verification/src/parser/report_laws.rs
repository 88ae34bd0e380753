//! The report on a syntax error finds every token that the lexer reads
//! from a plain source: the token's line number names the line that holds
//! it, and its offsets name its bytes there.

use vstd::prelude::*;
use vstd::utf8::{is_leading_byte_width_1, valid_utf8};

use crate::lexer::laws::lemma_token_width;
use crate::lexer::types::{KindModel, TokenModel};
use crate::lexer::{
    after_comment, comment_ends_line, comment_run, digit_run, is_alpha_byte, is_blank,
    is_digit_byte, lemma_lex_blank, lemma_lex_comment, lemma_lex_end, lemma_lex_newline,
    lemma_lex_token, lex_from, starts_comment, token_at, word_run,
};
use crate::parser::report::{
    count_byte, error_text, first_match, lemma_line_end, line_content, line_end, matches_at,
    nth_line, token_pattern,
};

verus! {

/// A source whose bytes are all ASCII, with no carriage return.
pub open spec fn plain_source(src: Seq<u8>) -> bool {
    forall|i: int| 0 <= i < src.len() ==> #[trigger] src[i] < 128 && src[i] != 13u8
}

proof fn lemma_comment_run_clear(src: Seq<u8>, q: int)
    requires
        0 <= q,
    ensures
        forall|x: int| q <= x < q + comment_run(src, q) ==> src[x] != 10u8,
        q + comment_run(src, q) < src.len() ==> src[q + comment_run(src, q)] == 10u8,
        q <= src.len() ==> q + comment_run(src, q) <= src.len(),
    decreases src.len() - q,
{
    if 0 <= q < src.len() && src[q] != 10u8 {
        lemma_comment_run_clear(src, q + 1);
    }
}

/// A token model whose offsets are bytes of the source on its line: they
/// hold no newline, and as many newlines stand before them as its line
/// number says.
pub open spec fn token_in_source(src: Seq<u8>, t: TokenModel) -> bool {
    &&& t.start < t.end <= src.len()
    &&& t.line == count_byte(src.subrange(0, t.start as int), 10u8)
    &&& forall|x: int| t.start <= x < t.end ==> src[x] != 10u8
}

/// The start of the line that holds position `p`.
pub open spec fn line_start(src: Seq<u8>, p: int) -> int
    decreases p,
{
    if p <= 0 {
        0
    } else if src[p - 1] == 10u8 {
        p
    } else {
        line_start(src, p - 1)
    }
}

proof fn lemma_ascii_valid(s: Seq<u8>)
    requires
        forall|i: int| 0 <= i < s.len() ==> #[trigger] s[i] < 128,
    ensures
        valid_utf8(s),
{
    assert(s.subrange(0, 0) =~= Seq::<u8>::empty());
    assert forall|i: int| 0 <= 0 <= i < s.len() <= s.len() implies #[trigger] is_leading_byte_width_1(
        s[i],
    ) by {
        assert(s[i] < 128);
    }
    vstd::utf8::partial_valid_utf8_extend_ascii_block(s, 0, s.len() as int);
    assert(s.subrange(0, s.len() as int) =~= s);
}

proof fn lemma_count_concat(a: Seq<u8>, b: Seq<u8>, x: u8)
    ensures
        count_byte(a + b, x) == count_byte(a, x) + count_byte(b, x),
    decreases b.len(),
{
    if b.len() == 0 {
        assert(a + b =~= a);
    } else {
        lemma_count_concat(a, b.drop_last(), x);
        assert((a + b).drop_last() =~= a + b.drop_last());
    }
}

proof fn lemma_count_none(s: Seq<u8>, x: u8)
    requires
        forall|i: int| 0 <= i < s.len() ==> s[i] != x,
    ensures
        count_byte(s, x) == 0,
    decreases s.len(),
{
    if s.len() > 0 {
        lemma_count_none(s.drop_last(), x);
    }
}

proof fn lemma_line_end_clear(b: Seq<u8>, p: int)
    requires
        0 <= p <= b.len(),
    ensures
        forall|x: int| p <= x < line_end(b, p) ==> b[x] != 10u8,
    decreases b.len() - p,
{
    if p < b.len() && b[p] != 10u8 {
        lemma_line_end_clear(b, p + 1);
    }
}

proof fn lemma_line_end_same(b: Seq<u8>, p: int, q: int)
    requires
        0 <= p <= q <= b.len(),
        forall|x: int| p <= x < q ==> b[x] != 10u8,
    ensures
        line_end(b, p) == line_end(b, q),
    decreases q - p,
{
    if p < q {
        lemma_line_end_same(b, p + 1, q);
    }
}

proof fn lemma_line_start(src: Seq<u8>, p0: int, p: int)
    requires
        0 <= p0 <= p <= src.len(),
        p0 == 0 || src[p0 - 1] == 10u8,
        forall|x: int| p0 <= x < p ==> src[x] != 10u8,
    ensures
        line_start(src, p) == p0,
    decreases p - p0,
{
    if p > p0 {
        lemma_line_start(src, p0, p - 1);
    }
}

/// The line that holds a position, counted among the lines from a line
/// start `p0` on by the newlines between them, is the one from its start to
/// its end.
proof fn lemma_nth_line_holds(src: Seq<u8>, p0: int, p: int, k: nat)
    requires
        plain_source(src),
        0 <= p0 <= p < src.len(),
        p0 == 0 || src[p0 - 1] == 10u8,
        src[p] != 10u8,
        k == count_byte(src.subrange(p0, p), 10u8),
    ensures
        p0 <= line_start(src, p) <= p,
        nth_line(src, p0, k) == Some(src.subrange(line_start(src, p), line_end(src, p))),
    decreases p - p0,
{
    let q = line_end(src, p0);
    lemma_line_end(src, p0);
    lemma_line_end_clear(src, p0);
    assert(line_content(src, p0, q) == src.subrange(p0, q));
    lemma_ascii_valid(src.subrange(p0, q));
    if q > p {
        lemma_count_none(src.subrange(p0, p), 10u8);
        lemma_line_start(src, p0, p);
        lemma_line_end_same(src, p0, p);
    } else {
        assert(q < p);
        let left = src.subrange(p0, q);
        let nl = src.subrange(q, q + 1);
        let right = src.subrange(q + 1, p);
        assert(src.subrange(p0, p) =~= left + (nl + right));
        lemma_count_concat(left, nl + right, 10u8);
        lemma_count_concat(nl, right, 10u8);
        lemma_count_none(left, 10u8);
        assert(nl.drop_last() =~= Seq::<u8>::empty());
        assert(nl.last() == src[q]);
        assert(count_byte(nl.drop_last(), 10u8) == 0);
        assert(count_byte(nl, 10u8) == 1);
        lemma_nth_line_holds(src, q + 1, p, (k - 1) as nat);
    }
}

proof fn lemma_digit_run_digits(src: Seq<u8>, p: int)
    requires
        0 <= p,
    ensures
        forall|x: int| p <= x < p + digit_run(src, p) ==> is_digit_byte(#[trigger] src[x]),
    decreases src.len() - p,
{
    if 0 <= p < src.len() && is_digit_byte(src[p]) {
        lemma_digit_run_digits(src, p + 1);
    }
}

proof fn lemma_word_run_word(src: Seq<u8>, p: int)
    requires
        0 <= p,
    ensures
        forall|x: int|
            p <= x < p + word_run(src, p) ==> is_alpha_byte(#[trigger] src[x]) || is_digit_byte(src[x]),
    decreases src.len() - p,
{
    if 0 <= p < src.len() && (is_alpha_byte(src[p]) || is_digit_byte(src[p])) {
        lemma_word_run_word(src, p + 1);
    }
}

/// The bytes of a token hold no newline.
proof fn lemma_token_clear(src: Seq<u8>, p: int)
    requires
        0 <= p < src.len(),
        !is_blank(src[p]),
    ensures
        forall|x: int| p <= x < p + token_at(src, p).1 ==> src[x] != 10u8,
{
    lemma_digit_run_digits(src, p);
    lemma_word_run_word(src, p);
    let w = token_at(src, p).1;
    assert forall|x: int| p <= x < p + w implies src[x] != 10u8 by {
        if x > p && !is_digit_byte(src[p]) && !is_alpha_byte(src[p]) {
            assert(x == p + 1);
        }
    }
}

/// Lexing from position `p` of a plain source, with the offset at `p` and
/// the line at the number of newlines before `p`, gives tokens whose
/// offsets are their bytes on their line.
proof fn lemma_lex_positions(src: Seq<u8>, p: int)
    requires
        plain_source(src),
        0 <= p <= src.len(),
    ensures
        ({
            let ts = lex_from(src, p, count_byte(src.subrange(0, p), 10u8), p as nat).0;
            &&& forall|i: int| 0 <= i < ts.len() - 1 ==> token_in_source(src, #[trigger] ts[i])
            &&& src.len() > 0 ==> ts.len() > 0 && ts.last() == TokenModel {
                kind: KindModel::EOF,
                start: (src.len() - 1) as nat,
                end: (src.len() - 1) as nat,
                line: count_byte(src, 10u8),
            }
        }),
    decreases src.len() - p,
{
    let line = count_byte(src.subrange(0, p), 10u8);
    if p == src.len() {
        lemma_lex_end(src, line, p as nat);
        assert(src.subrange(0, p) =~= src);
    } else {
        assert(src.subrange(0, p + 1).drop_last() =~= src.subrange(0, p));
        assert(src[p] < 128 && src[p] != 13u8);
        assert(src.subrange(0, p + 1).last() == src[p]);
        if src[p] == (' ' as u8) || src[p] == ('\t' as u8) {
            assert(count_byte(src.subrange(0, p + 1), 10u8) == line);
            lemma_lex_blank(src, p, line, p as nat);
            lemma_lex_positions(src, p + 1);
        } else if src[p] == ('\n' as u8) {
            assert(count_byte(src.subrange(0, p + 1), 10u8) == line + 1);
            lemma_lex_newline(src, p, line, p as nat);
            lemma_lex_positions(src, p + 1);
        } else if starts_comment(src, p) {
            lemma_lex_comment(src, p, line, p as nat);
            lemma_comment_run_clear(src, p + 1);
            let k = comment_run(src, p + 1);
            let a = after_comment(src, p);
            let body = src.subrange(p, p + 1 + k);
            assert forall|x: int| 0 <= x < body.len() implies body[x] != 10u8 by {
                if x > 0 {
                    assert(body[x] == src[p + x]);
                }
            }
            lemma_count_none(body, 10u8);
            if comment_ends_line(src, p) {
                let nl = src.subrange(p + 1 + k, a);
                assert(src.subrange(0, a) =~= src.subrange(0, p) + (body + nl));
                lemma_count_concat(src.subrange(0, p), body + nl, 10u8);
                lemma_count_concat(body, nl, 10u8);
                assert(nl.drop_last() =~= Seq::<u8>::empty());
                assert(nl.last() == src[p + 1 + k]);
                assert(count_byte(nl.drop_last(), 10u8) == 0);
                assert(count_byte(src.subrange(0, a), 10u8) == line + 1);
            } else {
                assert(src.subrange(0, a) =~= src.subrange(0, p) + body);
                lemma_count_concat(src.subrange(0, p), body, 10u8);
                assert(count_byte(src.subrange(0, a), 10u8) == line);
            }
            lemma_lex_positions(src, a);
        } else {
            lemma_token_width(src, p);
            lemma_token_clear(src, p);
            lemma_lex_token(src, p, line, p as nat);
            let (kind, w) = token_at(src, p);
            let m = TokenModel { kind, start: p as nat, end: (p + w) as nat, line };
            let rest = lex_from(src, p + w, line, (p + w) as nat).0;
            assert(src.subrange(0, p + w) =~= src.subrange(0, p) + src.subrange(p, p + w));
            lemma_count_concat(src.subrange(0, p), src.subrange(p, p + w), 10u8);
            lemma_count_none(src.subrange(p, p + w), 10u8);
            lemma_lex_positions(src, p + w);
            assert(token_in_source(src, m));
            let ts = seq![m] + rest;
            assert forall|i: int| 0 <= i < ts.len() - 1 implies token_in_source(src, #[trigger] ts[i]) by {
                if i > 0 {
                    assert(ts[i] == rest[i - 1]);
                }
            }
            assert(ts.last() == rest.last());
        }
    }
}

/// The report on the `EOF` token of a plain source that does not end with
/// a newline points at the end of its last line.
proof fn lemma_report_finds_end(src: Seq<u8>, expected: Seq<char>, got: Seq<char>)
    requires
        plain_source(src),
        src.len() > 0,
        src.last() != 10u8,
    ensures
        ({
            let ts = lex_from(src, 0, 0, 0).0;
            ts.len() > 0 && error_text(src, ts.last().line, ts.last().start, ts.last().end, expected, got) is Ok
        }),
{
    assert(src.subrange(0, 0) =~= Seq::<u8>::empty());
    assert(count_byte(src.subrange(0, 0), 10u8) == 0);
    lemma_lex_positions(src, 0);
    let ts0 = lex_from(src, 0, count_byte(src.subrange(0, 0), 10u8), 0int as nat).0;
    assert(ts0 == lex_from(src, 0, 0, 0).0);
    let p = src.len() - 1;
    assert(src.subrange(0, p + 1).drop_last() =~= src.subrange(0, p));
    assert(src.subrange(0, p + 1) =~= src);
    lemma_nth_line_holds(src, 0, p, count_byte(src, 10u8));
    let content = src.subrange(line_start(src, p), line_end(src, p));
    let empty = src.subrange(p, p);
    assert(empty =~= Seq::<u8>::empty());
    lemma_ascii_valid(empty);
    assert(token_pattern(empty) == empty);
    assert(content.subrange(0, 0) =~= empty);
    assert(matches_at(content, empty, 0));
}

proof fn lemma_first_match_found(h: Seq<u8>, pat: Seq<u8>, j0: int, j: int)
    requires
        0 <= j0 <= j,
        matches_at(h, pat, j),
    ensures
        first_match(h, pat, j0) is Some,
    decreases j - j0,
{
    if j0 < j && !matches_at(h, pat, j0) {
        lemma_first_match_found(h, pat, j0 + 1, j);
    }
}

/// In a source that is all ASCII, without carriage returns,
/// lexed by a new lexer, the report on any token but the closing `EOF`
/// finds the token's line and its text there: making it never fails. So
/// does the report on the `EOF` token where the source does not end with
/// a newline.
pub proof fn law_report_finds_lexer_tokens(src: Seq<u8>, i: int, expected: Seq<char>, got: Seq<char>)
    requires
        plain_source(src),
        0 <= i < lex_from(src, 0, 0, 0).0.len() - 1 || (i == lex_from(src, 0, 0, 0).0.len() - 1
            && src.len() > 0 && src.last() != 10u8),
    ensures
        ({
            let t = lex_from(src, 0, 0, 0).0[i];
            error_text(src, t.line, t.start, t.end, expected, got) is Ok
        }),
{
    if i == lex_from(src, 0, 0, 0).0.len() - 1 && src.len() > 0 && src.last() != 10u8 {
        lemma_report_finds_end(src, expected, got);
    } else {
        assert(src.subrange(0, 0) =~= Seq::<u8>::empty());
        assert(count_byte(src.subrange(0, 0), 10u8) == 0);
        lemma_lex_positions(src, 0);
        let ts = lex_from(src, 0, count_byte(src.subrange(0, 0), 10u8), 0int as nat).0;
        assert(ts == lex_from(src, 0, 0, 0).0);
        assert(token_in_source(src, ts[i]));
        let t = lex_from(src, 0, 0, 0).0[i];
        let s = t.start as int;
        let e = t.end as int;
        assert(src[s] != 10u8);
        lemma_nth_line_holds(src, 0, s, t.line);
        let ls = line_start(src, s);
        let le = line_end(src, s);
        lemma_line_end_same(src, s, e);
        lemma_line_end(src, e);
        let content = src.subrange(ls, le);
        let tok = src.subrange(s, e);
        lemma_ascii_valid(tok);
        assert(token_pattern(tok) == tok);
        assert(content.subrange(s - ls, s - ls + tok.len()) =~= tok);
        assert(matches_at(content, tok, s - ls));
        lemma_first_match_found(content, tok, 0, s - ls);
    }
}

} // verus!
