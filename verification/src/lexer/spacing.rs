//! Blanks between tokens: adding spaces, tabs or newlines where a token
//! ends changes no token kind.

use vstd::prelude::*;

use crate::lexer::laws::lemma_token_width;
use crate::lexer::types::{KindModel, TokenModel};
use crate::lexer::{
    after_comment, digit_run, is_alpha_byte, is_blank, is_digit_byte, lemma_lex_blank,
    lemma_lex_comment, lemma_lex_end, lemma_lex_newline, lemma_lex_token, lex_from,
    starts_comment, token_at, word_run,
};

verus! {

/// The kinds of a sequence of tokens.
pub open spec fn kinds(ts: Seq<TokenModel>) -> Seq<KindModel> {
    ts.map_values(|t: TokenModel| t.kind)
}

/// The kinds of the tokens read from byte `q` on, whatever the lexer's
/// line and offset.
pub open spec fn kinds_from(src: Seq<u8>, q: int) -> Seq<KindModel>
    decreases src.len() - q,
{
    if q < 0 || q >= src.len() {
        seq![KindModel::EOF]
    } else if is_blank(src[q]) {
        kinds_from(src, q + 1)
    } else if starts_comment(src, q) {
        kinds_from(src, after_comment(src, q))
    } else {
        let (kind, w) = token_at(src, q);
        if 1 <= w && q + w <= src.len() {
            seq![kind] + kinds_from(src, q + w)
        } else {
            seq![]
        }
    }
}

/// A source without comments: no two `/` follow one another.
pub open spec fn no_comment(src: Seq<u8>) -> bool {
    forall|i: int| 0 <= i < src.len() ==> !#[trigger] starts_comment(src, i)
}

/// Whether lexing from `q` reaches byte `p` between two tokens or blanks.
pub open spec fn visits(src: Seq<u8>, q: int, p: int) -> bool
    decreases src.len() - q,
{
    if q == p {
        true
    } else if q > p || q < 0 || q >= src.len() {
        false
    } else if is_blank(src[q]) {
        visits(src, q + 1, p)
    } else if starts_comment(src, q) {
        false
    } else {
        let w = token_at(src, q).1;
        if 1 <= w && q + w <= src.len() {
            visits(src, q + w, p)
        } else {
            false
        }
    }
}

proof fn lemma_kinds_of_lexing(src: Seq<u8>, q: int, line: nat, offset: nat)
    requires
        0 <= q <= src.len(),
    ensures
        kinds(lex_from(src, q, line, offset).0) == kinds_from(src, q),
    decreases src.len() - q,
{
    if q == src.len() {
        lemma_lex_end(src, line, offset);
        assert(kinds(lex_from(src, q, line, offset).0) =~= seq![KindModel::EOF]);
    } else if src[q] == (' ' as u8) || src[q] == ('\t' as u8) {
        lemma_lex_blank(src, q, line, offset);
        lemma_kinds_of_lexing(src, q + 1, line, offset + 1);
    } else if src[q] == ('\n' as u8) {
        lemma_lex_newline(src, q, line, offset);
        lemma_kinds_of_lexing(src, q + 1, line + 1, offset + 1);
    } else if starts_comment(src, q) {
        lemma_lex_comment(src, q, line, offset);
        let a = after_comment(src, q);
        crate::lexer::laws::lemma_after_comment_bound(src, q);
        lemma_kinds_of_lexing(
            src,
            a,
            if crate::lexer::comment_ends_line(src, q) { line + 1 } else { line },
            offset + (a - q) as nat,
        );
    } else {
        lemma_token_width(src, q);
        lemma_lex_token(src, q, line, offset);
        let (kind, w) = token_at(src, q);
        let m = TokenModel { kind, start: offset, end: offset + w, line };
        let rest = lex_from(src, q + w, line, offset + w).0;
        lemma_kinds_of_lexing(src, q + w, line, offset + w);
        assert(kinds(seq![m] + rest) =~= seq![kind] + kinds(rest));
    }
}

proof fn lemma_visits_bounds(src: Seq<u8>, q: int, p: int)
    requires
        0 <= q <= src.len(),
        visits(src, q, p),
    ensures
        q <= p <= src.len(),
    decreases src.len() - q,
{
    if q != p {
        if is_blank(src[q]) {
            lemma_visits_bounds(src, q + 1, p);
        } else {
            lemma_visits_bounds(src, q + token_at(src, q).1, p);
        }
    }
}

/// With the offset at the position, every token but the last ends at a
/// position that lexing reaches.
proof fn lemma_token_ends_visited(src: Seq<u8>, q: int, line: nat)
    requires
        no_comment(src),
        0 <= q <= src.len(),
    ensures
        ({
            let ts = lex_from(src, q, line, q as nat).0;
            forall|i: int|
                0 <= i < ts.len() - 1 ==> visits(src, q, #[trigger] ts[i].end as int) && q
                    < ts[i].end
        }),
    decreases src.len() - q,
{
    if q == src.len() {
        lemma_lex_end(src, line, q as nat);
    } else {
        assert(!starts_comment(src, q));
        if src[q] == (' ' as u8) || src[q] == ('\t' as u8) {
            lemma_lex_blank(src, q, line, q as nat);
            lemma_token_ends_visited(src, q + 1, line);
        } else if src[q] == ('\n' as u8) {
            lemma_lex_newline(src, q, line, q as nat);
            lemma_token_ends_visited(src, q + 1, line + 1);
        } else {
            lemma_token_width(src, q);
            lemma_lex_token(src, q, line, q as nat);
            let (kind, w) = token_at(src, q);
            let m = TokenModel { kind, start: q as nat, end: (q + w) as nat, line };
            let rest = lex_from(src, q + w, line, (q + w) as nat).0;
            lemma_token_ends_visited(src, q + w, line);
            let ts = seq![m] + rest;
            assert(visits(src, q + w, q + w));
            assert forall|i: int| 0 <= i < ts.len() - 1 implies visits(
                src,
                q,
                #[trigger] ts[i].end as int,
            ) && q < ts[i].end by {
                if i > 0 {
                    assert(ts[i] == rest[i - 1]);
                }
            }
        }
    }
}

proof fn lemma_digit_run_stops(s: Seq<u8>, q: int)
    requires
        0 <= q,
    ensures
        q + digit_run(s, q) < s.len() ==> !is_digit_byte(s[q + digit_run(s, q)]),
    decreases s.len() - q,
{
    if 0 <= q < s.len() && is_digit_byte(s[q]) {
        lemma_digit_run_stops(s, q + 1);
    }
}

proof fn lemma_word_run_stops(s: Seq<u8>, q: int)
    requires
        0 <= q,
    ensures
        q + word_run(s, q) < s.len() ==> !(is_alpha_byte(s[q + word_run(s, q)]) || is_digit_byte(
            s[q + word_run(s, q)],
        )),
    decreases s.len() - q,
{
    if 0 <= q < s.len() && (is_alpha_byte(s[q]) || is_digit_byte(s[q])) {
        lemma_word_run_stops(s, q + 1);
    }
}

proof fn lemma_digit_run_agree(s1: Seq<u8>, q1: int, s2: Seq<u8>, q2: int, n: nat)
    requires
        0 <= q1,
        0 <= q2,
        n == digit_run(s1, q1),
        q1 + n <= s1.len(),
        q2 + n <= s2.len(),
        s2.subrange(q2, q2 + n) == s1.subrange(q1, q1 + n),
        q2 + n < s2.len() ==> !is_digit_byte(s2[q2 + n]),
    ensures
        digit_run(s2, q2) == n,
    decreases n,
{
    if n > 0 {
        assert(s2[q2] == s2.subrange(q2, q2 + n)[0]);
        assert(s1[q1] == s1.subrange(q1, q1 + n)[0]);
        assert(s2.subrange(q2 + 1, q2 + n) =~= s2.subrange(q2, q2 + n).subrange(1, n as int));
        assert(s1.subrange(q1 + 1, q1 + n) =~= s1.subrange(q1, q1 + n).subrange(1, n as int));
        lemma_digit_run_agree(s1, q1 + 1, s2, q2 + 1, (n - 1) as nat);
    }
}

proof fn lemma_word_run_agree(s1: Seq<u8>, q1: int, s2: Seq<u8>, q2: int, n: nat)
    requires
        0 <= q1,
        0 <= q2,
        n == word_run(s1, q1),
        q1 + n <= s1.len(),
        q2 + n <= s2.len(),
        s2.subrange(q2, q2 + n) == s1.subrange(q1, q1 + n),
        q2 + n < s2.len() ==> !(is_alpha_byte(s2[q2 + n]) || is_digit_byte(s2[q2 + n])),
    ensures
        word_run(s2, q2) == n,
    decreases n,
{
    if n > 0 {
        assert(s2[q2] == s2.subrange(q2, q2 + n)[0]);
        assert(s1[q1] == s1.subrange(q1, q1 + n)[0]);
        assert(s2.subrange(q2 + 1, q2 + n) =~= s2.subrange(q2, q2 + n).subrange(1, n as int));
        assert(s1.subrange(q1 + 1, q1 + n) =~= s1.subrange(q1, q1 + n).subrange(1, n as int));
        lemma_word_run_agree(s1, q1 + 1, s2, q2 + 1, (n - 1) as nat);
    }
}

/// A token reads the same where the bytes it covers are the same and the
/// byte after it is the same or a blank.
proof fn lemma_token_agree(s1: Seq<u8>, q1: int, s2: Seq<u8>, q2: int)
    requires
        0 <= q1 < s1.len(),
        0 <= q2 < s2.len(),
        !is_blank(s1[q1]),
        q1 + token_at(s1, q1).1 <= s1.len(),
        q2 + token_at(s1, q1).1 <= s2.len(),
        s2.subrange(q2, q2 + token_at(s1, q1).1) == s1.subrange(q1, q1 + token_at(s1, q1).1),
        q2 + token_at(s1, q1).1 < s2.len() ==> (q1 + token_at(s1, q1).1 < s1.len() && s2[q2
            + token_at(s1, q1).1] == s1[q1 + token_at(s1, q1).1]) || is_blank(
            s2[q2 + token_at(s1, q1).1],
        ),
    ensures
        token_at(s2, q2) == token_at(s1, q1),
{
    let w = token_at(s1, q1).1;
    lemma_token_width(s1, q1);
    assert(s2[q2] == s2.subrange(q2, q2 + w)[0]);
    assert(s1[q1] == s1.subrange(q1, q1 + w)[0]);
    let b = s1[q1];
    if is_digit_byte(b) {
        let n = digit_run(s1, q1);
        assert(w == n);
        lemma_digit_run_stops(s1, q1);
        lemma_digit_run_agree(s1, q1, s2, q2, n);
    } else if is_alpha_byte(b) {
        let n = word_run(s1, q1);
        assert(w == n);
        lemma_word_run_stops(s1, q1);
        lemma_word_run_agree(s1, q1, s2, q2, n);
    } else if w == 2 {
        assert(s2[q2 + 1] == s2.subrange(q2, q2 + w)[1]);
        assert(s1[q1 + 1] == s1.subrange(q1, q1 + w)[1]);
    }
}

/// Blanks move lexing on without a token.
proof fn lemma_kinds_skip_blanks(s: Seq<u8>, q: int, n: nat)
    requires
        0 <= q,
        q + n <= s.len(),
        forall|x: int| q <= x < q + n ==> is_blank(#[trigger] s[x]),
    ensures
        kinds_from(s, q) == kinds_from(s, q + n),
    decreases n,
{
    if n > 0 {
        lemma_kinds_skip_blanks(s, q + 1, (n - 1) as nat);
    }
}

/// Lexing two sources from positions after which they hold the same bytes
/// gives the same kinds.
proof fn lemma_kinds_same_suffix(s1: Seq<u8>, a: int, s2: Seq<u8>, b: int)
    requires
        no_comment(s1),
        0 <= a <= s1.len(),
        0 <= b <= s2.len(),
        s1.len() - a == s2.len() - b,
        forall|x: int| 0 <= x < s1.len() - a ==> s2[b + x] == #[trigger] s1[a + x],
    ensures
        kinds_from(s2, b) == kinds_from(s1, a),
    decreases s1.len() - a,
{
    if a < s1.len() {
        assert(s2[b + 0] == s1[a + 0]);
        assert(s1[a + 0] == s1[a] && s2[b + 0] == s2[b]);
        assert(!starts_comment(s1, a));
        if a + 1 < s1.len() {
            assert(s2[b + 1] == s1[a + 1]);
        }
        assert(!starts_comment(s2, b));
        assert forall|x: int| 0 <= x < s1.len() - (a + 1) implies s2[b + 1 + x] == #[trigger] s1[a
            + 1 + x] by {
            assert(s2[b + (x + 1)] == s1[a + (x + 1)]);
        }
        if is_blank(s1[a]) {
            lemma_kinds_same_suffix(s1, a + 1, s2, b + 1);
        } else {
            lemma_token_width(s1, a);
            let w = token_at(s1, a).1;
            if a + w < s1.len() {
                assert(s2[b + w] == s1[a + w]);
            }
            assert(s2.subrange(b, b + w) =~= s1.subrange(a, a + w)) by {
                assert forall|x: int| 0 <= x < w implies #[trigger] s2.subrange(b, b + w)[x]
                    == s1.subrange(a, a + w)[x] by {
                    assert(s2[b + x] == s1[a + x]);
                }
            }
            lemma_token_agree(s1, a, s2, b);
            assert forall|x: int| 0 <= x < s1.len() - (a + w) implies s2[b + w + x]
                == #[trigger] s1[a + w + x] by {
                assert(s2[b + (x + w)] == s1[a + (x + w)]);
            }
            lemma_kinds_same_suffix(s1, a + w, s2, b + w);
        }
    }
}

/// Lexing the source with blanks `w` put in at byte `p` gives the same
/// kinds as the source, from any position whose lexing reaches `p`.
proof fn lemma_kinds_with_blanks(s1: Seq<u8>, s2: Seq<u8>, w: Seq<u8>, p: int, q: int)
    requires
        no_comment(s1),
        0 <= q <= p <= s1.len(),
        w.len() > 0,
        forall|x: int| 0 <= x < w.len() ==> is_blank(#[trigger] w[x]),
        s2 == s1.subrange(0, p) + w + s1.subrange(p, s1.len() as int),
        visits(s1, q, p),
    ensures
        kinds_from(s2, q) == kinds_from(s1, q),
    decreases p - q,
{
    let n = w.len();
    assert forall|x: int| 0 <= x < p implies s2[x] == #[trigger] s1[x] by {}
    if q == p {
        assert forall|x: int| p <= x < p + n implies is_blank(#[trigger] s2[x]) by {
            assert(s2[x] == w[x - p]);
        }
        lemma_kinds_skip_blanks(s2, p, n as nat);
        assert forall|x: int| 0 <= x < s1.len() - p implies s2[p + n + x] == #[trigger] s1[p
            + x] by {}
        lemma_kinds_same_suffix(s1, p, s2, p + n);
    } else {
        assert(s2[q] == s1[q]);
        assert(!starts_comment(s1, q));
        if q + 1 < p {
            assert(s2[q + 1] == s1[q + 1]);
        } else {
            assert(s2[p] == w[0]);
        }
        assert(!starts_comment(s2, q));
        if is_blank(s1[q]) {
            lemma_kinds_with_blanks(s1, s2, w, p, q + 1);
        } else {
            lemma_token_width(s1, q);
            let w1 = token_at(s1, q).1;
            lemma_visits_bounds(s1, q + w1, p);
            if q + w1 < p {
                assert(s2[q + w1] == s1[q + w1]);
            } else {
                assert(s2[p] == w[0]);
            }
            assert(s2.subrange(q, q + w1) =~= s1.subrange(q, q + w1));
            lemma_token_agree(s1, q, s2, q);
            lemma_kinds_with_blanks(s1, s2, w, p, q + w1);
        }
    }
}

/// Putting spaces, tabs or newlines into a source without comments where
/// one of its tokens (not the closing `EOF`) ends changes the kinds of
/// none of its tokens.
pub proof fn law_blanks_between_tokens_keep_kinds(s1: Seq<u8>, i: int, w: Seq<u8>)
    requires
        no_comment(s1),
        0 <= i < lex_from(s1, 0, 0, 0).0.len() - 1,
        w.len() > 0,
        forall|x: int| 0 <= x < w.len() ==> is_blank(#[trigger] w[x]),
    ensures
        ({
            let p = lex_from(s1, 0, 0, 0).0[i].end as int;
            let s2 = s1.subrange(0, p) + w + s1.subrange(p, s1.len() as int);
            kinds(lex_from(s2, 0, 0, 0).0) == kinds(lex_from(s1, 0, 0, 0).0)
        }),
{
    lemma_token_ends_visited(s1, 0, 0);
    let ts = lex_from(s1, 0, 0, 0int as nat).0;
    assert(ts == lex_from(s1, 0, 0, 0).0);
    let p = ts[i].end as int;
    assert(visits(s1, 0, p));
    lemma_visits_bounds(s1, 0, p);
    let s2 = s1.subrange(0, p) + w + s1.subrange(p, s1.len() as int);
    lemma_kinds_with_blanks(s1, s2, w, p, 0);
    lemma_kinds_of_lexing(s1, 0, 0, 0);
    lemma_kinds_of_lexing(s2, 0, 0, 0);
}

} // verus!
