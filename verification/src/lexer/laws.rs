//! Laws of the lexer.

use vstd::prelude::*;

use crate::lexer::types::TokenModel;
use crate::lexer::{
    after_comment, comment_ends_line, comment_run, digit_run, is_alpha_byte, is_digit_byte, lex_from,
    lemma_lex_blank, lemma_lex_comment, lemma_lex_end, lemma_lex_newline, lemma_lex_token,
    starts_comment, token_at, word_run,
};

verus! {

proof fn lemma_digit_run_bound(src: Seq<u8>, p: int)
    requires
        0 <= p <= src.len(),
    ensures
        digit_run(src, p) <= src.len() - p,
    decreases src.len() - p,
{
    if p < src.len() {
        lemma_digit_run_bound(src, p + 1);
    }
}

proof fn lemma_word_run_bound(src: Seq<u8>, p: int)
    requires
        0 <= p <= src.len(),
    ensures
        word_run(src, p) <= src.len() - p,
    decreases src.len() - p,
{
    if p < src.len() {
        lemma_word_run_bound(src, p + 1);
    }
}

proof fn lemma_comment_run_bound(src: Seq<u8>, p: int)
    requires
        0 <= p <= src.len(),
    ensures
        comment_run(src, p) <= src.len() - p,
    decreases src.len() - p,
{
    if p < src.len() {
        lemma_comment_run_bound(src, p + 1);
    }
}

/// Lexing goes on after a comment at a later byte, not past the end.
pub proof fn lemma_after_comment_bound(src: Seq<u8>, p: int)
    requires
        0 <= p < src.len(),
    ensures
        p < after_comment(src, p) <= src.len(),
{
    if p + 1 <= src.len() {
        lemma_comment_run_bound(src, p + 1);
    }
}

/// A token takes at least one byte and no byte past the end.
pub proof fn lemma_token_width(src: Seq<u8>, p: int)
    requires
        0 <= p < src.len(),
    ensures
        1 <= token_at(src, p).1,
        p + token_at(src, p).1 <= src.len(),
{
    lemma_digit_run_bound(src, p);
    lemma_word_run_bound(src, p);
    if is_digit_byte(src[p]) {
        assert(digit_run(src, p) >= 1);
    }
    if is_alpha_byte(src[p]) {
        assert(word_run(src, p) >= 1);
    }
}

/// The tokens, except the final one, are not `EOF`, and each covers at
/// least one column; one after the other, they stand on the same or later
/// lines, and each starts where the one before ends or after.
pub open spec fn well_ordered(ts: Seq<TokenModel>) -> bool {
    &&& ts.len() > 0
    &&& ts.last().kind is EOF
    &&& forall|i: int| 0 <= i < ts.len() - 1 ==> !(#[trigger] ts[i].kind is EOF) && ts[i].start
        < ts[i].end
    &&& forall|i: int|
        0 <= i < ts.len() - 2 ==> #[trigger] ts[i].end <= ts[i + 1].start && ts[i].line <= ts[
            i + 1
        ].line
}

proof fn lemma_lex_from_ordered(src: Seq<u8>, p: int, line: nat, offset: nat)
    requires
        0 <= p <= src.len(),
    ensures
        well_ordered(lex_from(src, p, line, offset).0),
        forall|i: int|
            0 <= i < lex_from(src, p, line, offset).0.len() - 1 ==> offset <= #[trigger] lex_from(
                src,
                p,
                line,
                offset,
            ).0[i].start && line <= lex_from(src, p, line, offset).0[i].line,
    decreases src.len() - p,
{
    if p == src.len() {
        lemma_lex_end(src, line, offset);
    } else if src[p] == (' ' as u8) || src[p] == ('\t' as u8) {
        lemma_lex_blank(src, p, line, offset);
        lemma_lex_from_ordered(src, p + 1, line, offset + 1);
    } else if src[p] == ('\n' as u8) {
        lemma_lex_newline(src, p, line, offset);
        lemma_lex_from_ordered(src, p + 1, line + 1, offset + 1);
    } else if starts_comment(src, p) {
        lemma_lex_comment(src, p, line, offset);
        lemma_comment_run_bound(src, p + 1);
        lemma_lex_from_ordered(
            src,
            after_comment(src, p),
            if comment_ends_line(src, p) { line + 1 } else { line },
            offset + (after_comment(src, p) - p) as nat,
        );
    } else {
        lemma_token_width(src, p);
        lemma_lex_token(src, p, line, offset);
        let (kind, w) = token_at(src, p);
        let m = TokenModel { kind, start: offset, end: offset + w, line };
        let rest = lex_from(src, p + w, line, offset + w).0;
        lemma_lex_from_ordered(src, p + w, line, offset + w);
        assert(!(kind is EOF)) by {
            if is_digit_byte(src[p]) {
            } else if is_alpha_byte(src[p]) {
            }
        }
        lemma_prepend_ordered(m, rest, offset, line);
    }
}

/// A token before well ordered tokens that start at or after its end, on
/// the same or later lines.
proof fn lemma_prepend_ordered(m: TokenModel, rest: Seq<TokenModel>, offset: nat, line: nat)
    requires
        well_ordered(rest),
        !(m.kind is EOF),
        offset <= m.start < m.end,
        line <= m.line,
        forall|i: int| 0 <= i < rest.len() - 1 ==> m.end <= #[trigger] rest[i].start && m.line <= rest[i].line,
    ensures
        well_ordered(seq![m] + rest),
        forall|i: int| 0 <= i < (seq![m] + rest).len() - 1 ==> offset <= #[trigger] (seq![m]
            + rest)[i].start && line <= (seq![m] + rest)[i].line,
{
    let ts = seq![m] + rest;
    assert(ts.last() == rest.last());
    assert forall|i: int| 0 <= i < ts.len() - 1 implies !(#[trigger] ts[i].kind is EOF)
        && ts[i].start < ts[i].end by {
        if i > 0 {
            assert(ts[i] == rest[i - 1]);
        }
    }
    assert forall|i: int| 0 <= i < ts.len() - 2 implies #[trigger] ts[i].end <= ts[i + 1].start
        && ts[i].line <= ts[i + 1].line by {
        assert(ts[i + 1] == rest[i]);
        if i > 0 {
            assert(ts[i] == rest[i - 1]);
        }
    }
    assert forall|i: int| 0 <= i < ts.len() - 1 implies offset <= #[trigger] ts[i].start && line
        <= ts[i].line by {
        if i > 0 {
            assert(ts[i] == rest[i - 1]);
        }
    }
}

/// Whatever the input, lexing gives a list of tokens that ends with its
/// only `EOF` token; every other token covers at least one column, and the
/// tokens follow one another without overlapping, on the same or later
/// lines, from the offset and line where the lexer stood on.
pub proof fn law_tokens_well_ordered(src: Seq<u8>, line: nat, offset: nat)
    ensures
        well_ordered(lex_from(src, 0, line, offset).0),
        forall|i: int|
            0 <= i < lex_from(src, 0, line, offset).0.len() - 1 ==> offset <= #[trigger] lex_from(
                src,
                0,
                line,
                offset,
            ).0[i].start && line <= lex_from(src, 0, line, offset).0[i].line,
{
    lemma_lex_from_ordered(src, 0, line, offset);
}

/// A token moved down by `lines` lines and on by `cols` offsets.
pub open spec fn shifted(t: TokenModel, lines: nat, cols: nat) -> TokenModel {
    TokenModel { kind: t.kind, start: t.start + cols, end: t.end + cols, line: t.line + lines }
}

/// Every token moved down by `lines` lines and on by `cols` offsets.
pub open spec fn shift_all(ts: Seq<TokenModel>, lines: nat, cols: nat) -> Seq<TokenModel> {
    ts.map_values(|t: TokenModel| shifted(t, lines, cols))
}

proof fn lemma_comment_run_start(src: Seq<u8>, p: int)
    requires
        0 <= p < src.len(),
        starts_comment(src, p),
    ensures
        comment_run(src, p + 1) >= 1,
{
}

proof fn lemma_lex_shift(src: Seq<u8>, p: int, line: nat, offset: nat, lines: nat, cols: nat)
    requires
        0 <= p <= src.len(),
        offset > 0 || p < src.len(),
    ensures
        ({
            let base = lex_from(src, p, line, offset);
            lex_from(src, p, line + lines, offset + cols) == (
                shift_all(base.0, lines, cols),
                base.1 + lines,
                base.2 + cols,
            )
        }),
    decreases src.len() - p,
{
    let base = lex_from(src, p, line, offset);
    if p == src.len() {
        lemma_lex_end(src, line, offset);
        lemma_lex_end(src, line + lines, offset + cols);
        assert(shift_all(base.0, lines, cols) =~= lex_from(src, p, line + lines, offset + cols).0);
    } else if src[p] == (' ' as u8) || src[p] == ('\t' as u8) {
        lemma_lex_blank(src, p, line, offset);
        lemma_lex_blank(src, p, line + lines, offset + cols);
        lemma_lex_shift(src, p + 1, line, offset + 1, lines, cols);
    } else if src[p] == ('\n' as u8) {
        lemma_lex_newline(src, p, line, offset);
        lemma_lex_newline(src, p, line + lines, offset + cols);
        lemma_lex_shift(src, p + 1, line + 1, offset + 1, lines, cols);
    } else if starts_comment(src, p) {
        lemma_lex_comment(src, p, line, offset);
        lemma_lex_comment(src, p, line + lines, offset + cols);
        lemma_comment_run_start(src, p);
        lemma_comment_run_bound(src, p + 1);
        lemma_lex_shift(
            src,
            after_comment(src, p),
            if comment_ends_line(src, p) { line + 1 } else { line },
            offset + (after_comment(src, p) - p) as nat,
            lines,
            cols,
        );
    } else {
        lemma_token_width(src, p);
        lemma_lex_token(src, p, line, offset);
        lemma_lex_token(src, p, line + lines, offset + cols);
        let (kind, w) = token_at(src, p);
        let m = TokenModel { kind, start: offset, end: offset + w, line };
        let rest = lex_from(src, p + w, line, offset + w);
        lemma_lex_shift(src, p + w, line, offset + w, lines, cols);
        assert(shift_all(seq![m] + rest.0, lines, cols) =~= seq![shifted(m, lines, cols)]
            + shift_all(rest.0, lines, cols));
    }
}

/// A lexer that stands at line `line` and offset `offset` reads from a
/// non-empty source the tokens that a new lexer reads, each moved down by
/// `line` lines and on by `offset` bytes, and ends that much further
/// down and to the right.
pub proof fn law_lexing_moves_with_position(src: Seq<u8>, line: nat, offset: nat)
    requires
        src.len() > 0,
    ensures
        ({
            let base = lex_from(src, 0, 0, 0);
            lex_from(src, 0, line, offset) == (
                shift_all(base.0, line, offset),
                base.1 + line,
                base.2 + offset,
            )
        }),
{
    lemma_lex_shift(src, 0, 0, 0, line, offset);
}

} // verus!
