//! Words: a token read from letters and digits is a keyword exactly when
//! its text is that keyword, and a name of its own text otherwise.

use vstd::prelude::*;

use crate::lexer::laws::{lemma_after_comment_bound, lemma_token_width};
use crate::lexer::types::{KindModel, TokenModel};
use crate::lexer::{
    after_comment, byte_chars, comment_ends_line, is_alpha_byte, is_blank, is_digit_byte,
    lemma_lex_blank, lemma_lex_comment, lemma_lex_end, lemma_lex_newline, lemma_lex_token,
    lex_from, starts_comment, token_at, word_run,
};

verus! {

/// A token model that stands where lexing read it: its offsets are the
/// bytes of the source it was read from, and its kind and width are what
/// the byte at its start begins.
pub open spec fn read_at_its_offsets(src: Seq<u8>, t: TokenModel) -> bool {
    &&& t.start < t.end <= src.len()
    &&& !is_blank(src[t.start as int])
    &&& !starts_comment(src, t.start as int)
    &&& token_at(src, t.start as int) == (t.kind, (t.end - t.start) as nat)
}

/// With the offset at the byte position, every token but the last is read
/// at its offsets.
pub proof fn lemma_tokens_read_at_offsets(src: Seq<u8>, p: int, line: nat)
    requires
        0 <= p <= src.len(),
    ensures
        ({
            let ts = lex_from(src, p, line, p as nat).0;
            forall|i: int| 0 <= i < ts.len() - 1 ==> read_at_its_offsets(src, #[trigger] ts[i])
        }),
    decreases src.len() - p,
{
    if p == src.len() {
        lemma_lex_end(src, line, p as nat);
    } else if src[p] == (' ' as u8) || src[p] == ('\t' as u8) {
        lemma_lex_blank(src, p, line, p as nat);
        lemma_tokens_read_at_offsets(src, p + 1, line);
    } else if src[p] == ('\n' as u8) {
        lemma_lex_newline(src, p, line, p as nat);
        lemma_tokens_read_at_offsets(src, p + 1, line + 1);
    } else if starts_comment(src, p) {
        lemma_lex_comment(src, p, line, p as nat);
        lemma_after_comment_bound(src, p);
        let a = after_comment(src, p);
        lemma_tokens_read_at_offsets(
            src,
            a,
            if comment_ends_line(src, p) { line + 1 } else { line },
        );
        assert(p as nat + (a - p) as nat == a as nat);
    } else {
        lemma_token_width(src, p);
        lemma_lex_token(src, p, line, p as nat);
        let (kind, w) = token_at(src, p);
        let m = TokenModel { kind, start: p as nat, end: (p + w) as nat, line };
        let rest = lex_from(src, p + w, line, (p + w) as nat).0;
        lemma_tokens_read_at_offsets(src, p + w, line);
        let ts = seq![m] + rest;
        assert(read_at_its_offsets(src, m));
        assert forall|i: int| 0 <= i < ts.len() - 1 implies read_at_its_offsets(
            src,
            #[trigger] ts[i],
        ) by {
            if i > 0 {
                assert(ts[i] == rest[i - 1]);
            }
        }
    }
}

/// A word token's kind from its text: `return`, `int`, `if` and `else` are
/// keywords, and any other text is a name.
/// What kind of token a word is, by its whole text.
pub proof fn lemma_word_kinds(w: Seq<char>)
    ensures
        crate::lexer::word_kind(w) is Return <==> w == seq!['r', 'e', 't', 'u', 'r', 'n'],
        crate::lexer::word_kind(w) is Int <==> w == seq!['i', 'n', 't'],
        crate::lexer::word_kind(w) is If <==> w == seq!['i', 'f'],
        crate::lexer::word_kind(w) is Else <==> w == seq!['e', 'l', 's', 'e'],
        crate::lexer::word_kind(w) is Ident ==> crate::lexer::word_kind(w)->Ident_0 == w,
        crate::lexer::word_kind(w) is Return || crate::lexer::word_kind(w) is Int
            || crate::lexer::word_kind(w) is If || crate::lexer::word_kind(w) is Else
            || crate::lexer::word_kind(w) is Ident,
{
    reveal_strlit("return");
    reveal_strlit("int");
    reveal_strlit("if");
    reveal_strlit("else");
    assert("return"@ =~= seq!['r', 'e', 't', 'u', 'r', 'n']);
    assert("int"@ =~= seq!['i', 'n', 't']);
    assert("if"@ =~= seq!['i', 'f']);
    assert("else"@ =~= seq!['e', 'l', 's', 'e']);
}

/// Whatever the source, every token a new lexer reads that is a keyword
/// or a name covers exactly a run of letters and digits that begins with
/// a letter and ends where the letters and digits end; it is `int`,
/// `return`, `if` or `else` exactly when its text is that word, and
/// otherwise a name whose text is its own bytes.
pub proof fn law_words_are_read_by_their_whole_text(src: Seq<u8>, i: int)
    requires
        0 <= i < lex_from(src, 0, 0, 0).0.len() - 1,
    ensures
        ({
            let t = lex_from(src, 0, 0, 0).0[i];
            let text = byte_chars(src.subrange(t.start as int, t.end as int));
            let word = t.kind is Return || t.kind is Int || t.kind is If || t.kind is Else
                || t.kind is Ident;
            &&& word <==> is_alpha_byte(src[t.start as int])
            &&& word ==> (t.end == src.len() || !(is_alpha_byte(src[t.end as int])
                || is_digit_byte(src[t.end as int])))
            &&& word ==> forall|x: int|
                t.start <= x < t.end ==> is_alpha_byte(#[trigger] src[x]) || is_digit_byte(src[x])
            &&& (t.kind is Int <==> word && text == seq!['i', 'n', 't'])
            &&& (t.kind is Return <==> word && text == seq!['r', 'e', 't', 'u', 'r', 'n'])
            &&& (t.kind is If <==> word && text == seq!['i', 'f'])
            &&& (t.kind is Else <==> word && text == seq!['e', 'l', 's', 'e'])
            &&& (t.kind is Ident ==> t.kind->Ident_0 == text)
        }),
{
    lemma_tokens_read_at_offsets(src, 0, 0);
    let ts = lex_from(src, 0, 0, 0int as nat).0;
    assert(ts == lex_from(src, 0, 0, 0).0);
    let t = ts[i];
    assert(read_at_its_offsets(src, t));
    let s = t.start as int;
    let b = src[s];
    lemma_word_run_facts(src, s);
    if is_alpha_byte(b) {
        let n = word_run(src, s);
        lemma_word_kinds(byte_chars(src.subrange(s, s + n)));
    }
}

proof fn lemma_word_run_facts(src: Seq<u8>, q: int)
    requires
        0 <= q,
    ensures
        forall|x: int| q <= x < q + word_run(src, q) ==> is_alpha_byte(#[trigger] src[x])
            || is_digit_byte(src[x]),
        q + word_run(src, q) < src.len() ==> !(is_alpha_byte(src[q + word_run(src, q)])
            || is_digit_byte(src[q + word_run(src, q)])),
    decreases src.len() - q,
{
    if 0 <= q < src.len() && (is_alpha_byte(src[q]) || is_digit_byte(src[q])) {
        lemma_word_run_facts(src, q + 1);
    }
}

} // verus!
