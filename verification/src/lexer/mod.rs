//! The lexer: source bytes to tokens with spans.
//!
//! Spaces, tabs and newlines separate tokens; `//` starts a comment that
//! runs to the end of the line. Every token records the byte offsets it covers
//! and its line; the token list always ends with an `EOF` token.

use vstd::prelude::*;

pub mod laws;
pub mod spacing;
pub mod words;
pub mod numbers;
pub mod types;

pub use crate::lexer::types::{Lexer, Span};
use crate::lexer::types::{KindModel, LexError, Token, TokenKind, TokenModel};
use crate::text::push_char;

verus! {

// ---------------------------------------------------------------------------
// The bytes of the language
// ---------------------------------------------------------------------------

pub open spec fn is_digit_byte(b: u8) -> bool {
    ('0' as u8) <= b && b <= ('9' as u8)
}

pub open spec fn is_alpha_byte(b: u8) -> bool {
    (('a' as u8) <= b && b <= ('z' as u8)) || (('A' as u8) <= b && b <= ('Z' as u8))
}

/// The number of digits that follow one another from position `p` on.
pub open spec fn digit_run(src: Seq<u8>, p: int) -> nat
    decreases src.len() - p,
{
    if 0 <= p < src.len() && is_digit_byte(src[p]) {
        1 + digit_run(src, p + 1)
    } else {
        0
    }
}

/// The number of letters and digits that follow one another from `p` on.
pub open spec fn word_run(src: Seq<u8>, p: int) -> nat
    decreases src.len() - p,
{
    if 0 <= p < src.len() && (is_alpha_byte(src[p]) || is_digit_byte(src[p])) {
        1 + word_run(src, p + 1)
    } else {
        0
    }
}

/// The number of bytes from `p` on before the next newline (or the end).
pub open spec fn comment_run(src: Seq<u8>, p: int) -> nat
    decreases src.len() - p,
{
    if 0 <= p < src.len() && src[p] != ('\n' as u8) {
        1 + comment_run(src, p + 1)
    } else {
        0
    }
}

/// The value of a sequence of decimal digit bytes, most significant first.
pub open spec fn decimal_value(s: Seq<u8>) -> nat
    decreases s.len(),
{
    if s.len() == 0 {
        0
    } else {
        decimal_value(s.drop_last()) * 10 + (s.last() - ('0' as u8)) as nat
    }
}

/// ASCII bytes read as characters.
pub open spec fn byte_chars(s: Seq<u8>) -> Seq<char> {
    s.map_values(|b: u8| b as char)
}

/// The character that a single byte stands for when read as UTF-8 with
/// invalid sequences replaced: itself below 128, U+FFFD otherwise.
pub open spec fn lossy_char(b: u8) -> char {
    if b < 128 {
        b as char
    } else {
        '\u{FFFD}'
    }
}

/// A word is a keyword or a name.
pub open spec fn word_kind(w: Seq<char>) -> KindModel {
    if w == "return"@ {
        KindModel::Return
    } else if w == "int"@ {
        KindModel::Int
    } else if w == "if"@ {
        KindModel::If
    } else if w == "else"@ {
        KindModel::Else
    } else {
        KindModel::Ident(w)
    }
}

/// The tokens of a single character that never start a longer token.
pub open spec fn single_kind(b: u8) -> Option<KindModel> {
    if b == ('{' as u8) {
        Some(KindModel::CurlyBraceOpen)
    } else if b == ('}' as u8) {
        Some(KindModel::CurlyBraceClose)
    } else if b == ('(' as u8) {
        Some(KindModel::ParenOpen)
    } else if b == (')' as u8) {
        Some(KindModel::ParenClose)
    } else if b == (';' as u8) {
        Some(KindModel::SemiColon)
    } else if b == ('-' as u8) {
        Some(KindModel::Negation)
    } else if b == ('~' as u8) {
        Some(KindModel::BitComplement)
    } else if b == ('+' as u8) {
        Some(KindModel::Add)
    } else if b == ('*' as u8) {
        Some(KindModel::Mul)
    } else if b == ('/' as u8) {
        Some(KindModel::Div)
    } else if b == ('%' as u8) {
        Some(KindModel::Modulo)
    } else if b == ('^' as u8) {
        Some(KindModel::BitwiseXor)
    } else if b == (':' as u8) {
        Some(KindModel::Colon)
    } else if b == ('?' as u8) {
        Some(KindModel::QMark)
    } else {
        None
    }
}

/// Whether the byte after position `p` is `c`.
pub open spec fn next_is(src: Seq<u8>, p: int, c: char) -> bool {
    p + 1 < src.len() && src[p + 1] == (c as u8)
}

/// The kind of the token that starts at `p` and the number of bytes it
/// takes, for a byte that is neither blank nor the start of a comment.
pub open spec fn token_at(src: Seq<u8>, p: int) -> (KindModel, nat) {
    let b = src[p];
    match single_kind(b) {
        Some(k) => (k, 1),
        None => if b == ('&' as u8) {
            if next_is(src, p, '&') { (KindModel::And, 2) } else { (KindModel::BitwiseAnd, 1) }
        } else if b == ('|' as u8) {
            if next_is(src, p, '|') { (KindModel::Or, 2) } else { (KindModel::BitwiseOr, 1) }
        } else if b == ('=' as u8) {
            if next_is(src, p, '=') { (KindModel::Equal, 2) } else { (KindModel::Assign, 1) }
        } else if b == ('!' as u8) {
            if next_is(src, p, '=') {
                (KindModel::NotEqual, 2)
            } else {
                (KindModel::LogicalNegation, 1)
            }
        } else if b == ('<' as u8) {
            if next_is(src, p, '=') {
                (KindModel::LTE, 2)
            } else if next_is(src, p, '<') {
                (KindModel::BitwiseShiftLeft, 2)
            } else {
                (KindModel::LT, 1)
            }
        } else if b == ('>' as u8) {
            if next_is(src, p, '=') {
                (KindModel::GTE, 2)
            } else if next_is(src, p, '>') {
                (KindModel::BitwiseShiftRight, 2)
            } else {
                (KindModel::GT, 1)
            }
        } else if is_digit_byte(b) {
            let n = digit_run(src, p);
            (KindModel::Integer(decimal_value(src.subrange(p, p + n))), n)
        } else if is_alpha_byte(b) {
            let n = word_run(src, p);
            (word_kind(byte_chars(src.subrange(p, p + n))), n)
        } else {
            (KindModel::Unknown(seq![lossy_char(b)]), 1)
        },
    }
}

pub open spec fn is_blank(b: u8) -> bool {
    b == (' ' as u8) || b == ('\t' as u8) || b == ('\n' as u8)
}

pub open spec fn starts_comment(src: Seq<u8>, p: int) -> bool {
    src[p] == ('/' as u8) && next_is(src, p, '/')
}

/// Where lexing goes on after a comment that starts at `p`: past the
/// newline that ends it, or at the end of the input.
pub open spec fn after_comment(src: Seq<u8>, p: int) -> int {
    let k = comment_run(src, p + 1);
    if p + 1 + k < src.len() {
        p + 2 + k
    } else {
        src.len() as int
    }
}

/// Whether the comment that starts at `p` ends with a newline (rather than
/// at the end of the input).
pub open spec fn comment_ends_line(src: Seq<u8>, p: int) -> bool {
    p + 1 + comment_run(src, p + 1) < src.len()
}

#[verifier::opaque]
/// Lexing from byte `p` on, with the lexer at `line` and `offset`: the
/// tokens read (the last one is `EOF`), and the final line and offset.
///
/// Every byte moves the offset by one, and every newline (one that ends a
/// comment too) moves to the next line; so with a lexer that starts at
/// offset 0, line 0, offsets are byte positions. A comment gives no token;
/// a token covers `offset..offset + width`.
pub open spec fn lex_from(src: Seq<u8>, p: int, line: nat, offset: nat) -> (Seq<TokenModel>, nat, nat)
    decreases src.len() - p,
{
    if p < 0 || p >= src.len() {
        (
            seq![
                TokenModel {
                    kind: KindModel::EOF,
                    start: (offset - 1) as nat,
                    end: (offset - 1) as nat,
                    line,
                },
            ],
            line,
            offset,
        )
    } else if src[p] == (' ' as u8) || src[p] == ('\t' as u8) {
        lex_from(src, p + 1, line, offset + 1)
    } else if src[p] == ('\n' as u8) {
        lex_from(src, p + 1, line + 1, offset + 1)
    } else if starts_comment(src, p) {
        let a = after_comment(src, p);
        lex_from(
            src,
            a,
            if comment_ends_line(src, p) { line + 1 } else { line },
            offset + (a - p) as nat,
        )
    } else {
        let (kind, w) = token_at(src, p);
        if 1 <= w && p + w <= src.len() {
            let rest = lex_from(src, p + w, line, offset + w);
            (seq![TokenModel { kind, start: offset, end: offset + w, line }] + rest.0, rest.1, rest.2)
        } else {
            (seq![], line, offset)
        }
    }
}

/// An integer literal too large for `usize`.
pub open spec fn oversize(t: TokenModel) -> bool {
    t.kind is Integer && t.kind->Integer_0 > usize::MAX
}

pub open spec fn span_of(t: TokenModel) -> Span {
    Span { start: t.start as usize, end: t.end as usize, line: t.line as usize }
}

/// The span of the first integer literal that is too large, if any.
pub open spec fn first_oversize(ts: Seq<TokenModel>) -> Option<Span>
    decreases ts.len(),
{
    if ts.len() == 0 {
        None
    } else if oversize(ts[0]) {
        Some(span_of(ts[0]))
    } else {
        first_oversize(ts.drop_first())
    }
}

pub open spec fn models(ts: Seq<Token>) -> Seq<TokenModel> {
    ts.map_values(|t: Token| t@)
}

/// What lexing `src` from the given line and offset gives: the tokens, or
/// the span of the first integer literal too large for `usize`.
pub open spec fn lex_result(src: Seq<u8>, line: nat, offset: nat) -> Result<Seq<TokenModel>, Span> {
    let total = lex_from(src, 0, line, offset);
    match first_oversize(total.0) {
        Some(span) => Err(span),
        None => Ok(total.0),
    }
}

// ---------------------------------------------------------------------------
// One step of lexing at a time
// ---------------------------------------------------------------------------

pub proof fn lemma_lex_blank(src: Seq<u8>, p: int, line: nat, offset: nat)
    requires
        0 <= p < src.len(),
        src[p] == (' ' as u8) || src[p] == ('\t' as u8),
    ensures
        lex_from(src, p, line, offset) == lex_from(src, p + 1, line, offset + 1),
{
    reveal(lex_from);
}

pub proof fn lemma_lex_newline(src: Seq<u8>, p: int, line: nat, offset: nat)
    requires
        0 <= p < src.len(),
        src[p] == ('\n' as u8),
    ensures
        lex_from(src, p, line, offset) == lex_from(src, p + 1, line + 1, offset + 1),
{
    reveal(lex_from);
}

pub proof fn lemma_lex_comment(src: Seq<u8>, p: int, line: nat, offset: nat)
    requires
        0 <= p < src.len(),
        starts_comment(src, p),
    ensures
        lex_from(src, p, line, offset) == lex_from(
            src,
            after_comment(src, p),
            if comment_ends_line(src, p) { line + 1 } else { line },
            offset + (after_comment(src, p) - p) as nat,
        ),
{
    reveal(lex_from);
}

pub proof fn lemma_lex_token(src: Seq<u8>, p: int, line: nat, offset: nat)
    requires
        0 <= p < src.len(),
        !is_blank(src[p]),
        !starts_comment(src, p),
        1 <= token_at(src, p).1,
        p + token_at(src, p).1 <= src.len(),
    ensures
        ({
            let (kind, w) = token_at(src, p);
            let m = TokenModel { kind, start: offset, end: offset + w, line };
            let here = lex_from(src, p, line, offset);
            let rest = lex_from(src, p + w, line, offset + w);
            &&& here == (seq![m] + rest.0, rest.1, rest.2)
            &&& first_oversize(here.0) == if oversize(m) {
                Some(span_of(m))
            } else {
                first_oversize(rest.0)
            }
        }),
{
    reveal(lex_from);
    let (kind, w) = token_at(src, p);
    let m = TokenModel { kind, start: offset, end: offset + w, line };
    let rest = lex_from(src, p + w, line, offset + w);
    assert((seq![m] + rest.0).drop_first() =~= rest.0);
}

pub proof fn lemma_lex_end(src: Seq<u8>, line: nat, offset: nat)
    ensures
        lex_from(src, src.len() as int, line, offset) == (
            seq![
                TokenModel {
                    kind: KindModel::EOF,
                    start: (offset - 1) as nat,
                    end: (offset - 1) as nat,
                    line,
                },
            ],
            line,
            offset,
        ),
        first_oversize(lex_from(src, src.len() as int, line, offset).0) is None,
{
    reveal(lex_from);
    let ts = lex_from(src, src.len() as int, line, offset).0;
    assert(ts.drop_first() =~= Seq::<TokenModel>::empty());
    assert(!oversize(ts[0]));
    assert(first_oversize(ts.drop_first()) is None);
}

// ---------------------------------------------------------------------------
// Executable lexer
// ---------------------------------------------------------------------------

pub(crate) fn is_num(byte: u8) -> (r: bool)
    ensures
        r == is_digit_byte(byte),
{
    ('0' as u8) <= byte && byte <= ('9' as u8)
}

pub(crate) fn is_alpha(byte: u8) -> (r: bool)
    ensures
        r == is_alpha_byte(byte),
{
    ('a' as u8) <= byte && byte <= ('z' as u8) || ('A' as u8) <= byte && byte <= ('Z' as u8)
}

impl Lexer {
    pub fn new() -> (r: Self)
        ensures
            r.line == 0,
            r.offset == 0,
    {
        Lexer { line: 0, offset: 0 }
    }

    /// Reads the integer literal that starts at `start`. Gives the token (or
    /// the error for a value too large for `usize`) and the position after
    /// the literal; moves the offset to the literal's last byte.
    fn lex_num(&mut self, source: &[u8], start: usize) -> (r: (Result<Token, LexError>, usize))
        requires
            start < source@.len(),
            is_digit_byte(source@[start as int]),
            old(self).offset + (source@.len() - start) <= usize::MAX,
        ensures
            ({
                let (kind, w) = token_at(source@, start as int);
                let m = TokenModel {
                    kind,
                    start: old(self).offset as nat,
                    end: (old(self).offset + w) as nat,
                    line: old(self).line as nat,
                };
                &&& r.1 == start + w
                &&& 1 <= w
                &&& r.1 <= source@.len()
                &&& final(self).line == old(self).line
                &&& final(self).offset == old(self).offset + w - 1
                &&& match r.0 {
                    Ok(t) => t@ == m && !oversize(m),
                    Err(e) => oversize(m) && e == LexError::IntegerTooLarge(span_of(m)),
                }
            }),
    {
        let ghost src = source@;
        let len = source.len();
        let mut j = start + 1;
        let mut value: usize = (source[start] - ('0' as u8)) as usize;
        let mut too_large = false;
        proof {
            assert(src.subrange(start as int, j as int).drop_last() =~= seq![]);
            assert(decimal_value(seq![]) == 0);
        }
        while j < len && is_num(source[j])
            invariant
                start < j <= len == src.len(),
                src == source@,
                is_digit_byte(src[start as int]),
                digit_run(src, start as int) == (j - start) + digit_run(src, j as int),
                too_large ==> decimal_value(src.subrange(start as int, j as int)) > usize::MAX,
                !too_large ==> value == decimal_value(src.subrange(start as int, j as int)),
            decreases len - j,
        {
            let d = (source[j] - ('0' as u8)) as usize;
            let ghost before = src.subrange(start as int, j as int);
            assert(src.subrange(start as int, j + 1).drop_last() =~= before);
            assert(src.subrange(start as int, j + 1).last() == src[j as int]);
            if !too_large {
                if value > (usize::MAX - d) / 10 {
                    too_large = true;
                    assert(value * 10 + d > usize::MAX) by (nonlinear_arith)
                        requires
                            value > (usize::MAX - d) / 10,
                            d <= 9,
                    ;
                } else {
                    assert(value * 10 + d <= usize::MAX) by (nonlinear_arith)
                        requires
                            value <= (usize::MAX - d) / 10,
                            d <= 9,
                    ;
                    value = value * 10 + d;
                }
            } else {
                assert(decimal_value(before) * 10 + d >= decimal_value(before)) by (nonlinear_arith);
            }
            j = j + 1;
        }
        let n = j - start;
        let span = Span { start: self.offset, end: self.offset + n, line: self.line };
        self.offset = self.offset + n - 1;  // the caller moves past the last byte
        if too_large {
            (Err(LexError::IntegerTooLarge(span)), j)
        } else {
            (Ok(Token { kind: TokenKind::Integer(value), span }), j)
        }
    }

    /// Reads the keyword or name that starts at `start`. Gives the token
    /// and the position after the word; moves the offset to its last byte.
    fn lex_alpha(&mut self, source: &[u8], start: usize) -> (r: (Token, usize))
        requires
            start < source@.len(),
            is_alpha_byte(source@[start as int]),
            old(self).offset + (source@.len() - start) <= usize::MAX,
        ensures
            ({
                let (kind, w) = token_at(source@, start as int);
                &&& r.1 == start + w
                &&& 1 <= w
                &&& r.1 <= source@.len()
                &&& final(self).line == old(self).line
                &&& final(self).offset == old(self).offset + w - 1
                &&& r.0@ == TokenModel {
                    kind,
                    start: old(self).offset as nat,
                    end: (old(self).offset + w) as nat,
                    line: old(self).line as nat,
                }
            }),
    {
        let ghost src = source@;
        let len = source.len();
        let mut j = start + 1;
        let mut string = String::new();
        push_char(&mut string, source[start] as char);
        assert(string@ =~= byte_chars(src.subrange(start as int, j as int)));
        while j < len && (is_alpha(source[j]) || is_num(source[j]))
            invariant
                start < j <= len == src.len(),
                src == source@,
                is_alpha_byte(src[start as int]),
                word_run(src, start as int) == (j - start) + word_run(src, j as int),
                string@ == byte_chars(src.subrange(start as int, j as int)),
            decreases len - j,
        {
            push_char(&mut string, source[j] as char);
            j = j + 1;
            assert(string@ =~= byte_chars(src.subrange(start as int, j as int)));
        }
        let n = j - start;
        let span = Span { start: self.offset, end: self.offset + n, line: self.line };
        let kind = if string == String::from_str("return") {
            TokenKind::Return
        } else if string == String::from_str("int") {
            TokenKind::Int
        } else if string == String::from_str("if") {
            TokenKind::If
        } else if string == String::from_str("else") {
            TokenKind::Else
        } else {
            TokenKind::Ident(string)
        };
        self.offset = self.offset + n - 1;  // the caller moves past the last byte
        (Token { kind, span }, j)
    }

    /// Reads the token that starts at `pos` (a byte that is neither blank
    /// nor the start of a comment). Gives the token (or the error for an
    /// integer literal too large for `usize`) and the number of bytes it
    /// takes; moves the offset to the token's last byte.
    fn scan_token(&mut self, source: &[u8], pos: usize) -> (r: (Result<Token, LexError>, usize))
        requires
            pos < source@.len(),
            !is_blank(source@[pos as int]),
            !starts_comment(source@, pos as int),
            old(self).offset + (source@.len() - pos) <= usize::MAX,
        ensures
            ({
                let (kind, w) = token_at(source@, pos as int);
                let m = TokenModel {
                    kind,
                    start: old(self).offset as nat,
                    end: (old(self).offset + w) as nat,
                    line: old(self).line as nat,
                };
                &&& r.1 == w
                &&& 1 <= w
                &&& pos + w <= source@.len()
                &&& final(self).line == old(self).line
                &&& final(self).offset == old(self).offset + w - 1
                &&& match r.0 {
                    Ok(t) => t@ == m && !oversize(m),
                    Err(e) => oversize(m) && e == LexError::IntegerTooLarge(span_of(m)),
                }
            }),
    {
        let byte = source[pos];
        let single_token_span = Span { start: self.offset, end: self.offset + 1, line: self.line };
        let next = if pos + 1 < source.len() {
            Some(source[pos + 1])
        } else {
            None
        };
        let kind = if byte == ('{' as u8) {
            TokenKind::CurlyBraceOpen
        } else if byte == ('}' as u8) {
            TokenKind::CurlyBraceClose
        } else if byte == ('(' as u8) {
            TokenKind::ParenOpen
        } else if byte == (')' as u8) {
            TokenKind::ParenClose
        } else if byte == (';' as u8) {
            TokenKind::SemiColon
        } else if byte == ('-' as u8) {
            TokenKind::Negation
        } else if byte == ('~' as u8) {
            TokenKind::BitComplement
        } else if byte == ('+' as u8) {
            TokenKind::Add
        } else if byte == ('*' as u8) {
            TokenKind::Mul
        } else if byte == ('/' as u8) {
            TokenKind::Div
        } else if byte == ('%' as u8) {
            TokenKind::Modulo
        } else if byte == ('^' as u8) {
            TokenKind::BitwiseXor
        } else if byte == (':' as u8) {
            TokenKind::Colon
        } else if byte == ('?' as u8) {
            TokenKind::QMark
        } else if byte == ('&' as u8) || byte == ('|' as u8) || byte == ('=' as u8) || byte
            == ('!' as u8) || byte == ('<' as u8) || byte == ('>' as u8) {
            // an operator of one or two characters
            let pair = if byte == ('&' as u8) && next == Some('&' as u8) {
                Some(TokenKind::And)
            } else if byte == ('|' as u8) && next == Some('|' as u8) {
                Some(TokenKind::Or)
            } else if byte == ('=' as u8) && next == Some('=' as u8) {
                Some(TokenKind::Equal)
            } else if byte == ('!' as u8) && next == Some('=' as u8) {
                Some(TokenKind::NotEqual)
            } else if byte == ('<' as u8) && next == Some('=' as u8) {
                Some(TokenKind::LTE)
            } else if byte == ('<' as u8) && next == Some('<' as u8) {
                Some(TokenKind::BitwiseShiftLeft)
            } else if byte == ('>' as u8) && next == Some('=' as u8) {
                Some(TokenKind::GTE)
            } else if byte == ('>' as u8) && next == Some('>' as u8) {
                Some(TokenKind::BitwiseShiftRight)
            } else {
                None
            };
            match pair {
                Some(kind) => {
                    self.offset += 1;
                    let span = Span {
                        start: self.offset - 1,
                        end: self.offset + 1,
                        line: self.line,
                    };
                    return (Ok(Token { kind, span }), 2);
                },
                None => if byte == ('&' as u8) {
                    TokenKind::BitwiseAnd
                } else if byte == ('|' as u8) {
                    TokenKind::BitwiseOr
                } else if byte == ('=' as u8) {
                    TokenKind::Assign
                } else if byte == ('!' as u8) {
                    TokenKind::LogicalNegation
                } else if byte == ('<' as u8) {
                    TokenKind::LT
                } else {
                    TokenKind::GT
                },
            }
        } else if is_num(byte) {
            let (token, after) = self.lex_num(source, pos);
            return (token, after - pos);
        } else if is_alpha(byte) {
            let (token, after) = self.lex_alpha(source, pos);
            return (Ok(token), after - pos);
        } else {
            let mut text = String::new();
            let c = if byte < 128 {
                byte as char
            } else {
                '\u{FFFD}'
            };
            push_char(&mut text, c);
            assert(text@ =~= seq![lossy_char(byte)]);
            TokenKind::Unknown(text)
        };
        (Ok(Token { kind, span: single_token_span }), 1)
    }

    /// Lexes `source`, going on from the lexer's current line and offset.
    ///
    /// Gives the tokens, ending with `EOF`, and leaves the lexer at the line
    /// and offset after the input; or, where an integer literal does not fit
    /// in `usize`, the span of the first such literal.
    pub fn lex(&mut self, source: &[u8]) -> (r: Result<Vec<Token>, LexError>)
        requires
            old(self).offset > 0 || source@.len() > 0,
            old(self).offset + source@.len() <= usize::MAX,
            old(self).line + source@.len() <= usize::MAX,
        ensures
            ({
                let total = lex_from(source@, 0, old(self).line as nat, old(self).offset as nat);
                match lex_result(source@, old(self).line as nat, old(self).offset as nat) {
                    Err(span) => r == Err::<Vec<Token>, LexError>(LexError::IntegerTooLarge(span)),
                    Ok(tokens) => {
                        &&& r is Ok
                        &&& models(r->Ok_0@) == tokens
                        &&& final(self).line == total.1
                        &&& final(self).offset == total.2
                    },
                }
            }),
    {
        let ghost src = source@;
        let ghost line0 = self.line;
        let ghost off0 = self.offset;
        let ghost total = lex_from(src, 0, line0 as nat, off0 as nat);
        let mut tokens: Vec<Token> = Vec::new();
        let len = source.len();
        let mut i: usize = 0;
        assert(models(tokens@) + lex_from(src, 0, line0 as nat, off0 as nat).0 =~= total.0);
        while i < len
            invariant
                i <= len == src.len(),
                src == source@,
                off0 + len <= usize::MAX,
                line0 + len <= usize::MAX,
                off0 <= self.offset <= off0 + i,
                i > 0 ==> self.offset > off0,
                line0 <= self.line <= line0 + i,
                total == lex_from(src, 0, line0 as nat, off0 as nat),
                line0 == old(self).line,
                off0 == old(self).offset,
                models(tokens@) + lex_from(src, i as int, self.line as nat, self.offset as nat).0
                    == total.0,
                first_oversize(lex_from(src, i as int, self.line as nat, self.offset as nat).0)
                    == first_oversize(total.0),
                lex_from(src, i as int, self.line as nat, self.offset as nat).1 == total.1,
                lex_from(src, i as int, self.line as nat, self.offset as nat).2 == total.2,
            decreases len - i,
        {
            let byte = source[i];
            // skip blanks
            if byte == (' ' as u8) || byte == ('\t' as u8) {
                proof { lemma_lex_blank(src, i as int, self.line as nat, self.offset as nat); }
                self.offset += 1;
                i += 1;
                continue;
            }
            if byte == ('\n' as u8) {
                proof { lemma_lex_newline(src, i as int, self.line as nat, self.offset as nat); }
                self.line += 1;
                self.offset += 1;
                i += 1;
                continue;
            }
            // skip comments
            if byte == ('/' as u8) && i + 1 < len && source[i + 1] == ('/' as u8) {
                proof { lemma_lex_comment(src, i as int, self.line as nat, self.offset as nat); }
                let mut j = i + 1;
                while j < len && source[j] != ('\n' as u8)
                    invariant
                        i + 1 <= j <= len == src.len(),
                        src == source@,
                        src[i + 1] == ('/' as u8),
                        comment_run(src, i + 1) == (j - (i + 1)) + comment_run(src, j as int),
                    decreases len - j,
                {
                    j += 1;
                }
                if j < len {
                    j += 1;  // the newline that ends the comment
                    self.line += 1;
                }
                self.offset += j - i;
                i = j;
                continue;
            }
            let ghost pre_off = self.offset;
            let (token, w) = self.scan_token(source, i);
            proof { lemma_lex_token(src, i as int, self.line as nat, pre_off as nat); }
            match token {
                Ok(token) => {
                    self.offset += 1;
                    assert(models(tokens@.push(token)) =~= models(tokens@) + seq![token@]);
                    tokens.push(token);
                    i += w;
                },
                Err(e) => {
                    proof {
                        let (kind, w) = token_at(src, i as int);
                        let m = TokenModel {
                            kind,
                            start: pre_off as nat,
                            end: (pre_off + w) as nat,
                            line: self.line as nat,
                        };
                        assert(oversize(m));
                        assert(first_oversize(lex_from(src, i as int, self.line as nat, pre_off as nat).0) == Some(span_of(m)));
                        assert(first_oversize(total.0) == Some(span_of(m)));
                        assert(lex_result(src, line0 as nat, off0 as nat) == Err::<Seq<TokenModel>, Span>(span_of(m)));
                        assert(e == LexError::IntegerTooLarge(span_of(m)));
                    }
                    return Err(e);
                },
            }
        }
        // the offset already stands past the last byte
        let eof = Token {
            kind: TokenKind::EOF,
            span: Span { start: self.offset - 1, end: self.offset - 1, line: self.line },
        };
        proof {
            lemma_lex_end(src, self.line as nat, self.offset as nat);
            assert(models(tokens@.push(eof)) =~= models(tokens@) + seq![eof@]);
        }
        tokens.push(eof);
        Ok(tokens)
    }

} // impl Lexer

} // verus!
