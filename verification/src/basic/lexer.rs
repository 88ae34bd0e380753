//! The lexer of the smaller language: source bytes to tokens.
//!
//! Spaces, tabs and newlines separate tokens. `&`, `|` and `=` are only
//! known doubled (`&&`, `||`, `==`).

use vstd::prelude::*;

use crate::lexer::types::KindModel;
use crate::lexer::{
    byte_chars, decimal_value, digit_run, is_alpha, is_alpha_byte, is_digit_byte, is_num,
    lossy_char, next_is, word_run,
};
use crate::text::push_char;

verus! {

#[derive(Debug, PartialEq, Eq)]
pub enum Token {
    CurlyBraceOpen,
    CurlyBraceClose,
    ParenOpen,
    ParenClose,
    SemiColon,
    Return,
    Int,
    Ident(String),
    Integer(usize),
    Unknown(String),
    Negation,
    BitComplement,
    LogicalNegation,
    Add,
    Mul,
    Div,
    And,
    Or,
    Equal,
    NotEqual,
    LT,
    LTE,
    GT,
    GTE,
}

impl View for Token {
    type V = KindModel;

    open spec fn view(&self) -> KindModel {
        match self {
            Token::CurlyBraceOpen => KindModel::CurlyBraceOpen,
            Token::CurlyBraceClose => KindModel::CurlyBraceClose,
            Token::ParenOpen => KindModel::ParenOpen,
            Token::ParenClose => KindModel::ParenClose,
            Token::SemiColon => KindModel::SemiColon,
            Token::Return => KindModel::Return,
            Token::Int => KindModel::Int,
            Token::Ident(s) => KindModel::Ident(s@),
            Token::Integer(v) => KindModel::Integer(*v as nat),
            Token::Unknown(s) => KindModel::Unknown(s@),
            Token::Negation => KindModel::Negation,
            Token::BitComplement => KindModel::BitComplement,
            Token::LogicalNegation => KindModel::LogicalNegation,
            Token::Add => KindModel::Add,
            Token::Mul => KindModel::Mul,
            Token::Div => KindModel::Div,
            Token::And => KindModel::And,
            Token::Or => KindModel::Or,
            Token::Equal => KindModel::Equal,
            Token::NotEqual => KindModel::NotEqual,
            Token::LT => KindModel::LT,
            Token::LTE => KindModel::LTE,
            Token::GT => KindModel::GT,
            Token::GTE => KindModel::GTE,
        }
    }
}

impl Clone for Token {
    fn clone(&self) -> (r: Self)
        ensures
            r == *self,
    {
        match self {
            Token::CurlyBraceOpen => Token::CurlyBraceOpen,
            Token::CurlyBraceClose => Token::CurlyBraceClose,
            Token::ParenOpen => Token::ParenOpen,
            Token::ParenClose => Token::ParenClose,
            Token::SemiColon => Token::SemiColon,
            Token::Return => Token::Return,
            Token::Int => Token::Int,
            Token::Ident(s) => Token::Ident(s.clone()),
            Token::Integer(v) => Token::Integer(*v),
            Token::Unknown(s) => Token::Unknown(s.clone()),
            Token::Negation => Token::Negation,
            Token::BitComplement => Token::BitComplement,
            Token::LogicalNegation => Token::LogicalNegation,
            Token::Add => Token::Add,
            Token::Mul => Token::Mul,
            Token::Div => Token::Div,
            Token::And => Token::And,
            Token::Or => Token::Or,
            Token::Equal => Token::Equal,
            Token::NotEqual => Token::NotEqual,
            Token::LT => Token::LT,
            Token::LTE => Token::LTE,
            Token::GT => Token::GT,
            Token::GTE => Token::GTE,
        }
    }
}

/// Why lexing stopped.
///
/// Each of these inputs is one on which the compiler cannot go on: the
/// library answers it with this error value rather than ending the
/// process, and the command-line program ends there, with a panic that
/// names the cause (or, for a token other than the one expected, with the
/// syntax error report and exit status 1).
#[derive(Debug, PartialEq, Eq, Structural)]
pub enum LexError {
    /// A lone `&`, `|` or `=`, at the given byte position.
    Unsupported { at: usize },
    /// An integer literal too large for `usize`, starting at the given byte
    /// position.
    IntegerTooLarge { at: usize },
}

pub open spec fn single_kind(b: u8) -> Option<KindModel> {
    if b == ('{' as u8) {
        Some(KindModel::CurlyBraceOpen)
    } else if b == ('}' as u8) {
        Some(KindModel::CurlyBraceClose)
    } else if b == ('(' as u8) {
        Some(KindModel::ParenOpen)
    } else if b == (')' as u8) {
        Some(KindModel::ParenClose)
    } else if b == (';' as u8) {
        Some(KindModel::SemiColon)
    } else if b == ('-' as u8) {
        Some(KindModel::Negation)
    } else if b == ('~' as u8) {
        Some(KindModel::BitComplement)
    } else if b == ('+' as u8) {
        Some(KindModel::Add)
    } else if b == ('*' as u8) {
        Some(KindModel::Mul)
    } else if b == ('/' as u8) {
        Some(KindModel::Div)
    } else {
        None
    }
}

/// A word is `return`, `int`, or a name.
pub open spec fn word_kind(w: Seq<char>) -> KindModel {
    if w == "return"@ {
        KindModel::Return
    } else if w == "int"@ {
        KindModel::Int
    } else {
        KindModel::Ident(w)
    }
}

/// The token that starts at `p` (a byte that is not blank) and the number
/// of bytes it takes; nothing for a lone `&`, `|` or `=`.
pub open spec fn token_at(src: Seq<u8>, p: int) -> Option<(KindModel, nat)> {
    let b = src[p];
    match single_kind(b) {
        Some(k) => Some((k, 1)),
        None => if b == ('&' as u8) {
            if next_is(src, p, '&') { Some((KindModel::And, 2)) } else { None }
        } else if b == ('|' as u8) {
            if next_is(src, p, '|') { Some((KindModel::Or, 2)) } else { None }
        } else if b == ('=' as u8) {
            if next_is(src, p, '=') { Some((KindModel::Equal, 2)) } else { None }
        } else if b == ('!' as u8) {
            if next_is(src, p, '=') {
                Some((KindModel::NotEqual, 2))
            } else {
                Some((KindModel::LogicalNegation, 1))
            }
        } else if b == ('<' as u8) {
            if next_is(src, p, '=') { Some((KindModel::LTE, 2)) } else { Some((KindModel::LT, 1)) }
        } else if b == ('>' as u8) {
            if next_is(src, p, '=') { Some((KindModel::GTE, 2)) } else { Some((KindModel::GT, 1)) }
        } else if is_digit_byte(b) {
            let n = digit_run(src, p);
            Some((KindModel::Integer(decimal_value(src.subrange(p, p + n))), n))
        } else if is_alpha_byte(b) {
            let n = word_run(src, p);
            Some((word_kind(byte_chars(src.subrange(p, p + n))), n))
        } else {
            Some((KindModel::Unknown(seq![lossy_char(b)]), 1))
        },
    }
}

pub open spec fn is_blank(b: u8) -> bool {
    b == (' ' as u8) || b == ('\t' as u8) || b == ('\n' as u8)
}

/// Lexing from byte `p` on: the tokens, or the first failure.
pub open spec fn lex_from(src: Seq<u8>, p: int) -> Result<Seq<KindModel>, LexError>
    decreases src.len() - p,
{
    if p < 0 || p >= src.len() {
        Ok(seq![])
    } else if is_blank(src[p]) {
        lex_from(src, p + 1)
    } else {
        match token_at(src, p) {
            None => Err(LexError::Unsupported { at: p as usize }),
            Some((k, w)) => if k is Integer && k->Integer_0 > usize::MAX {
                Err(LexError::IntegerTooLarge { at: p as usize })
            } else if 1 <= w && p + w <= src.len() {
                match lex_from(src, p + w) {
                    Ok(rest) => Ok(seq![k] + rest),
                    Err(e) => Err(e),
                }
            } else {
                Ok(seq![])
            },
        }
    }
}

/// The tokens `acc` followed by what `out` gives.
pub open spec fn after_kinds(acc: Seq<KindModel>, out: Result<Seq<KindModel>, LexError>) -> Result<Seq<KindModel>, LexError> {
    match out {
        Ok(rest) => Ok(acc + rest),
        Err(e) => Err(e),
    }
}

pub open spec fn kinds(ts: Seq<Token>) -> Seq<KindModel> {
    ts.map_values(|t: Token| t@)
}

/// Reads the integer literal that starts at `start`; gives the token (or
/// nothing where its value does not fit in `usize`) and the position after
/// it.
fn lex_num(source: &[u8], start: usize) -> (r: (Option<Token>, usize))
    requires
        start < source@.len(),
        is_digit_byte(source@[start as int]),
    ensures
        token_at(source@, start as int) matches Some((k, w)) && r.1 == start + w && 1 <= w
            && r.1 <= source@.len() && match r.0 {
            Some(t) => t@ == k && !(k->Integer_0 > usize::MAX),
            None => k is Integer && k->Integer_0 > usize::MAX,
        },
{
    let ghost src = source@;
    let len = source.len();
    let mut j = start + 1;
    let mut value: usize = (source[start] - ('0' as u8)) as usize;
    let mut too_large = false;
    proof {
        assert(src.subrange(start as int, j as int).drop_last() =~= seq![]);
        assert(decimal_value(seq![]) == 0);
    }
    while j < len && is_num(source[j])
        invariant
            start < j <= len == src.len(),
            src == source@,
            is_digit_byte(src[start as int]),
            digit_run(src, start as int) == (j - start) + digit_run(src, j as int),
            too_large ==> decimal_value(src.subrange(start as int, j as int)) > usize::MAX,
            !too_large ==> value == decimal_value(src.subrange(start as int, j as int)),
        decreases len - j,
    {
        let d = (source[j] - ('0' as u8)) as usize;
        let ghost before = src.subrange(start as int, j as int);
        assert(src.subrange(start as int, j + 1).drop_last() =~= before);
        assert(src.subrange(start as int, j + 1).last() == src[j as int]);
        if !too_large {
            if value > (usize::MAX - d) / 10 {
                too_large = true;
                assert(value * 10 + d > usize::MAX) by (nonlinear_arith)
                    requires
                        value > (usize::MAX - d) / 10,
                        d <= 9,
                ;
            } else {
                assert(value * 10 + d <= usize::MAX) by (nonlinear_arith)
                    requires
                        value <= (usize::MAX - d) / 10,
                        d <= 9,
                ;
                value = value * 10 + d;
            }
        } else {
            assert(decimal_value(before) * 10 + d >= decimal_value(before)) by (nonlinear_arith);
        }
        j = j + 1;
    }
    if too_large {
        (None, j)
    } else {
        (Some(Token::Integer(value)), j)
    }
}

/// Reads the keyword or name that starts at `start`; gives the token and
/// the position after it.
fn lex_alpha(source: &[u8], start: usize) -> (r: (Token, usize))
    requires
        start < source@.len(),
        is_alpha_byte(source@[start as int]),
    ensures
        token_at(source@, start as int) matches Some((k, w)) && r.1 == start + w && 1 <= w
            && r.1 <= source@.len() && r.0@ == k,
{
    let ghost src = source@;
    let len = source.len();
    let mut j = start + 1;
    let mut string = String::new();
    push_char(&mut string, source[start] as char);
    assert(string@ =~= byte_chars(src.subrange(start as int, j as int)));
    while j < len && (is_alpha(source[j]) || is_num(source[j]))
        invariant
            start < j <= len == src.len(),
            src == source@,
            is_alpha_byte(src[start as int]),
            word_run(src, start as int) == (j - start) + word_run(src, j as int),
            string@ == byte_chars(src.subrange(start as int, j as int)),
        decreases len - j,
    {
        push_char(&mut string, source[j] as char);
        j = j + 1;
        assert(string@ =~= byte_chars(src.subrange(start as int, j as int)));
    }
    let token = if string == String::from_str("return") {
        Token::Return
    } else if string == String::from_str("int") {
        Token::Int
    } else {
        Token::Ident(string)
    };
    (token, j)
}

/// Reads the token that starts at `pos` (a byte that is not blank): the
/// token, or the failure, and the number of bytes it takes.
fn scan_token(source: &[u8], pos: usize) -> (r: Result<(Token, usize), LexError>)
    requires
        pos < source@.len(),
        !is_blank(source@[pos as int]),
    ensures
        match token_at(source@, pos as int) {
            None => r == Err::<(Token, usize), LexError>(LexError::Unsupported { at: pos }),
            Some((k, w)) => if k is Integer && k->Integer_0 > usize::MAX {
                r == Err::<(Token, usize), LexError>(LexError::IntegerTooLarge { at: pos })
            } else {
                r matches Ok((t, n)) && t@ == k && n == w && 1 <= w && pos + w <= source@.len()
            },
        },
{
    let byte = source[pos];
    let next = if pos + 1 < source.len() {
        Some(source[pos + 1])
    } else {
        None
    };
    let token = if byte == ('{' as u8) {
        Token::CurlyBraceOpen
    } else if byte == ('}' as u8) {
        Token::CurlyBraceClose
    } else if byte == ('(' as u8) {
        Token::ParenOpen
    } else if byte == (')' as u8) {
        Token::ParenClose
    } else if byte == (';' as u8) {
        Token::SemiColon
    } else if byte == ('-' as u8) {
        Token::Negation
    } else if byte == ('~' as u8) {
        Token::BitComplement
    } else if byte == ('+' as u8) {
        Token::Add
    } else if byte == ('*' as u8) {
        Token::Mul
    } else if byte == ('/' as u8) {
        Token::Div
    } else if byte == ('&' as u8) {
        if next == Some('&' as u8) {
            return Ok((Token::And, 2));
        } else {
            return Err(LexError::Unsupported { at: pos });
        }
    } else if byte == ('|' as u8) {
        if next == Some('|' as u8) {
            return Ok((Token::Or, 2));
        } else {
            return Err(LexError::Unsupported { at: pos });
        }
    } else if byte == ('=' as u8) {
        if next == Some('=' as u8) {
            return Ok((Token::Equal, 2));
        } else {
            return Err(LexError::Unsupported { at: pos });
        }
    } else if byte == ('!' as u8) {
        if next == Some('=' as u8) {
            return Ok((Token::NotEqual, 2));
        } else {
            Token::LogicalNegation
        }
    } else if byte == ('<' as u8) {
        if next == Some('=' as u8) {
            return Ok((Token::LTE, 2));
        } else {
            Token::LT
        }
    } else if byte == ('>' as u8) {
        if next == Some('=' as u8) {
            return Ok((Token::GTE, 2));
        } else {
            Token::GT
        }
    } else if is_num(byte) {
        let (token, after) = lex_num(source, pos);
        return match token {
            Some(token) => Ok((token, after - pos)),
            None => Err(LexError::IntegerTooLarge { at: pos }),
        };
    } else if is_alpha(byte) {
        let (token, after) = lex_alpha(source, pos);
        return Ok((token, after - pos));
    } else {
        let mut text = String::new();
        let c = if byte < 128 {
            byte as char
        } else {
            '\u{FFFD}'
        };
        push_char(&mut text, c);
        assert(text@ =~= seq![lossy_char(byte)]);
        Token::Unknown(text)
    };
    Ok((token, 1))
}

/// Lexes `source`: the tokens, or the first lone `&`, `|` or `=`, or the
/// first integer literal too large for `usize`.
pub fn lex(source: &[u8]) -> (r: Result<Vec<Token>, LexError>)
    ensures
        match lex_from(source@, 0) {
            Ok(ts) => r is Ok && kinds(r->Ok_0@) == ts,
            Err(e) => r == Err::<Vec<Token>, LexError>(e),
        },
{
    let ghost src = source@;
    let mut tokens: Vec<Token> = Vec::new();
    let len = source.len();
    let mut i: usize = 0;
    proof {
        match lex_from(src, 0) {
            Ok(ts) => {
                assert(kinds(tokens@) + ts =~= ts);
            },
            Err(_) => {},
        }
    }
    while i < len
        invariant
            i <= len == src.len(),
            src == source@,
            lex_from(src, 0) == after_kinds(kinds(tokens@), lex_from(src, i as int)),
        decreases len - i,
    {
        let byte = source[i];
        if byte == (' ' as u8) || byte == ('\t' as u8) || byte == ('\n' as u8) {
            i += 1;
            continue;
        }
        match scan_token(source, i) {
            Ok((token, w)) => {
                proof {
                    let ghost after = lex_from(src, (i + w) as int);
                    match after {
                        Ok(rest) => {
                            assert(kinds(tokens@) + (seq![token@] + rest) =~= kinds(tokens@.push(token)) + rest);
                        },
                        Err(_) => {},
                    }
                }
                tokens.push(token);
                i += w;
            },
            Err(e) => return Err(e),
        }
    }
    proof {
        assert(kinds(tokens@) + seq![] =~= kinds(tokens@));
    }
    Ok(tokens)
}

} // verus!
