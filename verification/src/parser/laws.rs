//! Laws of the parser.

use vstd::prelude::*;

use crate::lexer::types::{Token, TokenKind};
use crate::lexer::laws::lemma_token_width;
use crate::lexer::words::lemma_word_kinds;
use crate::lexer::{byte_chars, is_alpha_byte, is_blank, is_digit_byte, starts_comment, token_at, word_run};
use crate::parser::display::{binary_symbol, unary_symbol};
use crate::parser::types::Expression;
use crate::parser::{
    depth, expected_token, level_op, parsed_assignment, parsed_block_item, parsed_chain,
    parsed_conditional, parsed_expression, parsed_function, parsed_items, parsed_level,
    parsed_statement, parsed_unary, tighter, Level, Parsed,
};

verus! {

/// `rest` is what is left of `ts` after taking some tokens from its front.
pub open spec fn is_rest_of(rest: Seq<Token>, ts: Seq<Token>) -> bool {
    rest.len() <= ts.len() && rest == ts.skip(ts.len() - rest.len())
}

/// What parsing left, where it succeeded, is what is left of `ts` after
/// taking at least one token from its front.
pub open spec fn takes_some<T>(out: Parsed<T>, ts: Seq<Token>) -> bool {
    out matches Ok((_, rest)) ==> is_rest_of(rest, ts) && rest.len() < ts.len()
}

/// What parsing left, where it succeeded, is what is left of `ts` after
/// taking tokens from its front.
pub open spec fn takes_front<T>(out: Parsed<T>, ts: Seq<Token>) -> bool {
    out matches Ok((_, rest)) ==> is_rest_of(rest, ts)
}

proof fn lemma_rest_trans(a: Seq<Token>, b: Seq<Token>, c: Seq<Token>)
    requires
        is_rest_of(a, b),
        is_rest_of(b, c),
    ensures
        is_rest_of(a, c),
{
    assert(a =~= c.skip(c.len() - a.len()));
}

proof fn lemma_rest_drop_first(ts: Seq<Token>)
    requires
        ts.len() > 0,
    ensures
        is_rest_of(ts.drop_first(), ts),
{
    assert(ts.drop_first() =~= ts.skip(1));
}

proof fn lemma_rest_refl(ts: Seq<Token>)
    ensures
        is_rest_of(ts, ts),
{
    assert(ts =~= ts.skip(0));
}

proof fn lemma_expected_token(ts: Seq<Token>, kind: TokenKind)
    ensures
        expected_token(ts, kind) matches Ok(rest) ==> is_rest_of(rest, ts) && rest.len() < ts.len(),
{
    if ts.len() > 0 {
        lemma_rest_drop_first(ts);
    }
}

proof fn lemma_expression(ts: Seq<Token>)
    ensures
        takes_some(parsed_expression(ts), ts),
    decreases ts.len(), 40nat,
{
    if ts.len() >= 2 && ts[1].kind is Assign {
        lemma_assignment(ts);
    } else {
        lemma_conditional(ts);
    }
}

proof fn lemma_assignment(ts: Seq<Token>)
    ensures
        takes_some(parsed_assignment(ts), ts),
    decreases ts.len(), 39nat,
{
    lemma_unary(ts);
    if let Ok((ident, r1)) = parsed_unary(ts) {
        if ident is Ident && r1.len() > 0 && r1[0].kind is Assign && r1.len() < ts.len() {
            lemma_rest_drop_first(r1);
            lemma_rest_trans(r1.drop_first(), r1, ts);
            lemma_expression(r1.drop_first());
            if let Ok((_, r2)) = parsed_expression(r1.drop_first()) {
                lemma_rest_trans(r2, r1.drop_first(), ts);
            }
        }
    }
}

proof fn lemma_conditional(ts: Seq<Token>)
    ensures
        takes_some(parsed_conditional(ts), ts),
    decreases ts.len(), 38nat,
{
    lemma_level(Level::LogicalOr, ts);
    if let Ok((_, r1)) = parsed_level(Level::LogicalOr, ts) {
        if r1.len() > 0 && r1[0].kind is QMark && r1.len() <= ts.len() {
            lemma_rest_drop_first(r1);
            lemma_rest_trans(r1.drop_first(), r1, ts);
            lemma_expression(r1.drop_first());
            if let Ok((_, r2)) = parsed_expression(r1.drop_first()) {
                lemma_rest_trans(r2, r1.drop_first(), ts);
                lemma_expected_token(r2, TokenKind::Colon);
                if let Ok(r3) = expected_token(r2, TokenKind::Colon) {
                    lemma_rest_trans(r3, r2, ts);
                    if r3.len() < ts.len() {
                        lemma_conditional(r3);
                        if let Ok((_, r4)) = parsed_conditional(r3) {
                            lemma_rest_trans(r4, r3, ts);
                        }
                    }
                }
            }
        }
    }
}

proof fn lemma_level(level: Level, ts: Seq<Token>)
    ensures
        takes_some(parsed_level(level, ts), ts),
    decreases ts.len(), 2 * depth(level) + 3,
{
    match tighter(level) {
        Some(t) => lemma_level(t, ts),
        None => lemma_unary(ts),
    }
    let first = match tighter(level) {
        Some(t) => parsed_level(t, ts),
        None => parsed_unary(ts),
    };
    if let Ok((lhs, r1)) = first {
        if r1.len() <= ts.len() {
            lemma_chain(level, lhs, r1);
            if let Ok((_, r2)) = parsed_chain(level, lhs, r1) {
                lemma_rest_trans(r2, r1, ts);
            }
        }
    }
}

proof fn lemma_chain(level: Level, lhs: crate::parser::types::Expression, ts: Seq<Token>)
    ensures
        takes_front(parsed_chain(level, lhs, ts), ts),
    decreases ts.len(), 2 * depth(level) + 2,
{
    lemma_rest_refl(ts);
    if ts.len() > 0 && crate::parser::level_op(level, ts[0].kind) is Some {
        let op = crate::parser::level_op(level, ts[0].kind)->Some_0;
        let rest = ts.drop_first();
        lemma_rest_drop_first(ts);
        match tighter(level) {
            Some(t) => lemma_level(t, rest),
            None => lemma_unary(rest),
        }
        let operand = match tighter(level) {
            Some(t) => parsed_level(t, rest),
            None => parsed_unary(rest),
        };
        if let Ok((rhs, r1)) = operand {
            lemma_rest_trans(r1, rest, ts);
            if r1.len() < ts.len() {
                lemma_chain(level, crate::parser::binary(op, lhs, rhs), r1);
                if let Ok((_, r2)) = parsed_chain(level, crate::parser::binary(op, lhs, rhs), r1) {
                    lemma_rest_trans(r2, r1, ts);
                }
            }
        }
    }
}

proof fn lemma_unary(ts: Seq<Token>)
    ensures
        takes_some(parsed_unary(ts), ts),
    decreases ts.len(), 1nat,
{
    if ts.len() > 0 {
        let rest = ts.drop_first();
        lemma_rest_drop_first(ts);
        match ts[0].kind {
            TokenKind::Negation | TokenKind::BitComplement | TokenKind::LogicalNegation => {
                lemma_unary(rest);
                if let Ok((_, r)) = parsed_unary(rest) {
                    lemma_rest_trans(r, rest, ts);
                }
            },
            TokenKind::ParenOpen => {
                lemma_expression(rest);
                if let Ok((_, r1)) = parsed_expression(rest) {
                    lemma_rest_trans(r1, rest, ts);
                    lemma_expected_token(r1, TokenKind::ParenClose);
                    if let Ok(r2) = expected_token(r1, TokenKind::ParenClose) {
                        lemma_rest_trans(r2, r1, ts);
                    }
                }
            },
            _ => {},
        }
    }
}

proof fn lemma_statement(ts: Seq<Token>)
    ensures
        takes_some(parsed_statement(ts), ts),
    decreases ts.len(),
{
    if ts.len() > 0 {
        lemma_rest_drop_first(ts);
        let r0 = ts.drop_first();
        if ts[0].kind is Return {
            lemma_expression(r0);
            if let Ok((_, r1)) = parsed_expression(r0) {
                lemma_rest_trans(r1, r0, ts);
                lemma_expected_token(r1, TokenKind::SemiColon);
                if let Ok(r2) = expected_token(r1, TokenKind::SemiColon) {
                    lemma_rest_trans(r2, r1, ts);
                }
            }
        } else if ts[0].kind is If {
            lemma_expected_token(r0, TokenKind::ParenOpen);
            if let Ok(r1) = expected_token(r0, TokenKind::ParenOpen) {
                lemma_rest_trans(r1, r0, ts);
                lemma_expression(r1);
                if let Ok((_, r2)) = parsed_expression(r1) {
                    lemma_rest_trans(r2, r1, ts);
                    lemma_expected_token(r2, TokenKind::ParenClose);
                    if let Ok(r3) = expected_token(r2, TokenKind::ParenClose) {
                        lemma_rest_trans(r3, r2, ts);
                        if r3.len() < ts.len() {
                            lemma_statement(r3);
                            if let Ok((_, r4)) = parsed_statement(r3) {
                                lemma_rest_trans(r4, r3, ts);
                                if r4.len() > 0 && r4[0].kind is Else && r4.len() <= ts.len() {
                                    lemma_rest_drop_first(r4);
                                    lemma_rest_trans(r4.drop_first(), r4, ts);
                                    lemma_statement(r4.drop_first());
                                    if let Ok((_, r5)) = parsed_statement(r4.drop_first()) {
                                        lemma_rest_trans(r5, r4.drop_first(), ts);
                                    }
                                }
                            }
                        }
                    }
                }
            }
        } else {
            lemma_expression(ts);
            if let Ok((_, r1)) = parsed_expression(ts) {
                lemma_expected_token(r1, TokenKind::SemiColon);
                if let Ok(r2) = expected_token(r1, TokenKind::SemiColon) {
                    lemma_rest_trans(r2, r1, ts);
                }
            }
        }
    }
}

proof fn lemma_block_item(ts: Seq<Token>)
    ensures
        takes_some(parsed_block_item(ts), ts),
{
    if ts.len() > 0 {
        if ts[0].kind is Int {
            let r0 = ts.drop_first();
            lemma_rest_drop_first(ts);
            lemma_unary(r0);
            if let Ok((ident, r1)) = parsed_unary(r0) {
                lemma_rest_trans(r1, r0, ts);
                if ident is Ident && r1.len() > 0 {
                    lemma_rest_drop_first(r1);
                    lemma_rest_trans(r1.drop_first(), r1, ts);
                    if r1[0].kind is Assign {
                        lemma_expression(r1.drop_first());
                        if let Ok((_, r2)) = parsed_expression(r1.drop_first()) {
                            lemma_rest_trans(r2, r1.drop_first(), ts);
                            lemma_expected_token(r2, TokenKind::SemiColon);
                            if let Ok(r3) = expected_token(r2, TokenKind::SemiColon) {
                                lemma_rest_trans(r3, r2, ts);
                            }
                        }
                    }
                }
            }
        } else {
            lemma_statement(ts);
        }
    }
}

proof fn lemma_items(ts: Seq<Token>)
    ensures
        takes_front(parsed_items(ts), ts),
    decreases ts.len(),
{
    lemma_rest_refl(ts);
    if ts.len() > 0 && !(ts[0].kind is CurlyBraceClose) {
        lemma_block_item(ts);
        if let Ok((_, r1)) = parsed_block_item(ts) {
            if r1.len() < ts.len() {
                lemma_items(r1);
                if let Ok((_, r2)) = parsed_items(r1) {
                    lemma_rest_trans(r2, r1, ts);
                }
            }
        }
    }
}

/// The parser takes tokens only from the front: where a program parses,
/// the tokens it leaves are what follows a prefix of the input, and that
/// prefix is at least the five tokens of `int f ( ) {`.
pub proof fn law_parse_program_takes_prefix(ts: Seq<Token>)
    ensures
        parsed_function(ts) matches Ok((_, rest)) ==> ts.len() >= rest.len() + 5 && ts == ts.take(
            ts.len() - rest.len(),
        ) + rest,
{
    if ts.len() >= 2 && ts[0].kind is Int && ts[1].kind is Ident {
        let r0 = ts.skip(2);
        assert(is_rest_of(r0, ts)) by {
            assert(r0 =~= ts.skip(ts.len() - r0.len()));
        }
        lemma_expected_token(r0, TokenKind::ParenOpen);
        if let Ok(r1) = expected_token(r0, TokenKind::ParenOpen) {
            lemma_rest_trans(r1, r0, ts);
            lemma_expected_token(r1, TokenKind::ParenClose);
            if let Ok(r2) = expected_token(r1, TokenKind::ParenClose) {
                lemma_rest_trans(r2, r1, ts);
                lemma_expected_token(r2, TokenKind::CurlyBraceOpen);
                if let Ok(r3) = expected_token(r2, TokenKind::CurlyBraceOpen) {
                    lemma_rest_trans(r3, r2, ts);
                    lemma_items(r3);
                    if let Ok((_, r4)) = parsed_items(r3) {
                        lemma_rest_trans(r4, r3, ts);
                        assert(ts =~= ts.take(ts.len() - r4.len()) + r4);
                    }
                }
            }
        }
    }
}

/// Every expression, statement and block item that parses takes at least
/// one token, and leaves what follows the tokens it took.
pub proof fn law_parsing_takes_tokens(ts: Seq<Token>)
    ensures
        takes_some(parsed_expression(ts), ts),
        takes_some(parsed_statement(ts), ts),
        takes_some(parsed_block_item(ts), ts),
{
    lemma_expression(ts);
    lemma_statement(ts);
    lemma_block_item(ts);
}

/// Each operator token that the parser joins two operands with gives the
/// binary operator whose printed symbol is the token's own text in the
/// source: whatever the level and wherever the lexer read the token, the
/// symbol of `level_op(level, kind)` is the bytes the token covers.
pub proof fn law_operators_keep_their_symbols(level: Level, kind: TokenKind, src: Seq<u8>, p: int)
    requires
        0 <= p < src.len(),
        !is_blank(src[p]),
        !starts_comment(src, p),
        token_at(src, p).0 == kind@,
        level_op(level, kind) is Some,
    ensures
        p + token_at(src, p).1 <= src.len(),
        binary_symbol(level_op(level, kind)->Some_0) == byte_chars(
            src.subrange(p, p + token_at(src, p).1),
        ),
{
    lemma_token_width(src, p);
    reveal_strlit("+");
    reveal_strlit("*");
    reveal_strlit("/");
    reveal_strlit("-");
    reveal_strlit("&&");
    reveal_strlit("||");
    reveal_strlit("==");
    reveal_strlit("!=");
    reveal_strlit("<");
    reveal_strlit("<=");
    reveal_strlit(">");
    reveal_strlit(">=");
    reveal_strlit("%");
    reveal_strlit("<<");
    reveal_strlit(">>");
    reveal_strlit("&");
    reveal_strlit("|");
    reveal_strlit("^");
    let w = token_at(src, p).1;
    let text = byte_chars(src.subrange(p, p + w));
    assert(text.len() == w);
    if w == 1 {
        assert(text =~= seq![src[p] as char]);
    } else if w == 2 {
        assert(text =~= seq![src[p] as char, src[p + 1] as char]);
    }
    assert(binary_symbol(level_op(level, kind)->Some_0) =~= text);
}


/// The operator token that starts a unary operation gives the unary
/// operator whose printed symbol is the token's own text in the source:
/// wherever the lexer read the first token, a unary node that the parser
/// builds from it (where it is no opening parenthesis) has the operator
/// of that symbol.
pub proof fn law_unary_operators_keep_their_symbols(ts: Seq<Token>, src: Seq<u8>, p: int)
    requires
        parsed_unary(ts) matches Ok((Expression::Unary { .. }, _)),
        !(ts[0].kind is ParenOpen),
        0 <= p < src.len(),
        !is_blank(src[p]),
        !starts_comment(src, p),
        token_at(src, p).0 == ts[0].kind@,
    ensures
        p + token_at(src, p).1 <= src.len(),
        parsed_unary(ts) matches Ok((Expression::Unary { op, .. }, _)) && unary_symbol(op)
            == byte_chars(src.subrange(p, p + token_at(src, p).1)),
{
    lemma_token_width(src, p);
    reveal_strlit("-");
    reveal_strlit("!");
    reveal_strlit("~");
    let w = token_at(src, p).1;
    let text = byte_chars(src.subrange(p, p + w));
    assert(text.len() == w);
    assert(ts.len() > 0);
    let k = ts[0].kind;
    assert(k is Negation || k is BitComplement || k is LogicalNegation);
    let b = src[p];
    if is_alpha_byte(b) && !is_digit_byte(b) {
        let n = word_run(src, p);
        lemma_word_kinds(byte_chars(src.subrange(p, p + n)));
    }
    assert(w == 1);
    assert(text =~= seq![src[p] as char]);
    let op = parsed_unary(ts)->Ok_0.0->Unary_op;
    assert(unary_symbol(op) =~= text);
}

} // verus!
