//! What holds of the smaller language's parser and code generator as a
//! whole: the parser takes tokens from the front only; every `&&` and `||`
//! takes two labels, and running out of label numbers is the only way
//! generation fails.

use vstd::prelude::*;

use crate::basic::codegen::{gen_expr, gen_function, gen_statements};
use crate::basic::display::{binary_symbol, unary_symbol};
use crate::basic::lexer::{token_at, Token};
use crate::lexer::{byte_chars, is_alpha_byte, word_run};
use crate::basic::parser::{
    depth, expected_token, level_op, parsed_chain, parsed_function, parsed_level,
    parsed_statement, parsed_unary, tighter, Expression, Function, Level, Parsed,
    Statement,
};
use crate::codegen::CodegenError;

verus! {

/// `rest` is what is left of `ts` after taking some tokens from its front.
pub open spec fn is_rest_of(rest: Seq<Token>, ts: Seq<Token>) -> bool {
    rest.len() <= ts.len() && rest == ts.skip(ts.len() - rest.len())
}

/// What parsing left, where it succeeded, is what is left of `ts` after
/// taking at least one token from its front.
pub open spec fn takes_some<T>(out: Parsed<T>, ts: Seq<Token>) -> bool {
    out matches Ok((_, rest)) ==> is_rest_of(rest, ts) && rest.len() < ts.len()
}

proof fn lemma_rest_trans(a: Seq<Token>, b: Seq<Token>, c: Seq<Token>)
    requires
        is_rest_of(a, b),
        is_rest_of(b, c),
    ensures
        is_rest_of(a, c),
{
    assert(a =~= c.skip(c.len() - a.len()));
}

proof fn lemma_rest_drop_first(ts: Seq<Token>)
    requires
        ts.len() > 0,
    ensures
        is_rest_of(ts.drop_first(), ts),
{
    assert(ts.drop_first() =~= ts.skip(1));
}

proof fn lemma_unary(ts: Seq<Token>)
    ensures
        takes_some(parsed_unary(ts), ts),
    decreases ts.len(), 1nat,
{
    if ts.len() > 0 {
        let rest = ts.drop_first();
        lemma_rest_drop_first(ts);
        match ts[0] {
            Token::Negation | Token::BitComplement | Token::LogicalNegation => {
                lemma_unary(rest);
                if let Ok((_, r)) = parsed_unary(rest) {
                    lemma_rest_trans(r, rest, ts);
                }
            },
            Token::ParenOpen => {
                lemma_level(Level::LogicalOr, rest);
                if let Ok((_, r1)) = parsed_level(Level::LogicalOr, rest) {
                    lemma_rest_trans(r1, rest, ts);
                    if let Ok(r2) = expected_token(r1, Token::ParenClose) {
                        lemma_rest_drop_first(r1);
                        lemma_rest_trans(r2, r1, ts);
                    }
                }
            },
            _ => {},
        }
    }
}

proof fn lemma_level(level: Level, ts: Seq<Token>)
    ensures
        takes_some(parsed_level(level, ts), ts),
    decreases ts.len(), 2 * depth(level) + 3,
{
    let first = match tighter(level) {
        Some(t) => parsed_level(t, ts),
        None => parsed_unary(ts),
    };
    match tighter(level) {
        Some(t) => {
            assert(depth(t) + 1 == depth(level));
            lemma_level(t, ts);
        },
        None => lemma_unary(ts),
    }
    if let Ok((lhs, r1)) = first {
        lemma_chain(level, lhs, r1);
        if let Ok((_, r2)) = parsed_chain(level, lhs, r1) {
            lemma_rest_trans(r2, r1, ts);
        }
    }
}

proof fn lemma_chain(level: Level, lhs: Expression, ts: Seq<Token>)
    ensures
        parsed_chain(level, lhs, ts) matches Ok((_, rest)) ==> is_rest_of(rest, ts),
    decreases ts.len(), 2 * depth(level) + 2,
{
    if ts.len() > 0 && level_op(level, ts[0]) is Some {
        let op = level_op(level, ts[0])->Some_0;
        let rest = ts.drop_first();
        lemma_rest_drop_first(ts);
        let first = match tighter(level) {
            Some(t) => parsed_level(t, rest),
            None => parsed_unary(rest),
        };
        match tighter(level) {
            Some(t) => lemma_level(t, rest),
            None => lemma_unary(rest),
        }
        if let Ok((rhs, r1)) = first {
            lemma_rest_trans(r1, rest, ts);
            if r1.len() < ts.len() {
                let joined = Expression::Binary { op, l_expr: Box::new(lhs), r_expr: Box::new(rhs) };
                lemma_chain(level, joined, r1);
                if let Ok((_, r2)) = parsed_chain(level, joined, r1) {
                    lemma_rest_trans(r2, r1, ts);
                }
            }
        }
    } else {
        assert(ts =~= ts.skip(0));
    }
}

/// The parser takes tokens only from the front: where a program parses,
/// the tokens it leaves are what follows a prefix of the input, and that
/// prefix holds at least the nine tokens of `int f ( ) { return e ; }`.
pub proof fn law_parse_takes_prefix(ts: Seq<Token>)
    ensures
        parsed_function(ts) matches Ok((_, rest)) ==> ts.len() >= rest.len() + 9 && ts == ts.take(
            ts.len() - rest.len(),
        ) + rest,
{
    if ts.len() >= 2 && ts[0] is Int && ts[1] is Ident {
        let r0 = ts.skip(2);
        assert(is_rest_of(r0, ts)) by {
            assert(r0 =~= ts.skip(ts.len() - r0.len()));
        }
        if let Ok(r1) = expected_token(r0, Token::ParenOpen) {
            lemma_rest_drop_first(r0);
            lemma_rest_trans(r1, r0, ts);
            if let Ok(r2) = expected_token(r1, Token::ParenClose) {
                lemma_rest_drop_first(r1);
                lemma_rest_trans(r2, r1, ts);
                if let Ok(r3) = expected_token(r2, Token::CurlyBraceOpen) {
                    lemma_rest_drop_first(r2);
                    lemma_rest_trans(r3, r2, ts);
                    if r3.len() > 0 && r3[0] is Return {
                        let s0 = r3.drop_first();
                        lemma_rest_drop_first(r3);
                        lemma_rest_trans(s0, r3, ts);
                        lemma_level(Level::LogicalOr, s0);
                        if let Ok((_, s1)) = parsed_level(Level::LogicalOr, s0) {
                            lemma_rest_trans(s1, s0, ts);
                            if let Ok(s2) = expected_token(s1, Token::SemiColon) {
                                lemma_rest_drop_first(s1);
                                lemma_rest_trans(s2, s1, ts);
                                assert(parsed_statement(r3) matches Ok((_, r4)) && r4 == s2);
                                if let Ok(r5) = expected_token(s2, Token::CurlyBraceClose) {
                                    lemma_rest_drop_first(s2);
                                    lemma_rest_trans(r5, s2, ts);
                                    assert(ts =~= ts.take(ts.len() - r5.len()) + r5);
                                }
                            }
                        }
                    }
                }
            }
        }
    }
}

/// How many `&&` and `||` operators an expression holds.
pub open spec fn logical_ops(e: Expression) -> nat
    decreases e,
{
    match e {
        Expression::Const(_) => 0,
        Expression::Unary { expr, .. } => logical_ops(*expr),
        Expression::Binary { op, l_expr, r_expr } => logical_ops(*l_expr) + logical_ops(*r_expr)
            + if op is And || op is Or {
            1nat
        } else {
            0nat
        },
    }
}

/// How many `&&` and `||` operators the statements hold.
pub open spec fn statements_logical_ops(s: Seq<Statement>) -> nat
    decreases s.len(),
{
    if s.len() == 0 {
        0
    } else {
        let head = match s[0] {
            Statement::Return(e) => logical_ops(e),
        };
        head + statements_logical_ops(s.drop_first())
    }
}

proof fn lemma_expr_labels(labels: u32, e: Expression)
    ensures
        gen_expr(labels, e) is Ok <==> labels + 2 * logical_ops(e) <= u32::MAX,
        gen_expr(labels, e) is Ok ==> gen_expr(labels, e)->Ok_0.1 == labels + 2 * logical_ops(e),
        gen_expr(labels, e) is Err ==> gen_expr(labels, e)->Err_0 == CodegenError::CounterOverflow,
    decreases e,
{
    match e {
        Expression::Const(_) => {},
        Expression::Unary { expr, .. } => {
            lemma_expr_labels(labels, *expr);
        },
        Expression::Binary { op, l_expr, r_expr } => {
            lemma_expr_labels(labels, *l_expr);
            if let Ok((_, l1)) = gen_expr(labels, *l_expr) {
                lemma_expr_labels(l1, *r_expr);
            }
        },
    }
}

proof fn lemma_statements_labels(labels: u32, s: Seq<Statement>)
    ensures
        gen_statements(labels, s) is Ok <==> labels + 2 * statements_logical_ops(s) <= u32::MAX,
        gen_statements(labels, s) is Ok ==> gen_statements(labels, s)->Ok_0.1 == labels + 2
            * statements_logical_ops(s),
        gen_statements(labels, s) is Err ==> gen_statements(labels, s)->Err_0
            == CodegenError::CounterOverflow,
    decreases s.len(),
{
    if s.len() > 0 {
        match s[0] {
            Statement::Return(e) => {
                lemma_expr_labels(labels, e);
                if let Ok((_, l1)) = gen_expr(labels, e) {
                    lemma_statements_labels(l1, s.drop_first());
                }
            },
        }
    }
}

/// Generating a function numbers its labels from 0 and takes two labels
/// for each `&&` and `||`: it succeeds exactly when they fit in `u32`,
/// and otherwise fails with a counter overflow; after it, the counter
/// stands at twice the number of those operators.
pub proof fn law_labels_decide_success(f: Function)
    ensures
        gen_function(0, f) is Ok <==> 2 * statements_logical_ops(f.1.0@) <= u32::MAX,
        gen_function(0, f) is Ok ==> gen_function(0, f)->Ok_0.1 == 2 * statements_logical_ops(
            f.1.0@,
        ),
        gen_function(0, f) is Err ==> gen_function(0, f)->Err_0 == CodegenError::CounterOverflow,
{
    lemma_statements_labels(0, f.1.0@);
}

/// Each operator token of the smaller language that the parser joins two
/// operands with gives the binary operator whose printed symbol is the
/// token's own text in the source, wherever the lexer read the token.
pub proof fn law_operators_keep_their_symbols(level: Level, t: Token, src: Seq<u8>, p: int)
    requires
        0 <= p < src.len(),
        token_at(src, p) is Some,
        token_at(src, p)->Some_0.0 == t@,
        level_op(level, t) is Some,
    ensures
        p + token_at(src, p)->Some_0.1 <= src.len(),
        binary_symbol(level_op(level, t)->Some_0) == byte_chars(
            src.subrange(p, p + token_at(src, p)->Some_0.1),
        ),
{
    reveal_strlit("+");
    reveal_strlit("*");
    reveal_strlit("/");
    reveal_strlit("-");
    reveal_strlit("&&");
    reveal_strlit("||");
    reveal_strlit("==");
    reveal_strlit("!=");
    reveal_strlit("<");
    reveal_strlit("<=");
    reveal_strlit(">");
    reveal_strlit(">=");
    let w = token_at(src, p)->Some_0.1;
    assert(w == 1 || w == 2);
    assert(p + w <= src.len());
    let text = byte_chars(src.subrange(p, p + w));
    if w == 1 {
        assert(text =~= seq![src[p] as char]);
    } else {
        assert(text =~= seq![src[p] as char, src[p + 1] as char]);
    }
    assert(binary_symbol(level_op(level, t)->Some_0) =~= text);
}

/// A word of the smaller language, read where a letter starts it, is the
/// keyword `int` or `return` exactly when its whole text is that keyword,
/// and otherwise a name whose text is its own bytes.
pub proof fn law_words_are_read_by_their_whole_text(src: Seq<u8>, p: int)
    requires
        0 <= p < src.len(),
        is_alpha_byte(src[p]),
    ensures
        token_at(src, p) is Some,
        ({
            let (k, n) = token_at(src, p)->Some_0;
            let text = byte_chars(src.subrange(p, p + n));
            &&& n == word_run(src, p)
            &&& (k is Int <==> text == seq!['i', 'n', 't'])
            &&& (k is Return <==> text == seq!['r', 'e', 't', 'u', 'r', 'n'])
            &&& (k is Ident <==> !(text == seq!['i', 'n', 't']) && !(text == seq![
                'r',
                'e',
                't',
                'u',
                'r',
                'n',
            ]))
            &&& (k is Ident ==> k->Ident_0 == text)
        }),
{
    reveal_strlit("return");
    reveal_strlit("int");
    assert("return"@ =~= seq!['r', 'e', 't', 'u', 'r', 'n']);
    assert("int"@ =~= seq!['i', 'n', 't']);
}


/// The operator token that starts a unary operation of the smaller
/// language gives the unary operator whose printed symbol is the token's
/// own text in the source: wherever the lexer read the first token, a
/// unary node that the parser builds from it (where it is no opening
/// parenthesis) has the operator of that symbol.
pub proof fn law_unary_operators_keep_their_symbols(ts: Seq<Token>, src: Seq<u8>, p: int)
    requires
        parsed_unary(ts) matches Ok((Expression::Unary { .. }, _)),
        !(ts[0] is ParenOpen),
        0 <= p < src.len(),
        token_at(src, p) is Some,
        token_at(src, p)->Some_0.0 == ts[0]@,
    ensures
        p + token_at(src, p)->Some_0.1 <= src.len(),
        parsed_unary(ts) matches Ok((Expression::Unary { op, .. }, _)) && unary_symbol(op)
            == byte_chars(src.subrange(p, p + token_at(src, p)->Some_0.1)),
{
    reveal_strlit("-");
    reveal_strlit("!");
    reveal_strlit("~");
    assert(ts.len() > 0);
    let t = ts[0];
    assert(t is Negation || t is BitComplement || t is LogicalNegation);
    let w = token_at(src, p)->Some_0.1;
    assert(w == 1);
    let text = byte_chars(src.subrange(p, p + w));
    assert(text =~= seq![src[p] as char]);
    let op = parsed_unary(ts)->Ok_0.0->Unary_op;
    assert(unary_symbol(op) =~= text);
}


/// An integer literal of the smaller language is read as the number that
/// its text writes: where a digit starts a token and the digits do not
/// begin with a `0` (or are the single digit `0`), the token is an
/// integer whose decimal writing is the token's text.
pub proof fn law_integers_are_read_as_written(src: Seq<u8>, p: int)
    requires
        0 <= p < src.len(),
        crate::lexer::is_digit_byte(src[p]),
        src[p] != ('0' as u8) || crate::lexer::digit_run(src, p) == 1,
    ensures
        token_at(src, p) is Some,
        token_at(src, p)->Some_0.1 == crate::lexer::digit_run(src, p),
        p + crate::lexer::digit_run(src, p) <= src.len(),
        token_at(src, p)->Some_0.0 matches crate::lexer::types::KindModel::Integer(v)
            && crate::text::decimal(v) == byte_chars(
            src.subrange(p, p + crate::lexer::digit_run(src, p)),
        ),
{
    crate::lexer::numbers::lemma_digit_run_digits(src, p);
    let n = crate::lexer::digit_run(src, p);
    let s = src.subrange(p, p + n);
    assert(n >= 1);
    assert forall|i: int| 0 <= i < s.len() implies crate::lexer::is_digit_byte(#[trigger] s[i]) by {
        assert(s[i] == src[p + i]);
    }
    assert(s[0] == src[p]);
    crate::lexer::numbers::lemma_decimal_of_value(s);
}

} // verus!
