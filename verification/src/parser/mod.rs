//! The parser: tokens to the abstract syntax tree, by recursive descent.
//!
//! The grammar:
//!
//! ```text
//! <program>          ::= <function>
//! <function>         ::= "int" <id> "(" ")" "{" { <block_item> } "}"
//! <block_item>       ::= <statement> | <declaration>
//! <declaration>      ::= "int" <id> [ "=" <exp> ] ";"
//! <statement>        ::= "return" <exp> ";"
//!                      | "if" "(" <exp> ")" <statement> [ "else" <statement> ]
//!                      | <exp> ";"
//! <exp>              ::= <id> "=" <exp> | <conditional_exp>
//! <conditional_exp>  ::= <logical_or_exp> [ "?" <exp> ":" <conditional_exp> ]
//! <logical_or_exp>   ::= <logical_and_exp> { "||" <logical_and_exp> }
//! <logical_and_exp>  ::= <bitwise_or_exp> { "&&" <bitwise_or_exp> }
//! <bitwise_or_exp>   ::= <bitwise_xor_exp> { "|" <bitwise_xor_exp> }
//! <bitwise_xor_exp>  ::= <bitwise_and_exp> { "^" <bitwise_and_exp> }
//! <bitwise_and_exp>  ::= <equality_exp> { "&" <equality_exp> }
//! <equality_exp>     ::= <relational_exp> { ("!=" | "==") <relational_exp> }
//! <relational_exp>   ::= <shift_exp> { ("<" | ">" | "<=" | ">=") <shift_exp> }
//! <shift_exp>        ::= <term> { ("<<" | ">>") <term> }
//! <term>             ::= <factor> { ("+" | "-") <factor> }
//! <factor>           ::= <unary> { ("*" | "/" | "%") <unary> }
//! <unary>            ::= "(" <exp> ")" | <unary_op> <unary> | <int> | <id>
//! <unary_op>         ::= "!" | "~" | "-"
//! ```
//!
//! The closing `}` of the function body is left to the caller.

use vstd::prelude::*;

pub mod display;
pub mod laws;
pub mod report;
pub mod report_laws;
pub mod types;

use crate::lexer::types::{KindModel, Token, TokenKind};
use crate::parser::types::{
    next_token, peek_tokens, pending_tokens, BinaryOp, Block, BlockItem, Declare, Expression,
    Function, MultipeekExt, Program, Statement, UnaryOp,
};
use itertools::MultiPeek;
use std::vec::IntoIter;

verus! {

/// What the parser expected where it found another token.
#[derive(Debug)]
pub enum Expected {
    ReturnType,
    Ident,
    SemicolonOrAssign,
    IdentOrInteger,
    Kind(TokenKind),
}

/// Why parsing stopped.
///
/// Each of these inputs is one on which the compiler cannot go on: the
/// library answers it with this error value rather than ending the
/// process, and the command-line program ends there, with a panic that
/// names the cause (or, for a token other than the one expected, with the
/// syntax error report and exit status 1).
#[derive(Debug)]
pub enum ParseError {
    /// A token other than the one expected.
    Unexpected { token: Token, expected: Expected },
    /// The tokens ran out.
    UnexpectedEof,
    /// The tokens ran out where a token of the given kind was expected.
    UnexpectedEofExpected(TokenKind),
    /// `int` followed by something other than a name.
    DeclaredNonIdent,
    /// An assignment to something other than a name.
    AssignToNonIdent(Expression),
}

/// What parsing a piece of the tokens gives: the value and the tokens
/// after it, or the reason parsing stopped.
pub type Parsed<T> = Result<(T, Seq<Token>), ParseError>;

/// The levels of binary operators, loosest first.
#[derive(Clone, Copy, Debug, PartialEq, Eq, Structural)]
pub enum Level {
    LogicalOr,
    LogicalAnd,
    BitwiseOr,
    BitwiseXor,
    BitwiseAnd,
    Equality,
    Relational,
    BitwiseShift,
    Term,
    Factor,
}

/// The next tighter level; the operands of `Factor` are unary expressions.
pub open spec fn tighter(level: Level) -> Option<Level> {
    match level {
        Level::LogicalOr => Some(Level::LogicalAnd),
        Level::LogicalAnd => Some(Level::BitwiseOr),
        Level::BitwiseOr => Some(Level::BitwiseXor),
        Level::BitwiseXor => Some(Level::BitwiseAnd),
        Level::BitwiseAnd => Some(Level::Equality),
        Level::Equality => Some(Level::Relational),
        Level::Relational => Some(Level::BitwiseShift),
        Level::BitwiseShift => Some(Level::Term),
        Level::Term => Some(Level::Factor),
        Level::Factor => None,
    }
}

/// How tight a level binds: `Factor` is 0.
pub open spec fn depth(level: Level) -> nat {
    match level {
        Level::LogicalOr => 9,
        Level::LogicalAnd => 8,
        Level::BitwiseOr => 7,
        Level::BitwiseXor => 6,
        Level::BitwiseAnd => 5,
        Level::Equality => 4,
        Level::Relational => 3,
        Level::BitwiseShift => 2,
        Level::Term => 1,
        Level::Factor => 0,
    }
}

/// The binary operator of a level that a token kind stands for, if any.
pub open spec fn level_op(level: Level, kind: TokenKind) -> Option<BinaryOp> {
    match (level, kind) {
        (Level::LogicalOr, TokenKind::Or) => Some(BinaryOp::Or),
        (Level::LogicalAnd, TokenKind::And) => Some(BinaryOp::And),
        (Level::BitwiseOr, TokenKind::BitwiseOr) => Some(BinaryOp::BitwiseOr),
        (Level::BitwiseXor, TokenKind::BitwiseXor) => Some(BinaryOp::BitwiseXor),
        (Level::BitwiseAnd, TokenKind::BitwiseAnd) => Some(BinaryOp::BitwiseAnd),
        (Level::Equality, TokenKind::Equal) => Some(BinaryOp::Equal),
        (Level::Equality, TokenKind::NotEqual) => Some(BinaryOp::NotEqual),
        (Level::Relational, TokenKind::LT) => Some(BinaryOp::LT),
        (Level::Relational, TokenKind::LTE) => Some(BinaryOp::LTE),
        (Level::Relational, TokenKind::GT) => Some(BinaryOp::GT),
        (Level::Relational, TokenKind::GTE) => Some(BinaryOp::GTE),
        (Level::BitwiseShift, TokenKind::BitwiseShiftLeft) => Some(BinaryOp::BitwiseShiftLeft),
        (Level::BitwiseShift, TokenKind::BitwiseShiftRight) => Some(BinaryOp::BitwiseShiftRight),
        (Level::Term, TokenKind::Add) => Some(BinaryOp::Add),
        (Level::Term, TokenKind::Negation) => Some(BinaryOp::Sub),
        (Level::Factor, TokenKind::Mul) => Some(BinaryOp::Mul),
        (Level::Factor, TokenKind::Div) => Some(BinaryOp::Div),
        (Level::Factor, TokenKind::Modulo) => Some(BinaryOp::Modulo),
        _ => None,
    }
}

/// Taking a token of the given kind.
pub open spec fn expected_token(ts: Seq<Token>, kind: TokenKind) -> Result<Seq<Token>, ParseError> {
    if ts.len() == 0 {
        Err(ParseError::UnexpectedEofExpected(kind))
    } else if ts[0].kind@ == kind@ {
        Ok(ts.drop_first())
    } else {
        Err(ParseError::Unexpected { token: ts[0], expected: Expected::Kind(kind) })
    }
}

/// Whether the first pending token is of the given kind.
pub open spec fn next_is(ts: Seq<Token>, kind: TokenKind) -> bool {
    ts.len() > 0 && ts[0].kind@ == kind@
}

pub open spec fn binary(op: BinaryOp, lhs: Expression, rhs: Expression) -> Expression {
    Expression::Binary { op, l_expr: Box::new(lhs), r_expr: Box::new(rhs) }
}

/// An expression: an assignment where the second token is `=`, else a
/// conditional expression.
pub open spec fn parsed_expression(ts: Seq<Token>) -> Parsed<Expression>
    decreases ts.len(), 40nat,
{
    if ts.len() >= 2 && ts[1].kind is Assign {
        parsed_assignment(ts)
    } else {
        parsed_conditional(ts)
    }
}

/// `<id> "=" <exp>`; a lone name where no `=` follows it.
pub open spec fn parsed_assignment(ts: Seq<Token>) -> Parsed<Expression>
    decreases ts.len(), 39nat,
{
    match parsed_unary(ts) {
        Err(e) => Err(e),
        Ok((ident, r1)) => if !(ident is Ident) {
            Err(ParseError::AssignToNonIdent(ident))
        } else if r1.len() == 0 {
            Err(ParseError::UnexpectedEof)
        } else if r1[0].kind is Assign && r1.len() < ts.len() {
            match parsed_expression(r1.drop_first()) {
                Err(e) => Err(e),
                Ok((value, r2)) => Ok(
                    (Expression::Assign { ident: Box::new(ident), expr: Box::new(value) }, r2),
                ),
            }
        } else {
            Ok((ident, r1))
        },
    }
}

/// `<logical_or_exp> [ "?" <exp> ":" <conditional_exp> ]`
pub open spec fn parsed_conditional(ts: Seq<Token>) -> Parsed<Expression>
    decreases ts.len(), 38nat,
{
    match parsed_level(Level::LogicalOr, ts) {
        Err(e) => Err(e),
        Ok((pred, r1)) => if r1.len() > 0 && r1[0].kind is QMark && r1.len() <= ts.len() {
            match parsed_expression(r1.drop_first()) {
                Err(e) => Err(e),
                Ok((then, r2)) => match expected_token(r2, TokenKind::Colon) {
                    Err(e) => Err(e),
                    Ok(r3) => if r3.len() < ts.len() {
                        match parsed_conditional(r3) {
                            Err(e) => Err(e),
                            Ok((otherwise, r4)) => Ok(
                                (Expression::Conditional {
                                    pred: Box::new(pred),
                                    then: Box::new(then),
                                    otherwise: Box::new(otherwise),
                                }, r4),
                            ),
                        }
                    } else {
                        Err(ParseError::UnexpectedEof)
                    },
                },
            }
        } else {
            Ok((pred, r1))
        },
    }
}

/// An operand of a level, then its operators with their operands, taken
/// from left to right.
pub open spec fn parsed_level(level: Level, ts: Seq<Token>) -> Parsed<Expression>
    decreases ts.len(), 2 * depth(level) + 3,
{
    match (match tighter(level) {
        Some(t) => parsed_level(t, ts),
        None => parsed_unary(ts),
    }) {
        Err(e) => Err(e),
        Ok((lhs, r1)) => if r1.len() <= ts.len() {
            parsed_chain(level, lhs, r1)
        } else {
            Err(ParseError::UnexpectedEof)
        },
    }
}

/// The operators of a level and their operands after `lhs`, which they
/// take as their left operand, from left to right.
pub open spec fn parsed_chain(level: Level, lhs: Expression, ts: Seq<Token>) -> Parsed<Expression>
    decreases ts.len(), 2 * depth(level) + 2,
{
    if ts.len() > 0 && level_op(level, ts[0].kind) is Some {
        let op = level_op(level, ts[0].kind)->Some_0;
        match (match tighter(level) {
            Some(t) => parsed_level(t, ts.drop_first()),
            None => parsed_unary(ts.drop_first()),
        }) {
            Err(e) => Err(e),
            Ok((rhs, r1)) => if r1.len() < ts.len() {
                parsed_chain(level, binary(op, lhs, rhs), r1)
            } else {
                Err(ParseError::UnexpectedEof)
            },
        }
    } else {
        Ok((lhs, ts))
    }
}

/// `"(" <exp> ")" | <unary_op> <unary> | <int> | <id>`
pub open spec fn parsed_unary(ts: Seq<Token>) -> Parsed<Expression>
    decreases ts.len(), 1nat,
{
    if ts.len() == 0 {
        Err(ParseError::UnexpectedEof)
    } else {
        let rest = ts.drop_first();
        match ts[0].kind {
            TokenKind::Ident(i) => Ok((Expression::Ident(i), rest)),
            TokenKind::Integer(i) => Ok((Expression::Const(i), rest)),
            TokenKind::Negation => match parsed_unary(rest) {
                Err(e) => Err(e),
                Ok((e, r)) => Ok((Expression::Unary { op: UnaryOp::Negation, expr: Box::new(e) }, r)),
            },
            TokenKind::BitComplement => match parsed_unary(rest) {
                Err(e) => Err(e),
                Ok((e, r)) => Ok(
                    (Expression::Unary { op: UnaryOp::BitwiseComplement, expr: Box::new(e) }, r),
                ),
            },
            TokenKind::LogicalNegation => match parsed_unary(rest) {
                Err(e) => Err(e),
                Ok((e, r)) => Ok(
                    (Expression::Unary { op: UnaryOp::LogicalNegation, expr: Box::new(e) }, r),
                ),
            },
            TokenKind::ParenOpen => match parsed_expression(rest) {
                Err(e) => Err(e),
                Ok((e, r1)) => match expected_token(r1, TokenKind::ParenClose) {
                    Err(err) => Err(err),
                    Ok(r2) => Ok((e, r2)),
                },
            },
            _ => Err(ParseError::Unexpected { token: ts[0], expected: Expected::IdentOrInteger }),
        }
    }
}

/// `"return" <exp> ";" | "if" "(" <exp> ")" <statement> [ "else" <statement> ] | <exp> ";"`
pub open spec fn parsed_statement(ts: Seq<Token>) -> Parsed<Statement>
    decreases ts.len(),
{
    if ts.len() == 0 {
        Err(ParseError::UnexpectedEof)
    } else if ts[0].kind is Return {
        match parsed_expression(ts.drop_first()) {
            Err(e) => Err(e),
            Ok((value, r1)) => match expected_token(r1, TokenKind::SemiColon) {
                Err(e) => Err(e),
                Ok(r2) => Ok((Statement::Return(value), r2)),
            },
        }
    } else if ts[0].kind is If {
        match expected_token(ts.drop_first(), TokenKind::ParenOpen) {
            Err(e) => Err(e),
            Ok(r1) => match parsed_expression(r1) {
                Err(e) => Err(e),
                Ok((pred, r2)) => match expected_token(r2, TokenKind::ParenClose) {
                    Err(e) => Err(e),
                    Ok(r3) => if r3.len() < ts.len() {
                        match parsed_statement(r3) {
                            Err(e) => Err(e),
                            Ok((then, r4)) => if r4.len() > 0 && r4[0].kind is Else && r4.len()
                                <= ts.len() {
                                match parsed_statement(r4.drop_first()) {
                                    Err(e) => Err(e),
                                    Ok((otherwise, r5)) => Ok(
                                        (Statement::If {
                                            pred,
                                            then: Box::new(then),
                                            otherwise: Some(Box::new(otherwise)),
                                        }, r5),
                                    ),
                                }
                            } else {
                                Ok((Statement::If { pred, then: Box::new(then), otherwise: None }, r4))
                            },
                        }
                    } else {
                        Err(ParseError::UnexpectedEof)
                    },
                },
            },
        }
    } else {
        match parsed_expression(ts) {
            Err(e) => Err(e),
            Ok((value, r1)) => match expected_token(r1, TokenKind::SemiColon) {
                Err(e) => Err(e),
                Ok(r2) => Ok((Statement::Expr(value), r2)),
            },
        }
    }
}

/// `<declaration> | <statement>`
pub open spec fn parsed_block_item(ts: Seq<Token>) -> Parsed<BlockItem> {
    if ts.len() == 0 {
        Err(ParseError::UnexpectedEof)
    } else if ts[0].kind is Int {
        match parsed_unary(ts.drop_first()) {
            Err(e) => Err(e),
            Ok((ident, r1)) => if !(ident is Ident) {
                Err(ParseError::DeclaredNonIdent)
            } else if r1.len() == 0 {
                Err(ParseError::UnexpectedEof)
            } else if r1[0].kind is Assign {
                match parsed_expression(r1.drop_first()) {
                    Err(e) => Err(e),
                    Ok((value, r2)) => match expected_token(r2, TokenKind::SemiColon) {
                        Err(e) => Err(e),
                        Ok(r3) => Ok((BlockItem::Declare(Declare(ident, Some(value))), r3)),
                    },
                }
            } else if r1[0].kind is SemiColon {
                Ok((BlockItem::Declare(Declare(ident, None)), r1.drop_first()))
            } else {
                Err(ParseError::Unexpected { token: r1[0], expected: Expected::SemicolonOrAssign })
            },
        }
    } else {
        match parsed_statement(ts) {
            Err(e) => Err(e),
            Ok((s, r1)) => Ok((BlockItem::Statement(s), r1)),
        }
    }
}

/// Block items up to (and not taking) the closing `}`.
pub open spec fn parsed_items(ts: Seq<Token>) -> Parsed<Seq<BlockItem>>
    decreases ts.len(),
{
    if ts.len() == 0 {
        Err(ParseError::UnexpectedEof)
    } else if ts[0].kind is CurlyBraceClose {
        Ok((seq![], ts))
    } else {
        match parsed_block_item(ts) {
            Err(e) => Err(e),
            Ok((item, r1)) => if r1.len() < ts.len() {
                match parsed_items(r1) {
                    Err(e) => Err(e),
                    Ok((items, r2)) => Ok((seq![item] + items, r2)),
                }
            } else {
                Err(ParseError::UnexpectedEof)
            },
        }
    }
}

/// `"int" <id> "(" ")" "{" { <block_item> } ` (the closing `}` is not
/// taken): the function's name and the items of its body.
pub open spec fn parsed_function(ts: Seq<Token>) -> Parsed<(String, Seq<BlockItem>)> {
    if ts.len() == 0 {
        Err(ParseError::UnexpectedEof)
    } else if !(ts[0].kind is Int) {
        Err(ParseError::Unexpected { token: ts[0], expected: Expected::ReturnType })
    } else if ts.len() == 1 {
        Err(ParseError::UnexpectedEof)
    } else {
        match ts[1].kind {
            TokenKind::Ident(name) => match expected_token(ts.skip(2), TokenKind::ParenOpen) {
                Err(e) => Err(e),
                Ok(r1) => match expected_token(r1, TokenKind::ParenClose) {
                    Err(e) => Err(e),
                    Ok(r2) => match expected_token(r2, TokenKind::CurlyBraceOpen) {
                        Err(e) => Err(e),
                        Ok(r3) => match parsed_items(r3) {
                            Err(e) => Err(e),
                            Ok((items, r4)) => Ok(((name, items), r4)),
                        },
                    },
                },
            },
            _ => Err(ParseError::Unexpected { token: ts[1], expected: Expected::Ident }),
        }
    }
}

/// A number for each kind of token, the same for tokens of one kind.
pub open spec fn kind_tag(k: KindModel) -> u8 {
    match k {
        KindModel::CurlyBraceOpen => 0,
        KindModel::CurlyBraceClose => 1,
        KindModel::ParenOpen => 2,
        KindModel::ParenClose => 3,
        KindModel::SemiColon => 4,
        KindModel::Return => 5,
        KindModel::Int => 6,
        KindModel::Ident(_) => 7,
        KindModel::Integer(_) => 8,
        KindModel::Unknown(_) => 9,
        KindModel::Negation => 10,
        KindModel::BitComplement => 11,
        KindModel::LogicalNegation => 12,
        KindModel::Add => 13,
        KindModel::Mul => 14,
        KindModel::Div => 15,
        KindModel::And => 16,
        KindModel::Or => 17,
        KindModel::Equal => 18,
        KindModel::NotEqual => 19,
        KindModel::LT => 20,
        KindModel::LTE => 21,
        KindModel::GT => 22,
        KindModel::GTE => 23,
        KindModel::Modulo => 24,
        KindModel::BitwiseAnd => 25,
        KindModel::BitwiseOr => 26,
        KindModel::BitwiseXor => 27,
        KindModel::BitwiseShiftLeft => 28,
        KindModel::BitwiseShiftRight => 29,
        KindModel::Assign => 30,
        KindModel::If => 31,
        KindModel::Else => 32,
        KindModel::Colon => 33,
        KindModel::QMark => 34,
        KindModel::EOF => 35,
    }
}

fn tag(k: &TokenKind) -> (r: u8)
    ensures
        r == kind_tag(k@),
{
    match k {
        TokenKind::CurlyBraceOpen => 0,
        TokenKind::CurlyBraceClose => 1,
        TokenKind::ParenOpen => 2,
        TokenKind::ParenClose => 3,
        TokenKind::SemiColon => 4,
        TokenKind::Return => 5,
        TokenKind::Int => 6,
        TokenKind::Ident(_) => 7,
        TokenKind::Integer(_) => 8,
        TokenKind::Unknown(_) => 9,
        TokenKind::Negation => 10,
        TokenKind::BitComplement => 11,
        TokenKind::LogicalNegation => 12,
        TokenKind::Add => 13,
        TokenKind::Mul => 14,
        TokenKind::Div => 15,
        TokenKind::And => 16,
        TokenKind::Or => 17,
        TokenKind::Equal => 18,
        TokenKind::NotEqual => 19,
        TokenKind::LT => 20,
        TokenKind::LTE => 21,
        TokenKind::GT => 22,
        TokenKind::GTE => 23,
        TokenKind::Modulo => 24,
        TokenKind::BitwiseAnd => 25,
        TokenKind::BitwiseOr => 26,
        TokenKind::BitwiseXor => 27,
        TokenKind::BitwiseShiftLeft => 28,
        TokenKind::BitwiseShiftRight => 29,
        TokenKind::Assign => 30,
        TokenKind::If => 31,
        TokenKind::Else => 32,
        TokenKind::Colon => 33,
        TokenKind::QMark => 34,
        TokenKind::EOF => 35,
    }
}

/// Whether two token kinds are the same, names and literals included.
fn same_kind(a: &TokenKind, b: &TokenKind) -> (r: bool)
    ensures
        r == (a@ == b@),
{
    match (a, b) {
        (TokenKind::Ident(x), TokenKind::Ident(y)) => *x == *y,
        (TokenKind::Integer(x), TokenKind::Integer(y)) => *x == *y,
        (TokenKind::Unknown(x), TokenKind::Unknown(y)) => *x == *y,
        _ => tag(a) == tag(b),
    }
}

fn tighter_level(level: Level) -> (r: Option<Level>)
    ensures
        r == tighter(level),
        r matches Some(t) ==> depth(t) + 1 == depth(level),
{
    match level {
        Level::LogicalOr => Some(Level::LogicalAnd),
        Level::LogicalAnd => Some(Level::BitwiseOr),
        Level::BitwiseOr => Some(Level::BitwiseXor),
        Level::BitwiseXor => Some(Level::BitwiseAnd),
        Level::BitwiseAnd => Some(Level::Equality),
        Level::Equality => Some(Level::Relational),
        Level::Relational => Some(Level::BitwiseShift),
        Level::BitwiseShift => Some(Level::Term),
        Level::Term => Some(Level::Factor),
        Level::Factor => None,
    }
}

fn level_operator(level: Level, kind: &TokenKind) -> (r: Option<BinaryOp>)
    ensures
        r == level_op(level, *kind),
{
    match (level, kind) {
        (Level::LogicalOr, TokenKind::Or) => Some(BinaryOp::Or),
        (Level::LogicalAnd, TokenKind::And) => Some(BinaryOp::And),
        (Level::BitwiseOr, TokenKind::BitwiseOr) => Some(BinaryOp::BitwiseOr),
        (Level::BitwiseXor, TokenKind::BitwiseXor) => Some(BinaryOp::BitwiseXor),
        (Level::BitwiseAnd, TokenKind::BitwiseAnd) => Some(BinaryOp::BitwiseAnd),
        (Level::Equality, TokenKind::Equal) => Some(BinaryOp::Equal),
        (Level::Equality, TokenKind::NotEqual) => Some(BinaryOp::NotEqual),
        (Level::Relational, TokenKind::LT) => Some(BinaryOp::LT),
        (Level::Relational, TokenKind::LTE) => Some(BinaryOp::LTE),
        (Level::Relational, TokenKind::GT) => Some(BinaryOp::GT),
        (Level::Relational, TokenKind::GTE) => Some(BinaryOp::GTE),
        (Level::BitwiseShift, TokenKind::BitwiseShiftLeft) => Some(BinaryOp::BitwiseShiftLeft),
        (Level::BitwiseShift, TokenKind::BitwiseShiftRight) => Some(BinaryOp::BitwiseShiftRight),
        (Level::Term, TokenKind::Add) => Some(BinaryOp::Add),
        (Level::Term, TokenKind::Negation) => Some(BinaryOp::Sub),
        (Level::Factor, TokenKind::Mul) => Some(BinaryOp::Mul),
        (Level::Factor, TokenKind::Div) => Some(BinaryOp::Div),
        (Level::Factor, TokenKind::Modulo) => Some(BinaryOp::Modulo),
        _ => None,
    }
}

/// Whether parsing gave the value and left the tokens that `out` describes.
pub open spec fn parsed_as<T>(out: Parsed<T>, r: Result<T, ParseError>, rest: Seq<Token>) -> bool {
    match out {
        Ok((v, after)) => r == Ok::<T, ParseError>(v) && rest == after,
        Err(e) => r == Err::<T, ParseError>(e),
    }
}

/// Takes the next token.
fn get_token(iterator: &mut MultiPeek<IntoIter<Token>>) -> (r: Result<Token, ParseError>)
    ensures
        pending_tokens(*old(iterator)).len() == 0 ==> r == Err::<Token, ParseError>(
            ParseError::UnexpectedEof,
        ),
        pending_tokens(*old(iterator)).len() > 0 ==> r == Ok::<Token, ParseError>(
            pending_tokens(*old(iterator))[0],
        ) && pending_tokens(*final(iterator)) == pending_tokens(*old(iterator)).drop_first(),
{
    match next_token(iterator) {
        Some(token) => Ok(token),
        None => Err(ParseError::UnexpectedEof),
    }
}

/// Looks at the next token without taking it.
fn get_peek(iterator: &mut MultiPeek<IntoIter<Token>>) -> (r: Result<Token, ParseError>)
    ensures
        pending_tokens(*final(iterator)) == pending_tokens(*old(iterator)),
        pending_tokens(*old(iterator)).len() == 0 ==> r == Err::<Token, ParseError>(
            ParseError::UnexpectedEof,
        ),
        pending_tokens(*old(iterator)).len() > 0 ==> r == Ok::<Token, ParseError>(
            pending_tokens(*old(iterator))[0],
        ),
{
    match iterator.peek_n(1) {
        Some(token) => Ok(token),
        None => Err(ParseError::UnexpectedEof),
    }
}


/// `acc` followed by the items that `out` gives.
pub open spec fn after_items(acc: Seq<BlockItem>, out: Parsed<Seq<BlockItem>>) -> Parsed<Seq<BlockItem>> {
    match out {
        Ok((items, rest)) => Ok((acc + items, rest)),
        Err(e) => Err(e),
    }
}

proof fn lemma_after_items_empty(out: Parsed<Seq<BlockItem>>)
    ensures
        after_items(seq![], out) == out,
{
    match out {
        Ok((items, rest)) => {
            assert(seq![] + items =~= items);
        },
        Err(_) => {},
    }
}

proof fn lemma_after_items_push(acc: Seq<BlockItem>, item: BlockItem, out: Parsed<Seq<BlockItem>>)
    ensures
        after_items(acc, after_items(seq![item], out)) == after_items(acc.push(item), out),
{
    match out {
        Ok((items, rest)) => {
            assert(acc + (seq![item] + items) =~= acc.push(item) + items);
        },
        Err(_) => {},
    }
}

/// A parser over the tokens of a source text; the text is what error
/// messages quote.
pub struct Parser<'a> {
    buf: &'a [u8],
}

impl<'a> Parser<'a> {
    /// The source text whose tokens this parser reads.
    pub closed spec fn source(&self) -> Seq<u8> {
        self.buf@
    }

    pub fn new(buf: &'a [u8]) -> (r: Parser<'a>)
        ensures
            r.source() == buf@,
    {
        Parser { buf }
    }

    /// The source text.
    pub fn buffer(&self) -> (r: &'a [u8])
        ensures
            r@ == self.source(),
    {
        self.buf
    }

    /// Takes a token of the given kind.
    fn expect(&self, iterator: &mut MultiPeek<IntoIter<Token>>, expect: TokenKind) -> (r: Result<(), ParseError>)
        ensures
            match expected_token(pending_tokens(*old(iterator)), expect) {
                Ok(rest) => r is Ok && pending_tokens(*final(iterator)) == rest,
                Err(e) => r == Err::<(), ParseError>(e),
            },
    {
        match next_token(iterator) {
            Some(token) => if same_kind(&token.kind, &expect) {
                Ok(())
            } else {
                Err(ParseError::Unexpected { token, expected: Expected::Kind(expect) })
            },
            None => Err(ParseError::UnexpectedEofExpected(expect)),
        }
    }

    /// `"(" <exp> ")" | <unary_op> <unary> | <int> | <id>`
    fn parse_unary(&self, iterator: &mut MultiPeek<IntoIter<Token>>) -> (r: Result<Expression, ParseError>)
        ensures
            parsed_as(parsed_unary(pending_tokens(*old(iterator))), r, pending_tokens(*final(iterator))),
            r is Ok ==> pending_tokens(*final(iterator)).len() < pending_tokens(*old(iterator)).len(),
        decreases pending_tokens(*old(iterator)).len(), 1nat,
    {
        match next_token(iterator) {
            Some(token) => match token.kind {
                TokenKind::Ident(i) => Ok(Expression::Ident(i)),
                TokenKind::Integer(i) => Ok(Expression::Const(i)),
                TokenKind::Negation => match self.parse_unary(iterator) {
                    Ok(e) => Ok(Expression::Unary { op: UnaryOp::Negation, expr: Box::new(e) }),
                    Err(e) => Err(e),
                },
                TokenKind::BitComplement => match self.parse_unary(iterator) {
                    Ok(e) => Ok(Expression::Unary { op: UnaryOp::BitwiseComplement, expr: Box::new(e) }),
                    Err(e) => Err(e),
                },
                TokenKind::LogicalNegation => match self.parse_unary(iterator) {
                    Ok(e) => Ok(Expression::Unary { op: UnaryOp::LogicalNegation, expr: Box::new(e) }),
                    Err(e) => Err(e),
                },
                TokenKind::ParenOpen => {
                    let expr = match self.parse_expression(iterator) {
                        Ok(e) => e,
                        Err(e) => return Err(e),
                    };
                    match self.expect(iterator, TokenKind::ParenClose) {
                        Ok(()) => Ok(expr),
                        Err(e) => Err(e),
                    }
                },
                kind => Err(
                    ParseError::Unexpected {
                        token: Token { kind, span: token.span },
                        expected: Expected::IdentOrInteger,
                    },
                ),
            },
            None => Err(ParseError::UnexpectedEof),
        }
    }

    /// An operand of `level`, then the level's operators and their operands,
    /// left to right.
    fn parse_level(&self, level: Level, iterator: &mut MultiPeek<IntoIter<Token>>) -> (r: Result<Expression, ParseError>)
        ensures
            parsed_as(parsed_level(level, pending_tokens(*old(iterator))), r, pending_tokens(*final(iterator))),
            r is Ok ==> pending_tokens(*final(iterator)).len() < pending_tokens(*old(iterator)).len(),
        decreases pending_tokens(*old(iterator)).len(), 2 * depth(level) + 3,
    {
        let ghost start = pending_tokens(*iterator);
        let mut expr = match tighter_level(level) {
            Some(t) => match self.parse_level(t, iterator) {
                Ok(e) => e,
                Err(e) => return Err(e),
            },
            None => match self.parse_unary(iterator) {
                Ok(e) => e,
                Err(e) => return Err(e),
            },
        };
        loop
            invariant_except_break
                start == pending_tokens(*old(iterator)),
                parsed_level(level, start) == parsed_chain(level, expr, pending_tokens(*iterator)),
                pending_tokens(*iterator).len() < start.len(),
            ensures
                parsed_level(level, start) == Ok::<(Expression, Seq<Token>), ParseError>((expr, pending_tokens(*iterator))),
                pending_tokens(*iterator).len() < start.len(),
            decreases pending_tokens(*iterator).len(),
        {
            let ghost before = pending_tokens(*iterator);
            match iterator.peek_n(1) {
                Some(Token { kind: next, span: _ }) => match level_operator(level, &next) {
                    Some(op) => {
                        next_token(iterator);  // the operator
                        let rhs = match tighter_level(level) {
                            Some(t) => match self.parse_level(t, iterator) {
                                Ok(e) => e,
                                Err(e) => return Err(e),
                            },
                            None => match self.parse_unary(iterator) {
                                Ok(e) => e,
                                Err(e) => return Err(e),
                            },
                        };
                        expr = Expression::Binary { op, l_expr: Box::new(expr), r_expr: Box::new(rhs) };
                    },
                    None => break,
                },
                None => break,
            }
        }
        Ok(expr)
    }

    /// `<logical_or_exp> [ "?" <exp> ":" <conditional_exp> ]`
    fn parse_conditional(&self, iterator: &mut MultiPeek<IntoIter<Token>>) -> (r: Result<Expression, ParseError>)
        ensures
            parsed_as(parsed_conditional(pending_tokens(*old(iterator))), r, pending_tokens(*final(iterator))),
            r is Ok ==> pending_tokens(*final(iterator)).len() < pending_tokens(*old(iterator)).len(),
        decreases pending_tokens(*old(iterator)).len(), 38nat,
    {
        let pred = match self.parse_level(Level::LogicalOr, iterator) {
            Ok(e) => e,
            Err(e) => return Err(e),
        };
        match iterator.peek_n(1) {
            Some(Token { kind: TokenKind::QMark, span: _ }) => {
                next_token(iterator);  // the `?`
                let then = match self.parse_expression(iterator) {
                    Ok(e) => e,
                    Err(e) => return Err(e),
                };
                match self.expect(iterator, TokenKind::Colon) {
                    Ok(()) => {},
                    Err(e) => return Err(e),
                }
                let otherwise = match self.parse_conditional(iterator) {
                    Ok(e) => e,
                    Err(e) => return Err(e),
                };
                Ok(
                    Expression::Conditional {
                        pred: Box::new(pred),
                        then: Box::new(then),
                        otherwise: Box::new(otherwise),
                    },
                )
            },
            _ => Ok(pred),
        }
    }

    /// `<id> "=" <exp>`, or a lone name where no `=` follows it.
    fn parse_assignment(&self, iterator: &mut MultiPeek<IntoIter<Token>>) -> (r: Result<Expression, ParseError>)
        ensures
            parsed_as(parsed_assignment(pending_tokens(*old(iterator))), r, pending_tokens(*final(iterator))),
            r is Ok ==> pending_tokens(*final(iterator)).len() < pending_tokens(*old(iterator)).len(),
        decreases pending_tokens(*old(iterator)).len(), 39nat,
    {
        let ident = match self.parse_unary(iterator) {
            Ok(e) => e,
            Err(e) => return Err(e),
        };
        if !matches!(ident, Expression::Ident(_)) {
            return Err(ParseError::AssignToNonIdent(ident));
        }
        match iterator.peek_n(1) {
            Some(Token { kind: TokenKind::Assign, span: _ }) => {
                match self.expect(iterator, TokenKind::Assign) {
                    Ok(()) => {},
                    Err(e) => return Err(e),
                }
                let expr = match self.parse_expression(iterator) {
                    Ok(e) => e,
                    Err(e) => return Err(e),
                };
                Ok(Expression::Assign { ident: Box::new(ident), expr: Box::new(expr) })
            },
            Some(_) => Ok(ident),
            None => Err(ParseError::UnexpectedEof),
        }
    }

    /// `<id> "=" <exp> | <conditional_exp>`
    fn parse_expression(&self, iterator: &mut MultiPeek<IntoIter<Token>>) -> (r: Result<Expression, ParseError>)
        ensures
            parsed_as(parsed_expression(pending_tokens(*old(iterator))), r, pending_tokens(*final(iterator))),
            r is Ok ==> pending_tokens(*final(iterator)).len() < pending_tokens(*old(iterator)).len(),
        decreases pending_tokens(*old(iterator)).len(), 40nat,
    {
        match iterator.peek_n(2) {
            Some(Token { kind: TokenKind::Assign, span: _ }) => self.parse_assignment(iterator),
            _ => self.parse_conditional(iterator),
        }
    }

    /// `"return" <exp> ";" | "if" "(" <exp> ")" <statement> [ "else" <statement> ] | <exp> ";"`
    fn parse_statement(&self, iterator: &mut MultiPeek<IntoIter<Token>>) -> (r: Result<Statement, ParseError>)
        ensures
            parsed_as(parsed_statement(pending_tokens(*old(iterator))), r, pending_tokens(*final(iterator))),
            r is Ok ==> pending_tokens(*final(iterator)).len() < pending_tokens(*old(iterator)).len(),
        decreases pending_tokens(*old(iterator)).len(),
    {
        let Token { kind: token, span: _ } = match get_peek(iterator) {
            Ok(t) => t,
            Err(e) => return Err(e),
        };
        match token {
            TokenKind::Return => {
                next_token(iterator);  // the `return`
                let expr = match self.parse_expression(iterator) {
                    Ok(e) => e,
                    Err(e) => return Err(e),
                };
                match self.expect(iterator, TokenKind::SemiColon) {
                    Ok(()) => {},
                    Err(e) => return Err(e),
                }
                Ok(Statement::Return(expr))
            },
            TokenKind::If => {
                next_token(iterator);  // the `if`
                match self.expect(iterator, TokenKind::ParenOpen) {
                    Ok(()) => {},
                    Err(e) => return Err(e),
                }
                let pred = match self.parse_expression(iterator) {
                    Ok(e) => e,
                    Err(e) => return Err(e),
                };
                match self.expect(iterator, TokenKind::ParenClose) {
                    Ok(()) => {},
                    Err(e) => return Err(e),
                }
                let then = match self.parse_statement(iterator) {
                    Ok(s) => Box::new(s),
                    Err(e) => return Err(e),
                };
                let otherwise = match iterator.peek_n(1) {
                    Some(Token { kind: TokenKind::Else, span: _ }) => {
                        next_token(iterator);  // the `else`
                        match self.parse_statement(iterator) {
                            Ok(s) => Some(Box::new(s)),
                            Err(e) => return Err(e),
                        }
                    },
                    _ => None,
                };
                Ok(Statement::If { pred, then, otherwise })
            },
            _ => {
                let expr = match self.parse_expression(iterator) {
                    Ok(e) => e,
                    Err(e) => return Err(e),
                };
                match self.expect(iterator, TokenKind::SemiColon) {
                    Ok(()) => {},
                    Err(e) => return Err(e),
                }
                Ok(Statement::Expr(expr))
            },
        }
    }

    /// `<declaration> | <statement>`
    fn parse_block_item(&self, iterator: &mut MultiPeek<IntoIter<Token>>) -> (r: Result<BlockItem, ParseError>)
        ensures
            parsed_as(parsed_block_item(pending_tokens(*old(iterator))), r, pending_tokens(*final(iterator))),
            r is Ok ==> pending_tokens(*final(iterator)).len() < pending_tokens(*old(iterator)).len(),
    {
        let Token { kind: token, span: _ } = match get_peek(iterator) {
            Ok(t) => t,
            Err(e) => return Err(e),
        };
        match token {
            TokenKind::Int => {
                next_token(iterator);  // the `int`
                let ident = match self.parse_unary(iterator) {
                    Ok(e) => e,
                    Err(e) => return Err(e),
                };
                if !matches!(ident, Expression::Ident(_)) {
                    return Err(ParseError::DeclaredNonIdent);
                }
                let item = match iterator.peek_n(1) {
                    Some(Token { kind: TokenKind::Assign, span: _ }) => {
                        next_token(iterator);  // the `=`
                        let expr = match self.parse_expression(iterator) {
                            Ok(e) => e,
                            Err(e) => return Err(e),
                        };
                        BlockItem::Declare(Declare(ident, Some(expr)))
                    },
                    Some(Token { kind: TokenKind::SemiColon, span: _ }) => BlockItem::Declare(
                        Declare(ident, None),
                    ),
                    Some(token) => {
                        return Err(
                            ParseError::Unexpected {
                                token,
                                expected: Expected::SemicolonOrAssign,
                            },
                        );
                    },
                    None => return Err(ParseError::UnexpectedEof),
                };
                match self.expect(iterator, TokenKind::SemiColon) {
                    Ok(()) => {},
                    Err(e) => return Err(e),
                }
                Ok(item)
            },
            _ => match self.parse_statement(iterator) {
                Ok(s) => Ok(BlockItem::Statement(s)),
                Err(e) => Err(e),
            },
        }
    }

    /// `"int" <id> "(" ")" "{" { <block_item> }`, up to the closing `}`,
    /// which stays pending.
    fn parse_function(&self, iterator: &mut MultiPeek<IntoIter<Token>>) -> (r: Result<Function, ParseError>)
        ensures
            match parsed_function(pending_tokens(*old(iterator))) {
                Ok(((name, items), rest)) => r is Ok && r->Ok_0.0 == name && r->Ok_0.1.0@ == items
                    && pending_tokens(*final(iterator)) == rest,
                Err(e) => r == Err::<Function, ParseError>(e),
            },
    {
        let ghost ts = pending_tokens(*iterator);
        match get_token(iterator) {
            Ok(Token { kind: TokenKind::Int, span: _ }) => {},
            Ok(e) => return Err(ParseError::Unexpected { token: e, expected: Expected::ReturnType }),
            Err(e) => return Err(e),
        }
        let ident = match get_token(iterator) {
            Ok(Token { kind: TokenKind::Ident(ident), span: _ }) => ident,
            Ok(e) => return Err(ParseError::Unexpected { token: e, expected: Expected::Ident }),
            Err(e) => return Err(e),
        };
        assert(pending_tokens(*iterator) == ts.skip(2));
        match self.expect(iterator, TokenKind::ParenOpen) {
            Ok(()) => {},
            Err(e) => return Err(e),
        }
        match self.expect(iterator, TokenKind::ParenClose) {
            Ok(()) => {},
            Err(e) => return Err(e),
        }
        match self.expect(iterator, TokenKind::CurlyBraceOpen) {
            Ok(()) => {},
            Err(e) => return Err(e),
        }
        let ghost start = pending_tokens(*iterator);
        assert(parsed_function(ts) == match parsed_items(start) {
            Ok((items, r)) => Ok(((ident, items), r)),
            Err(e) => Err(e),
        });
        let mut statements: Vec<BlockItem> = Vec::new();
        proof {
            lemma_after_items_empty(parsed_items(start));
        }
        loop
            invariant_except_break
                ts == pending_tokens(*old(iterator)),
                parsed_function(ts) == match parsed_items(start) {
                    Ok((items, r)) => Ok(((ident, items), r)),
                    Err(e) => Err(e),
                },
                parsed_items(start) == after_items(statements@, parsed_items(pending_tokens(*iterator))),
            ensures
                ts == pending_tokens(*old(iterator)),
                parsed_function(ts) == match parsed_items(start) {
                    Ok((items, r)) => Ok(((ident, items), r)),
                    Err(e) => Err(e),
                },
                parsed_items(start) == Ok::<(Seq<BlockItem>, Seq<Token>), ParseError>(
                    (statements@, pending_tokens(*iterator)),
                ),
            decreases pending_tokens(*iterator).len(),
        {
            let ghost before = pending_tokens(*iterator);
            match iterator.peek_n(1) {
                Some(Token { kind: TokenKind::CurlyBraceClose, span: _ }) => {
                    assert(statements@ + seq![] =~= statements@);
                    break;
                },
                Some(_) => {
                    let item = match self.parse_block_item(iterator) {
                        Ok(item) => item,
                        Err(e) => return Err(e),
                    };
                    proof {
                        lemma_after_items_push(statements@, item, parsed_items(pending_tokens(*iterator)));
                    }
                    statements.push(item);
                },
                None => return Err(ParseError::UnexpectedEof),
            }
        }
        Ok(Function(ident, Block(statements)))
    }

    /// Parses a program: a function, up to the closing `}` of its body,
    /// which stays pending.
    pub fn parse_program(&self, iterator: &mut MultiPeek<IntoIter<Token>>) -> (r: Result<Program, ParseError>)
        ensures
            match parsed_function(pending_tokens(*old(iterator))) {
                Ok(((name, items), rest)) => r is Ok && r->Ok_0.0.0 == name && r->Ok_0.0.1.0@ == items
                    && pending_tokens(*final(iterator)) == rest,
                Err(e) => r == Err::<Program, ParseError>(e),
            },
    {
        match self.parse_function(iterator) {
            Ok(f) => Ok(Program(f)),
            Err(e) => Err(e),
        }
    }

    /// Parses a program from the tokens that a lexer read, looking ahead in
    /// them with a peeking iterator.
    pub fn parse_tokens(&self, tokens: Vec<Token>) -> (r: Result<Program, ParseError>)
        ensures
            match parsed_function(tokens@) {
                Ok(((name, items), _)) => r is Ok && r->Ok_0.0.0 == name && r->Ok_0.0.1.0@ == items,
                Err(e) => r == Err::<Program, ParseError>(e),
            },
    {
        let mut iterator = peek_tokens(tokens);
        self.parse_program(&mut iterator)
    }

}

} // verus!
