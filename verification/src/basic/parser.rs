//! The parser of the smaller language, by recursive descent.
//!
//! ```text
//! <program>        ::= <function>
//! <function>       ::= "int" <id> "(" ")" "{" <statement> "}"
//! <statement>      ::= "return" <exp> ";"
//! <exp>            ::= <logical_and_exp> { "||" <logical_and_exp> }
//! <logical_and_exp> ::= <equality_exp> { "&&" <equality_exp> }
//! <equality_exp>   ::= <relational_exp> { ("!=" | "==") <relational_exp> }
//! <relational_exp> ::= <term> { ("<" | ">" | "<=" | ">=") <term> }
//! <term>           ::= <factor> { ("+" | "-") <factor> }
//! <factor>         ::= <unary> { ("*" | "/") <unary> }
//! <unary>          ::= "(" <exp> ")" | <unary_op> <unary> | <int>
//! <unary_op>       ::= "!" | "~" | "-"
//! ```

use vstd::prelude::*;

use crate::basic::lexer::Token;
use crate::parser::kind_tag;

verus! {

#[derive(Debug)]
pub enum Statement {
    Return(Expression),
}

#[derive(Debug)]
pub struct Statements(pub Vec<Statement>);

#[derive(Debug)]
pub struct Function(pub String, pub Statements);

#[derive(Debug)]
pub struct Program(pub Function);

#[derive(Debug, PartialEq, Eq)]
#[allow(inconsistent_fields)]
pub enum Expression {
    Const(usize),
    Unary { op: UnaryOp, expr: Box<Expression> },
    Binary { op: BinaryOp, l_expr: Box<Expression>, r_expr: Box<Expression> },
}

#[derive(Debug, PartialEq, Eq, Structural)]
pub enum UnaryOp {
    Negation,
    LogicalNegation,
    BitwiseComplement,
}

#[derive(Debug, PartialEq, Eq, Structural)]
pub enum BinaryOp {
    Add,
    Mul,
    Div,
    Sub,
    And,
    Or,
    Equal,
    NotEqual,
    LT,
    LTE,
    GT,
    GTE,
}

/// Why parsing stopped.
///
/// Each of these inputs is one on which the compiler cannot go on: the
/// library answers it with this error value rather than ending the
/// process, and the command-line program ends there, with a panic that
/// names the cause (or, for a token other than the one expected, with the
/// syntax error report and exit status 1).
#[derive(Debug)]
pub enum ParseError {
    /// The function does not start with `int`.
    MissingReturnType,
    /// The function's name is not an identifier.
    ExpectedIdent(Token),
    /// A token other than the one expected.
    Expected { expected: Token, got: Token },
    /// The tokens ran out.
    UnexpectedEof,
    /// The tokens ran out where the given token was expected.
    UnexpectedEofExpected(Token),
    /// A statement that does not start with `return`.
    UnexpectedToken(Token),
    /// A token that cannot start an expression.
    ExpectedExpression(Token),
}

/// The tokens that a parser reads, with the position of the next one.
pub struct TokenStream {
    tokens: Vec<Token>,
    pos: usize,
}

impl TokenStream {
    #[verifier::type_invariant]
    spec fn inv(&self) -> bool {
        self.pos <= self.tokens.len()
    }

    /// The tokens not yet taken.
    pub closed spec fn pending(&self) -> Seq<Token> {
        self.tokens@.skip(self.pos as int)
    }

    pub fn new(tokens: Vec<Token>) -> (r: TokenStream)
        ensures
            r.pending() == tokens@,
    {
        let r = TokenStream { tokens, pos: 0 };
        assert(r.tokens@.skip(0) =~= r.tokens@);
        r
    }

    /// Takes the next token, if any.
    pub fn next(&mut self) -> (r: Option<Token>)
        ensures
            old(self).pending().len() == 0 ==> r is None && final(self).pending() == old(self).pending(),
            old(self).pending().len() > 0 ==> r == Some(old(self).pending()[0])
                && final(self).pending() == old(self).pending().drop_first(),
    {
        proof {
            use_type_invariant(&*self);
        }
        if self.pos < self.tokens.len() {
            let token = self.tokens[self.pos].clone();
            self.pos = self.pos + 1;
            assert(self.tokens@.skip(self.pos as int) =~= old(self).pending().drop_first());
            Some(token)
        } else {
            None
        }
    }

    /// The next token, if any, without taking it.
    pub fn peek(&self) -> (r: Option<&Token>)
        ensures
            self.pending().len() == 0 ==> r is None,
            self.pending().len() > 0 ==> r == Some(&self.pending()[0]),
    {
        proof {
            use_type_invariant(self);
        }
        if self.pos < self.tokens.len() {
            Some(&self.tokens[self.pos])
        } else {
            None
        }
    }
}

fn tag(t: &Token) -> (r: u8)
    ensures
        r == kind_tag(t@),
{
    match t {
        Token::CurlyBraceOpen => 0,
        Token::CurlyBraceClose => 1,
        Token::ParenOpen => 2,
        Token::ParenClose => 3,
        Token::SemiColon => 4,
        Token::Return => 5,
        Token::Int => 6,
        Token::Ident(_) => 7,
        Token::Integer(_) => 8,
        Token::Unknown(_) => 9,
        Token::Negation => 10,
        Token::BitComplement => 11,
        Token::LogicalNegation => 12,
        Token::Add => 13,
        Token::Mul => 14,
        Token::Div => 15,
        Token::And => 16,
        Token::Or => 17,
        Token::Equal => 18,
        Token::NotEqual => 19,
        Token::LT => 20,
        Token::LTE => 21,
        Token::GT => 22,
        Token::GTE => 23,
    }
}

/// Whether two tokens are the same, names and literals included.
fn same_token(a: &Token, b: &Token) -> (r: bool)
    ensures
        r == (a@ == b@),
{
    match (a, b) {
        (Token::Ident(x), Token::Ident(y)) => *x == *y,
        (Token::Integer(x), Token::Integer(y)) => *x == *y,
        (Token::Unknown(x), Token::Unknown(y)) => *x == *y,
        _ => tag(a) == tag(b),
    }
}

/// What parsing a piece of the tokens gives: the value and the tokens
/// after it, or the reason parsing stopped.
pub type Parsed<T> = Result<(T, Seq<Token>), ParseError>;

/// The levels of binary operators, loosest first.
#[derive(Clone, Copy, Debug, PartialEq, Eq, Structural)]
pub enum Level {
    LogicalOr,
    LogicalAnd,
    Equality,
    Relational,
    Term,
    Factor,
}

pub open spec fn tighter(level: Level) -> Option<Level> {
    match level {
        Level::LogicalOr => Some(Level::LogicalAnd),
        Level::LogicalAnd => Some(Level::Equality),
        Level::Equality => Some(Level::Relational),
        Level::Relational => Some(Level::Term),
        Level::Term => Some(Level::Factor),
        Level::Factor => None,
    }
}

pub open spec fn depth(level: Level) -> nat {
    match level {
        Level::LogicalOr => 5,
        Level::LogicalAnd => 4,
        Level::Equality => 3,
        Level::Relational => 2,
        Level::Term => 1,
        Level::Factor => 0,
    }
}

/// The binary operator of a level that a token stands for, if any.
pub open spec fn level_op(level: Level, t: Token) -> Option<BinaryOp> {
    match (level, t) {
        (Level::LogicalOr, Token::Or) => Some(BinaryOp::Or),
        (Level::LogicalAnd, Token::And) => Some(BinaryOp::And),
        (Level::Equality, Token::Equal) => Some(BinaryOp::Equal),
        (Level::Equality, Token::NotEqual) => Some(BinaryOp::NotEqual),
        (Level::Relational, Token::LT) => Some(BinaryOp::LT),
        (Level::Relational, Token::LTE) => Some(BinaryOp::LTE),
        (Level::Relational, Token::GT) => Some(BinaryOp::GT),
        (Level::Relational, Token::GTE) => Some(BinaryOp::GTE),
        (Level::Term, Token::Add) => Some(BinaryOp::Add),
        (Level::Term, Token::Negation) => Some(BinaryOp::Sub),
        (Level::Factor, Token::Mul) => Some(BinaryOp::Mul),
        (Level::Factor, Token::Div) => Some(BinaryOp::Div),
        _ => None,
    }
}

/// Taking the given token.
pub open spec fn expected_token(ts: Seq<Token>, t: Token) -> Result<Seq<Token>, ParseError> {
    if ts.len() == 0 {
        Err(ParseError::UnexpectedEofExpected(t))
    } else if ts[0]@ == t@ {
        Ok(ts.drop_first())
    } else {
        Err(ParseError::Expected { expected: t, got: ts[0] })
    }
}

/// An operand of a level, then its operators with their operands, taken
/// from left to right.
pub open spec fn parsed_level(level: Level, ts: Seq<Token>) -> Parsed<Expression>
    decreases ts.len(), 2 * depth(level) + 3,
{
    match (match tighter(level) {
        Some(t) => parsed_level(t, ts),
        None => parsed_unary(ts),
    }) {
        Err(e) => Err(e),
        Ok((lhs, r1)) => if r1.len() <= ts.len() {
            parsed_chain(level, lhs, r1)
        } else {
            Err(ParseError::UnexpectedEof)
        },
    }
}

/// The operators of a level and their operands after `lhs`.
pub open spec fn parsed_chain(level: Level, lhs: Expression, ts: Seq<Token>) -> Parsed<Expression>
    decreases ts.len(), 2 * depth(level) + 2,
{
    if ts.len() > 0 && level_op(level, ts[0]) is Some {
        let op = level_op(level, ts[0])->Some_0;
        match (match tighter(level) {
            Some(t) => parsed_level(t, ts.drop_first()),
            None => parsed_unary(ts.drop_first()),
        }) {
            Err(e) => Err(e),
            Ok((rhs, r1)) => if r1.len() < ts.len() {
                parsed_chain(
                    level,
                    Expression::Binary { op, l_expr: Box::new(lhs), r_expr: Box::new(rhs) },
                    r1,
                )
            } else {
                Err(ParseError::UnexpectedEof)
            },
        }
    } else {
        Ok((lhs, ts))
    }
}

/// `"(" <exp> ")" | <unary_op> <unary> | <int>`
pub open spec fn parsed_unary(ts: Seq<Token>) -> Parsed<Expression>
    decreases ts.len(), 1nat,
{
    if ts.len() == 0 {
        Err(ParseError::UnexpectedEof)
    } else {
        let rest = ts.drop_first();
        match ts[0] {
            Token::Integer(i) => Ok((Expression::Const(i), rest)),
            Token::Negation => match parsed_unary(rest) {
                Err(e) => Err(e),
                Ok((e, r)) => Ok((Expression::Unary { op: UnaryOp::Negation, expr: Box::new(e) }, r)),
            },
            Token::BitComplement => match parsed_unary(rest) {
                Err(e) => Err(e),
                Ok((e, r)) => Ok(
                    (Expression::Unary { op: UnaryOp::BitwiseComplement, expr: Box::new(e) }, r),
                ),
            },
            Token::LogicalNegation => match parsed_unary(rest) {
                Err(e) => Err(e),
                Ok((e, r)) => Ok(
                    (Expression::Unary { op: UnaryOp::LogicalNegation, expr: Box::new(e) }, r),
                ),
            },
            Token::ParenOpen => match parsed_level(Level::LogicalOr, rest) {
                Err(e) => Err(e),
                Ok((e, r1)) => match expected_token(r1, Token::ParenClose) {
                    Err(err) => Err(err),
                    Ok(r2) => Ok((e, r2)),
                },
            },
            _ => Err(ParseError::ExpectedExpression(ts[0])),
        }
    }
}

/// `"return" <exp> ";"`
pub open spec fn parsed_statement(ts: Seq<Token>) -> Parsed<Statement> {
    if ts.len() == 0 {
        Err(ParseError::UnexpectedEof)
    } else if ts[0] is Return {
        match parsed_level(Level::LogicalOr, ts.drop_first()) {
            Err(e) => Err(e),
            Ok((value, r1)) => match expected_token(r1, Token::SemiColon) {
                Err(e) => Err(e),
                Ok(r2) => Ok((Statement::Return(value), r2)),
            },
        }
    } else {
        Err(ParseError::UnexpectedToken(ts[0]))
    }
}

/// `"int" <id> "(" ")" "{" <statement> "}"`: the function's name and its
/// one statement.
pub open spec fn parsed_function(ts: Seq<Token>) -> Parsed<(String, Statement)> {
    if ts.len() == 0 {
        Err(ParseError::UnexpectedEof)
    } else if !(ts[0] is Int) {
        Err(ParseError::MissingReturnType)
    } else if ts.len() == 1 {
        Err(ParseError::UnexpectedEof)
    } else {
        match ts[1] {
            Token::Ident(name) => match expected_token(ts.skip(2), Token::ParenOpen) {
                Err(e) => Err(e),
                Ok(r1) => match expected_token(r1, Token::ParenClose) {
                    Err(e) => Err(e),
                    Ok(r2) => match expected_token(r2, Token::CurlyBraceOpen) {
                        Err(e) => Err(e),
                        Ok(r3) => match parsed_statement(r3) {
                            Err(e) => Err(e),
                            Ok((statement, r4)) => match expected_token(r4, Token::CurlyBraceClose) {
                                Err(e) => Err(e),
                                Ok(r5) => Ok(((name, statement), r5)),
                            },
                        },
                    },
                },
            },
            _ => Err(ParseError::ExpectedIdent(ts[1])),
        }
    }
}

pub open spec fn parsed_as<T>(out: Parsed<T>, r: Result<T, ParseError>, rest: Seq<Token>) -> bool {
    match out {
        Ok((v, after)) => r == Ok::<T, ParseError>(v) && rest == after,
        Err(e) => r == Err::<T, ParseError>(e),
    }
}

fn tighter_level(level: Level) -> (r: Option<Level>)
    ensures
        r == tighter(level),
        r matches Some(t) ==> depth(t) + 1 == depth(level),
{
    match level {
        Level::LogicalOr => Some(Level::LogicalAnd),
        Level::LogicalAnd => Some(Level::Equality),
        Level::Equality => Some(Level::Relational),
        Level::Relational => Some(Level::Term),
        Level::Term => Some(Level::Factor),
        Level::Factor => None,
    }
}

fn level_operator(level: Level, t: &Token) -> (r: Option<BinaryOp>)
    ensures
        r == level_op(level, *t),
{
    match (level, t) {
        (Level::LogicalOr, Token::Or) => Some(BinaryOp::Or),
        (Level::LogicalAnd, Token::And) => Some(BinaryOp::And),
        (Level::Equality, Token::Equal) => Some(BinaryOp::Equal),
        (Level::Equality, Token::NotEqual) => Some(BinaryOp::NotEqual),
        (Level::Relational, Token::LT) => Some(BinaryOp::LT),
        (Level::Relational, Token::LTE) => Some(BinaryOp::LTE),
        (Level::Relational, Token::GT) => Some(BinaryOp::GT),
        (Level::Relational, Token::GTE) => Some(BinaryOp::GTE),
        (Level::Term, Token::Add) => Some(BinaryOp::Add),
        (Level::Term, Token::Negation) => Some(BinaryOp::Sub),
        (Level::Factor, Token::Mul) => Some(BinaryOp::Mul),
        (Level::Factor, Token::Div) => Some(BinaryOp::Div),
        _ => None,
    }
}

/// Takes the next token.
fn get_token(iterator: &mut TokenStream) -> (r: Result<Token, ParseError>)
    ensures
        old(iterator).pending().len() == 0 ==> r == Err::<Token, ParseError>(ParseError::UnexpectedEof),
        old(iterator).pending().len() > 0 ==> r == Ok::<Token, ParseError>(old(iterator).pending()[0])
            && final(iterator).pending() == old(iterator).pending().drop_first(),
{
    match iterator.next() {
        Some(token) => Ok(token),
        None => Err(ParseError::UnexpectedEof),
    }
}

/// Takes the given token.
fn expect(iterator: &mut TokenStream, expected: Token) -> (r: Result<(), ParseError>)
    ensures
        match expected_token(old(iterator).pending(), expected) {
            Ok(rest) => r is Ok && final(iterator).pending() == rest,
            Err(e) => r == Err::<(), ParseError>(e),
        },
{
    match iterator.next() {
        Some(token) => if same_token(&token, &expected) {
            Ok(())
        } else {
            Err(ParseError::Expected { expected, got: token })
        },
        None => Err(ParseError::UnexpectedEofExpected(expected)),
    }
}

/// `"(" <exp> ")" | <unary_op> <unary> | <int>`
fn parse_unary(iterator: &mut TokenStream) -> (r: Result<Expression, ParseError>)
    ensures
        parsed_as(parsed_unary(old(iterator).pending()), r, final(iterator).pending()),
        r is Ok ==> final(iterator).pending().len() < old(iterator).pending().len(),
    decreases old(iterator).pending().len(), 1nat,
{
    match iterator.next() {
        Some(token) => match token {
            Token::Integer(i) => Ok(Expression::Const(i)),
            Token::Negation => match parse_unary(iterator) {
                Ok(e) => Ok(Expression::Unary { op: UnaryOp::Negation, expr: Box::new(e) }),
                Err(e) => Err(e),
            },
            Token::BitComplement => match parse_unary(iterator) {
                Ok(e) => Ok(Expression::Unary { op: UnaryOp::BitwiseComplement, expr: Box::new(e) }),
                Err(e) => Err(e),
            },
            Token::LogicalNegation => match parse_unary(iterator) {
                Ok(e) => Ok(Expression::Unary { op: UnaryOp::LogicalNegation, expr: Box::new(e) }),
                Err(e) => Err(e),
            },
            Token::ParenOpen => {
                let expr = match parse_level(Level::LogicalOr, iterator) {
                    Ok(e) => e,
                    Err(e) => return Err(e),
                };
                match expect(iterator, Token::ParenClose) {
                    Ok(()) => Ok(expr),
                    Err(e) => Err(e),
                }
            },
            t => Err(ParseError::ExpectedExpression(t)),
        },
        None => Err(ParseError::UnexpectedEof),
    }
}

/// An operand of `level`, then the level's operators and their operands,
/// left to right.
fn parse_level(level: Level, iterator: &mut TokenStream) -> (r: Result<Expression, ParseError>)
    ensures
        parsed_as(parsed_level(level, old(iterator).pending()), r, final(iterator).pending()),
        r is Ok ==> final(iterator).pending().len() < old(iterator).pending().len(),
    decreases old(iterator).pending().len(), 2 * depth(level) + 3,
{
    let ghost start = iterator.pending();
    let mut expr = match tighter_level(level) {
        Some(t) => match parse_level(t, iterator) {
            Ok(e) => e,
            Err(e) => return Err(e),
        },
        None => match parse_unary(iterator) {
            Ok(e) => e,
            Err(e) => return Err(e),
        },
    };
    loop
        invariant_except_break
            start == old(iterator).pending(),
            parsed_level(level, start) == parsed_chain(level, expr, iterator.pending()),
            iterator.pending().len() < start.len(),
        ensures
            parsed_level(level, start) == Ok::<(Expression, Seq<Token>), ParseError>((expr, iterator.pending())),
            iterator.pending().len() < start.len(),
        decreases iterator.pending().len(),
    {
        let op = match iterator.peek() {
            Some(next) => match level_operator(level, next) {
                Some(op) => op,
                None => break,
            },
            None => break,
        };
        iterator.next();  // the operator
        let rhs = match tighter_level(level) {
            Some(t) => match parse_level(t, iterator) {
                Ok(e) => e,
                Err(e) => return Err(e),
            },
            None => match parse_unary(iterator) {
                Ok(e) => e,
                Err(e) => return Err(e),
            },
        };
        expr = Expression::Binary { op, l_expr: Box::new(expr), r_expr: Box::new(rhs) };
    }
    Ok(expr)
}

/// `"return" <exp> ";"`
fn parse_statement(iterator: &mut TokenStream) -> (r: Result<Statement, ParseError>)
    ensures
        parsed_as(parsed_statement(old(iterator).pending()), r, final(iterator).pending()),
{
    match get_token(iterator) {
        Ok(Token::Return) => {
            let expr = match parse_level(Level::LogicalOr, iterator) {
                Ok(e) => e,
                Err(e) => return Err(e),
            };
            match expect(iterator, Token::SemiColon) {
                Ok(()) => Ok(Statement::Return(expr)),
                Err(e) => Err(e),
            }
        },
        Ok(e) => Err(ParseError::UnexpectedToken(e)),
        Err(e) => Err(e),
    }
}

fn parse_function(iterator: &mut TokenStream) -> (r: Result<Function, ParseError>)
    ensures
        match parsed_function(old(iterator).pending()) {
            Ok(((name, statement), rest)) => r is Ok && r->Ok_0.0 == name && r->Ok_0.1.0@ == seq![statement]
                && final(iterator).pending() == rest,
            Err(e) => r == Err::<Function, ParseError>(e),
        },
{
    let ghost ts = iterator.pending();
    match get_token(iterator) {
        Ok(Token::Int) => {},
        Ok(_) => return Err(ParseError::MissingReturnType),
        Err(e) => return Err(e),
    }
    let ident = match get_token(iterator) {
        Ok(Token::Ident(ident)) => ident,
        Ok(e) => return Err(ParseError::ExpectedIdent(e)),
        Err(e) => return Err(e),
    };
    assert(iterator.pending() == ts.skip(2));
    match expect(iterator, Token::ParenOpen) {
        Ok(()) => {},
        Err(e) => return Err(e),
    }
    match expect(iterator, Token::ParenClose) {
        Ok(()) => {},
        Err(e) => return Err(e),
    }
    match expect(iterator, Token::CurlyBraceOpen) {
        Ok(()) => {},
        Err(e) => return Err(e),
    }
    let mut statements = Vec::new();
    match parse_statement(iterator) {
        Ok(s) => statements.push(s),
        Err(e) => return Err(e),
    }
    match expect(iterator, Token::CurlyBraceClose) {
        Ok(()) => {},
        Err(e) => return Err(e),
    }
    assert(statements@ =~= seq![statements@[0]]);
    Ok(Function(ident, Statements(statements)))
}

/// Parses a program: a function whose body is one statement.
pub fn parse_program(iterator: &mut TokenStream) -> (r: Result<Program, ParseError>)
    ensures
        match parsed_function(old(iterator).pending()) {
            Ok(((name, statement), rest)) => r is Ok && r->Ok_0.0.0 == name && r->Ok_0.0.1.0@
                == seq![statement] && final(iterator).pending() == rest,
            Err(e) => r == Err::<Program, ParseError>(e),
        },
{
    match parse_function(iterator) {
        Ok(f) => Ok(Program(f)),
        Err(e) => Err(e),
    }
}

} // verus!
