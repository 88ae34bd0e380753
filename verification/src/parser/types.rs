//! The abstract syntax tree.

use vstd::prelude::*;

use crate::lexer::types::Token;
use itertools::MultiPeek;
use std::vec::IntoIter;

verus! {

/// A program: one function.
#[derive(Debug)]
pub struct Program(pub Function);

/// A function: its name and its body.
#[derive(Debug)]
pub struct Function(pub String, pub Block);

/// A block: a sequence of statements and declarations.
#[derive(Debug)]
pub struct Block(pub Vec<BlockItem>);

#[derive(Debug)]
pub enum BlockItem {
    Statement(Statement),
    Declare(Declare),
}

/// A declaration: the declared name (an `Ident` expression) and its
/// initial value, if any.
#[derive(Debug)]
pub struct Declare(pub Expression, pub Option<Expression>);

#[derive(Debug)]
#[allow(inconsistent_fields)]
pub enum Statement {
    Return(Expression),
    If { pred: Expression, then: Box<Statement>, otherwise: Option<Box<Statement>> },
    Expr(Expression),
    Block(Block),
    For {
        init: Option<Expression>,
        condition: Expression,
        post: Option<Expression>,
        body: Box<Statement>,
    },
    ForDecl {
        init: Option<Declare>,
        condition: Expression,
        post: Option<Expression>,
        body: Box<Statement>,
    },
    While { condition: Expression, body: Box<Statement> },
    Do { body: Box<Statement>, condition: Expression },
    Break,
    Continue,
    Null,
}

#[derive(Debug, PartialEq, Eq, Hash)]
#[allow(inconsistent_fields)]
pub enum Expression {
    Ident(String),
    Const(usize),
    Unary { op: UnaryOp, expr: Box<Expression> },
    Binary { op: BinaryOp, l_expr: Box<Expression>, r_expr: Box<Expression> },
    Assign { ident: Box<Expression>, expr: Box<Expression> },
    Conditional { pred: Box<Expression>, then: Box<Expression>, otherwise: Box<Expression> },
    Null,
}

#[derive(Debug, PartialEq, Eq, Hash, Structural)]
pub enum UnaryOp {
    Negation,
    LogicalNegation,
    BitwiseComplement,
}

#[derive(Debug, PartialEq, Eq, Hash, Structural)]
pub enum BinaryOp {
    Add,
    Mul,
    Div,
    Sub,
    And,
    Or,
    Equal,
    NotEqual,
    LT,
    LTE,
    GT,
    GTE,
    Modulo,
    BitwiseShiftLeft,
    BitwiseShiftRight,
    BitwiseAnd,
    BitwiseOr,
    BitwiseXor,
}

#[verifier::external_type_specification]
#[verifier::external_body]
#[verifier::reject_recursive_types(I)]
pub struct ExMultiPeek<I: Iterator>(MultiPeek<I>);

/// The tokens that a peeking iterator over tokens still holds, in order:
/// those it has already looked at and those its inner iterator has yet to
/// give.
pub uninterp spec fn pending_tokens(p: MultiPeek<IntoIter<Token>>) -> Seq<Token>;

/// How many of the pending tokens the peek cursor has gone past.
pub uninterp spec fn peek_cursor(p: MultiPeek<IntoIter<Token>>) -> nat;

/// `itertools::multipeek` on the iterator of a vector of tokens: the
/// peeking iterator holds the vector's tokens, cursor at the start.
#[verifier::external_body]
pub(crate) fn peek_tokens(tokens: Vec<Token>) -> (r: MultiPeek<IntoIter<Token>>)
    ensures
        pending_tokens(r) == tokens@,
        peek_cursor(r) == 0,
{
    itertools::multipeek(tokens)
}

/// `MultiPeek::next`: takes the first pending token, if any, and puts the
/// peek cursor back at the start.
#[verifier::external_body]
pub(crate) fn next_token(p: &mut MultiPeek<IntoIter<Token>>) -> (r: Option<Token>)
    ensures
        pending_tokens(*old(p)).len() == 0 ==> r is None && pending_tokens(*final(p))
            == pending_tokens(*old(p)),
        pending_tokens(*old(p)).len() > 0 ==> r == Some(pending_tokens(*old(p))[0])
            && pending_tokens(*final(p)) == pending_tokens(*old(p)).drop_first(),
        peek_cursor(*final(p)) == 0,
{
    p.next()
}

/// `MultiPeek::peek`, with the token it looks at cloned: gives the token
/// under the peek cursor and moves the cursor on by one; where the cursor
/// stands past the last token, gives nothing and leaves the cursor.
#[verifier::external_body]
pub(crate) fn peek_token(p: &mut MultiPeek<IntoIter<Token>>) -> (r: Option<Token>)
    ensures
        pending_tokens(*final(p)) == pending_tokens(*old(p)),
        peek_cursor(*old(p)) < pending_tokens(*old(p)).len() ==> r == Some(
            pending_tokens(*old(p))[peek_cursor(*old(p)) as int],
        ) && peek_cursor(*final(p)) == peek_cursor(*old(p)) + 1,
        peek_cursor(*old(p)) >= pending_tokens(*old(p)).len() ==> r is None && peek_cursor(*final(p))
            == peek_cursor(*old(p)),
{
    p.peek().cloned()
}

/// `MultiPeek::reset_peek`: puts the peek cursor back at the start.
#[verifier::external_body]
pub(crate) fn reset_peek(p: &mut MultiPeek<IntoIter<Token>>)
    ensures
        pending_tokens(*final(p)) == pending_tokens(*old(p)),
        peek_cursor(*final(p)) == 0,
{
    p.reset_peek()
}

/// Looking ahead at the pending items of an iterator without taking them.
pub trait MultipeekExt: Iterator {
    /// The `n`th pending item (counted from 1), if there is one.
    fn peek_n(&mut self, n: usize) -> Option<Self::Item>
        requires
            n >= 1,
    ;
}

impl MultipeekExt for MultiPeek<IntoIter<Token>> {
    fn peek_n(&mut self, n: usize) -> (r: Option<Token>)
        ensures
            pending_tokens(*final(self)) == pending_tokens(*old(self)),
            r == if n - 1 < pending_tokens(*old(self)).len() {
                Some(pending_tokens(*old(self))[n - 1])
            } else {
                None::<Token>
            },
            peek_cursor(*final(self)) == if n - 1 <= pending_tokens(*old(self)).len() {
                0
            } else {
                pending_tokens(*old(self)).len()
            },
    {
        reset_peek(self);
        let mut i: usize = 0;
        while i < n - 1
            invariant
                i <= n - 1,
                i <= pending_tokens(*self).len(),
                pending_tokens(*self) == pending_tokens(*old(self)),
                peek_cursor(*self) == i,
            decreases n - 1 - i,
        {
            match peek_token(self) {
                Some(_) => {},
                None => return None,
            }
            i += 1;
        }
        let item = peek_token(self);
        reset_peek(self);
        item
    }
}

} // verus!
