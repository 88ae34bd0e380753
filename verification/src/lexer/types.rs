//! Tokens, their kinds and source spans, and the lexer's position state.

use vstd::prelude::*;

verus! {

/// A token: what was read, and where in the source it stands.
#[derive(Debug, PartialEq, Eq)]
pub struct Token {
    pub kind: TokenKind,
    pub span: Span,
}

/// The kinds of tokens of the language.
#[derive(Debug, PartialEq, Eq)]
pub enum TokenKind {
    CurlyBraceOpen,
    CurlyBraceClose,
    ParenOpen,
    ParenClose,
    SemiColon,
    Return,
    Int,
    Ident(String),
    Integer(usize),
    Unknown(String),
    Negation,
    BitComplement,
    LogicalNegation,
    Add,
    Mul,
    Div,
    And,
    Or,
    Equal,
    NotEqual,
    LT,
    LTE,
    GT,
    GTE,
    Modulo,
    BitwiseAnd,
    BitwiseOr,
    BitwiseXor,
    BitwiseShiftLeft,
    BitwiseShiftRight,
    Assign,
    If,
    Else,
    Colon,
    QMark,
    EOF,
}

/// Where a token stands: the bytes `start..end` of the source, counted from
/// the start of the source (with a lexer that started at offset 0), and
/// the line `line` that holds them (counted from 0).
#[derive(Debug, PartialEq, Eq, Structural)]
pub struct Span {
    pub start: usize,
    pub end: usize,
    pub line: usize,
}

/// Why lexing stopped.
///
/// Each of these inputs is one on which the compiler cannot go on: the
/// library answers it with this error value rather than ending the
/// process, and the command-line program ends there, with a panic that
/// names the cause (or, for a token other than the one expected, with the
/// syntax error report and exit status 1).
#[derive(Debug, PartialEq, Eq, Structural)]
pub enum LexError {
    /// An integer literal whose value does not fit in `usize`, with its span.
    IntegerTooLarge(Span),
}

/// The lexer's position: the current line and the offset of the next byte.
pub struct Lexer {
    pub line: usize,
    pub offset: usize,
}

/// A token kind as a mathematical value: names and unknown characters as
/// character sequences, integer literals as natural numbers.
pub enum KindModel {
    CurlyBraceOpen,
    CurlyBraceClose,
    ParenOpen,
    ParenClose,
    SemiColon,
    Return,
    Int,
    Ident(Seq<char>),
    Integer(nat),
    Unknown(Seq<char>),
    Negation,
    BitComplement,
    LogicalNegation,
    Add,
    Mul,
    Div,
    And,
    Or,
    Equal,
    NotEqual,
    LT,
    LTE,
    GT,
    GTE,
    Modulo,
    BitwiseAnd,
    BitwiseOr,
    BitwiseXor,
    BitwiseShiftLeft,
    BitwiseShiftRight,
    Assign,
    If,
    Else,
    Colon,
    QMark,
    EOF,
}

/// A token as a mathematical value.
pub struct TokenModel {
    pub kind: KindModel,
    pub start: nat,
    pub end: nat,
    pub line: nat,
}

impl View for TokenKind {
    type V = KindModel;

    open spec fn view(&self) -> KindModel {
        match self {
            TokenKind::CurlyBraceOpen => KindModel::CurlyBraceOpen,
            TokenKind::CurlyBraceClose => KindModel::CurlyBraceClose,
            TokenKind::ParenOpen => KindModel::ParenOpen,
            TokenKind::ParenClose => KindModel::ParenClose,
            TokenKind::SemiColon => KindModel::SemiColon,
            TokenKind::Return => KindModel::Return,
            TokenKind::Int => KindModel::Int,
            TokenKind::Ident(s) => KindModel::Ident(s@),
            TokenKind::Integer(v) => KindModel::Integer(*v as nat),
            TokenKind::Unknown(s) => KindModel::Unknown(s@),
            TokenKind::Negation => KindModel::Negation,
            TokenKind::BitComplement => KindModel::BitComplement,
            TokenKind::LogicalNegation => KindModel::LogicalNegation,
            TokenKind::Add => KindModel::Add,
            TokenKind::Mul => KindModel::Mul,
            TokenKind::Div => KindModel::Div,
            TokenKind::And => KindModel::And,
            TokenKind::Or => KindModel::Or,
            TokenKind::Equal => KindModel::Equal,
            TokenKind::NotEqual => KindModel::NotEqual,
            TokenKind::LT => KindModel::LT,
            TokenKind::LTE => KindModel::LTE,
            TokenKind::GT => KindModel::GT,
            TokenKind::GTE => KindModel::GTE,
            TokenKind::Modulo => KindModel::Modulo,
            TokenKind::BitwiseAnd => KindModel::BitwiseAnd,
            TokenKind::BitwiseOr => KindModel::BitwiseOr,
            TokenKind::BitwiseXor => KindModel::BitwiseXor,
            TokenKind::BitwiseShiftLeft => KindModel::BitwiseShiftLeft,
            TokenKind::BitwiseShiftRight => KindModel::BitwiseShiftRight,
            TokenKind::Assign => KindModel::Assign,
            TokenKind::If => KindModel::If,
            TokenKind::Else => KindModel::Else,
            TokenKind::Colon => KindModel::Colon,
            TokenKind::QMark => KindModel::QMark,
            TokenKind::EOF => KindModel::EOF,
        }
    }
}

impl View for Token {
    type V = TokenModel;

    open spec fn view(&self) -> TokenModel {
        TokenModel {
            kind: self.kind@,
            start: self.span.start as nat,
            end: self.span.end as nat,
            line: self.span.line as nat,
        }
    }
}

impl Clone for TokenKind {
    fn clone(&self) -> (r: Self)
        ensures
            r == *self,
    {
        match self {
            TokenKind::CurlyBraceOpen => TokenKind::CurlyBraceOpen,
            TokenKind::CurlyBraceClose => TokenKind::CurlyBraceClose,
            TokenKind::ParenOpen => TokenKind::ParenOpen,
            TokenKind::ParenClose => TokenKind::ParenClose,
            TokenKind::SemiColon => TokenKind::SemiColon,
            TokenKind::Return => TokenKind::Return,
            TokenKind::Int => TokenKind::Int,
            TokenKind::Ident(s) => TokenKind::Ident(s.clone()),
            TokenKind::Integer(v) => TokenKind::Integer(*v),
            TokenKind::Unknown(s) => TokenKind::Unknown(s.clone()),
            TokenKind::Negation => TokenKind::Negation,
            TokenKind::BitComplement => TokenKind::BitComplement,
            TokenKind::LogicalNegation => TokenKind::LogicalNegation,
            TokenKind::Add => TokenKind::Add,
            TokenKind::Mul => TokenKind::Mul,
            TokenKind::Div => TokenKind::Div,
            TokenKind::And => TokenKind::And,
            TokenKind::Or => TokenKind::Or,
            TokenKind::Equal => TokenKind::Equal,
            TokenKind::NotEqual => TokenKind::NotEqual,
            TokenKind::LT => TokenKind::LT,
            TokenKind::LTE => TokenKind::LTE,
            TokenKind::GT => TokenKind::GT,
            TokenKind::GTE => TokenKind::GTE,
            TokenKind::Modulo => TokenKind::Modulo,
            TokenKind::BitwiseAnd => TokenKind::BitwiseAnd,
            TokenKind::BitwiseOr => TokenKind::BitwiseOr,
            TokenKind::BitwiseXor => TokenKind::BitwiseXor,
            TokenKind::BitwiseShiftLeft => TokenKind::BitwiseShiftLeft,
            TokenKind::BitwiseShiftRight => TokenKind::BitwiseShiftRight,
            TokenKind::Assign => TokenKind::Assign,
            TokenKind::If => TokenKind::If,
            TokenKind::Else => TokenKind::Else,
            TokenKind::Colon => TokenKind::Colon,
            TokenKind::QMark => TokenKind::QMark,
            TokenKind::EOF => TokenKind::EOF,
        }
    }
}

impl Clone for Span {
    fn clone(&self) -> (r: Self)
        ensures
            r == *self,
    {
        Span { start: self.start, end: self.end, line: self.line }
    }
}

impl Clone for Token {
    fn clone(&self) -> (r: Self)
        ensures
            r == *self,
    {
        Token { kind: self.kind.clone(), span: self.span.clone() }
    }
}

} // verus!
