//! A compiler for a smaller language: a function whose body is a single
//! `return` statement of an expression with unary, arithmetic, relational
//! and logical operators. Its tokens carry no positions.

pub mod codegen;
pub mod display;
pub mod laws;
pub mod meaning;
pub mod lexer;
pub mod parser;
