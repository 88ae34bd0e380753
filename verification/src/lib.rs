//! A small C compiler: a lexer that turns source bytes into tokens with
//! source spans, a recursive-descent parser that builds an abstract syntax
//! tree, and a code generator that prints x86-64 assembly (AT&T syntax).

pub mod text;

pub mod lexer;
pub mod parser;
pub mod codegen;
pub mod basic;
