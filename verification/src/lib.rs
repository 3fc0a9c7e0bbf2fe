//! Front end of a small imperative language: a lexer that turns source text
//! into classified tokens with byte-offset spans, and a recursive-descent
//! parser that turns the token stream into a syntax tree in which every node
//! carries its span.
//!
//! Every executable function is verified against a mathematical description:
//! [`scan`] describes the tokens of a text, and [`grammar`] describes the
//! tree that a sequence of tokens denotes. [`coverage`] proves what the
//! tokens cover of the text, and [`extent`] what the spans of a tree cover of
//! the tokens.

pub mod span;
pub mod token;
pub mod classes;
pub mod scan;
pub mod lexer;
pub mod ast;
pub mod grammar;
pub mod extent;
pub mod coverage;
pub mod parser;
