//! A small dynamically typed expression language: tokenizer, operator-precedence
//! parser, syntax tree and tree-walking evaluator with lexical scoping and
//! closures. Every function is verified against a mathematical model of the
//! value it computes.
//!
//! - [`token`]: the tokens and their texts.
//! - [`lexer`]: from the bytes of a source text to tokens.
//! - [`ast`]: the syntax tree and its rendering as text.
//! - [`grammar`]: what the parser makes of a token sequence, on mathematical
//!   values; [`parser`]: the parser itself.
//! - [`notation`]: programs as written, and the proof that parsing them gives
//!   back what they denote; [`spelling`]: the same for the tokenizer, and for
//!   tokenizer and parser together.
//! - [`object`]: runtime values and the environment; [`compare`]: their
//!   equality and order.
//! - [`semantics`]: the meaning of every node, on mathematical values;
//!   [`evaluator`]: the evaluator itself.
//! - [`text`]: helpers for strings and numbers.

pub mod text;
pub mod token;
pub mod lexer;
pub mod ast;
pub mod grammar;
pub mod parser;
pub mod notation;
pub mod spelling;
pub mod object;
pub mod compare;
pub mod semantics;
pub mod evaluator;
