//! Lexical front end for the CV programming language.
//!
//! The library turns source text into a flat, ordered sequence of typed
//! tokens, reporting malformed input with the exact character offset at
//! which it occurs. The token model and the abstract syntax tree that a
//! parser would build from the token stream are plain data; the tokenizer
//! is the scanning engine, and its behaviour is stated against a
//! character-level model of the source buffer.

pub mod ast;
pub mod lexer;
pub mod tokens;
