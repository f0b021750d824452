//! A lexical scanner for the Monkey scripting language.
//!
//! The scanner walks an ASCII source text and produces a stream of typed
//! tokens: punctuation, one- and two-character operators, identifiers,
//! integer literals, keywords, an in-band `ILLEGAL` marker for unrecognized
//! characters, and a terminal `EOF` token once the input is exhausted.

pub mod lexer;
pub mod token;
