//! Lexical front-end of a small language toolchain: a source-location model
//! (spans over an immutable source buffer), a structured error model with
//! contextual cause trails, a tokenizer, the numeric-literal and string-escape
//! sub-parsers, and the single-token consumer primitives on which a grammar
//! layer builds.

pub mod chars;
pub mod source;
pub mod error;
pub mod tokens;
pub mod tokenizer;
pub mod patterns;
