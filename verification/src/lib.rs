//! Lexical front-end for a small scripting language.
//!
//! The library turns raw source text into a stream of classified tokens with
//! byte spans, and offers a decomposition protocol that rewrites the six
//! compound two-character operators (`&&`, `||`, `==`, `!=`, `<=`, `>=`) into
//! the ordered single-character primitive tokens they are made of.

pub mod laws;
pub mod lexer;
pub mod token;
