//! The lexical analyzer of a small scripting language: raw source text in,
//! an ordered sequence of typed tokens out. The scanner consumes its input
//! by trying, in a fixed priority order, blank skipping, the newline, five
//! literal tables (built-in core identifiers, operators, brackets,
//! keywords, each with a word-boundary guard where its entries collide with
//! identifier characters) and a fallback scanner for numeric literals,
//! quoted strings and identifiers. Scanning either consumes everything or
//! fails fatally with a typed error and no partial result; the executable
//! scanner is verified against the sequence-level model in `model`, and the
//! general properties of the tokenizer are proved in `laws`.

/// The character classes of the surface syntax.
pub mod chars;
/// The token alphabet and the fatal errors.
pub mod token;
/// The five literal tables, as data with proved contents.
pub mod tables;
/// The mathematical model of the scanner.
pub mod model;
/// The executable scanner.
pub mod lexer;
/// Proved general properties of the tokenizer.
pub mod laws;
