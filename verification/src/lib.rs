//! A lossless lexical scanner for a nested, tag-delimited configuration
//! format: directive lines (`@type forward`), key-value lines (`port 24224`),
//! comments and free-form identifiers between fixed punctuation marks.
//!
//! The scanner walks the input one character at a time and emits a flat,
//! ordered token sequence. Keywords are recognised by spelling alone, without
//! positional context, and every space and newline gets its own token, so
//! concatenating the spellings of the emitted tokens reproduces the input
//! byte for byte.

pub mod extended;
pub mod scanner;
pub mod text;
pub mod token;

pub use scanner::Lexer;
pub use token::Literal;
pub use token::Token;
pub use token::TokenTypeStateMarker;
