//! Lexical analysis for a small imperative toy language.
//!
//! The language has the keywords `if/then/else/endif/print/while/do/enddo`,
//! the type keyword `int`, parentheses and braces, relational, multiplicative
//! and additive operators, and single-character identifiers and digits.
//! [`lex`] turns a block of source text into a flat sequence of [`Token`]s by
//! applying an ordered rule table at each position of each line.

pub mod laws;
pub mod rules;
pub mod scanner;
pub mod token;

pub use scanner::lex;
pub use token::Token;
