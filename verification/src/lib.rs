//! Front end of a small expression-and-declaration language: a scanner that
//! turns source text into tokens, a parser that turns tokens into syntax
//! trees, and the layout of the diagnostics the parser reports.

pub mod text;
pub mod scanner;
pub mod error;
pub mod grammar;
pub mod parser;
