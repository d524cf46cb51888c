//! Front end of a small imperative language: a scanner that turns source
//! text into tokens, and a recursive-descent parser that turns tokens into
//! a syntax tree.
//!
//! Every executable function carries a contract over a mathematical model:
//! [`lexical`] defines what the scanner produces for a given text, and
//! [`grammar`] defines what the parser produces for a given token sequence.
//! [`conversion`] names, for a backend, the operations that the statements
//! of a parsed program become.

pub mod std_specs;
pub mod lexical;
pub mod lexer;
pub mod grammar;
pub mod parser;
pub mod conversion;

pub use crate::conversion::ConversionError;
pub use crate::lexer::{Lexer, Token};
pub use crate::parser::{ASTNode, ParseError, Parser};
