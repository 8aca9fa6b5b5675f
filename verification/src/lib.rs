//! A small core of parser combinators: recognizers over sequences of tokens
//! that are composed into parsers for structured input.
//!
//! A parser is built from the primitive [`Parser::one`] with the operators
//! [`Parser::map`], [`Parser::combine`], [`Parser::option`] and
//! [`Parser::bind`], and is run against an input with [`Parser::parse`].

pub mod candidates;
pub mod choice;
pub mod error;
pub mod laws;
pub mod parser;
pub mod primitive;
pub mod recognizer;
pub mod sequence;
pub mod token;
pub mod transform;

pub use crate::error::ParseError;
pub use crate::parser::Parser;
pub use crate::recognizer::Recognizer;
pub use crate::token::Token;
