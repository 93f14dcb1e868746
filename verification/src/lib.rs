//! A lexer and recursive-descent parser for attribute-style configuration
//! records of the form `#name(field: "value", ...)`.
//!
//! The text is read through [`span::SpannedStr`], a view of a byte range
//! that moves by code points; [`lex`] splits it into tokens and
//! [`config`] reads a record from them. [`theorems`] and [`grammar`] hold
//! what is proved of the tokenizer and of the parser on whole classes of
//! inputs.

pub mod chars;
pub mod config;
pub mod grammar;
pub mod lex;
pub mod pipeline;
pub mod span;
pub mod theorems;
pub mod token;
pub mod utf8;

pub use pipeline::PipelineConfig;
