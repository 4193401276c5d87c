//! A tokenizer with a bounded lookahead buffer.
pub mod error;
pub mod lexer;
pub mod queue;
pub mod text;
pub mod value;
