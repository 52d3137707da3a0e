//! Markup side of the pipeline: tokenizer and tree construction.

pub mod attribute;
pub mod parser;
pub mod token;
