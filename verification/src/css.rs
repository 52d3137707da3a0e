//! Stylesheet side of the pipeline: tokenizer and rule parser.

pub mod cssom;
pub mod token;
