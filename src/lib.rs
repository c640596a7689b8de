//! Sanitization pipeline and misspelling reports for markup documents.
//!
//! Raw lines are joined, stripped of math, parenthetical asides, commands and
//! punctuation-glued fragments, split into lowercase tokens, checked against a
//! dictionary, and the unknown tokens are mapped back onto the original lines.
pub mod text;
pub mod transform;
pub mod parens;
pub mod pipeline;
pub mod dictionary;
pub mod attribute;
pub mod render;
pub mod checker;
