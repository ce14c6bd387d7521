//! A source-to-source token rewriter.
//!
//! The library consumes a flat sequence of lexical tokens of a small surface
//! syntax and produces an equivalent token sequence for a host expression
//! language.  One designated identifier is substituted by the host binding
//! keyword, bracketed sub-sequences are rewritten recursively, and a statement
//! separator is synthesized between adjacent tokens where a one-token
//! lookahead heuristic infers a statement boundary.

pub mod laws;
pub mod rewrite;
pub mod token;
