//! Semantic-analysis and lowering core of a compiler for a small protocol
//! description language: two communicating systems, a closed type vocabulary,
//! named messages, and a directed graph of legal message orderings.
//!
//! The crate validates an already-parsed syntax tree and lowers it, per
//! system, into receive-function skeletons for an external renderer.

pub mod ast;
pub mod graph;
pub mod intermediate;
