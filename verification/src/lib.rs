//! Code-intelligence core: a verified symbol/relation extractor over
//! tree-sitter grammars, and a verified backward-reachability audit engine
//! that traces paths from public entry points to a sensitive sink.

pub mod audit;
pub mod extract;
pub mod graph;
pub mod parser;
pub mod queries;
pub mod sitter;
pub mod symbols;
pub mod text;
