//! Trusted boundary to the tree-sitter parsing library.
//!
//! Everything tree-sitter computes — grammars, parse trees, compiled
//! structural patterns and their matches — enters the library through the
//! declarations and wrappers here. Match results are converted to plain
//! records ([`MatchRec`], [`CaptureRec`]); all extraction logic downstream
//! of that conversion is verified for every possible record value.

use vstd::prelude::*;

verus! {

/// Declares tree_sitter::Language, a grammar handle, as an opaque type.
#[verifier::external_type_specification]
#[verifier::external_body]
pub struct ExLanguage(tree_sitter::Language);

/// Declares tree_sitter::Parser, the parsing engine, as an opaque type.
#[verifier::external_type_specification]
#[verifier::external_body]
pub struct ExParser(tree_sitter::Parser);

/// Declares tree_sitter::Query, a compiled pattern set, as an opaque type.
#[verifier::external_type_specification]
#[verifier::external_body]
pub struct ExQuery(tree_sitter::Query);

/// Declares tree_sitter::Tree, a parse tree, as an opaque type.
#[verifier::external_type_specification]
#[verifier::external_body]
pub struct ExTree(tree_sitter::Tree);

/// Mathematical model of a [`CaptureRec`].
pub ghost struct CapModel {
    pub idx: int,
    pub text: Seq<char>,
    pub row: int,
    pub end_row: int,
    pub col: int,
    pub byte_start: int,
    pub byte_end: int,
}

/// One capture of a structural pattern match: the capture's index within
/// the pattern set, the matched text, and the matched node's location.
pub struct CaptureRec {
    /// Index into the pattern set's capture names.
    pub idx: u32,
    /// Text of the captured node.
    pub text: String,
    /// 0-based starting row of the captured node.
    pub row: usize,
    /// 0-based ending row of the captured node.
    pub end_row: usize,
    /// 0-based starting column of the captured node.
    pub col: usize,
    /// Byte offset of the captured node's start.
    pub byte_start: usize,
    /// Byte offset one past the captured node's end.
    pub byte_end: usize,
}

impl View for CaptureRec {
    type V = CapModel;

    open spec fn view(&self) -> CapModel {
        CapModel {
            idx: self.idx as int,
            text: self.text@,
            row: self.row as int,
            end_row: self.end_row as int,
            col: self.col as int,
            byte_start: self.byte_start as int,
            byte_end: self.byte_end as int,
        }
    }
}

/// Mathematical model of a [`MatchRec`].
pub ghost struct MatchModel {
    pub captures: Seq<CapModel>,
}

/// One match of a structural pattern: its captures, in match order.
pub struct MatchRec {
    pub captures: Vec<CaptureRec>,
}

impl View for MatchRec {
    type V = MatchModel;

    open spec fn view(&self) -> MatchModel {
        MatchModel { captures: self.captures@.map_values(|c: CaptureRec| c@) }
    }
}

/// The models of a sequence of match records.
pub open spec fn match_views(ms: Seq<MatchRec>) -> Seq<MatchModel> {
    ms.map_values(|m: MatchRec| m@)
}

/// Relies on tree_sitter_typescript::language_typescript: the TypeScript
/// grammar.
#[verifier::external_body]
pub(crate) fn lang_typescript() -> tree_sitter::Language {
    tree_sitter_typescript::language_typescript()
}

/// Relies on tree_sitter_rust::language: the Rust grammar.
#[verifier::external_body]
pub(crate) fn lang_rust() -> tree_sitter::Language {
    tree_sitter_rust::language()
}

/// Relies on tree_sitter_python::language: the Python grammar.
#[verifier::external_body]
pub(crate) fn lang_python() -> tree_sitter::Language {
    tree_sitter_python::language()
}

/// Relies on tree_sitter::Parser::new: a fresh parser with no language set.
#[verifier::external_body]
pub(crate) fn parser_new() -> tree_sitter::Parser {
    tree_sitter::Parser::new()
}

/// Relies on tree_sitter::Parser::set_language: configures the parser for a
/// grammar, failing when the grammar's ABI version is incompatible.
#[verifier::external_body]
pub(crate) fn parser_set_language(
    p: &mut tree_sitter::Parser,
    l: &tree_sitter::Language,
) -> Result<(), String> {
    p.set_language(*l).map_err(|e| format!("{}", e))
}

/// Relies on tree_sitter::Parser::parse: parses a source unit, returning no
/// tree only when no language is set or parsing was cancelled. Malformed
/// source still yields a tree.
#[verifier::external_body]
pub(crate) fn parser_parse(p: &mut tree_sitter::Parser, source: &str) -> Option<tree_sitter::Tree> {
    p.parse(source, None)
}

/// Relies on tree_sitter::Query::new: compiles a structural pattern set
/// against a grammar, reporting a message on malformed patterns.
#[verifier::external_body]
pub(crate) fn query_new(l: &tree_sitter::Language, text: &str) -> Result<
    tree_sitter::Query,
    String,
> {
    tree_sitter::Query::new(*l, text).map_err(|e| e.message)
}

/// Relies on tree_sitter::Query::capture_names: the capture names of a
/// compiled pattern set, indexed by capture index.
#[verifier::external_body]
pub(crate) fn query_capture_names(q: &tree_sitter::Query) -> Vec<String> {
    q.capture_names().to_vec()
}

/// Relies on core::str::from_utf8: the text of the source's byte range
/// `lo..hi`, empty when the range is out of bounds or not UTF-8.
#[verifier::external_body]
fn range_text(src: &str, lo: usize, hi: usize) -> String {
    src.as_bytes().get(lo..hi).and_then(|b| core::str::from_utf8(b).ok()).unwrap_or("").to_string()
}

/// Relies on tree_sitter::QueryCursor::matches: runs a compiled pattern set
/// over a parse tree; each match's captures are converted to plain records,
/// the captured text taken from the source by the node's byte range.
#[verifier::external_body]
pub(crate) fn run_query(
    q: &tree_sitter::Query,
    t: &tree_sitter::Tree,
    src: &str,
) -> Vec<MatchRec> {
    let mut cur = tree_sitter::QueryCursor::new();
    let mut out: Vec<MatchRec> = Vec::new();
    for m in cur.matches(q, t.root_node(), src.as_bytes()) {
        let captures = m.captures.iter().map(|c| CaptureRec {
            idx: c.index,
            text: range_text(src, c.node.start_byte(), c.node.end_byte()),
            row: c.node.start_position().row,
            end_row: c.node.end_position().row,
            col: c.node.start_position().column,
            byte_start: c.node.start_byte(),
            byte_end: c.node.end_byte(),
        }).collect();
        out.push(MatchRec { captures });
    }
    out
}

} // verus!
