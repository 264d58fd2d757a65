//! Symbol and relation records: what one extraction pass over a source unit
//! produces.

use vstd::prelude::*;
use vstd::string::StringExecFns;

verus! {

/// The kind of a code symbol. Trait-like constructs normalize to `Interface`.
#[derive(Debug, Clone, Copy, PartialEq, Eq, Structural)]
pub enum NodeKind {
    Function,
    Class,
    Interface,
    Method,
    Struct,
    Enum,
}

/// Mathematical model of a [`CodeNode`].
pub ghost struct SymbolModel {
    pub name: Seq<char>,
    pub id: Seq<char>,
    pub kind: NodeKind,
    pub file: Seq<char>,
    pub line_start: int,
    pub line_end: int,
    pub column: int,
    pub byte_start: int,
    pub byte_end: int,
    pub signature: Option<Seq<char>>,
}

/// One extracted symbol: a function, class, interface, method, struct or
/// enum definition, located by 1-based inclusive line numbers.
#[derive(Debug, Clone, PartialEq, Eq)]
pub struct CodeNode {
    /// Declared name.
    pub name: String,
    /// Qualified id: `<base file name>:<name>`.
    pub id: String,
    /// What kind of definition this is.
    pub kind: NodeKind,
    /// Path of the source unit the symbol was extracted from.
    pub file: String,
    /// First line of the definition, 1-based.
    pub line_start: usize,
    /// Last line of the definition, 1-based, at least `line_start`.
    pub line_end: usize,
    /// Column of the definition's first character, 0-based.
    pub column: usize,
    /// Byte offset of the definition's start.
    pub byte_start: usize,
    /// Byte offset one past the definition's end.
    pub byte_end: usize,
    /// The trimmed source line at the definition's starting row.
    pub signature: Option<String>,
}

impl View for CodeNode {
    type V = SymbolModel;

    open spec fn view(&self) -> SymbolModel {
        SymbolModel {
            name: self.name@,
            id: self.id@,
            kind: self.kind,
            file: self.file@,
            line_start: self.line_start as int,
            line_end: self.line_end as int,
            column: self.column as int,
            byte_start: self.byte_start as int,
            byte_end: self.byte_end as int,
            signature: match self.signature {
                Some(s) => Some(s@),
                None => None,
            },
        }
    }
}

/// Types of relationships between code symbols.
#[derive(Debug, Clone, Copy, PartialEq, Eq, Hash, Structural)]
pub enum RelationType {
    /// Function or method calls another function.
    Calls,
    /// Module imports another module or symbol.
    Imports,
    /// Class extends another class (reserved, not populated).
    Extends,
    /// Type implements an interface (reserved, not populated).
    Implements,
}

/// Mathematical model of a [`SymbolRelation`].
pub ghost struct RelationModel {
    pub from_id: Seq<char>,
    pub to_name: Seq<char>,
    pub kind: RelationType,
    pub line: int,
}

/// A relationship between two symbols in the code.
#[derive(Debug, Clone, PartialEq, Eq)]
pub struct SymbolRelation {
    /// The source symbol (caller or importer).
    pub from_id: String,
    /// The target symbol name (what is being called or imported),
    /// unresolved.
    pub to_name: String,
    /// The type of relationship.
    pub kind: RelationType,
    /// Line number where the relationship occurs, 1-based.
    pub line: u32,
}

impl View for SymbolRelation {
    type V = RelationModel;

    open spec fn view(&self) -> RelationModel {
        RelationModel {
            from_id: self.from_id@,
            to_name: self.to_name@,
            kind: self.kind,
            line: self.line as int,
        }
    }
}

/// Result of parsing a single source unit. It does not merge into any
/// persistent store itself.
#[derive(Debug)]
pub struct ParseResult {
    /// Extracted code symbols.
    pub symbols: Vec<CodeNode>,
    /// Relationships between symbols: imports first, then calls.
    pub relations: Vec<SymbolRelation>,
    /// The path of the source unit that was parsed.
    pub file_path: String,
}

/// The models of a sequence of symbol records.
pub open spec fn symbol_views(s: Seq<CodeNode>) -> Seq<SymbolModel> {
    s.map_values(|c: CodeNode| c@)
}

/// The models of a sequence of relation records.
pub open spec fn relation_views(s: Seq<SymbolRelation>) -> Seq<RelationModel> {
    s.map_values(|r: SymbolRelation| r@)
}

/// Ways a parse can fail. Malformed syntax is not among them: extraction
/// proceeds over whatever structure was recognized.
#[derive(Debug, Clone)]
pub enum ParseError {
    /// The source unit was empty.
    EmptyFile(String),
    /// No compiled pattern set exists for the requested file type.
    UnsupportedLanguage(String),
    /// The grammar failed to produce a tree, or could not be configured.
    ParserError(String),
    /// A structural pattern failed to compile.
    QueryError(String),
}

impl ParseError {
    /// A short human-readable description of the failure.
    pub fn message(&self) -> (r: String)
        ensures
            match self {
                ParseError::EmptyFile(p) => r@ == "empty file: "@ + p@,
                ParseError::UnsupportedLanguage(p) => r@ == "unsupported language: "@ + p@,
                ParseError::ParserError(m) => r@ == "parser error: "@ + m@,
                ParseError::QueryError(m) => r@ == "query error: "@ + m@,
            },
    {
        match self {
            ParseError::EmptyFile(p) => {
                let mut s = "empty file: ".to_owned();
                s.append(p.as_str());
                s
            },
            ParseError::UnsupportedLanguage(p) => {
                let mut s = "unsupported language: ".to_owned();
                s.append(p.as_str());
                s
            },
            ParseError::ParserError(m) => {
                let mut s = "parser error: ".to_owned();
                s.append(m.as_str());
                s
            },
            ParseError::QueryError(m) => {
                let mut s = "query error: ".to_owned();
                s.append(m.as_str());
                s
            },
        }
    }
}

} // verus!
