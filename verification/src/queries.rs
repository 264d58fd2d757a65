//! Per-language compiled structural pattern sets.
//!
//! For each supported language three independent pattern sets are compiled:
//! symbol definitions, imports and call expressions. Each compiled set
//! carries its capture names resolved to enumerated roles, so that
//! extraction never dispatches on strings per match.

use crate::sitter::{lang_python, lang_rust, lang_typescript, query_capture_names, query_new};
use crate::symbols::{NodeKind, ParseError};
use crate::text::str_eq;
use vstd::prelude::*;

verus! {

/// The role a capture name plays in a pattern set, resolved once when the
/// pattern set is compiled.
#[derive(Debug, Clone, Copy, PartialEq, Eq, Structural)]
pub enum CapRole {
    /// The declared name of a symbol.
    Name,
    /// A whole symbol definition of the given kind.
    Def(NodeKind),
    /// The module text of an import.
    Source,
    /// The callee of a call expression.
    Callee,
    /// A capture the extractor does not read.
    Other,
}

/// The role a capture name plays in a symbol pattern set.
pub open spec fn spec_symbol_role(n: Seq<char>) -> CapRole {
    if n == "name"@ || n == "function.name"@ || n == "class.name"@ || n == "interface.name"@
        || n == "method.name"@ {
        CapRole::Name
    } else if n == "function"@ || n == "function.def"@ {
        CapRole::Def(NodeKind::Function)
    } else if n == "class"@ || n == "class.def"@ {
        CapRole::Def(NodeKind::Class)
    } else if n == "interface"@ || n == "interface.def"@ {
        CapRole::Def(NodeKind::Interface)
    } else if n == "method"@ || n == "method.def"@ {
        CapRole::Def(NodeKind::Method)
    } else if n == "struct"@ || n == "struct.def"@ {
        CapRole::Def(NodeKind::Struct)
    } else if n == "enum"@ || n == "enum.def"@ {
        CapRole::Def(NodeKind::Enum)
    } else if n == "trait"@ || n == "trait.def"@ {
        CapRole::Def(NodeKind::Interface)
    } else {
        CapRole::Other
    }
}

/// The role a capture name plays in an import pattern set.
pub open spec fn spec_import_role(n: Seq<char>) -> CapRole {
    if n == "source"@ || n == "module"@ || n == "import.source"@ {
        CapRole::Source
    } else {
        CapRole::Other
    }
}

/// The role a capture name plays in a call pattern set.
pub open spec fn spec_call_role(n: Seq<char>) -> CapRole {
    if n == "callee"@ || n == "function"@ || n == "call.function"@ {
        CapRole::Callee
    } else {
        CapRole::Other
    }
}

fn symbol_role(n: &str) -> (r: CapRole)
    ensures
        r == spec_symbol_role(n@),
{
    if str_eq(n, "name") || str_eq(n, "function.name") || str_eq(n, "class.name") || str_eq(
        n,
        "interface.name",
    ) || str_eq(n, "method.name") {
        CapRole::Name
    } else if str_eq(n, "function") || str_eq(n, "function.def") {
        CapRole::Def(NodeKind::Function)
    } else if str_eq(n, "class") || str_eq(n, "class.def") {
        CapRole::Def(NodeKind::Class)
    } else if str_eq(n, "interface") || str_eq(n, "interface.def") {
        CapRole::Def(NodeKind::Interface)
    } else if str_eq(n, "method") || str_eq(n, "method.def") {
        CapRole::Def(NodeKind::Method)
    } else if str_eq(n, "struct") || str_eq(n, "struct.def") {
        CapRole::Def(NodeKind::Struct)
    } else if str_eq(n, "enum") || str_eq(n, "enum.def") {
        CapRole::Def(NodeKind::Enum)
    } else if str_eq(n, "trait") || str_eq(n, "trait.def") {
        CapRole::Def(NodeKind::Interface)
    } else {
        CapRole::Other
    }
}

fn import_role(n: &str) -> (r: CapRole)
    ensures
        r == spec_import_role(n@),
{
    if str_eq(n, "source") || str_eq(n, "module") || str_eq(n, "import.source") {
        CapRole::Source
    } else {
        CapRole::Other
    }
}

fn call_role(n: &str) -> (r: CapRole)
    ensures
        r == spec_call_role(n@),
{
    if str_eq(n, "callee") || str_eq(n, "function") || str_eq(n, "call.function") {
        CapRole::Callee
    } else {
        CapRole::Other
    }
}

fn symbol_roles(names: &Vec<String>) -> (r: Vec<CapRole>)
    ensures
        r@.len() == names@.len(),
        forall|i: int| 0 <= i < names@.len() ==> r@[i] == spec_symbol_role(names@[i]@),
{
    let mut out: Vec<CapRole> = Vec::new();
    let mut i: usize = 0;
    while i < names.len()
        invariant
            i <= names@.len(),
            out@.len() == i,
            forall|j: int| 0 <= j < i ==> out@[j] == spec_symbol_role(names@[j]@),
        decreases names@.len() - i,
    {
        out.push(symbol_role(names[i].as_str()));
        i += 1;
    }
    out
}

fn import_roles(names: &Vec<String>) -> (r: Vec<CapRole>)
    ensures
        r@.len() == names@.len(),
        forall|i: int| 0 <= i < names@.len() ==> r@[i] == spec_import_role(names@[i]@),
{
    let mut out: Vec<CapRole> = Vec::new();
    let mut i: usize = 0;
    while i < names.len()
        invariant
            i <= names@.len(),
            out@.len() == i,
            forall|j: int| 0 <= j < i ==> out@[j] == spec_import_role(names@[j]@),
        decreases names@.len() - i,
    {
        out.push(import_role(names[i].as_str()));
        i += 1;
    }
    out
}

fn call_roles(names: &Vec<String>) -> (r: Vec<CapRole>)
    ensures
        r@.len() == names@.len(),
        forall|i: int| 0 <= i < names@.len() ==> r@[i] == spec_call_role(names@[i]@),
{
    let mut out: Vec<CapRole> = Vec::new();
    let mut i: usize = 0;
    while i < names.len()
        invariant
            i <= names@.len(),
            out@.len() == i,
            forall|j: int| 0 <= j < i ==> out@[j] == spec_call_role(names@[j]@),
        decreases names@.len() - i,
    {
        out.push(call_role(names[i].as_str()));
        i += 1;
    }
    out
}

/// A compiled pattern set together with its capture roles.
pub struct CompiledQuery {
    pub query: tree_sitter::Query,
    pub roles: Vec<CapRole>,
}

/// The three compiled pattern sets for one language.
pub struct CompiledQueries {
    pub symbols: CompiledQuery,
    pub imports: CompiledQuery,
    pub calls: CompiledQuery,
    pub language: tree_sitter::Language,
}

fn compile_set(
    language: tree_sitter::Language,
    symbols_query: &str,
    imports_query: &str,
    calls_query: &str,
) -> (r: Result<CompiledQueries, ParseError>)
    ensures
        r matches Err(e) ==> e matches ParseError::QueryError(_),
{
    let symbols = match query_new(&language, symbols_query) {
        Ok(q) => q,
        Err(m) => {
            return Err(ParseError::QueryError(m));
        },
    };
    let imports = match query_new(&language, imports_query) {
        Ok(q) => q,
        Err(m) => {
            return Err(ParseError::QueryError(m));
        },
    };
    let calls = match query_new(&language, calls_query) {
        Ok(q) => q,
        Err(m) => {
            return Err(ParseError::QueryError(m));
        },
    };
    let symbol_names = query_capture_names(&symbols);
    let import_names = query_capture_names(&imports);
    let call_names = query_capture_names(&calls);
    Ok(
        CompiledQueries {
            symbols: CompiledQuery { roles: symbol_roles(&symbol_names), query: symbols },
            imports: CompiledQuery { roles: import_roles(&import_names), query: imports },
            calls: CompiledQuery { roles: call_roles(&call_names), query: calls },
            language,
        },
    )
}

/// Compile the TypeScript/JavaScript pattern sets.
pub(crate) fn compile_typescript_queries() -> (r: Result<CompiledQueries, ParseError>)
    ensures
        r matches Err(e) ==> e matches ParseError::QueryError(_),
{
    let symbols_query = "
        ; Functions
        (function_declaration
            name: (identifier) @name) @function.def

        ; Arrow functions assigned to variables
        (lexical_declaration
            (variable_declarator
                name: (identifier) @name
                value: (arrow_function))) @function.def

        ; Classes
        (class_declaration
            name: (type_identifier) @name) @class.def

        ; Methods
        (method_definition
            name: (property_identifier) @name) @method.def

        ; Interfaces
        (interface_declaration
            name: (type_identifier) @name) @interface.def

        ; Type aliases
        (type_alias_declaration
            name: (type_identifier) @name) @interface.def

        ; Exported functions
        (export_statement
            declaration: (function_declaration
                name: (identifier) @name)) @function.def
    ";
    let imports_query = "
        (import_statement
            source: (string) @source)

        (import_statement
            source: (string) @source)
    ";
    let calls_query = "
        (call_expression
            function: (identifier) @callee)

        (call_expression
            function: (member_expression
                property: (property_identifier) @callee))
    ";
    compile_set(lang_typescript(), symbols_query, imports_query, calls_query)
}

/// Compile the Rust pattern sets.
pub(crate) fn compile_rust_queries() -> (r: Result<CompiledQueries, ParseError>)
    ensures
        r matches Err(e) ==> e matches ParseError::QueryError(_),
{
    let symbols_query = "
        ; Functions
        (function_item
            name: (identifier) @name) @function.def

        ; Structs
        (struct_item
            name: (type_identifier) @name) @struct.def

        ; Enums
        (enum_item
            name: (type_identifier) @name) @enum.def

        ; Traits
        (trait_item
            name: (type_identifier) @name) @trait.def

        ; Impl methods
        (impl_item
            body: (declaration_list
                (function_item
                    name: (identifier) @name) @method.def))
    ";
    let imports_query = "
        (use_declaration
            argument: (_) @source)
    ";
    let calls_query = "
        (call_expression
            function: (identifier) @callee)

        (call_expression
            function: (field_expression
                field: (field_identifier) @callee))

        (call_expression
            function: (scoped_identifier
                name: (identifier) @callee))
    ";
    compile_set(lang_rust(), symbols_query, imports_query, calls_query)
}

/// Compile the Python pattern sets.
pub(crate) fn compile_python_queries() -> (r: Result<CompiledQueries, ParseError>)
    ensures
        r matches Err(e) ==> e matches ParseError::QueryError(_),
{
    let symbols_query = "
        ; Functions
        (function_definition
            name: (identifier) @name) @function.def

        ; Classes
        (class_definition
            name: (identifier) @name) @class.def

        ; Methods (functions inside classes)
        (class_definition
            body: (block
                (function_definition
                    name: (identifier) @name) @method.def))
    ";
    let imports_query = "
        (import_statement
            name: (dotted_name) @source)

        (import_from_statement
            module_name: (dotted_name) @source)
    ";
    let calls_query = "
        (call
            function: (identifier) @callee)

        (call
            function: (attribute
                attribute: (identifier) @callee))
    ";
    compile_set(lang_python(), symbols_query, imports_query, calls_query)
}

} // verus!
