use arbor::parser::ArborParser;
use arbor::symbols::{NodeKind, ParseError, RelationType};

#[test]
fn test_parse_typescript_symbols() {
    let mut parser = ArborParser::new();

    let source = r#"
            function greet(name: string): string {
                return `Hello, ${name}!`;
            }

            export class UserService {
                validate(user: User): boolean {
                    return true;
                }
            }

            interface User {
                name: string;
                email: string;
            }
        "#;

    let result = parser.parse_source(source, "test.ts", "ts").unwrap();

    assert!(result.symbols.iter().any(|s| s.name == "greet"));
    assert!(result.symbols.iter().any(|s| s.name == "UserService"));
    assert!(result.symbols.iter().any(|s| s.name == "validate"));
    assert!(result.symbols.iter().any(|s| s.name == "User"));
}

#[test]
fn test_parse_typescript_imports() {
    let mut parser = ArborParser::new();

    let source = r#"
            import { useState } from 'react';
            import lodash from 'lodash';

            function Component() {
                const [count, setCount] = useState(0);
            }
        "#;

    let result = parser.parse_source(source, "test.ts", "ts").unwrap();

    let imports: Vec<_> = result
        .relations
        .iter()
        .filter(|r| r.kind == RelationType::Imports)
        .collect();

    assert!(imports.iter().any(|i| i.to_name.contains("react")));
    assert!(imports.iter().any(|i| i.to_name.contains("lodash")));
}

#[test]
fn test_parse_typescript_calls() {
    let mut parser = ArborParser::new();

    let source = r#"
            function outer() {
                inner();
                helper.process();
            }

            function inner() {
                console.log("Hello");
            }
        "#;

    let result = parser.parse_source(source, "test.ts", "ts").unwrap();

    let calls: Vec<_> = result
        .relations
        .iter()
        .filter(|r| r.kind == RelationType::Calls)
        .collect();

    assert!(calls.iter().any(|c| c.to_name == "inner"));
    assert!(calls.iter().any(|c| c.to_name == "process"));
    assert!(calls.iter().any(|c| c.to_name == "log"));
}

#[test]
fn test_parse_rust_symbols() {
    let mut parser = ArborParser::new();

    let source = r#"
            fn main() {
                println!("Hello!");
            }

            pub struct User {
                name: String,
            }

            impl User {
                fn new(name: &str) -> Self {
                    Self { name: name.to_string() }
                }
            }

            enum Status {
                Active,
                Inactive,
            }
        "#;

    let result = parser.parse_source(source, "test.rs", "rs").unwrap();

    assert!(result.symbols.iter().any(|s| s.name == "main"));
    assert!(result.symbols.iter().any(|s| s.name == "User"));
    assert!(result.symbols.iter().any(|s| s.name == "new"));
    assert!(result.symbols.iter().any(|s| s.name == "Status"));
}

#[test]
fn test_parse_python_symbols() {
    let mut parser = ArborParser::new();

    let source = r#"
def greet(name):
    return f"Hello, {name}!"

class UserService:
    def validate(self, user):
        return True
        "#;

    let result = parser.parse_source(source, "test.py", "py").unwrap();

    assert!(result.symbols.iter().any(|s| s.name == "greet"));
    assert!(result.symbols.iter().any(|s| s.name == "UserService"));
    assert!(result.symbols.iter().any(|s| s.name == "validate"));
}

#[test]
fn test_greet_inner_example() {
    let mut parser = ArborParser::new();

    let source = "function greet(name) { inner(); } function inner(){}";
    let result = parser.parse_source(source, "app.ts", "ts").unwrap();

    let functions: Vec<_> = result
        .symbols
        .iter()
        .filter(|s| s.kind == NodeKind::Function)
        .collect();
    assert_eq!(functions.len(), 2);
    assert_eq!(functions[0].name, "greet");
    assert_eq!(functions[1].name, "inner");
    assert_eq!(functions[0].id, "app.ts:greet");
    assert_eq!(functions[1].id, "app.ts:inner");

    let calls: Vec<_> = result
        .relations
        .iter()
        .filter(|r| r.kind == RelationType::Calls)
        .collect();
    assert_eq!(calls.len(), 1);
    assert_eq!(calls[0].from_id, "app.ts:greet");
    assert_eq!(calls[0].to_name, "inner");
}

#[test]
fn test_reextraction_is_idempotent() {
    let mut parser = ArborParser::new();

    let source = r#"
function top() {
    helper();
}

class Box {
    helper() {
        top();
    }
}
"#;

    let first = parser.parse_source(source, "dir/box.ts", "ts").unwrap();
    let second = parser.parse_source(source, "dir/box.ts", "ts").unwrap();

    assert_eq!(first.symbols, second.symbols);
    assert_eq!(first.relations, second.relations);
    assert_eq!(first.file_path, second.file_path);
}

#[test]
fn test_call_attributes_to_innermost_method() {
    let mut parser = ArborParser::new();

    let source = r#"
class UserService:
    def validate(self, user):
        check(user)
"#;

    let result = parser.parse_source(source, "svc.py", "py").unwrap();

    let call = result
        .relations
        .iter()
        .find(|r| r.kind == RelationType::Calls && r.to_name == "check")
        .expect("the check() call should be extracted");
    assert_eq!(call.from_id, "svc.py:validate");
}

#[test]
fn test_member_call_uses_last_segment() {
    let mut parser = ArborParser::new();

    let source = "function run() { a.b.deepest(); }";
    let result = parser.parse_source(source, "m.ts", "ts").unwrap();

    let calls: Vec<_> = result
        .relations
        .iter()
        .filter(|r| r.kind == RelationType::Calls)
        .collect();
    assert!(calls.iter().any(|c| c.to_name == "deepest"));
    assert!(!calls.iter().any(|c| c.to_name.contains('.')));
}

#[test]
fn test_import_quotes_are_stripped() {
    let mut parser = ArborParser::new();

    let source = "import x from 'left-pad';\n";
    let result = parser.parse_source(source, "i.ts", "ts").unwrap();

    let imports: Vec<_> = result
        .relations
        .iter()
        .filter(|r| r.kind == RelationType::Imports)
        .collect();
    assert!(!imports.is_empty());
    for imp in &imports {
        assert_eq!(imp.to_name, "left-pad");
        assert_eq!(imp.from_id, "i.ts:__file__");
        assert_eq!(imp.line, 1);
    }
}

#[test]
fn test_symbol_location_and_signature() {
    let mut parser = ArborParser::new();

    let source = "const x = 1;\nfunction f() {\n    g();\n}\n";
    let result = parser.parse_source(source, "loc.ts", "ts").unwrap();

    let f = result
        .symbols
        .iter()
        .find(|s| s.name == "f")
        .expect("f should be extracted");
    assert_eq!(f.line_start, 2);
    assert_eq!(f.line_end, 4);
    assert_eq!(f.signature.as_deref(), Some("function f() {"));
    assert!(f.line_end >= f.line_start);
}

#[test]
fn test_empty_source_is_rejected() {
    let mut parser = ArborParser::new();

    match parser.parse_source("", "e.ts", "ts") {
        Err(ParseError::EmptyFile(p)) => assert_eq!(p, "e.ts"),
        other => panic!("expected EmptyFile, got {:?}", other),
    }
}

#[test]
fn test_parse_error_message() {
    let mut parser = ArborParser::new();
    let e = parser.parse_source("", "e.ts", "ts").unwrap_err();
    assert_eq!(e.message(), "empty file: e.ts");
}

#[test]
fn test_unknown_language_is_rejected() {
    let mut parser = ArborParser::new();

    match parser.parse_source("x = 1", "a.cob", "cob") {
        Err(ParseError::UnsupportedLanguage(p)) => assert_eq!(p, "a.cob"),
        other => panic!("expected UnsupportedLanguage, got {:?}", other),
    }
}

#[test]
fn test_malformed_source_still_extracts() {
    let mut parser = ArborParser::new();

    let source = "function ok() { good(); }\nfunction broken( { ]]]";
    let result = parser.parse_source(source, "b.ts", "ts").unwrap();

    assert!(result.symbols.iter().any(|s| s.name == "ok"));
}

#[test]
fn test_rust_imports_extracted() {
    let mut parser = ArborParser::new();

    let source = "use std::collections::HashMap;\n\nfn main() {}\n";
    let result = parser.parse_source(source, "u.rs", "rs").unwrap();

    let imports: Vec<_> = result
        .relations
        .iter()
        .filter(|r| r.kind == RelationType::Imports)
        .collect();
    assert_eq!(imports.len(), 1);
    assert!(imports[0].to_name.contains("HashMap"));
}
