use codegraph::languages::go_lang::GoAdapter;
use codegraph::syntax::SyntaxTree;

fn parse(source: &str) -> SyntaxTree {
    let adapter = GoAdapter::new();
    adapter.parse(source.as_bytes()).unwrap()
}

#[test]
fn test_go_extract_functions() {
    let src = r#"package main

func Hello(name string) string {
    return "Hello " + name
}

func helper() {}
"#;
    let tree = parse(src);
    let adapter = GoAdapter::new();
    let fns = adapter.extract_functions(&tree, src.as_bytes());
    assert!(fns.iter().any(|f| f.name == "Hello" && f.is_exported));
    assert!(fns.iter().any(|f| f.name == "helper" && !f.is_exported));
}

#[test]
fn test_go_extract_imports() {
    let src = r#"package main

import (
    "fmt"
    "net/http"
)
"#;
    let tree = parse(src);
    let adapter = GoAdapter::new();
    let imports = adapter.extract_imports(&tree, src.as_bytes());
    assert!(imports.iter().any(|i| i.source == "fmt"));
    assert!(imports.iter().any(|i| i.source == "net/http"));
}

#[test]
fn test_go_extract_structs() {
    let src = r#"package main

type Server struct {
    host string
    port int
}
"#;
    let tree = parse(src);
    let adapter = GoAdapter::new();
    let classes = adapter.extract_classes(&tree, src.as_bytes());
    assert_eq!(classes.len(), 1);
    assert_eq!(classes[0].name, "Server");
    assert_eq!(classes[0].kind, "struct");
}
