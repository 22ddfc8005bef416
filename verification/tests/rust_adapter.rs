use codegraph::languages::rust_lang::RustAdapter;
use codegraph::syntax::SyntaxTree;

fn parse(source: &str) -> SyntaxTree {
    let adapter = RustAdapter::new();
    adapter.parse(source.as_bytes()).unwrap()
}

#[test]
fn test_rust_extract_functions() {
    let src = r#"
pub fn greet(name: &str) -> String {
    format!("Hello, {}", name)
}

fn helper() {}

struct Foo;
impl Foo {
    pub fn method(&self) {}
}
"#;
    let tree = parse(src);
    let adapter = RustAdapter::new();
    let fns = adapter.extract_functions(&tree, src.as_bytes());
    assert!(fns.iter().any(|f| f.name == "greet" && f.is_exported));
    assert!(fns.iter().any(|f| f.name == "helper" && !f.is_exported));
    assert!(fns.iter().any(|f| f.name == "Foo::method"));
}

#[test]
fn test_rust_extract_imports() {
    let src = "use std::io::{Read, Write};\nuse crate::utils;\n";
    let tree = parse(src);
    let adapter = RustAdapter::new();
    let imports = adapter.extract_imports(&tree, src.as_bytes());
    assert!(imports.iter().any(|i| i.source == "std::io"));
}

#[test]
fn test_rust_extract_classes() {
    let src = r#"
pub struct Server {
    host: String,
}
pub enum Status { Ok, Err }
pub trait Handler {}
"#;
    let tree = parse(src);
    let adapter = RustAdapter::new();
    let classes = adapter.extract_classes(&tree, src.as_bytes());
    assert!(classes.iter().any(|c| c.name == "Server" && c.kind == "struct"));
    assert!(classes.iter().any(|c| c.name == "Status" && c.kind == "enum"));
    assert!(classes.iter().any(|c| c.name == "Handler" && c.kind == "trait"));
}
