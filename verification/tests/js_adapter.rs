use codegraph::languages::javascript::JavaScriptAdapter;
use codegraph::syntax::SyntaxTree;

fn parse(source: &str) -> SyntaxTree {
    let adapter = JavaScriptAdapter::new();
    adapter.parse(source.as_bytes()).unwrap()
}

#[test]
fn test_js_extract_functions() {
    let src = r#"
export function hello(name) {
    return 'Hello ' + name;
}
const add = (a, b) => a + b;
"#;
    let tree = parse(src);
    let adapter = JavaScriptAdapter::new();
    let fns = adapter.extract_functions(&tree, src.as_bytes());
    assert!(fns.iter().any(|f| f.name == "hello" && f.is_exported));
}

#[test]
fn test_js_extract_imports() {
    let src = "import { readFile } from 'fs';\nimport path from 'path';\n";
    let tree = parse(src);
    let adapter = JavaScriptAdapter::new();
    let imports = adapter.extract_imports(&tree, src.as_bytes());
    assert_eq!(imports.len(), 2);
    assert_eq!(imports[0].source, "fs");
}
