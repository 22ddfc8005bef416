use codegraph::languages::python::PythonAdapter;
use codegraph::syntax::SyntaxTree;

fn parse(source: &str) -> SyntaxTree {
    let adapter = PythonAdapter::new();
    adapter.parse(source.as_bytes()).unwrap()
}

#[test]
fn test_python_extract_functions() {
    let src = r#"
def greet(name):
    return f"Hello, {name}"

def helper():
    pass
"#;
    let tree = parse(src);
    let adapter = PythonAdapter::new();
    let fns = adapter.extract_functions(&tree, src.as_bytes());
    assert_eq!(fns.len(), 2);
    assert_eq!(fns[0].name, "greet");
    assert_eq!(fns[1].name, "helper");
}

#[test]
fn test_python_extract_imports() {
    let src = "import os\nfrom pathlib import Path\nfrom . import utils\n";
    let tree = parse(src);
    let adapter = PythonAdapter::new();
    let imports = adapter.extract_imports(&tree, src.as_bytes());
    assert!(imports.iter().any(|i| i.source == "os"));
    assert!(imports.iter().any(|i| i.source == "pathlib" && i.names.contains(&"Path".to_string())));
}

#[test]
fn test_python_extract_classes() {
    let src = r#"
class Animal:
    def speak(self):
        pass
    def move(self):
        pass
"#;
    let tree = parse(src);
    let adapter = PythonAdapter::new();
    let classes = adapter.extract_classes(&tree, src.as_bytes());
    assert_eq!(classes.len(), 1);
    assert_eq!(classes[0].name, "Animal");
    assert!(classes[0].methods.contains(&"speak".to_string()));
}

#[test]
fn test_python_dunder_all() {
    let src = r#"
__all__ = ["foo", "bar"]
def foo(): pass
def bar(): pass
def _private(): pass
"#;
    let tree = parse(src);
    let adapter = PythonAdapter::new();
    let exports = adapter.extract_exports(&tree, src.as_bytes());
    assert_eq!(exports.len(), 2);
    assert!(exports.iter().any(|e| e.name == "foo"));
    assert!(exports.iter().any(|e| e.name == "bar"));
}
