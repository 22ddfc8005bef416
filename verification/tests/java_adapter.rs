use codegraph::languages::java::JavaAdapter;
use codegraph::syntax::SyntaxTree;

fn parse(source: &str) -> SyntaxTree {
    let adapter = JavaAdapter::new();
    adapter.parse(source.as_bytes()).unwrap()
}

#[test]
fn test_java_extract_functions() {
    let src = r#"
public class Greeter {
    public String greet(String name) {
        return "Hello " + name;
    }
    private void helper() {}
}
"#;
    let tree = parse(src);
    let adapter = JavaAdapter::new();
    let fns = adapter.extract_functions(&tree, src.as_bytes());
    assert!(fns.iter().any(|f| f.name == "Greeter.greet" && f.is_exported));
    assert!(fns.iter().any(|f| f.name == "Greeter.helper" && !f.is_exported));
}

#[test]
fn test_java_extract_imports() {
    let src = "import java.util.List;\nimport java.io.*;\n";
    let tree = parse(src);
    let adapter = JavaAdapter::new();
    let imports = adapter.extract_imports(&tree, src.as_bytes());
    assert!(imports.iter().any(|i| i.source == "java.util" && i.names.contains(&"List".to_string())));
}

#[test]
fn test_java_extract_classes() {
    let src = r#"
public class Animal {
    public void speak() {}
}
public interface Runnable {}
"#;
    let tree = parse(src);
    let adapter = JavaAdapter::new();
    let classes = adapter.extract_classes(&tree, src.as_bytes());
    assert!(classes.iter().any(|c| c.name == "Animal" && c.kind == "class"));
    assert!(classes.iter().any(|c| c.name == "Runnable" && c.kind == "interface"));
}
