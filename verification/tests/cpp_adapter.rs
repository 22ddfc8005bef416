use codegraph::languages::cpp::CppAdapter;
use codegraph::syntax::SyntaxTree;

fn parse(source: &str) -> SyntaxTree {
    let adapter = CppAdapter::new();
    adapter.parse(source.as_bytes()).unwrap()
}

#[test]
fn test_cpp_extract_functions() {
    let src = r#"
#include <string>

class Engine {
public:
    void start() {}
    void stop() {}
};

int main() {
    return 0;
}
"#;
    let tree = parse(src);
    let adapter = CppAdapter::new();
    let fns = adapter.extract_functions(&tree, src.as_bytes());
    assert!(fns.iter().any(|f| f.name == "main"));
}

#[test]
fn test_cpp_extract_includes() {
    let src = "#include <vector>\n#include \"engine.h\"\n";
    let tree = parse(src);
    let adapter = CppAdapter::new();
    let imports = adapter.extract_imports(&tree, src.as_bytes());
    assert!(imports.iter().any(|i| i.source == "vector" && i.is_default));
    assert!(imports.iter().any(|i| i.source == "engine.h" && !i.is_default));
}

#[test]
fn test_cpp_extract_classes() {
    let src = r#"
class Animal {
public:
    void speak() {}
};

struct Point {
    int x, y;
};
"#;
    let tree = parse(src);
    let adapter = CppAdapter::new();
    let classes = adapter.extract_classes(&tree, src.as_bytes());
    assert!(classes.iter().any(|c| c.name == "Animal" && c.kind == "class"));
    assert!(classes.iter().any(|c| c.name == "Point" && c.kind == "struct"));
}

#[test]
fn test_cpp_namespace_exports() {
    let src = r#"
namespace MyLib {
    void helper() {}
}
"#;
    let tree = parse(src);
    let adapter = CppAdapter::new();
    let exports = adapter.extract_exports(&tree, src.as_bytes());
    assert!(!exports.iter().any(|e| e.name == "MyLib" && e.kind == "namespace"),
        "namespace should not appear in exports");
}
