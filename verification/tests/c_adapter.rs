use codegraph::languages::c_lang::CAdapter;
use codegraph::syntax::SyntaxTree;

fn parse(source: &str) -> SyntaxTree {
    let adapter = CAdapter::new();
    adapter.parse(source.as_bytes()).unwrap()
}

#[test]
fn test_c_extract_functions() {
    let src = r#"
#include <stdio.h>

int add(int a, int b) {
    return a + b;
}

static void helper() {}
"#;
    let tree = parse(src);
    let adapter = CAdapter::new();
    let fns = adapter.extract_functions(&tree, src.as_bytes());
    assert!(fns.iter().any(|f| f.name == "add" && f.is_exported));
    assert!(fns.iter().any(|f| f.name == "helper" && !f.is_exported));
}

#[test]
fn test_c_extract_includes() {
    let src = "#include <stdio.h>\n#include \"mylib.h\"\n";
    let tree = parse(src);
    let adapter = CAdapter::new();
    let imports = adapter.extract_imports(&tree, src.as_bytes());
    assert!(imports.iter().any(|i| i.source == "stdio.h" && i.is_default));
    assert!(imports.iter().any(|i| i.source == "mylib.h" && !i.is_default));
}

#[test]
fn test_c_extract_structs() {
    let src = r#"
struct Point {
    int x;
    int y;
};
"#;
    let tree = parse(src);
    let adapter = CAdapter::new();
    let classes = adapter.extract_classes(&tree, src.as_bytes());
    assert!(classes.iter().any(|c| c.name == "Point" && c.kind == "struct"));
}
