use codegraph::languages::c_lang::bare_identifier;
use codegraph::languages::cpp::CppAdapter;
use codegraph::languages::facts::strip_quotes;
use codegraph::languages::go_lang::{is_go_exported, GoAdapter};
use codegraph::languages::java::JavaAdapter;
use codegraph::languages::javascript::JavaScriptAdapter;
use codegraph::languages::python::PythonAdapter;
use codegraph::languages::rust_lang::RustAdapter;
use codegraph::languages::typescript::TypeScriptAdapter;
use codegraph::languages::{extract_exports, extract_functions, get_adapter};
use codegraph::parser::{parse_source, Grammar};
use codegraph::traverser::Language;

#[test]
fn python_empty_all_exports_nothing() {
    let src = "__all__ = []\ndef foo(): pass\nclass Bar: pass\n";
    let adapter = PythonAdapter::new();
    let tree = adapter.parse(src.as_bytes()).unwrap();
    assert!(adapter.extract_exports(&tree, src.as_bytes()).is_empty());
    assert_eq!(adapter.extract_functions(&tree, src.as_bytes()).len(), 1);
}

#[test]
fn python_all_is_the_export_list() {
    let src = "def foo(): pass\ndef bar(): pass\ndef _private(): pass\n__all__ = [\"foo\", 'bar']\n";
    let adapter = PythonAdapter::new();
    let tree = adapter.parse(src.as_bytes()).unwrap();
    let exports = adapter.extract_exports(&tree, src.as_bytes());
    let pairs: Vec<(&str, &str)> = exports.iter().map(|e| (e.name.as_str(), e.kind.as_str())).collect();
    assert_eq!(pairs, vec![("foo", "variable"), ("bar", "variable")]);
}

#[test]
fn python_without_all_exports_top_level_definitions() {
    let src = "import os\n\n@decorator\ndef foo(a, b=1, *args):\n    def inner(): pass\n\nclass C:\n    def m(self): pass\n\n__all__ = 3\n";
    let adapter = PythonAdapter::new();
    let tree = adapter.parse(src.as_bytes()).unwrap();
    let exports = adapter.extract_exports(&tree, src.as_bytes());
    let pairs: Vec<(&str, &str)> = exports.iter().map(|e| (e.name.as_str(), e.kind.as_str())).collect();
    assert_eq!(pairs, vec![("foo", "function"), ("C", "class")]);
    let fns = adapter.extract_functions(&tree, src.as_bytes());
    assert_eq!(fns.len(), 1);
    assert_eq!(fns[0].name, "foo");
    assert_eq!(fns[0].params, vec!["a", "b"]);
    assert_eq!((fns[0].start_line, fns[0].end_line), (3, 5));
    assert!(fns[0].is_exported);
    let classes = adapter.extract_classes(&tree, src.as_bytes());
    assert_eq!(classes[0].methods, vec!["m"]);
    let imports = adapter.extract_imports(&tree, src.as_bytes());
    assert_eq!(imports[0].source, "os");
    assert_eq!(imports[0].names, vec!["os"]);
}

#[test]
fn python_from_imports() {
    let src = "from a.b import c, d as e\nfrom . import utils\nfrom x import *\nimport p.q as r\n";
    let adapter = PythonAdapter::new();
    let tree = adapter.parse(src.as_bytes()).unwrap();
    let imports = adapter.extract_imports(&tree, src.as_bytes());
    assert_eq!(imports.len(), 4);
    assert_eq!(imports[0].source, "a.b");
    assert_eq!(imports[0].names, vec!["c", "d"]);
    assert_eq!(imports[1].names, vec!["utils"]);
    assert_eq!(imports[2].source, "x");
    assert_eq!(imports[2].names, vec!["*"]);
    assert_eq!(imports[3].source, "p.q");
    assert!(imports.iter().all(|i| !i.is_default));
}

#[test]
fn rust_pub_fn_inside_impl_is_no_export() {
    let src = "pub struct Foo;\nimpl Foo {\n    pub fn method(&self, x: u8) {}\n}\npub fn free(a: i32, b: &str) {}\nfn hidden() {}\npub mod m {}\npub type T = u8;\n";
    let adapter = RustAdapter::new();
    let tree = adapter.parse(src.as_bytes()).unwrap();
    let fns = adapter.extract_functions(&tree, src.as_bytes());
    let names: Vec<&str> = fns.iter().map(|f| f.name.as_str()).collect();
    assert_eq!(names, vec!["Foo::method", "free", "hidden"]);
    assert!(fns[0].is_exported);
    assert_eq!(fns[0].params, vec!["&self", "x"]);
    assert_eq!(fns[1].params, vec!["a", "b"]);
    assert!(!fns[2].is_exported);
    assert_eq!((fns[0].start_line, fns[0].end_line), (3, 3));
    let exports = adapter.extract_exports(&tree, src.as_bytes());
    let pairs: Vec<(&str, &str)> = exports.iter().map(|e| (e.name.as_str(), e.kind.as_str())).collect();
    assert_eq!(pairs, vec![("Foo", "struct"), ("free", "function"), ("m", "module"), ("T", "type")]);
}

#[test]
fn rust_use_trees() {
    let src = "use a::b::{c, d};\nuse std::io;\nuse solo;\nuse x::y::{self, z::w};\n";
    let adapter = RustAdapter::new();
    let tree = adapter.parse(src.as_bytes()).unwrap();
    let imports = adapter.extract_imports(&tree, src.as_bytes());
    assert_eq!(imports.len(), 4);
    assert_eq!(imports[0].source, "a::b");
    assert_eq!(imports[0].names, vec!["c", "d"]);
    assert_eq!(imports[1].source, "std");
    assert_eq!(imports[1].names, vec!["io"]);
    assert_eq!(imports[2].source, "solo");
    assert_eq!(imports[2].names, vec!["solo"]);
    assert_eq!(imports[3].source, "x::y");
    assert_eq!(imports[3].names, vec!["self", "w"]);
}

#[test]
fn go_lowercase_function_is_extracted_but_not_exported() {
    let src = "package main\n\nimport alias \"net/http\"\nimport \"fmt\"\n\nfunc helper(a int, b ...string) {}\nfunc (s *Server) Serve(x int) {}\ntype Server struct{}\ntype handler interface{}\ntype Id int\n";
    let adapter = GoAdapter::new();
    let tree = adapter.parse(src.as_bytes()).unwrap();
    let fns = adapter.extract_functions(&tree, src.as_bytes());
    assert_eq!(fns.len(), 2);
    assert_eq!(fns[0].name, "helper");
    assert!(!fns[0].is_exported);
    assert_eq!(fns[0].params, vec!["a", "b"]);
    assert_eq!(fns[1].name, "Serve");
    assert!(fns[1].is_exported);
    let exports = adapter.extract_exports(&tree, src.as_bytes());
    let pairs: Vec<(&str, &str)> = exports.iter().map(|e| (e.name.as_str(), e.kind.as_str())).collect();
    assert_eq!(pairs, vec![("Serve", "function"), ("Server", "struct"), ("Id", "type")]);
    let classes = adapter.extract_classes(&tree, src.as_bytes());
    let kinds: Vec<(&str, &str)> = classes.iter().map(|c| (c.name.as_str(), c.kind.as_str())).collect();
    assert_eq!(kinds, vec![("Server", "struct"), ("handler", "interface")]);
    let imports = adapter.extract_imports(&tree, src.as_bytes());
    assert_eq!(imports[0].source, "net/http");
    assert_eq!(imports[0].names, vec!["alias"]);
    assert_eq!(imports[1].source, "fmt");
    assert_eq!(imports[1].names, vec!["fmt"]);
    assert!(is_go_exported("Hello"));
    assert!(!is_go_exported("hello"));
    assert!(!is_go_exported(""));
    assert!(!is_go_exported("_X"));
}

#[test]
fn cpp_namespace_is_a_class_but_no_export() {
    let src = "namespace MyLib {\n    void helper() {}\n}\n";
    let adapter = CppAdapter::new();
    let tree = adapter.parse(src.as_bytes()).unwrap();
    let classes = adapter.extract_classes(&tree, src.as_bytes());
    assert!(classes.iter().any(|c| c.name == "MyLib" && c.kind == "namespace"));
    let exports = adapter.extract_exports(&tree, src.as_bytes());
    assert!(!exports.iter().any(|e| e.name == "MyLib"));
    let pairs: Vec<(&str, &str)> = exports.iter().map(|e| (e.name.as_str(), e.kind.as_str())).collect();
    assert_eq!(pairs, vec![("helper", "function")]);
}

#[test]
fn cpp_classes_enums_and_qualified_names() {
    let src = "#include <vector>\n#include \"engine.h\"\nclass Engine {\npublic:\n    void start() {}\n    int stop(int code) { return code; }\n};\nstruct Fwd;\nenum Color { Red, Green };\nenum Later;\nvoid Engine::run(int *speed, char c) {}\nstatic int hidden() { return 0; }\ntypedef struct Point { int x; } PointT;\nstruct Point;\n";
    let adapter = CppAdapter::new();
    let tree = adapter.parse(src.as_bytes()).unwrap();
    let classes = adapter.extract_classes(&tree, src.as_bytes());
    let kinds: Vec<(&str, &str)> = classes.iter().map(|c| (c.name.as_str(), c.kind.as_str())).collect();
    assert_eq!(kinds, vec![("Engine", "class"), ("Point", "struct"), ("Color", "enum")]);
    assert_eq!(classes[0].methods, vec!["start", "stop"]);
    assert_eq!((classes[0].start_line, classes[0].end_line), (3, 7));
    let fns = adapter.extract_functions(&tree, src.as_bytes());
    let names: Vec<&str> = fns.iter().map(|f| f.name.as_str()).collect();
    assert_eq!(names, vec!["start", "stop", "Engine::run", "hidden"]);
    assert_eq!(fns[2].params, vec!["speed", "c"]);
    assert!(fns[2].is_exported);
    assert!(!fns[3].is_exported);
    let exports = adapter.extract_exports(&tree, src.as_bytes());
    let pairs: Vec<(&str, &str)> = exports.iter().map(|e| (e.name.as_str(), e.kind.as_str())).collect();
    assert_eq!(
        pairs,
        vec![
            ("Engine", "struct"),
            ("start", "function"),
            ("stop", "function"),
            ("Color", "enum"),
            ("run", "function"),
            ("PointT", "typedef"),
            ("Point", "struct"),
        ]
    );
    let imports = adapter.extract_imports(&tree, src.as_bytes());
    assert_eq!(imports[0].source, "vector");
    assert!(imports[0].is_default);
    assert!(imports[0].names.is_empty());
    assert_eq!(imports[1].source, "engine.h");
    assert!(!imports[1].is_default);
}

#[test]
fn java_members_and_imports() {
    let src = "import java.util.List;\nimport static java.lang.Math.*;\npublic class A {\n    public A(int size) {}\n    void m(String s, int... rest) {}\n    interface Inner { void n(); }\n}\nenum E { X }\n";
    let adapter = JavaAdapter::new();
    let tree = adapter.parse(src.as_bytes()).unwrap();
    let fns = adapter.extract_functions(&tree, src.as_bytes());
    let names: Vec<&str> = fns.iter().map(|f| f.name.as_str()).collect();
    assert_eq!(names, vec!["A.A", "A.m", "Inner.n"]);
    assert!(fns[0].is_exported);
    assert!(!fns[1].is_exported);
    assert_eq!(fns[1].params, vec!["s"]);
    let exports = adapter.extract_exports(&tree, src.as_bytes());
    let pairs: Vec<(&str, &str)> = exports.iter().map(|e| (e.name.as_str(), e.kind.as_str())).collect();
    assert_eq!(pairs, vec![("A", "class")]);
    let classes = adapter.extract_classes(&tree, src.as_bytes());
    let kinds: Vec<(&str, &str)> = classes.iter().map(|c| (c.name.as_str(), c.kind.as_str())).collect();
    assert_eq!(kinds, vec![("A", "class"), ("Inner", "interface"), ("E", "enum")]);
    assert_eq!(classes[0].methods, vec!["m", "n"]);
    let imports = adapter.extract_imports(&tree, src.as_bytes());
    assert_eq!(imports[0].source, "java.util");
    assert_eq!(imports[0].names, vec!["List"]);
    assert_eq!(imports[1].source, "static java.lang.Math");
    assert_eq!(imports[1].names, vec!["*"]);
}

#[test]
fn typescript_and_javascript_differ_in_types_and_parameters() {
    let src = "import Def, { a, b as c } from './m';\nexport function f(x: number, y?: string): void {}\nexport const g = (p: T, q) => p;\nconst h = () => 1;\nexport interface I {}\nexport type U = string;\nexport class K { run() {} stop() {} }\nexport { a, c as d };\nfunction inner() { const deep = () => 2; }\n";
    let ts = TypeScriptAdapter::new();
    let tree = ts.parse(src.as_bytes()).unwrap();
    let fns = ts.extract_functions(&tree, src.as_bytes());
    let names: Vec<(&str, bool)> = fns.iter().map(|f| (f.name.as_str(), f.is_exported)).collect();
    assert_eq!(names, vec![("f", true), ("g", true), ("h", false), ("inner", false)]);
    assert_eq!(fns[0].params, vec!["x", "y?"]);
    assert_eq!(fns[1].params, vec!["p", "q"]);
    assert!(fns[2].params.is_empty());
    let exports = ts.extract_exports(&tree, src.as_bytes());
    let pairs: Vec<(&str, &str)> = exports.iter().map(|e| (e.name.as_str(), e.kind.as_str())).collect();
    assert_eq!(
        pairs,
        vec![
            ("f", "function"),
            ("g", "variable"),
            ("I", "interface"),
            ("U", "type"),
            ("K", "class"),
            ("a", "variable"),
            ("c", "variable"),
        ]
    );
    let classes = ts.extract_classes(&tree, src.as_bytes());
    let kinds: Vec<(&str, &str)> = classes.iter().map(|c| (c.name.as_str(), c.kind.as_str())).collect();
    assert_eq!(kinds, vec![("I", "interface"), ("K", "class")]);
    assert_eq!(classes[1].methods, vec!["run", "stop"]);
    let imports = ts.extract_imports(&tree, src.as_bytes());
    assert_eq!(imports[0].source, "./m");
    assert_eq!(imports[0].names, vec!["a", "b", "Def"]);

    let js_src = "export function f(x, y = 2) {}\nexport class K { run() {} }\nexport const v = 1;\n";
    let js = JavaScriptAdapter::new();
    let tree = js.parse(js_src.as_bytes()).unwrap();
    let fns = js.extract_functions(&tree, js_src.as_bytes());
    assert_eq!(fns[0].params, vec!["x", "y = 2"]);
    let exports = js.extract_exports(&tree, js_src.as_bytes());
    let pairs: Vec<(&str, &str)> = exports.iter().map(|e| (e.name.as_str(), e.kind.as_str())).collect();
    assert_eq!(pairs, vec![("f", "function"), ("K", "class"), ("v", "variable")]);
}

#[test]
fn tsx_parses_markup() {
    let src = "export function App() { return <div>hi</div>; }\n";
    let tsx = TypeScriptAdapter::new_tsx();
    let tree = tsx.parse(src.as_bytes()).unwrap();
    let fns = tsx.extract_functions(&tree, src.as_bytes());
    assert_eq!(fns.len(), 1);
    assert_eq!(fns[0].name, "App");
}

#[test]
fn operations_by_language() {
    let src = b"package main\nfunc Run() {}\n";
    let tree = parse_source(Language::Go, src).unwrap();
    assert_eq!(extract_functions(Language::Go, &tree, src)[0].name, "Run");
    assert_eq!(extract_exports(Language::Go, &tree, src)[0].name, "Run");
}

#[test]
fn quotes_and_identifiers() {
    assert_eq!(strip_quotes("\"foo\""), "foo");
    assert_eq!(strip_quotes("'foo'"), "foo");
    assert_eq!(strip_quotes("`a'b`"), "a'b");
    assert_eq!(strip_quotes("\"'x'\""), "x");
    assert_eq!(strip_quotes("plain"), "plain");
    assert_eq!(strip_quotes("\"\""), "");
    assert_eq!(bare_identifier("A::B::run"), "run");
    assert_eq!(bare_identifier("run"), "run");
    assert_eq!(bare_identifier("A::"), "");
    assert_eq!(bare_identifier("a:b"), "a:b");
}

#[test]
fn adapters_by_language() {
    let src = "pub struct S;\nimpl S {\n    pub fn make() -> S { S }\n}\nfn hidden() {}\n";
    let adapter = get_adapter(Language::Rust);
    assert_eq!(adapter.language, Language::Rust);
    assert_eq!(adapter.grammar(), Grammar::Rust);
    let tree = adapter.parse(src.as_bytes()).unwrap();
    let by_enum = adapter.extract_functions(&tree, src.as_bytes());
    let by_struct = RustAdapter::new().extract_functions(&tree, src.as_bytes());
    let names: Vec<&str> = by_enum.iter().map(|f| f.name.as_str()).collect();
    assert_eq!(names, vec!["S::make", "hidden"]);
    assert_eq!(names, by_struct.iter().map(|f| f.name.as_str()).collect::<Vec<_>>());
    let exports = adapter.extract_exports(&tree, src.as_bytes());
    let exported: Vec<&str> = exports.iter().map(|e| e.name.as_str()).collect();
    assert_eq!(exported, vec!["S"]);
    let classes = adapter.extract_classes(&tree, src.as_bytes());
    assert_eq!(classes.len(), 1);
    assert_eq!(classes[0].kind, "struct");
    assert!(adapter.extract_imports(&tree, src.as_bytes()).is_empty());

    let py = get_adapter(Language::Python);
    let text = b"import os\n__all__ = []\ndef f():\n    pass\n";
    let tree = py.parse(text).unwrap();
    assert_eq!(py.extract_functions(&tree, text).len(), 1);
    assert!(py.extract_exports(&tree, text).is_empty());
    assert_eq!(py.extract_imports(&tree, text)[0].source, "os");
}
