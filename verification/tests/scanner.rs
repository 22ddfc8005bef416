use codegraph::languages::facts::{ClassInfo, FunctionInfo, ImportInfo};
use codegraph::scanner::{
    convert_classes, convert_exports, convert_functions, convert_imports, convert_types,
    count_lines, detect_module_name, index_file, scan_sources, SourceFile,
};
use codegraph::traverser::Language;

#[test]
fn test_detect_module_name_root() {
    assert_eq!(detect_module_name("/project/main.rs", "/project"), "_root");
}

#[test]
fn test_detect_module_name_src() {
    assert_eq!(detect_module_name("/project/src/auth/login.ts", "/project"), "auth");
}

#[test]
fn test_detect_module_name_direct_subdir() {
    assert_eq!(detect_module_name("/project/utils/helper.ts", "/project"), "utils");
}

#[test]
fn test_detect_module_name_src_root() {
    assert_eq!(detect_module_name("/project/src/index.ts", "/project"), "_root");
}

#[test]
fn test_convert_functions_generates_signature() {
    let lang_fns = vec![
        FunctionInfo {
            name: "greet".to_string(),
            start_line: 1,
            end_line: 3,
            params: vec!["name".to_string(), "age".to_string()],
            is_exported: true,
        },
        FunctionInfo {
            name: "noop".to_string(),
            start_line: 5,
            end_line: 6,
            params: vec![],
            is_exported: false,
        },
    ];
    let result = convert_functions(&lang_fns);
    assert_eq!(result.len(), 2);
    assert_eq!(result[0].signature, "greet(name, age)");
    assert_eq!(result[1].signature, "noop()");
}

#[test]
fn test_convert_classes_filters_non_class() {
    let lang_classes = vec![
        ClassInfo {
            name: "MyClass".to_string(),
            start_line: 1,
            end_line: 10,
            methods: vec![],
            kind: "class".to_string(),
        },
        ClassInfo {
            name: "MyTrait".to_string(),
            start_line: 12,
            end_line: 20,
            methods: vec![],
            kind: "trait".to_string(),
        },
        ClassInfo {
            name: "MyStruct".to_string(),
            start_line: 22,
            end_line: 30,
            methods: vec![],
            kind: "struct".to_string(),
        },
    ];
    let classes = convert_classes(&lang_classes);
    assert_eq!(classes.len(), 2);
    assert!(classes.iter().any(|c| c.name == "MyClass"));
    assert!(classes.iter().any(|c| c.name == "MyStruct"));
}

#[test]
fn test_convert_types_excludes_python_class() {
    let lang_classes = vec![
        ClassInfo {
            name: "MyClass".to_string(),
            start_line: 1,
            end_line: 10,
            methods: vec![],
            kind: "class".to_string(),
        },
        ClassInfo {
            name: "MyEnum".to_string(),
            start_line: 12,
            end_line: 20,
            methods: vec![],
            kind: "enum".to_string(),
        },
    ];
    let types_py = convert_types(&lang_classes, Language::Python);
    assert_eq!(types_py.len(), 1);
    assert_eq!(types_py[0].name, "MyEnum");

    let types_ts = convert_types(&lang_classes, Language::TypeScript);
    assert_eq!(types_ts.len(), 2);
}

#[test]
fn test_convert_imports_is_external() {
    let lang_imports = vec![
        ImportInfo {
            source: "./utils".to_string(),
            names: vec!["helper".to_string()],
            is_default: false,
        },
        ImportInfo {
            source: "react".to_string(),
            names: vec!["useState".to_string()],
            is_default: false,
        },
    ];
    let imports = convert_imports(&lang_imports);
    assert_eq!(imports[0].is_external, false);
    assert_eq!(imports[1].is_external, true);
}

#[test]
fn module_names_skip_common_top_directories() {
    assert_eq!(detect_module_name("README.rs", ""), "_root");
    assert_eq!(detect_module_name("src/lib/core/a.ts", ""), "core");
    assert_eq!(detect_module_name("packages/web/src/a.ts", ""), "web");
    assert_eq!(detect_module_name("app/main.py", ""), "_root");
    assert_eq!(detect_module_name("/elsewhere/a.ts", "/project"), "_root");
    assert_eq!(detect_module_name("./src//auth/./login.ts", "."), "auth");
}

#[test]
fn conversions_keep_names_and_lines() {
    let lang_fns = vec![FunctionInfo {
        name: "f".to_string(),
        start_line: 7,
        end_line: 9,
        params: vec!["x".to_string()],
        is_exported: false,
    }];
    let fns = convert_functions(&lang_fns);
    assert_eq!(fns[0].name, "f");
    assert_eq!(fns[0].signature, "f(x)");
    assert_eq!((fns[0].start_line, fns[0].end_line), (7, 9));
    let exports = convert_exports(&vec![codegraph::languages::facts::ExportInfo {
        name: "f".to_string(),
        kind: "function".to_string(),
    }]);
    assert_eq!(exports, vec!["f"]);
    let imports = convert_imports(&vec![ImportInfo {
        source: "".to_string(),
        names: vec![],
        is_default: false,
    }]);
    assert!(imports[0].is_external);
}

#[test]
fn line_counts() {
    assert_eq!(count_lines(b""), 1);
    assert_eq!(count_lines(b"a"), 1);
    assert_eq!(count_lines(b"a\nb"), 2);
    assert_eq!(count_lines(b"a = 1\nb = 2\nc = 3\n"), 4);
}

fn source(path: &str, text: &str) -> SourceFile {
    SourceFile { rel_path: path.to_string(), content: text.as_bytes().to_vec() }
}

#[test]
fn scan_of_two_typescript_modules() {
    let sources = vec![
        source(
            "src/auth/login.ts",
            "import { helper } from '../utils/helper';\nexport function login(user: string) { return helper(user); }\n",
        ),
        source("src/utils/helper.ts", "export function helper(x: string) { return x; }\n"),
    ];
    let g = scan_sources("demo", "/demo", &sources);
    assert_eq!(g.version, "1.0");
    assert_eq!(g.project.name, "demo");
    assert_eq!(g.summary.total_files, 2);
    assert_eq!(g.summary.modules, vec!["auth", "utils"]);
    assert_eq!(g.modules.get("auth").unwrap().depends_on, vec!["utils"]);
    assert_eq!(g.modules.get("utils").unwrap().depended_by, vec!["auth"]);
    let login = g.files.get("src/auth/login.ts").unwrap();
    assert_eq!(login.language, "typescript");
    assert_eq!(login.module, "auth");
    assert_eq!(login.functions.len(), 1);
    assert_eq!(login.functions[0].name, "login");
    assert_eq!(login.functions[0].signature, "login(user)");
    assert_eq!(login.imports[0].source, "../utils/helper");
    assert_eq!(login.imports[0].symbols, vec!["helper"]);
    assert!(!login.imports[0].is_external);
    assert_eq!(login.exports, vec!["login"]);
    assert_eq!(login.lines, 3);
    assert!(login.hash.starts_with("sha256:"));
    assert_eq!(g.summary.total_functions, 2);
    assert_eq!(g.summary.languages.get("typescript"), Some(&2));
}

#[test]
fn scan_of_an_empty_project() {
    let g = scan_sources("empty", "/empty", &vec![]);
    assert_eq!(g.summary.total_files, 0);
    assert_eq!(g.summary.total_functions, 0);
    assert_eq!(g.summary.total_classes, 0);
    assert_eq!(g.modules.len(), 0);
    assert_eq!(g.files.len(), 0);
    assert!(g.summary.modules.is_empty());
    assert!(g.summary.entry_points.is_empty());
    assert_eq!(g.summary.languages.len(), 0);
}

#[test]
fn scan_skips_unknown_files_and_puts_root_files_in_root() {
    let sources = vec![
        source("README.rs", "pub fn readme() {}\n"),
        source("notes.txt", "hello"),
        source("src\\win\\main.go", "package main\nfunc main() {}\n"),
    ];
    let g = scan_sources("p", "/p", &sources);
    assert_eq!(g.summary.total_files, 2);
    assert_eq!(g.files.get("README.rs").unwrap().module, "_root");
    assert_eq!(g.files.get("src/win/main.go").unwrap().module, "win");
    assert!(g.files.get("src/win/main.go").unwrap().is_entry_point);
    assert_eq!(g.summary.entry_points, vec!["src/win/main.go"]);
    assert_eq!(g.summary.modules, vec!["_root", "win"]);
    assert_eq!(g.config.languages, vec!["go", "rust"]);
}

#[test]
fn headers_are_c_until_the_project_holds_cpp() {
    let header = "struct Point { int x; };\n";
    let only_c = vec![source("inc/p.h", header), source("src/p.c", "int f() { return 0; }\n")];
    let g = scan_sources("p", "/p", &only_c);
    assert_eq!(g.files.get("inc/p.h").unwrap().language, "c");

    let mixed = vec![source("inc/p.h", header), source("src/e.cpp", "int g() { return 0; }\n")];
    let g = scan_sources("p", "/p", &mixed);
    assert_eq!(g.files.get("inc/p.h").unwrap().language, "cpp");
    assert_eq!(g.files.get("src/e.cpp").unwrap().language, "cpp");
}

#[test]
fn two_scans_of_the_same_sources_agree() {
    let sources = vec![
        source("src/a/x.ts", "import { y } from '../b/y';\nexport const x = () => y();\n"),
        source("src/b/y.ts", "export function y() {}\n"),
        source("src/c/z.py", "def z():\n    pass\n"),
    ];
    let one = scan_sources("p", "/p", &sources);
    let two = scan_sources("p", "/p", &sources);
    assert_eq!(one.summary.modules, two.summary.modules);
    assert_eq!(one.files.key_list(), two.files.key_list());
    for path in one.files.key_list() {
        let a = one.files.get(&path).unwrap();
        let b = two.files.get(&path).unwrap();
        assert_eq!(a.hash, b.hash);
        assert_eq!(a.module, b.module);
        assert_eq!(a.exports, b.exports);
        assert_eq!(a.functions.len(), b.functions.len());
    }
    for name in one.modules.key_list() {
        let a = one.modules.get(&name).unwrap();
        let b = two.modules.get(&name).unwrap();
        assert_eq!(a.files, b.files);
        assert_eq!(a.depends_on, b.depends_on);
        assert_eq!(a.depended_by, b.depended_by);
    }
    assert_eq!(one.summary.total_functions, two.summary.total_functions);
}

#[test]
fn files_without_a_language_are_not_indexed() {
    assert!(index_file("notes.txt", b"text", false).is_none());
    assert!(index_file("Makefile", b"all:", false).is_none());
    let e = index_file("src/m/a.py", b"def f():\n    pass\n", false).unwrap();
    assert_eq!(e.language, "python");
    assert_eq!(e.module, "m");
    assert_eq!(e.functions[0].name, "f");
}

#[test]
fn files_are_indexed_under_their_normal_path() {
    let sources = vec![
        SourceFile { rel_path: "./src//auth/./login.ts".to_string(), content: b"export function login() {}\n".to_vec() },
        SourceFile { rel_path: "src\\auth\\..\\utils\\helper.ts".to_string(), content: b"export function helper() {}\n".to_vec() },
    ];
    let graph = scan_sources("p", "/p", &sources);
    assert_eq!(graph.files.key_list(), vec!["src/auth/login.ts", "src/utils/helper.ts"]);
    assert_eq!(graph.files.get("src/utils/helper.ts").unwrap().module, "utils");
    assert_eq!(graph.summary.modules, vec!["auth", "utils"]);
}
