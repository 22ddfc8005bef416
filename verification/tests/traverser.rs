use codegraph::traverser::{
    detect_language, effective_language, has_cpp_source_files, is_excluded, Language,
};

#[test]
fn test_detect_language_typescript() {
    assert_eq!(detect_language("foo.ts"), Some(Language::TypeScript));
    assert_eq!(detect_language("foo.tsx"), Some(Language::TypeScript));
}

#[test]
fn test_detect_language_javascript() {
    assert_eq!(detect_language("foo.js"), Some(Language::JavaScript));
    assert_eq!(detect_language("foo.jsx"), Some(Language::JavaScript));
    assert_eq!(detect_language("foo.mjs"), Some(Language::JavaScript));
}

#[test]
fn test_detect_language_others() {
    assert_eq!(detect_language("foo.py"), Some(Language::Python));
    assert_eq!(detect_language("foo.go"), Some(Language::Go));
    assert_eq!(detect_language("foo.rs"), Some(Language::Rust));
    assert_eq!(detect_language("foo.java"), Some(Language::Java));
    assert_eq!(detect_language("foo.c"), Some(Language::C));
    assert_eq!(detect_language("foo.cpp"), Some(Language::Cpp));
}

#[test]
fn test_detect_language_unknown() {
    assert_eq!(detect_language("foo.txt"), None);
    assert_eq!(detect_language("foo.json"), None);
}

#[test]
fn test_h_reclassification() {
    let path = "foo.h";
    assert_eq!(effective_language(path, Language::C, false), Language::C);
    assert_eq!(effective_language(path, Language::C, true), Language::Cpp);
}

#[test]
fn test_has_cpp_source_files() {
    let files: Vec<String> = vec!["a.ts".to_string(), "b.cpp".to_string()];
    assert!(has_cpp_source_files(&files));

    let no_cpp: Vec<String> = vec!["a.c".to_string(), "b.h".to_string()];
    assert!(!has_cpp_source_files(&no_cpp));
}

#[test]
fn detect_language_covers_every_extension() {
    assert_eq!(detect_language("a.cjs"), Some(Language::JavaScript));
    assert_eq!(detect_language("a.h"), Some(Language::C));
    assert_eq!(detect_language("a.cc"), Some(Language::Cpp));
    assert_eq!(detect_language("a.cxx"), Some(Language::Cpp));
    assert_eq!(detect_language("a.hpp"), Some(Language::Cpp));
    assert_eq!(detect_language("a.hh"), Some(Language::Cpp));
}

#[test]
fn detect_language_ignores_case_and_directories() {
    assert_eq!(detect_language("src/Main.TS"), Some(Language::TypeScript));
    assert_eq!(detect_language("dir.ts/readme"), None);
    assert_eq!(detect_language(".ts"), None);
    assert_eq!(detect_language("noext"), None);
}

#[test]
fn language_tags() {
    assert_eq!(Language::TypeScript.as_str(), "typescript");
    assert_eq!(Language::JavaScript.as_str(), "javascript");
    assert_eq!(Language::Python.as_str(), "python");
    assert_eq!(Language::Go.as_str(), "go");
    assert_eq!(Language::Rust.as_str(), "rust");
    assert_eq!(Language::Java.as_str(), "java");
    assert_eq!(Language::C.as_str(), "c");
    assert_eq!(Language::Cpp.as_str(), "cpp");
}

#[test]
fn c_header_language_depends_on_the_project() {
    let alone: Vec<String> = vec!["include/api.h".to_string(), "src/api.c".to_string()];
    let has_cpp = has_cpp_source_files(&alone);
    assert!(!has_cpp);
    let base = detect_language("include/api.h").unwrap();
    assert_eq!(effective_language("include/api.h", base, has_cpp).as_str(), "c");

    let mixed: Vec<String> = vec!["include/api.h".to_string(), "src/engine.cpp".to_string()];
    let has_cpp = has_cpp_source_files(&mixed);
    assert!(has_cpp);
    assert_eq!(effective_language("include/api.h", base, has_cpp).as_str(), "cpp");
}

#[test]
fn only_c_headers_are_reclassified() {
    assert_eq!(effective_language("foo.c", Language::C, true), Language::C);
    assert_eq!(effective_language("foo.ts", Language::TypeScript, true), Language::TypeScript);
    assert_eq!(effective_language("foo.H", Language::C, true), Language::Cpp);
}

#[test]
fn exclusion_by_component() {
    let none: Vec<String> = vec![];
    assert!(is_excluded("/p/node_modules/x/a.js", "/p", &none));
    assert!(is_excluded("/p/src/target/a.rs", "/p", &none));
    assert!(is_excluded("/p/.codemap/graph.json", "/p", &none));
    assert!(!is_excluded("/p/src/a.rs", "/p", &none));
    assert!(!is_excluded("/other/node_modules/a.js", "/p", &none));
    let extra: Vec<String> = vec!["generated".to_string()];
    assert!(is_excluded("/p/src/generated/a.ts", "/p", &extra));
    assert!(!is_excluded("/p/src/generated2/a.ts", "/p", &extra));
}

#[test]
fn the_extension_of_shared_headers() {
    assert!(codegraph::traverser::header_extension("h"));
    assert!(!codegraph::traverser::header_extension("hpp"));
    assert!(!codegraph::traverser::header_extension("H"));
    assert!(!codegraph::traverser::header_extension(""));
}
