use codegraph::graph::{
    ClassInfo, CodeGraph, FileEntry, FunctionInfo, GraphConfig, GraphSummary, ImportInfo,
    ModuleEntry, ProjectInfo, TypeInfo,
};
use codegraph::query::{
    find_callers, format_module_result, format_symbol_results, matches_symbol, query_dependants,
    query_dependencies, query_module, query_symbol, QueryOptions,
};
use codegraph::str_map::StrMap;

fn make_graph() -> CodeGraph {
    let mut files = StrMap::new();

    files.insert(
        "auth/login.ts".to_string(),
        FileEntry {
            language: "typescript".into(),
            module: "auth".into(),
            hash: "sha256:abc".into(),
            lines: 30,
            functions: vec![
                FunctionInfo {
                    name: "login".into(),
                    signature: "login(user: string, pass: string): boolean".into(),
                    start_line: 5,
                    end_line: 15,
                },
                FunctionInfo {
                    name: "logout".into(),
                    signature: "logout(): void".into(),
                    start_line: 17,
                    end_line: 20,
                },
            ],
            classes: vec![ClassInfo { name: "AuthService".into(), start_line: 1, end_line: 30 }],
            types: vec![TypeInfo {
                name: "UserToken".into(),
                kind: "type".into(),
                start_line: 2,
                end_line: 2,
            }],
            imports: vec![ImportInfo {
                source: "./utils".into(),
                symbols: vec!["hashPassword".into()],
                is_external: false,
            }],
            exports: vec!["login".into(), "logout".into(), "AuthService".into()],
            is_entry_point: false,
        },
    );

    files.insert(
        "utils/helper.ts".to_string(),
        FileEntry {
            language: "typescript".into(),
            module: "utils".into(),
            hash: "sha256:def".into(),
            lines: 10,
            functions: vec![FunctionInfo {
                name: "hashPassword".into(),
                signature: "hashPassword(pw: string): string".into(),
                start_line: 1,
                end_line: 8,
            }],
            classes: vec![],
            types: vec![],
            imports: vec![],
            exports: vec!["hashPassword".into()],
            is_entry_point: false,
        },
    );

    let mut modules = StrMap::new();
    modules.insert(
        "auth".into(),
        ModuleEntry {
            files: vec!["auth/login.ts".into()],
            depends_on: vec!["utils".into()],
            depended_by: vec![],
        },
    );
    modules.insert(
        "utils".into(),
        ModuleEntry {
            files: vec!["utils/helper.ts".into()],
            depends_on: vec![],
            depended_by: vec!["auth".into()],
        },
    );

    CodeGraph {
        version: "1.0".into(),
        project: ProjectInfo { name: "test".into(), root: "/test".into() },
        scanned_at: "2026-01-01T00:00:00.000Z".into(),
        commit_hash: None,
        config: GraphConfig { languages: vec![], exclude_patterns: vec![] },
        summary: GraphSummary {
            total_files: 2,
            total_functions: 3,
            total_classes: 1,
            languages: StrMap::new(),
            modules: vec!["auth".into(), "utils".into()],
            entry_points: vec![],
        },
        modules,
        files,
    }
}

#[test]
fn test_query_exact_match() {
    let graph = make_graph();
    let results = query_symbol(&graph, "login", &QueryOptions::default());
    assert_eq!(results.len(), 1);
    assert_eq!(results[0].name, "login");
    assert_eq!(results[0].kind, "function");
    assert_eq!(results[0].module, "auth");
    assert_eq!(results[0].lines.start, 5);
}

#[test]
fn test_query_substring_match() {
    let graph = make_graph();
    let results = query_symbol(&graph, "log", &QueryOptions::default());
    assert_eq!(results.len(), 2);
    let names: Vec<&str> = results.iter().map(|r| r.name.as_str()).collect();
    assert!(names.contains(&"login"));
    assert!(names.contains(&"logout"));
}

#[test]
fn test_query_type_filter_function() {
    let graph = make_graph();
    let opts = QueryOptions { type_filter: Some("function".into()) };
    let results = query_symbol(&graph, "Auth", &opts);
    assert!(results.is_empty());
}

#[test]
fn test_query_type_filter_class() {
    let graph = make_graph();
    let opts = QueryOptions { type_filter: Some("class".into()) };
    let results = query_symbol(&graph, "Auth", &opts);
    assert_eq!(results.len(), 1);
    assert_eq!(results[0].name, "AuthService");
    assert_eq!(results[0].kind, "class");
}

#[test]
fn test_query_type_filter_type() {
    let graph = make_graph();
    let opts = QueryOptions { type_filter: Some("type".into()) };
    let results = query_symbol(&graph, "Token", &opts);
    assert_eq!(results.len(), 1);
    assert_eq!(results[0].name, "UserToken");
    assert_eq!(results[0].kind, "type");
}

#[test]
fn test_query_no_match() {
    let graph = make_graph();
    let results = query_symbol(&graph, "nonexistent_xyz", &QueryOptions::default());
    assert!(results.is_empty());
}

#[test]
fn test_find_callers() {
    let graph = make_graph();
    let callers = find_callers(&graph, "utils/helper.ts", "hashPassword");
    assert_eq!(callers.len(), 1);
    assert!(callers[0].contains("auth"));
}

#[test]
fn test_query_module() {
    let graph = make_graph();
    let result = query_module(&graph, "auth").unwrap();
    assert_eq!(result.name, "auth");
    assert!(result.depends_on.contains(&"utils".to_string()));
}

#[test]
fn test_query_module_not_found() {
    let graph = make_graph();
    assert!(query_module(&graph, "nonexistent").is_none());
}

#[test]
fn test_query_dependants() {
    let graph = make_graph();
    let deps = query_dependants(&graph, "utils");
    assert!(deps.contains(&"auth".to_string()));
}

#[test]
fn test_query_dependencies() {
    let graph = make_graph();
    let deps = query_dependencies(&graph, "auth");
    assert!(deps.contains(&"utils".to_string()));
}

#[test]
fn test_format_symbol_results_empty() {
    let out = format_symbol_results(&vec![]);
    assert_eq!(out, "No symbols found.");
}

#[test]
fn test_format_symbol_results() {
    let graph = make_graph();
    let results = query_symbol(&graph, "login", &QueryOptions::default());
    let out = format_symbol_results(&results);
    assert!(out.contains("[function]"));
    assert!(out.contains("login"));
    assert!(out.contains("auth/login.ts"));
}

#[test]
fn hits_carry_imports_and_callers() {
    let graph = make_graph();
    let hits = query_symbol(&graph, "hashPassword", &QueryOptions::default());
    assert_eq!(hits.len(), 1);
    assert_eq!(hits[0].file, "utils/helper.ts");
    assert_eq!(hits[0].signature.as_deref(), Some("hashPassword(pw: string): string"));
    assert_eq!(hits[0].imported_by, vec!["auth:auth/login.ts"]);
    assert!(hits[0].file_imports.is_empty());
    assert_eq!(hits[0].lines.end, 8);

    let login = query_symbol(&graph, "login", &QueryOptions::default());
    assert_eq!(login[0].file_imports, vec!["hashPassword"]);
    assert!(login[0].imported_by.is_empty());
}

#[test]
fn hits_are_sorted_by_file_and_name() {
    let graph = make_graph();
    let all = query_symbol(&graph, "", &QueryOptions::default());
    let pairs: Vec<(&str, &str)> = all.iter().map(|r| (r.file.as_str(), r.name.as_str())).collect();
    assert_eq!(
        pairs,
        vec![
            ("auth/login.ts", "AuthService"),
            ("auth/login.ts", "UserToken"),
            ("auth/login.ts", "login"),
            ("auth/login.ts", "logout"),
            ("utils/helper.ts", "hashPassword"),
        ]
    );
}

#[test]
fn text_of_hits_and_modules() {
    let graph = make_graph();
    let hits = query_symbol(&graph, "hashPassword", &QueryOptions::default());
    assert_eq!(
        format_symbol_results(&hits),
        "[function] hashPassword (utils/helper.ts:1)\n  signature: hashPassword(pw: string): string\n  module:    utils\n  lines:     1-8\n  importedBy: auth:auth/login.ts"
    );
    let classes = query_symbol(&graph, "Auth", &QueryOptions::default());
    assert_eq!(
        format_symbol_results(&classes),
        "[class] AuthService (auth/login.ts:1)\n  module:    auth\n  lines:     1-30"
    );
    let module = query_module(&graph, "auth").unwrap();
    assert_eq!(
        format_module_result(&module),
        "module: auth\n  files (1):\n    auth/login.ts\n  dependsOn: utils"
    );
    let utils = query_module(&graph, "utils").unwrap();
    assert_eq!(
        format_module_result(&utils),
        "module: utils\n  files (1):\n    utils/helper.ts\n  dependedBy: auth"
    );
}

#[test]
fn unknown_modules_have_no_edges() {
    let graph = make_graph();
    assert!(query_dependants(&graph, "nope").is_empty());
    assert!(query_dependencies(&graph, "nope").is_empty());
    assert_eq!(query_dependants(&graph, "utils"), vec!["auth"]);
    assert_eq!(query_dependencies(&graph, "auth"), vec!["utils"]);
    assert_eq!(query_module(&graph, "auth").unwrap().files, vec!["auth/login.ts"]);
}

#[test]
fn symbol_matching() {
    assert!(matches_symbol("login", "login"));
    assert!(matches_symbol("login", "log"));
    assert!(matches_symbol("login", ""));
    assert!(!matches_symbol("log", "login"));
    assert!(!matches_symbol("login", "Login"));
}
