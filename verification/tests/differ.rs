use codegraph::deps::rebuild_dependencies;
use codegraph::differ::{detect_changed_files, merge_graph_update};
use codegraph::graph::{
    create_empty_graph, ClassInfo, CodeGraph, FileEntry, FunctionInfo, GraphConfig, GraphSummary,
    ImportInfo, ModuleEntry, ProjectInfo,
};
use codegraph::str_map::StrMap;

fn hashes(pairs: &[(&str, &str)]) -> StrMap<String> {
    let mut m = StrMap::new();
    for (k, v) in pairs {
        m.insert(k.to_string(), v.to_string());
    }
    m
}

fn make_file_entry(module: &str) -> FileEntry {
    FileEntry {
        language: "typescript".to_string(),
        module: module.to_string(),
        hash: "sha256:aabbccdd11223344".to_string(),
        lines: 10,
        functions: vec![],
        classes: vec![],
        types: vec![],
        imports: vec![],
        exports: vec![],
        is_entry_point: false,
    }
}

fn module_of(files: &[&str]) -> ModuleEntry {
    ModuleEntry {
        files: files.iter().map(|f| f.to_string()).collect(),
        depends_on: vec![],
        depended_by: vec![],
    }
}

#[test]
fn test_detect_no_changes() {
    let h = hashes(&[("a.ts", "hash1"), ("b.ts", "hash2")]);
    let cs = detect_changed_files(&h, &h);
    assert!(cs.added.is_empty());
    assert!(cs.modified.is_empty());
    assert!(cs.removed.is_empty());
    assert_eq!(cs.unchanged.len(), 2);
    assert!(cs.is_empty());
}

#[test]
fn test_detect_added() {
    let old = hashes(&[("a.ts", "h1")]);
    let new = hashes(&[("a.ts", "h1"), ("b.ts", "h2")]);
    let cs = detect_changed_files(&old, &new);
    assert_eq!(cs.added, vec!["b.ts"]);
    assert!(cs.modified.is_empty());
    assert!(cs.removed.is_empty());
}

#[test]
fn test_detect_modified() {
    let old = hashes(&[("a.ts", "h1")]);
    let new = hashes(&[("a.ts", "h2")]);
    let cs = detect_changed_files(&old, &new);
    assert!(cs.added.is_empty());
    assert_eq!(cs.modified, vec!["a.ts"]);
    assert!(cs.removed.is_empty());
}

#[test]
fn test_detect_removed() {
    let old = hashes(&[("a.ts", "h1"), ("b.ts", "h2")]);
    let new = hashes(&[("a.ts", "h1")]);
    let cs = detect_changed_files(&old, &new);
    assert!(cs.added.is_empty());
    assert!(cs.modified.is_empty());
    assert_eq!(cs.removed, vec!["b.ts"]);
}

#[test]
fn test_detect_sorted_output() {
    let old = hashes(&[]);
    let new = hashes(&[("z.ts", "h1"), ("a.ts", "h2"), ("m.ts", "h3")]);
    let cs = detect_changed_files(&old, &new);
    assert_eq!(cs.added, vec!["a.ts", "m.ts", "z.ts"]);
}

#[test]
fn test_merge_remove_file() {
    let mut graph = create_empty_graph("test", "/tmp/test");
    graph.files.insert("src/a.ts".to_string(), make_file_entry("auth"));
    graph.modules.insert("auth".to_string(), module_of(&["src/a.ts"]));
    graph.summary.total_files = 1;

    merge_graph_update(&mut graph, StrMap::new(), &vec!["src/a.ts".to_string()]);

    assert!(!graph.files.contains_key("src/a.ts"));
    assert!(!graph.modules.contains_key("auth"));
    assert_eq!(graph.summary.total_files, 0);
}

#[test]
fn test_merge_add_file() {
    let mut graph = create_empty_graph("test", "/tmp/test");

    let mut updated = StrMap::new();
    updated.insert("src/b.ts".to_string(), make_file_entry("utils"));

    merge_graph_update(&mut graph, updated, &vec![]);

    assert!(graph.files.contains_key("src/b.ts"));
    assert!(graph.modules.contains_key("utils"));
    assert_eq!(graph.modules.get("utils").unwrap().files, vec!["src/b.ts"]);
    assert_eq!(graph.summary.total_files, 1);
}

#[test]
fn test_merge_module_change() {
    let mut graph = create_empty_graph("test", "/tmp/test");
    graph.files.insert("src/a.ts".to_string(), make_file_entry("old_mod"));
    graph.modules.insert("old_mod".to_string(), module_of(&["src/a.ts"]));

    let mut updated = StrMap::new();
    updated.insert("src/a.ts".to_string(), make_file_entry("new_mod"));
    merge_graph_update(&mut graph, updated, &vec![]);

    assert!(!graph.modules.contains_key("old_mod"));
    assert!(graph.modules.contains_key("new_mod"));
    assert_eq!(graph.files.get("src/a.ts").unwrap().module, "new_mod");
}

#[test]
fn test_rebuild_dependencies() {
    let mut graph = create_empty_graph("test", "/tmp/test");

    let mut auth_file = make_file_entry("auth");
    auth_file.imports = vec![ImportInfo {
        source: "../utils/helper".to_string(),
        symbols: vec![],
        is_external: false,
    }];
    graph.files.insert("src/auth/login.ts".to_string(), auth_file);

    let utils_file = make_file_entry("utils");
    graph.files.insert("src/utils/helper.ts".to_string(), utils_file);

    graph.modules.insert("auth".to_string(), module_of(&["src/auth/login.ts"]));
    graph.modules.insert("utils".to_string(), module_of(&["src/utils/helper.ts"]));

    rebuild_dependencies(&mut graph);

    assert_eq!(graph.modules.get("auth").unwrap().depends_on, vec!["utils"]);
    assert_eq!(graph.modules.get("utils").unwrap().depended_by, vec!["auth"]);
}

fn counted_entry(module: &str, hash: &str, functions_count: usize, classes_count: usize) -> FileEntry {
    FileEntry {
        language: "typescript".to_string(),
        module: module.to_string(),
        hash: hash.to_string(),
        lines: 10,
        functions: (0..functions_count)
            .map(|i| FunctionInfo {
                name: format!("fn{}", i),
                signature: format!("fn{}()", i),
                start_line: 1,
                end_line: 2,
            })
            .collect(),
        classes: (0..classes_count)
            .map(|i| ClassInfo { name: format!("Class{}", i), start_line: 1, end_line: 5 })
            .collect(),
        types: vec![],
        imports: vec![],
        exports: vec![],
        is_entry_point: false,
    }
}

fn make_graph() -> CodeGraph {
    let mut files = StrMap::new();
    files.insert("src/auth/login.ts".to_string(), counted_entry("auth", "sha256:aaa", 1, 0));
    files.insert("src/api/routes.ts".to_string(), counted_entry("api", "sha256:bbb", 1, 0));
    files.insert("src/old/removed.ts".to_string(), counted_entry("old", "sha256:ccc", 0, 0));

    let mut modules = StrMap::new();
    modules.insert(
        "auth".to_string(),
        ModuleEntry {
            files: vec!["src/auth/login.ts".to_string()],
            depends_on: vec![],
            depended_by: vec!["api".to_string()],
        },
    );
    modules.insert(
        "api".to_string(),
        ModuleEntry {
            files: vec!["src/api/routes.ts".to_string()],
            depends_on: vec!["auth".to_string()],
            depended_by: vec![],
        },
    );
    modules.insert(
        "old".to_string(),
        ModuleEntry {
            files: vec!["src/old/removed.ts".to_string()],
            depends_on: vec![],
            depended_by: vec![],
        },
    );
    let mut languages = StrMap::new();
    languages.insert("typescript".to_string(), 3u32);

    CodeGraph {
        version: "1.0".to_string(),
        project: ProjectInfo { name: "test".to_string(), root: "/test".to_string() },
        scanned_at: "2026-01-01T00:00:00.000Z".to_string(),
        commit_hash: None,
        config: GraphConfig { languages: vec![], exclude_patterns: vec![] },
        summary: GraphSummary {
            total_files: 3,
            total_functions: 2,
            total_classes: 0,
            languages,
            modules: vec!["api".to_string(), "auth".to_string(), "old".to_string()],
            entry_points: vec![],
        },
        modules,
        files,
    }
}

#[test]
fn test_detect_changed_identifies_all_categories() {
    let old_hashes = hashes(&[
        ("src/auth/login.ts", "sha256:aaa"),
        ("src/api/routes.ts", "sha256:bbb"),
        ("src/old/removed.ts", "sha256:ccc"),
    ]);
    let new_hashes = hashes(&[
        ("src/auth/login.ts", "sha256:aaa"),
        ("src/api/routes.ts", "sha256:xxx"),
        ("src/new/added.ts", "sha256:ddd"),
    ]);

    let result = detect_changed_files(&old_hashes, &new_hashes);

    assert_eq!(result.added, vec!["src/new/added.ts"]);
    assert_eq!(result.modified, vec!["src/api/routes.ts"]);
    assert_eq!(result.removed, vec!["src/old/removed.ts"]);
    assert_eq!(result.unchanged, vec!["src/auth/login.ts"]);
}

#[test]
fn test_detect_changed_identical_hashes() {
    let h = hashes(&[("src/a.ts", "sha256:aaa"), ("src/b.ts", "sha256:bbb")]);
    let copy = hashes(&[("src/a.ts", "sha256:aaa"), ("src/b.ts", "sha256:bbb")]);

    let result = detect_changed_files(&h, &copy);
    assert!(result.added.is_empty());
    assert!(result.modified.is_empty());
    assert!(result.removed.is_empty());
    assert_eq!(result.unchanged.len(), 2);
    assert!(result.unchanged.contains(&"src/a.ts".to_string()));
    assert!(result.unchanged.contains(&"src/b.ts".to_string()));
}

#[test]
fn test_detect_changed_empty_old_hashes() {
    let new_hashes = hashes(&[("src/a.ts", "sha256:aaa"), ("src/b.ts", "sha256:bbb")]);

    let result = detect_changed_files(&StrMap::new(), &new_hashes);
    assert_eq!(result.added.len(), 2);
    assert!(result.modified.is_empty());
    assert!(result.removed.is_empty());
    assert!(result.unchanged.is_empty());
}

#[test]
fn test_merge_removes_file() {
    let mut graph = make_graph();
    merge_graph_update(&mut graph, StrMap::new(), &vec!["src/old/removed.ts".to_string()]);
    assert!(graph.files.get("src/old/removed.ts").is_none(), "removed file should be gone");
}

#[test]
fn test_merge_removes_empty_module() {
    let mut graph = make_graph();
    merge_graph_update(&mut graph, StrMap::new(), &vec!["src/old/removed.ts".to_string()]);
    assert!(graph.modules.get("old").is_none(), "empty module should be removed");
}

#[test]
fn test_merge_updates_file() {
    let mut graph = make_graph();
    let mut updated = StrMap::new();
    updated.insert("src/api/routes.ts".to_string(), counted_entry("api", "sha256:xxx", 2, 0));
    merge_graph_update(&mut graph, updated, &vec![]);
    let f = graph.files.get("src/api/routes.ts").unwrap();
    assert_eq!(f.hash, "sha256:xxx");
    assert_eq!(f.functions.len(), 2);
}

#[test]
fn test_merge_adds_new_file_and_module() {
    let mut graph = make_graph();
    let mut updated = StrMap::new();
    updated.insert("src/new/added.ts".to_string(), counted_entry("newmod", "sha256:ddd", 1, 1));
    merge_graph_update(&mut graph, updated, &vec![]);
    assert!(graph.files.get("src/new/added.ts").is_some(), "added file should exist");
    assert!(graph.modules.get("newmod").is_some(), "new module should exist");
    assert!(graph.modules.get("newmod").unwrap().files.contains(&"src/new/added.ts".to_string()));
}

#[test]
fn test_merge_recalculates_summary() {
    let mut graph = make_graph();
    let mut updated = StrMap::new();
    updated.insert("src/api/routes.ts".to_string(), counted_entry("api", "sha256:xxx", 2, 0));
    updated.insert("src/new/added.ts".to_string(), counted_entry("newmod", "sha256:ddd", 1, 1));
    merge_graph_update(&mut graph, updated, &vec!["src/old/removed.ts".to_string()]);

    assert_eq!(graph.summary.total_functions, 4);
    assert_eq!(graph.summary.total_classes, 1);
    assert_eq!(graph.summary.total_files, 3);
    assert!(graph.summary.modules.contains(&"newmod".to_string()));
    assert!(!graph.summary.modules.contains(&"old".to_string()));
}

#[test]
fn test_merge_nonexistent_file_no_panic() {
    let mut graph = make_graph();
    merge_graph_update(&mut graph, StrMap::new(), &vec!["nonexistent.ts".to_string()]);
    assert_eq!(graph.summary.total_files, 3);
    assert!(graph.files.get("src/auth/login.ts").is_some());
}

fn ts_file(module: &str, hash: &str, imports: &[&str], entry_point: bool) -> FileEntry {
    FileEntry {
        language: "typescript".to_string(),
        module: module.to_string(),
        hash: hash.to_string(),
        lines: 3,
        functions: vec![],
        classes: vec![],
        types: vec![],
        imports: imports
            .iter()
            .map(|s| ImportInfo {
                source: s.to_string(),
                symbols: vec![],
                is_external: !s.starts_with('.'),
            })
            .collect(),
        exports: vec![],
        is_entry_point: entry_point,
    }
}

fn two_module_graph() -> CodeGraph {
    let mut graph = create_empty_graph("p", "/p");
    let mut files = StrMap::new();
    files.insert("src/auth/login.ts".to_string(), ts_file("auth", "h1", &["../utils/helper"], false));
    files.insert("src/utils/helper.ts".to_string(), ts_file("utils", "h2", &[], false));
    merge_graph_update(&mut graph, files, &vec![]);
    graph
}

#[test]
fn resolution_of_relative_imports() {
    let graph = two_module_graph();
    assert_eq!(graph.summary.modules, vec!["auth", "utils"]);
    assert_eq!(graph.modules.get("auth").unwrap().depends_on, vec!["utils"]);
    assert!(graph.modules.get("auth").unwrap().depended_by.is_empty());
    assert_eq!(graph.modules.get("utils").unwrap().depended_by, vec!["auth"]);
    assert!(graph.modules.get("utils").unwrap().depends_on.is_empty());
    assert_eq!(graph.summary.total_files, 2);
    assert_eq!(graph.summary.languages.get("typescript"), Some(&2));
    assert_eq!(graph.config.languages, vec!["typescript"]);
}

#[test]
fn modified_file_keeps_modules_and_edges() {
    let mut graph = two_module_graph();
    let old = hashes(&[("src/auth/login.ts", "h1"), ("src/utils/helper.ts", "h2")]);
    let new = hashes(&[("src/auth/login.ts", "h9"), ("src/utils/helper.ts", "h2")]);
    let cs = detect_changed_files(&old, &new);
    assert!(cs.added.is_empty());
    assert_eq!(cs.modified, vec!["src/auth/login.ts"]);
    assert!(cs.removed.is_empty());

    let mut updated = StrMap::new();
    updated.insert("src/auth/login.ts".to_string(), ts_file("auth", "h9", &["../utils/helper"], false));
    merge_graph_update(&mut graph, updated, &cs.removed);
    assert_eq!(graph.files.get("src/auth/login.ts").unwrap().hash, "h9");
    assert_eq!(graph.summary.modules, vec!["auth", "utils"]);
    assert_eq!(graph.modules.get("auth").unwrap().depends_on, vec!["utils"]);
    assert_eq!(graph.modules.get("utils").unwrap().depended_by, vec!["auth"]);
    assert_eq!(graph.summary.total_files, 2);
}

#[test]
fn deleted_file_reaps_its_module() {
    let mut graph = two_module_graph();
    merge_graph_update(&mut graph, StrMap::new(), &vec!["src/utils/helper.ts".to_string()]);
    assert!(graph.modules.get("utils").is_none());
    assert!(graph.modules.get("auth").unwrap().depends_on.is_empty());
    assert_eq!(graph.summary.modules, vec!["auth"]);
    assert_eq!(graph.summary.total_files, 1);
}

#[test]
fn merge_of_nothing_changes_nothing() {
    let mut graph = two_module_graph();
    merge_graph_update(&mut graph, StrMap::new(), &vec![]);
    assert_eq!(graph.files.len(), 2);
    assert_eq!(graph.modules.len(), 2);
    assert_eq!(graph.modules.get("auth").unwrap().files, vec!["src/auth/login.ts"]);
    assert_eq!(graph.modules.get("auth").unwrap().depends_on, vec!["utils"]);
    assert_eq!(graph.modules.get("utils").unwrap().depended_by, vec!["auth"]);
    assert_eq!(graph.summary.total_files, 2);
    assert_eq!(graph.summary.modules, vec!["auth", "utils"]);
}

#[test]
fn imports_resolve_through_index_files_and_skip_the_own_module() {
    let mut graph = create_empty_graph("p", "/p");
    let mut files = StrMap::new();
    files.insert("src/api/routes.ts".to_string(), ts_file("api", "h1", &["../auth", "./local", "react"], false));
    files.insert("src/api/local.ts".to_string(), ts_file("api", "h2", &[], false));
    files.insert("src/auth/index.ts".to_string(), ts_file("auth", "h3", &[], true));
    merge_graph_update(&mut graph, files, &vec![]);
    assert_eq!(graph.modules.get("api").unwrap().depends_on, vec!["auth"]);
    assert_eq!(graph.modules.get("auth").unwrap().depended_by, vec!["api"]);
    assert_eq!(graph.modules.get("api").unwrap().files, vec!["src/api/local.ts", "src/api/routes.ts"]);
    assert_eq!(graph.summary.entry_points, vec!["src/auth/index.ts"]);
}

#[test]
fn summary_counts_languages_and_entry_points() {
    let mut graph = create_empty_graph("p", "/p");
    let mut files = StrMap::new();
    let mut a = counted_entry("m", "h", 2, 1);
    a.language = "rust".to_string();
    a.is_entry_point = true;
    files.insert("src/m/main.rs".to_string(), a);
    files.insert("src/m/b.ts".to_string(), counted_entry("m", "h", 1, 0));
    files.insert("src/n/c.ts".to_string(), counted_entry("n", "h", 0, 3));
    merge_graph_update(&mut graph, files, &vec![]);
    assert_eq!(graph.summary.total_files, 3);
    assert_eq!(graph.summary.total_functions, 3);
    assert_eq!(graph.summary.total_classes, 4);
    assert_eq!(graph.summary.languages.get("rust"), Some(&1));
    assert_eq!(graph.summary.languages.get("typescript"), Some(&2));
    assert_eq!(graph.config.languages, vec!["rust", "typescript"]);
    assert_eq!(graph.summary.entry_points, vec!["src/m/main.rs"]);
    assert_eq!(graph.summary.modules, vec!["m", "n"]);
}

#[test]
fn change_set_lists_are_disjoint_and_cover_both_maps() {
    let old = hashes(&[("a", "1"), ("b", "2"), ("c", "3")]);
    let new = hashes(&[("b", "2"), ("c", "4"), ("d", "5")]);
    let cs = detect_changed_files(&old, &new);
    assert_eq!(cs.added, vec!["d"]);
    assert_eq!(cs.modified, vec!["c"]);
    assert_eq!(cs.removed, vec!["a"]);
    assert_eq!(cs.unchanged, vec!["b"]);
    assert!(!cs.is_empty());
}
