use codegraph::graph::{create_empty_graph, CodeGraph, FileEntry, ModuleEntry};
use codegraph::slicer::{
    build_module_slice, collect_module_stats, dedup_sorted, generate_overview, generate_slices,
    get_module_slice_with_deps, module_dir, SliceError,
};

fn make_test_graph() -> CodeGraph {
    let mut graph = create_empty_graph("testproject", "/tmp/testproject");

    graph.files.insert(
        "src/main.rs".to_string(),
        FileEntry {
            language: "rust".to_string(),
            module: "_root".to_string(),
            hash: "sha256:abcdef123456".to_string(),
            lines: 10,
            functions: vec![],
            classes: vec![],
            types: vec![],
            imports: vec![],
            exports: vec!["main".to_string()],
            is_entry_point: true,
        },
    );

    graph.modules.insert(
        "_root".to_string(),
        ModuleEntry {
            files: vec!["src/main.rs".to_string()],
            depends_on: vec![],
            depended_by: vec![],
        },
    );

    graph.summary.total_files = 1;
    graph.summary.modules = vec!["_root".to_string()];
    graph.summary.entry_points = vec!["src/main.rs".to_string()];
    graph
}

#[test]
fn test_generate_overview() {
    let graph = make_test_graph();
    let overview = generate_overview(&graph);
    assert_eq!(overview.project.name, "testproject");
    assert_eq!(overview.modules.len(), 1);
    assert_eq!(overview.modules[0].name, "_root");
    assert_eq!(overview.modules[0].file_count, 1);
}

#[test]
fn test_build_module_slice() {
    let graph = make_test_graph();
    let mod_data = graph.modules.get("_root").unwrap();
    let slice = build_module_slice(&graph, "_root", mod_data);
    assert_eq!(slice.module, "_root");
    assert_eq!(slice.files.len(), 1);
    assert_eq!(slice.exports, vec!["main"]);
    assert_eq!(slice.stats.total_files, 1);
    assert_eq!(slice.stats.total_lines, 10);
}

#[test]
fn test_get_module_slice_with_deps_not_found() {
    let graph = make_test_graph();
    let result = get_module_slice_with_deps(&graph, "nonexistent");
    assert!(result.is_err());
}

#[test]
fn test_dedup_sorted() {
    let v = vec!["b".to_string(), "a".to_string(), "b".to_string()];
    let result = dedup_sorted(v);
    assert_eq!(result, vec!["a", "b"]);
}

fn entry(module: &str, lines: u32, exports: &[&str]) -> FileEntry {
    FileEntry {
        language: "typescript".to_string(),
        module: module.to_string(),
        hash: "h".to_string(),
        lines,
        functions: vec![],
        classes: vec![],
        types: vec![],
        imports: vec![],
        exports: exports.iter().map(|e| e.to_string()).collect(),
        is_entry_point: false,
    }
}

fn two_modules() -> CodeGraph {
    let mut graph = create_empty_graph("p", "/p");
    graph.files.insert("src/api/routes.ts".to_string(), entry("api", 20, &["route", "handler"]));
    graph.files.insert("src/auth/login.ts".to_string(), entry("auth", 7, &["login", "check"]));
    graph.files.insert("src/auth/token.ts".to_string(), entry("auth", 5, &["check", "issue"]));
    graph.modules.insert(
        "api".to_string(),
        ModuleEntry {
            files: vec!["src/api/routes.ts".to_string()],
            depends_on: vec!["auth".to_string(), "ghost".to_string()],
            depended_by: vec![],
        },
    );
    graph.modules.insert(
        "auth".to_string(),
        ModuleEntry {
            files: vec![
                "src/auth/login.ts".to_string(),
                "src/auth/token.ts".to_string(),
                "src/auth/missing.ts".to_string(),
            ],
            depends_on: vec![],
            depended_by: vec!["api".to_string()],
        },
    );
    graph
}

#[test]
fn slices_with_dependencies() {
    let graph = two_modules();
    let with_deps = get_module_slice_with_deps(&graph, "api").unwrap();
    assert_eq!(with_deps.slice.module, "api");
    assert_eq!(with_deps.slice.path, "src/api");
    assert_eq!(with_deps.slice.exports, vec!["handler", "route"]);
    assert_eq!(with_deps.slice.depends_on, vec!["auth", "ghost"]);
    assert_eq!(with_deps.dependencies.len(), 2);
    let auth = &with_deps.dependencies[0];
    assert_eq!(auth.name, "auth");
    assert_eq!(auth.exports, vec!["check", "issue", "login"]);
    assert_eq!(auth.file_count, 3);
    assert_eq!(auth.stats.total_files, 3);
    assert_eq!(auth.stats.total_lines, 12);
    let ghost = &with_deps.dependencies[1];
    assert_eq!(ghost.name, "ghost");
    assert!(ghost.exports.is_empty());
    assert_eq!(ghost.file_count, 0);
    assert_eq!(ghost.stats.total_lines, 0);
}

#[test]
fn missing_module_error() {
    let graph = two_modules();
    match get_module_slice_with_deps(&graph, "nope") {
        Err(SliceError::ModuleNotFound(name)) => {
            assert_eq!(name, "nope");
            assert_eq!(
                SliceError::ModuleNotFound(name).message(),
                "Module \"nope\" not found in graph"
            );
        }
        Ok(_) => panic!("a slice of a missing module"),
    }
}

#[test]
fn slices_of_all_modules() {
    let graph = two_modules();
    let slices = generate_slices(&graph);
    assert_eq!(slices.key_list(), vec!["api", "auth"]);
    let auth = slices.get("auth").unwrap();
    assert_eq!(auth.files.len(), 2);
    assert_eq!(auth.files[0].path, "src/auth/login.ts");
    assert_eq!(auth.files[1].lines, 5);
    assert_eq!(auth.stats.total_files, 3);
    assert_eq!(auth.depended_by, vec!["api"]);
}

#[test]
fn overview_lists_modules_in_order() {
    let graph = two_modules();
    let overview = generate_overview(&graph);
    let names: Vec<&str> = overview.modules.iter().map(|m| m.name.as_str()).collect();
    assert_eq!(names, vec!["api", "auth"]);
    assert_eq!(overview.modules[1].path, "src/auth");
    assert_eq!(overview.modules[1].file_count, 3);
    assert_eq!(overview.modules[1].exports, vec!["check", "issue", "login"]);
    assert_eq!(overview.scanned_at, graph.scanned_at);
    assert_eq!(overview.project.root, "/p");
}

#[test]
fn module_directories_and_stats() {
    let graph = two_modules();
    let auth = graph.modules.get("auth").unwrap();
    assert_eq!(module_dir(auth, "auth"), "src/auth");
    let bare = ModuleEntry { files: vec!["main.rs".to_string()], depends_on: vec![], depended_by: vec![] };
    assert_eq!(module_dir(&bare, "_root"), "_root");
    let empty = ModuleEntry { files: vec![], depends_on: vec![], depended_by: vec![] };
    assert_eq!(module_dir(&empty, "x"), "x");
    let (exports, stats) = collect_module_stats(&graph, auth);
    assert_eq!(exports, vec!["login", "check", "check", "issue"]);
    assert_eq!(stats.total_files, 3);
    assert_eq!(stats.total_functions, 0);
    assert_eq!(stats.total_lines, 12);
}
