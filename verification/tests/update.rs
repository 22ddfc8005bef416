use codegraph::graph::MetaInfo;
use codegraph::scanner::{
    current_hashes, graph_hashes, index_parsed, index_sources, meta_of, parse_sources,
    recorded_hashes, scan_parsed, scan_sources, update_graph, update_parsed, SourceFile,
};
use codegraph::str_map::StrMap;

fn source(path: &str, text: &str) -> SourceFile {
    SourceFile { rel_path: path.to_string(), content: text.as_bytes().to_vec() }
}

fn project() -> Vec<SourceFile> {
    vec![
        source(
            "src/auth/login.ts",
            "import { helper } from '../utils/helper';\nexport function login() { return helper(); }\n",
        ),
        source("src/utils/helper.ts", "export function helper() { return 1; }\n"),
    ]
}

#[test]
fn update_without_changes_leaves_the_graph() {
    let sources = project();
    let mut graph = scan_sources("p", "/p", &sources);
    let stamp = graph.scanned_at.clone();
    let recorded = graph_hashes(&graph);
    let cs = update_graph(&mut graph, &sources, &recorded, "later".to_string());
    assert!(cs.is_empty());
    assert!(cs.added.is_empty() && cs.modified.is_empty() && cs.removed.is_empty());
    assert_eq!(cs.unchanged, vec!["src/auth/login.ts", "src/utils/helper.ts"]);
    assert_eq!(graph.scanned_at, stamp);
    assert_eq!(graph.summary.total_files, 2);
    assert_eq!(graph.modules.get("auth").unwrap().depends_on, vec!["utils"]);
}

#[test]
fn update_after_a_modification() {
    let mut sources = project();
    let mut graph = scan_sources("p", "/p", &sources);
    let recorded = graph_hashes(&graph);
    let old_hash = graph.files.get("src/auth/login.ts").unwrap().hash.clone();
    sources[0] = source(
        "src/auth/login.ts",
        "import { helper } from '../utils/helper';\nexport function login() { return helper(); }\nexport function logout() {}\n",
    );
    let cs = update_graph(&mut graph, &sources, &recorded, "2026-02-02T00:00:00.000Z".to_string());
    assert!(cs.added.is_empty());
    assert_eq!(cs.modified, vec!["src/auth/login.ts"]);
    assert!(cs.removed.is_empty());
    assert_eq!(graph.scanned_at, "2026-02-02T00:00:00.000Z");
    let login = graph.files.get("src/auth/login.ts").unwrap();
    assert_ne!(login.hash, old_hash);
    assert_eq!(login.functions.len(), 2);
    assert_eq!(graph.summary.total_files, 2);
    assert_eq!(graph.summary.total_functions, 3);
    assert_eq!(graph.summary.modules, vec!["auth", "utils"]);
    assert_eq!(graph.modules.get("auth").unwrap().depends_on, vec!["utils"]);
    assert_eq!(graph.modules.get("utils").unwrap().depended_by, vec!["auth"]);
}

#[test]
fn update_after_a_deletion_and_an_addition() {
    let sources = project();
    let mut graph = scan_sources("p", "/p", &sources);
    let recorded = graph_hashes(&graph);
    let now = vec![
        source("src/auth/login.ts", "export function login() { return 1; }\n"),
        source("src/api/routes.ts", "import { login } from '../auth/login';\nexport const r = () => login();\n"),
        source("notes.md", "not indexed"),
    ];
    let cs = update_graph(&mut graph, &now, &recorded, "t".to_string());
    assert_eq!(cs.added, vec!["src/api/routes.ts"]);
    assert_eq!(cs.modified, vec!["src/auth/login.ts"]);
    assert_eq!(cs.removed, vec!["src/utils/helper.ts"]);
    assert!(graph.modules.get("utils").is_none());
    assert!(graph.modules.get("auth").unwrap().depends_on.is_empty());
    assert_eq!(graph.modules.get("auth").unwrap().depended_by, vec!["api"]);
    assert_eq!(graph.modules.get("api").unwrap().depends_on, vec!["auth"]);
    assert_eq!(graph.summary.modules, vec!["api", "auth"]);
    assert_eq!(graph.summary.total_files, 2);

    let full = scan_sources("p", "/p", &now);
    assert_eq!(full.summary.modules, graph.summary.modules);
    assert_eq!(full.summary.total_functions, graph.summary.total_functions);
    for name in full.modules.key_list() {
        let a = full.modules.get(&name).unwrap();
        let b = graph.modules.get(&name).unwrap();
        assert_eq!(a.files, b.files);
        assert_eq!(a.depends_on, b.depends_on);
        assert_eq!(a.depended_by, b.depended_by);
    }
}

#[test]
fn hashes_of_sources_and_graphs() {
    let sources = vec![
        source("a\\b.ts", "x"),
        source("c.txt", "y"),
        source("a/b.ts", "z"),
    ];
    let (hashes, positions) = current_hashes(&sources);
    assert_eq!(hashes.key_list(), vec!["a/b.ts"]);
    assert_eq!(positions.get("a/b.ts"), Some(&2));
    assert_eq!(hashes.get("a/b.ts").unwrap(), &codegraph::graph::compute_file_hash(b"z"));

    let graph = scan_sources("p", "/p", &project());
    let recorded = graph_hashes(&graph);
    assert_eq!(recorded.key_list(), graph.files.key_list());
    assert_eq!(
        recorded.get("src/utils/helper.ts").unwrap(),
        &graph.files.get("src/utils/helper.ts").unwrap().hash
    );
    let empty: StrMap<String> = StrMap::new();
    assert_eq!(empty.len(), 0);
}

#[test]
fn scan_from_parse_results_agrees_with_scan() {
    let sources = project();
    let trees = parse_sources(&sources, false);
    assert_eq!(trees.len(), 2);
    assert!(trees.iter().all(|t| t.is_some()));
    let a = scan_parsed("p", "/p", &sources, &trees);
    let b = scan_sources("p", "/p", &sources);
    assert_eq!(a.files.key_list(), b.files.key_list());
    assert_eq!(a.summary.modules, b.summary.modules);
    assert_eq!(a.summary.total_functions, b.summary.total_functions);
    assert_eq!(a.modules.get("auth").unwrap().depends_on, vec!["utils"]);
    for path in a.files.key_list() {
        let x = a.files.get(&path).unwrap();
        let y = b.files.get(&path).unwrap();
        assert_eq!(x.hash, y.hash);
        assert_eq!(x.module, y.module);
        assert_eq!(x.exports, y.exports);
        assert_eq!(x.functions.len(), y.functions.len());
    }
}

#[test]
fn a_source_without_a_tree_is_left_out() {
    let sources = project();
    let mut trees = parse_sources(&sources, false);
    trees[1] = None;
    let entries = index_parsed(&sources, &trees, false);
    assert_eq!(entries.key_list(), vec!["src/auth/login.ts"]);
    let graph = scan_parsed("p", "/p", &sources, &trees);
    assert_eq!(graph.summary.total_files, 1);
    assert_eq!(graph.summary.modules, vec!["auth"]);
    assert!(graph.modules.get("auth").unwrap().depends_on.is_empty());
}

#[test]
fn the_later_source_of_a_path_stands() {
    let sources = vec![
        source("src\\a\\x.ts", "export function one() {}\n"),
        source("notes.txt", "no language"),
        source("src/a/x.ts", "export function two() {}\nexport function three() {}\n"),
    ];
    let trees = parse_sources(&sources, false);
    assert!(trees[0].is_some() && trees[1].is_none() && trees[2].is_some());
    let entries = index_parsed(&sources, &trees, false);
    assert_eq!(entries.key_list(), vec!["src/a/x.ts"]);
    let entry = entries.get("src/a/x.ts").unwrap();
    assert_eq!(entry.functions.len(), 2);
    assert_eq!(entry.hash, codegraph::graph::compute_file_hash(&sources[2].content));
    let streamed = index_sources(&sources, false);
    assert_eq!(streamed.key_list(), vec!["src/a/x.ts"]);
    assert_eq!(streamed.get("src/a/x.ts").unwrap().hash, entry.hash);

    let mut trees = parse_sources(&sources, false);
    trees[2] = None;
    let entries = index_parsed(&sources, &trees, false);
    assert!(entries.is_empty());
}

#[test]
fn update_from_parse_results() {
    let mut sources = project();
    let mut graph = scan_sources("p", "/p", &sources);
    let recorded = graph_hashes(&graph);
    sources[1] = source("src/utils/helper.ts", "export function helper() { return 2; }\nexport function extra() {}\n");
    sources.push(source("src/api/routes.ts", "import { login } from '../auth/login';\n"));
    let trees = parse_sources(&sources, false);
    let cs = update_parsed(&mut graph, &sources, &trees, &recorded, "now".to_string());
    assert_eq!(cs.added, vec!["src/api/routes.ts"]);
    assert_eq!(cs.modified, vec!["src/utils/helper.ts"]);
    assert!(cs.removed.is_empty());
    assert_eq!(cs.unchanged, vec!["src/auth/login.ts"]);
    assert_eq!(graph.scanned_at, "now");
    assert_eq!(graph.summary.total_files, 3);
    assert_eq!(graph.files.get("src/utils/helper.ts").unwrap().functions.len(), 2);
    assert_eq!(graph.modules.get("api").unwrap().depends_on, vec!["auth"]);
    assert_eq!(graph.modules.get("auth").unwrap().depended_by, vec!["api"]);

    let recorded = graph_hashes(&graph);
    let stamp = graph.scanned_at.clone();
    let none: Vec<Option<codegraph::syntax::SyntaxTree>> = vec![None, None, None];
    let cs = update_parsed(&mut graph, &sources, &none, &recorded, "later".to_string());
    assert!(cs.is_empty());
    assert_eq!(graph.scanned_at, stamp);
    assert_eq!(graph.summary.total_files, 3);
}

#[test]
fn an_added_source_without_a_tree_is_not_installed() {
    let mut sources = project();
    let mut graph = scan_sources("p", "/p", &sources);
    let recorded = graph_hashes(&graph);
    sources.push(source("src/api/routes.ts", "export function route() {}\n"));
    let none: Vec<Option<codegraph::syntax::SyntaxTree>> = vec![None, None, None];
    let cs = update_parsed(&mut graph, &sources, &none, &recorded, "now".to_string());
    assert_eq!(cs.added, vec!["src/api/routes.ts"]);
    assert_eq!(graph.scanned_at, "now");
    assert_eq!(graph.summary.total_files, 2);
    assert!(graph.files.get("src/api/routes.ts").is_none());
    assert!(graph.modules.get("api").is_none());
}

#[test]
fn the_meta_record_of_a_graph() {
    let mut graph = scan_sources("p", "/p", &project());
    graph.commit_hash = Some("abc123".to_string());
    let meta = meta_of(&graph, "2026-01-01T00:00:00.000Z".to_string());
    assert_eq!(meta.last_scan_at, "2026-01-01T00:00:00.000Z");
    assert_eq!(meta.commit_hash.as_deref(), Some("abc123"));
    assert_eq!(meta.scan_duration, 0);
    assert_eq!(meta.file_hashes.key_list(), vec!["src/auth/login.ts", "src/utils/helper.ts"]);
    assert_eq!(
        meta.file_hashes.get("src/auth/login.ts").unwrap(),
        &graph.files.get("src/auth/login.ts").unwrap().hash
    );
}

#[test]
fn recorded_hashes_fall_back_to_the_graph() {
    let graph = scan_sources("p", "/p", &project());
    let from_graph = recorded_hashes(None, &graph);
    assert_eq!(from_graph.key_list(), graph.files.key_list());

    let empty = MetaInfo {
        last_scan_at: String::new(),
        commit_hash: None,
        scan_duration: 0,
        file_hashes: StrMap::new(),
    };
    let from_graph = recorded_hashes(Some(empty), &graph);
    assert_eq!(from_graph.key_list(), graph.files.key_list());
    assert_eq!(
        from_graph.get("src/utils/helper.ts").unwrap(),
        &graph.files.get("src/utils/helper.ts").unwrap().hash
    );

    let mut stored: StrMap<String> = StrMap::new();
    stored.insert("old.ts".to_string(), "sha256:0000000000000000".to_string());
    let meta = MetaInfo {
        last_scan_at: String::new(),
        commit_hash: None,
        scan_duration: 0,
        file_hashes: stored,
    };
    let from_meta = recorded_hashes(Some(meta), &graph);
    assert_eq!(from_meta.key_list(), vec!["old.ts"]);
}

#[test]
fn an_update_agrees_with_a_scan() {
    let old = vec![
        source("src/a/x.ts", "export function x() {}\n"),
        source("src/a/z.ts", "import { x } from './x';\nexport function z() { return x(); }\n"),
        source("src/b/main.ts", "import { z } from '../a/z';\nexport const run = () => z();\n"),
    ];
    let mut graph = scan_sources("p", "/p", &old);
    let recorded = graph_hashes(&graph);
    let now = vec![
        source("src/a/x.ts", "export function x() {}\n"),
        source("src/a/y.ts", "export function y() {}\n"),
        source("src/a/z.ts", "import { x } from './x';\nexport function z() { return x(); }\n"),
        source("src/c/new.ts", "import { y } from '../a/y';\nexport const n = () => y();\n"),
    ];
    let cs = update_graph(&mut graph, &now, &recorded, "t".to_string());
    assert_eq!(cs.added, vec!["src/a/y.ts", "src/c/new.ts"]);
    assert!(cs.modified.is_empty());
    assert_eq!(cs.removed, vec!["src/b/main.ts"]);
    assert_eq!(cs.unchanged, vec!["src/a/x.ts", "src/a/z.ts"]);

    let full = scan_sources("p", "/p", &now);
    assert_eq!(graph.files.key_list(), full.files.key_list());
    for path in full.files.key_list() {
        let a = graph.files.get(&path).unwrap();
        let b = full.files.get(&path).unwrap();
        assert_eq!(a.hash, b.hash);
        assert_eq!(a.module, b.module);
        assert_eq!(a.exports, b.exports);
        assert_eq!(a.lines, b.lines);
    }
    assert_eq!(graph.modules.key_list(), full.modules.key_list());
    assert_eq!(graph.modules.key_list(), vec!["a", "c"]);
    for name in full.modules.key_list() {
        let a = graph.modules.get(&name).unwrap();
        let b = full.modules.get(&name).unwrap();
        assert_eq!(a.depends_on, b.depends_on);
        assert_eq!(a.depended_by, b.depended_by);
        assert_eq!(a.files, b.files);
    }
    assert_eq!(graph.modules.get("a").unwrap().files, vec!["src/a/x.ts", "src/a/y.ts", "src/a/z.ts"]);
    assert_eq!(graph.summary.total_files, full.summary.total_files);
    assert_eq!(graph.summary.total_functions, full.summary.total_functions);
    assert_eq!(graph.summary.total_classes, full.summary.total_classes);
    assert_eq!(graph.summary.modules, full.summary.modules);
    assert_eq!(graph.summary.entry_points, full.summary.entry_points);
    assert_eq!(graph.summary.languages.key_list(), full.summary.languages.key_list());
    assert_eq!(graph.config.languages, full.config.languages);
}
