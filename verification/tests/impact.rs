use codegraph::graph::{
    CodeGraph, FileEntry, GraphConfig, GraphSummary, ModuleEntry, ProjectInfo,
};
use codegraph::impact::{analyze_impact, TargetType};
use codegraph::str_map::StrMap;

fn make_graph() -> CodeGraph {
    let mut modules = StrMap::new();
    modules.insert(
        "core".to_string(),
        ModuleEntry {
            files: vec!["src/core/mod.rs".to_string()],
            depends_on: vec![],
            depended_by: vec!["utils".to_string(), "app".to_string()],
        },
    );
    modules.insert(
        "utils".to_string(),
        ModuleEntry {
            files: vec!["src/utils/mod.rs".to_string()],
            depends_on: vec!["core".to_string()],
            depended_by: vec!["app".to_string()],
        },
    );
    modules.insert(
        "app".to_string(),
        ModuleEntry {
            files: vec!["src/main.rs".to_string()],
            depends_on: vec!["core".to_string(), "utils".to_string()],
            depended_by: vec![],
        },
    );

    let mut files = StrMap::new();
    files.insert(
        "src/core/mod.rs".to_string(),
        FileEntry {
            language: "rust".to_string(),
            module: "core".to_string(),
            hash: "sha256:abc".to_string(),
            lines: 10,
            functions: vec![],
            classes: vec![],
            types: vec![],
            imports: vec![],
            exports: vec![],
            is_entry_point: false,
        },
    );

    CodeGraph {
        version: "1.0".to_string(),
        project: ProjectInfo { name: "test".to_string(), root: "/tmp/test".to_string() },
        scanned_at: "2026-01-01T00:00:00.000Z".to_string(),
        commit_hash: None,
        config: GraphConfig { languages: vec![], exclude_patterns: vec![] },
        summary: GraphSummary {
            total_files: 3,
            total_functions: 0,
            total_classes: 0,
            languages: StrMap::new(),
            modules: vec!["core".to_string(), "utils".to_string(), "app".to_string()],
            entry_points: vec![],
        },
        modules,
        files,
    }
}

#[test]
fn test_impact_module_core() {
    let graph = make_graph();
    let result = analyze_impact(&graph, "core", 3);
    assert_eq!(result.target_type, TargetType::Module);
    assert_eq!(result.target_module, "core");
    let mut direct = result.direct_dependants.clone();
    direct.sort();
    assert_eq!(direct, vec!["app", "utils"]);
    assert!(result.transitive_dependants.contains(&"app".to_string()));
    assert!(result.transitive_dependants.contains(&"utils".to_string()));
    assert!(result.impacted_modules.contains(&"core".to_string()));
}

#[test]
fn test_impact_module_utils() {
    let graph = make_graph();
    let result = analyze_impact(&graph, "utils", 3);
    assert_eq!(result.direct_dependants, vec!["app"]);
    assert_eq!(result.transitive_dependants, vec!["app"]);
}

#[test]
fn test_impact_module_app_no_dependants() {
    let graph = make_graph();
    let result = analyze_impact(&graph, "app", 3);
    assert!(result.direct_dependants.is_empty());
    assert!(result.transitive_dependants.is_empty());
    assert_eq!(result.impacted_modules, vec!["app"]);
}

#[test]
fn test_impact_file_path() {
    let graph = make_graph();
    let result = analyze_impact(&graph, "src/core/mod.rs", 3);
    assert_eq!(result.target_type, TargetType::File);
    assert_eq!(result.target_module, "core");
}

#[test]
fn test_impact_partial_file_path() {
    let graph = make_graph();
    let result = analyze_impact(&graph, "core/mod", 3);
    assert_eq!(result.target_type, TargetType::File);
    assert_eq!(result.target_module, "core");
}

#[test]
fn test_impact_not_found() {
    let graph = make_graph();
    let result = analyze_impact(&graph, "nonexistent", 3);
    assert_eq!(result.target_module, "nonexistent");
    assert!(result.direct_dependants.is_empty());
    assert!(result.impacted_files.is_empty());
}

#[test]
fn test_bfs_depth_limit() {
    let graph = make_graph();
    let result = analyze_impact(&graph, "core", 0);
    assert!(result.transitive_dependants.is_empty());
}

#[test]
fn test_impacted_files_sorted() {
    let graph = make_graph();
    let result = analyze_impact(&graph, "core", 3);
    let sorted = {
        let mut v = result.impacted_files.clone();
        v.sort();
        v
    };
    assert_eq!(result.impacted_files, sorted);
}

#[test]
fn impact_at_depth_three_and_zero() {
    let graph = make_graph();
    let deep = analyze_impact(&graph, "core", 3);
    assert_eq!(deep.transitive_dependants, vec!["app", "utils"]);
    assert_eq!(deep.impacted_modules, vec!["core", "app", "utils"]);
    assert_eq!(
        deep.impacted_files,
        vec!["src/core/mod.rs", "src/main.rs", "src/utils/mod.rs"]
    );
    let flat = analyze_impact(&graph, "core", 0);
    assert!(flat.transitive_dependants.is_empty());
    assert_eq!(flat.impacted_modules, vec!["core"]);
    assert_eq!(flat.impacted_files, vec!["src/core/mod.rs"]);
    assert_eq!(flat.direct_dependants, vec!["utils", "app"]);
}

fn chain_graph() -> CodeGraph {
    let mut graph = make_graph();
    let mut modules = StrMap::new();
    let names = ["a", "b", "c", "d"];
    for (i, name) in names.iter().enumerate() {
        let depended_by = if i + 1 < names.len() { vec![names[i + 1].to_string()] } else { vec!["a".to_string()] };
        modules.insert(
            name.to_string(),
            ModuleEntry { files: vec![format!("{}/f.ts", name)], depends_on: vec![], depended_by },
        );
    }
    graph.modules = modules;
    graph
}

#[test]
fn depth_bounds_the_walk_and_cycles_end() {
    let graph = chain_graph();
    assert_eq!(analyze_impact(&graph, "a", 1).transitive_dependants, vec!["b"]);
    assert_eq!(analyze_impact(&graph, "a", 2).transitive_dependants, vec!["b", "c"]);
    assert_eq!(analyze_impact(&graph, "a", 3).transitive_dependants, vec!["b", "c", "d"]);
    assert_eq!(analyze_impact(&graph, "a", 50).transitive_dependants, vec!["b", "c", "d"]);
    assert_eq!(analyze_impact(&graph, "c", 4_000_000_000).transitive_dependants, vec!["a", "b", "d"]);
}

#[test]
fn target_labels() {
    assert_eq!(TargetType::Module.as_str(), "module");
    assert_eq!(TargetType::File.as_str(), "file");
    let graph = make_graph();
    let missing = analyze_impact(&graph, "nonexistent", 3);
    assert_eq!(missing.target_type, TargetType::Module);
    assert_eq!(missing.impacted_modules, vec!["nonexistent"]);
}
