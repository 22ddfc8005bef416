use codegraph::graph::{
    compute_file_hash, create_empty_graph, format_timestamp, hex_encode, is_entry_point, is_leap,
    unix_to_datetime,
};

#[test]
fn test_compute_file_hash() {
    let hash = compute_file_hash(b"hello world");
    assert!(hash.starts_with("sha256:"));
    assert_eq!(hash.len(), 7 + 16);
}

#[test]
fn test_is_entry_point() {
    assert!(is_entry_point("main.rs"));
    assert!(is_entry_point("index.ts"));
    assert!(is_entry_point("server.js"));
    assert!(!is_entry_point("utils.ts"));
}

#[test]
fn test_create_empty_graph() {
    let g = create_empty_graph("myproject", "/home/user/myproject");
    assert_eq!(g.version, "1.0");
    assert_eq!(g.project.name, "myproject");
    assert_eq!(g.summary.total_files, 0);
}

#[test]
fn file_hash_of_known_contents() {
    assert_eq!(compute_file_hash(b"hello world"), "sha256:b94d27b9934d3e08");
    assert_eq!(compute_file_hash(b""), "sha256:e3b0c44298fc1c14");
    assert_ne!(compute_file_hash(b"a"), compute_file_hash(b"b"));
}

#[test]
fn hex_encoding() {
    assert_eq!(hex_encode(&vec![0u8, 9, 10, 15, 16, 255]), "00090a0f10ff");
    assert_eq!(hex_encode(&vec![]), "");
}

#[test]
fn entry_points_by_stem() {
    assert!(is_entry_point("src/app.py"));
    assert!(is_entry_point("cmd/Main.go"));
    assert!(is_entry_point("a/b/bootstrap.ts"));
    assert!(is_entry_point("entry.js"));
    assert!(!is_entry_point("main/other.rs"));
    assert!(!is_entry_point("mainly.rs"));
    assert!(is_entry_point("index"));
}

#[test]
fn empty_graph_is_empty() {
    let g = create_empty_graph("p", "/r");
    assert_eq!(g.project.root, "/r");
    assert!(g.commit_hash.is_none());
    assert_eq!(g.files.len(), 0);
    assert_eq!(g.modules.len(), 0);
    assert_eq!(g.summary.total_functions, 0);
    assert_eq!(g.summary.total_classes, 0);
    assert_eq!(g.summary.languages.len(), 0);
    assert!(g.summary.modules.is_empty());
    assert!(g.summary.entry_points.is_empty());
    assert!(g.config.languages.is_empty());
    assert!(g.config.exclude_patterns.is_empty());
    assert_eq!(g.scanned_at.len(), 24);
    assert!(g.scanned_at.ends_with(".000Z"));
}

#[test]
fn timestamps() {
    assert_eq!(format_timestamp(0), "1970-01-01T00:00:00.000Z");
    assert_eq!(format_timestamp(1767225600), "2026-01-01T00:00:00.000Z");
    assert_eq!(format_timestamp(951782399), "2000-02-28T23:59:59.000Z");
    assert_eq!(format_timestamp(951782400), "2000-02-29T00:00:00.000Z");
    assert_eq!(format_timestamp(1709251199), "2024-02-29T23:59:59.000Z");
    assert_eq!(format_timestamp(4102444799), "2099-12-31T23:59:59.000Z");
}

#[test]
fn dates_and_leap_years() {
    assert_eq!(unix_to_datetime(86399), (1970, 1, 1, 23, 59, 59));
    assert_eq!(unix_to_datetime(86400), (1970, 1, 2, 0, 0, 0));
    assert_eq!(unix_to_datetime(68169600), (1972, 2, 29, 0, 0, 0));
    assert!(is_leap(2000));
    assert!(is_leap(2024));
    assert!(!is_leap(1900));
    assert!(!is_leap(2023));
}
