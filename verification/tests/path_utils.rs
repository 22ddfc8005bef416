use codegraph::path_utils::{normalize_path, posix_dirname, posix_normalize, strip_extension};

#[test]
fn test_strip_extension() {
    assert_eq!(strip_extension("/foo/bar.ts"), "/foo/bar");
    assert_eq!(strip_extension("/foo/bar"), "/foo/bar");
    assert_eq!(strip_extension("main.rs"), "main");
}

#[test]
fn test_posix_dirname() {
    assert_eq!(posix_dirname("src/auth/login.ts"), "src/auth");
    assert_eq!(posix_dirname("main.ts"), ".");
    assert_eq!(posix_dirname("/root/file.ts"), "/root");
}

#[test]
fn test_posix_normalize() {
    assert_eq!(posix_normalize("src/auth/../utils/helper"), "src/utils/helper");
    assert_eq!(posix_normalize("src/./auth/login"), "src/auth/login");
    assert_eq!(posix_normalize("a/b/c"), "a/b/c");
}

#[test]
fn test_normalize_path() {
    assert_eq!(normalize_path("src/auth/../utils/helper"), "src/utils/helper");
}

#[test]
fn strip_extension_keeps_dots_of_directories_and_hidden_files() {
    assert_eq!(strip_extension("a.b/file"), "a.b/file");
    assert_eq!(strip_extension("dir/.hidden"), "dir/.hidden");
    assert_eq!(strip_extension(".hidden"), ".hidden");
    assert_eq!(strip_extension("a/b.c.d"), "a/b.c");
    assert_eq!(strip_extension(""), "");
}

#[test]
fn posix_dirname_of_root_files() {
    assert_eq!(posix_dirname("/file.ts"), "");
    assert_eq!(posix_dirname(""), ".");
    assert_eq!(posix_dirname("a/b/"), "a/b");
}

#[test]
fn posix_normalize_edge_cases() {
    assert_eq!(posix_normalize(""), "");
    assert_eq!(posix_normalize("/a//b/"), "a/b");
    assert_eq!(posix_normalize("../a"), "a");
    assert_eq!(posix_normalize("a/../.."), "");
    assert_eq!(posix_normalize("./a/./b/.."), "a");
}

#[test]
fn normalize_path_turns_backslashes() {
    assert_eq!(normalize_path("src\\auth\\..\\utils\\helper.ts"), "src/utils/helper.ts");
    assert_eq!(normalize_path("a\\.\\b"), "a/b");
}
