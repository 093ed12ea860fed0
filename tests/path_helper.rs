use std::path::PathBuf;

use kona_diagnostic::path_helper::{clear_unc_prefix, diff_paths};

#[test]
fn test_diff_paths() {
    assert_eq!(diff_paths("/foo/bar", "/foo/bar/baz").map(PathBuf::from),
        Some(PathBuf::from("../")));
    assert_eq!(diff_paths("~/project/src/compiler/main.sml", "~/project").map(PathBuf::from),
        Some(PathBuf::from("src/compiler/main.sml")));
}

#[test]
fn test_clear_unc_prefix() {
    assert_eq!(PathBuf::from(clear_unc_prefix("")), PathBuf::from(""));
    assert_eq!(PathBuf::from(clear_unc_prefix(r"~/example.txt")),
        PathBuf::from(r"~/example.txt"));
    assert_eq!(PathBuf::from(clear_unc_prefix(r"/usr/kkshinkai/example.txt")),
        PathBuf::from(r"/usr/kkshinkai/example.txt"));
}

#[test]
fn diff_paths_only_path_absolute() {
    assert_eq!(diff_paths("/a/b", "c/d"), Some("/a/b".to_string()));
    assert_eq!(diff_paths("a/b", "/c/d"), None);
}

#[test]
fn diff_paths_sibling_directory() {
    assert_eq!(diff_paths("/a/b/c", "/a/d/e").map(PathBuf::from),
        Some(PathBuf::from("../../b/c")));
}

#[test]
fn diff_paths_base_climbs_out() {
    assert_eq!(diff_paths("a/b", "a/../c"), None);
}

#[test]
fn diff_paths_same_path() {
    assert_eq!(diff_paths("/a/b", "/a/b").map(PathBuf::from), Some(PathBuf::from("")));
}

#[test]
fn clear_unc_prefix_keeps_plain_windows_path_text() {
    assert_eq!(clear_unc_prefix(r"C:\example.txt"), r"C:\example.txt".to_string());
}
