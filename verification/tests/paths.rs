use asm_annotate::paths::{file_name, short_path, short_path_by_width};

#[test]
fn test_short_path_longer_than_depth() {
    assert_eq!(short_path("/a/b/c/d.c", 3), "…/b/c/d.c");
}

#[test]
fn test_short_path_shorter_than_depth() {
    assert_eq!(short_path("/a/b.c", 3), "/a/b.c");
    assert_eq!(short_path("short.c", 3), "short.c");
}

#[test]
fn test_short_path_by_width_fits() {
    assert_eq!(short_path_by_width("/a/b.c", 20), "/a/b.c");
    assert_eq!(short_path_by_width("short.c", 20), "short.c");
}

#[test]
fn test_short_path_by_width_truncates() {
    assert_eq!(short_path_by_width("/a/b/c/d.c", 8), "…/c/d.c");
    assert_eq!(short_path_by_width("/a/b/c/d.c", 9), "…/b/c/d.c");
    assert_eq!(short_path_by_width("/a/b/c/d.c", 10), "/a/b/c/d.c");
}

#[test]
fn test_short_path_by_width_hard_truncate() {
    assert_eq!(short_path_by_width("/very/long/filename.c", 4), "…e.c");
}

#[test]
fn short_path_counts_root_as_component() {
    // "/" is a component of its own, so four components keep the last three.
    assert_eq!(short_path("/a/b/c", 3), "…/a/b/c");
    assert_eq!(short_path("a/./b//c", 2), "…/b/c");
}

#[test]
fn short_path_by_width_zero_budget() {
    assert_eq!(short_path_by_width("abc", 0), "…");
}

#[test]
fn file_name_of_paths() {
    assert_eq!(file_name("/a/b/foo.cpp"), Some("foo.cpp".to_string()));
    assert_eq!(file_name("foo.cpp"), Some("foo.cpp".to_string()));
    assert_eq!(file_name("/a/b/"), Some("b".to_string()));
    assert_eq!(file_name("/"), None);
    assert_eq!(file_name("a/.."), None);
}
