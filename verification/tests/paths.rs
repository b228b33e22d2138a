use mdbook_verified::path_order::{normalize_path, path_less, path_starts_with_exec};
use mdbook_verified::paths::{join, path_file_name, path_file_stem, path_to_root};

#[test]
fn paths_are_normalized() {
    assert_eq!(normalize_path("a/b/../c"), "a/c");
    assert_eq!(normalize_path("../a"), "../a");
    assert_eq!(normalize_path("a/../../b"), "../b");
    assert_eq!(normalize_path("/a/../.."), "/");
    assert_eq!(normalize_path("./a/./b"), "a/b");
    assert_eq!(normalize_path("a/b/"), "a/b");
    assert_eq!(normalize_path("../../x"), "../../x");
    assert_eq!(normalize_path("/x/y/../z"), "/x/z");
    assert_eq!(normalize_path(""), "");
}

#[test]
fn paths_compare_by_components() {
    assert!(path_starts_with_exec("cli/watch.md", "cli"));
    assert!(path_starts_with_exec("cli/watch.md", "cli/"));
    assert!(!path_starts_with_exec("cli2/watch.md", "cli"));
    assert!(path_starts_with_exec("a//b", "a/b"));
    assert!(path_less("a", "a/b"));
    assert!(path_less("a/b", "a.b"));
    assert!(!path_less("a.b", "a/b"));
    assert!(path_less("/z", "a"));
}

#[test]
fn path_pieces() {
    assert_eq!(join("src", "a.md"), "src/a.md");
    assert_eq!(join("src/", "a.md"), "src/a.md");
    assert_eq!(join("src", "/abs"), "/abs");
    assert_eq!(path_file_name("a/b.md"), Some("b.md".to_string()));
    assert_eq!(path_file_name("a/.."), None);
    assert_eq!(path_file_stem("a/b.tar.gz"), Some("b.tar".to_string()));
    assert_eq!(path_to_root("a/b/c.md"), "../../");
    assert_eq!(path_to_root("c.md"), "");
}
