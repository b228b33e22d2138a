use mdbook_verified::clean_urls::{clean_url_link_path, clean_url_output_path, clean_url_path_to_root};
use mdbook_verified::paths::{path_file_stem, path_to_root};

#[test]
fn clean_url_link_path_root_index() {
    assert_eq!(clean_url_link_path("index.html"), "./");
}

#[test]
fn clean_url_link_path_root_non_index() {
    assert_eq!(clean_url_link_path("bar.html"), "bar/");
}

#[test]
fn clean_url_link_path_nested_index() {
    assert_eq!(clean_url_link_path("foo/index.html"), "foo/");
}

#[test]
fn clean_url_link_path_nested_non_index() {
    assert_eq!(clean_url_link_path("foo/bar.html"), "foo/bar/");
}

#[test]
fn clean_url_link_path_deeply_nested() {
    assert_eq!(clean_url_link_path("a/b/c.html"), "a/b/c/");
    assert_eq!(clean_url_link_path("a/b/index.html"), "a/b/");
}

#[test]
fn clean_url_output_path_root_index() {
    assert_eq!(clean_url_output_path("index.html"), "index.html");
}

#[test]
fn clean_url_output_path_root_non_index() {
    assert_eq!(clean_url_output_path("bar.html"), "bar/index.html");
}

#[test]
fn clean_url_output_path_nested_index() {
    assert_eq!(clean_url_output_path("foo/index.html"), "foo/index.html");
}

#[test]
fn clean_url_output_path_nested_non_index() {
    assert_eq!(clean_url_output_path("foo/bar.html"), "foo/bar/index.html");
}

#[test]
fn clean_url_output_path_deeply_nested() {
    assert_eq!(clean_url_output_path("a/b/c.html"), "a/b/c/index.html");
    assert_eq!(clean_url_output_path("a/b/index.html"), "a/b/index.html");
}

#[test]
fn clean_url_path_to_root_root_index() {
    assert_eq!(clean_url_path_to_root("index.md"), "");
}

#[test]
fn clean_url_path_to_root_root_non_index() {
    assert_eq!(clean_url_path_to_root("bar.md"), "../");
}

#[test]
fn clean_url_path_to_root_nested_index() {
    assert_eq!(clean_url_path_to_root("foo/index.md"), "../");
}

#[test]
fn clean_url_path_to_root_nested_non_index() {
    assert_eq!(clean_url_path_to_root("foo/bar.md"), "../../");
}

#[test]
fn clean_url_path_to_root_deeply_nested() {
    assert_eq!(clean_url_path_to_root("a/b/c.md"), "../../../");
    assert_eq!(clean_url_path_to_root("a/b/index.md"), "../../");
    assert_eq!(clean_url_path_to_root("a/b/c/d.md"), "../../../../");
}

#[test]
fn file_stems_follow_path_rules() {
    assert_eq!(path_file_stem("a/b.tar.gz"), Some("b.tar".to_string()));
    assert_eq!(path_file_stem(".hidden"), Some(".hidden".to_string()));
    assert_eq!(path_file_stem("dir/"), Some("dir".to_string()));
    assert_eq!(path_file_stem("a/.."), None);
    assert_eq!(path_file_stem(""), None);
    assert_eq!(path_to_root("css/general.css"), "../");
    assert_eq!(path_to_root("/"), "");
}
