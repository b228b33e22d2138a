use mdbook_verified::static_urls::{
    is_css_url_absolute, make_url_relative, normalize_url_path, url_parent_dir,
};

#[test]
fn test_url_parent_dir() {
    assert_eq!(url_parent_dir("css/custom.css"), "css");
    assert_eq!(url_parent_dir("a/b/c.css"), "a/b");
    assert_eq!(url_parent_dir("custom.css"), "");
    assert_eq!(url_parent_dir(""), "");
}

#[test]
fn test_normalize_url_path() {
    assert_eq!(normalize_url_path("fonts/test.woff2"), "fonts/test.woff2");
    assert_eq!(
        normalize_url_path("css/../fonts/test.woff2"),
        "fonts/test.woff2"
    );
    assert_eq!(normalize_url_path("a/b/../../c"), "c");
    assert_eq!(normalize_url_path("./fonts/test.woff2"), "fonts/test.woff2");
    assert_eq!(normalize_url_path("fonts//test.woff2"), "fonts/test.woff2");
}

#[test]
fn test_make_url_relative() {
    assert_eq!(
        make_url_relative("css", "fonts/test-abc.woff2"),
        "../fonts/test-abc.woff2"
    );
    assert_eq!(
        make_url_relative("fonts", "fonts/test-abc.woff2"),
        "test-abc.woff2"
    );
    assert_eq!(make_url_relative("a/b", "a/c/d.woff2"), "../c/d.woff2");
    assert_eq!(make_url_relative("css", "css/other.css"), "other.css");
}

#[test]
fn relative_url_edge_cases() {
    assert_eq!(make_url_relative("css", "css"), ".");
    assert_eq!(make_url_relative("", "x/y"), "x/y");
    assert_eq!(make_url_relative("a/b/c", ""), "../../..");
    assert_eq!(normalize_url_path("../x"), "x");
    assert_eq!(normalize_url_path(""), "");
    assert_eq!(url_parent_dir("/top"), "");
}

#[test]
fn absolute_css_urls() {
    assert!(is_css_url_absolute("https://fonts.googleapis.com/css2"));
    assert!(is_css_url_absolute("http://x"));
    assert!(is_css_url_absolute("//cdn.example.com/img.png"));
    assert!(is_css_url_absolute("/absolute/path.png"));
    assert!(is_css_url_absolute("data:image/png;base64,abc"));
    assert!(is_css_url_absolute("#frag"));
    assert!(!is_css_url_absolute("fonts/test-font.woff2"));
    assert!(!is_css_url_absolute("../fonts/a.woff2"));
}
