use mdbook_verified::not_found::{
    cname_text, default_not_found_markdown, makes_not_found_page, not_found_base_url, not_found_page_title,
};

#[test]
fn the_page_is_made_unless_its_input_is_empty() {
    assert!(makes_not_found_page(&None));
    assert!(makes_not_found_page(&Some("missing.md".to_string())));
    assert!(!makes_not_found_page(&Some(String::new())));
}

#[test]
fn the_title_names_the_book() {
    assert_eq!(not_found_page_title(&None), "Page not found");
    assert_eq!(not_found_page_title(&Some("My Book".to_string())), "Page not found - My Book");
}

#[test]
fn the_base_url_defaults_to_the_root() {
    assert_eq!(not_found_base_url(&None), "/");
    assert_eq!(not_found_base_url(&Some("/docs/".to_string())), "/docs/");
}

#[test]
fn default_markdown_and_cname() {
    assert_eq!(
        default_not_found_markdown(),
        "# Document not found (404)\n\nThis URL is invalid, sorry. Please use the navigation bar or search to continue."
    );
    assert_eq!(cname_text("example.com"), "example.com\n");
}
