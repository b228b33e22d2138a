use mdbook_verified::frontmatter::strip_frontmatter;

#[test]
fn test_strip_frontmatter() {
    let input = "---\ntitle: \"Hello\"\n---\n# Content";
    assert_eq!(strip_frontmatter(input), "# Content");
}

#[test]
fn test_strip_no_frontmatter() {
    let input = "# Just content";
    assert_eq!(strip_frontmatter(input), "# Just content");
}

#[test]
fn unterminated_frontmatter_is_kept() {
    let input = "  ---\ntitle: x\n# Content";
    assert_eq!(strip_frontmatter(input), input);
    assert_eq!(strip_frontmatter("\n---\na: b\n---\n\n\nBody"), "Body");
    assert_eq!(strip_frontmatter(""), "");
}
