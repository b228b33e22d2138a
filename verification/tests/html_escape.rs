use mdbook_verified::html_escape::{escape_html, escape_html_attribute};

#[test]
fn attributes_are_escaped() {
    assert_eq!(escape_html_attribute(""), "");
    assert_eq!(escape_html_attribute("<"), "&lt;");
    assert_eq!(escape_html_attribute(">"), "&gt;");
    assert_eq!(escape_html_attribute("<>"), "&lt;&gt;");
    assert_eq!(escape_html_attribute("<test>"), "&lt;test&gt;");
    assert_eq!(escape_html_attribute("a<test>b"), "a&lt;test&gt;b");
    assert_eq!(escape_html_attribute("'"), "&#39;");
    assert_eq!(escape_html_attribute("\\"), "&#92;");
    assert_eq!(escape_html_attribute("&"), "&amp;");
}

#[test]
fn html_is_escaped() {
    assert_eq!(escape_html(""), "");
    assert_eq!(escape_html("<"), "&lt;");
    assert_eq!(escape_html(">"), "&gt;");
    assert_eq!(escape_html("&"), "&amp;");
    assert_eq!(escape_html("<>"), "&lt;&gt;");
    assert_eq!(escape_html("<test>"), "&lt;test&gt;");
    assert_eq!(escape_html("a<test>b"), "a&lt;test&gt;b");
    assert_eq!(escape_html("'"), "'");
    assert_eq!(escape_html("\\"), "\\");
}

#[test]
fn escaped_special() {
    assert_eq!(escape_html_attribute(""), "");
    assert_eq!(escape_html_attribute("<"), "&lt;");
    assert_eq!(escape_html_attribute(">"), "&gt;");
    assert_eq!(escape_html_attribute("<>"), "&lt;&gt;");
    assert_eq!(escape_html_attribute("<test>"), "&lt;test&gt;");
    assert_eq!(escape_html_attribute("a<test>b"), "a&lt;test&gt;b");
    assert_eq!(escape_html_attribute("'"), "&#39;");
    assert_eq!(escape_html_attribute("\\"), "&#92;");
    assert_eq!(escape_html_attribute("&"), "&amp;");
}

#[test]
fn quotes_and_unicode() {
    assert_eq!(escape_html_attribute("a\"b"), "a&quot;b");
    assert_eq!(escape_html_attribute("Über & co"), "Über &amp; co");
    assert_eq!(escape_html("\"x\""), "\"x\"");
    assert_eq!(escape_html("plain text"), "plain text");
}
