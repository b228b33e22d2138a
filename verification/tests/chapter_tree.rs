use mdbook_verified::chapter_html::CodeBlockOptions;
use mdbook_verified::chapter_tree::{build_chapter_tree, BuildError};
use mdbook_verified::html_serialize::{serialize, HtmlNode};
use mdbook_verified::markdown::MarkdownOptions;
use mdbook_verified::tree_builder::HtmlToken;

fn code_options() -> CodeBlockOptions {
    CodeBlockOptions { runnable: false, editable: false, edition: None, hidelines: vec![] }
}

fn html_of(tree: &HtmlNode) -> String {
    let mut out = String::new();
    serialize(tree, &mut out);
    out
}

/// A tokenizer for the few tags these tests write.
fn tokens(html: String) -> Vec<HtmlToken> {
    match html.as_str() {
        "<b>" => vec![HtmlToken::StartTag { name: "b".into(), attrs: vec![], self_closing: false }],
        "</b>" => vec![HtmlToken::EndTag("b".into())],
        other => vec![HtmlToken::Characters(other.to_string())],
    }
}

#[test]
fn a_paragraph_becomes_a_p_element() {
    let opts = MarkdownOptions { smart_punctuation: true };
    let tree = build_chapter_tree("Hello *world*", &opts, &code_options(), tokens).unwrap();
    assert_eq!(html_of(&tree), "<p>Hello <em>world</em></p>\n");
}

#[test]
fn inline_html_goes_through_the_tokenizer() {
    let opts = MarkdownOptions { smart_punctuation: true };
    let tree = build_chapter_tree("a <b>bold</b> word", &opts, &code_options(), tokens).unwrap();
    assert_eq!(html_of(&tree), "<p>a <b>bold</b> word</p>\n");
}

#[test]
fn the_tokenizer_is_not_called_without_html() {
    let opts = MarkdownOptions { smart_punctuation: false };
    let r = build_chapter_tree("plain", &opts, &code_options(), |_: String| -> Vec<HtmlToken> {
        panic!("no HTML here")
    });
    assert!(r.is_ok());
    assert!(!matches!(r, Err(BuildError::Unfinished)));
}
