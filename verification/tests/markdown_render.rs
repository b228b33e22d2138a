use mdbook_verified::chapter_html::CodeBlockOptions;
use mdbook_verified::chapter_tree::build_chapter_tree;
use mdbook_verified::html_serialize::serialize;
use mdbook_verified::markdown::MarkdownOptions;
use mdbook_verified::tree_builder::HtmlToken;

/// Renders Markdown to HTML with no playground handling of code blocks.
fn render_markdown(md: &str, smart_punctuation: bool) -> String {
    let code = CodeBlockOptions { runnable: false, editable: false, edition: None, hidelines: vec![] };
    let options = MarkdownOptions { smart_punctuation };
    let tree = build_chapter_tree(md, &options, &code, |_: String| -> Vec<HtmlToken> {
        panic!("no raw HTML in these tests")
    })
    .unwrap();
    let mut out = String::new();
    serialize(&tree, &mut out);
    out
}

#[test]
fn preserves_external_links() {
    assert_eq!(
        render_markdown("[example](https://www.rust-lang.org/)", true),
        "<p><a href=\"https://www.rust-lang.org/\">example</a></p>\n"
    );
}

#[test]
fn it_can_adjust_markdown_links() {
    assert_eq!(render_markdown("[example](example.md)", true), "<p><a href=\"example.html\">example</a></p>\n");
    assert_eq!(
        render_markdown("[example_anchor](example.md#anchor)", true),
        "<p><a href=\"example.html#anchor\">example_anchor</a></p>\n"
    );
    assert_eq!(
        render_markdown("[phantom data](foo.html#phantomdata)", true),
        "<p><a href=\"foo.html#phantomdata\">phantom data</a></p>\n"
    );
}

#[test]
fn tables_are_wrapped_in_a_div() {
    let src = r#"
| Original        | Punycode        | Punycode + Encoding |
|-----------------|-----------------|---------------------|
| føø             | f-5gaa          | f_5gaa              |
"#;
    assert_eq!(
        render_markdown(src, true),
        "<div class=\"table-wrapper\">\n<table>\n<thead>\n<tr><th>Original</th><th>Punycode</th><th>Punycode + Encoding</th></tr>\n</thead>\n<tbody>\n<tr><td>føø</td><td>f-5gaa</td><td>f_5gaa</td></tr>\n</tbody>\n</table>\n</div>\n"
    );
}

#[test]
fn it_can_keep_quotes_straight() {
    assert_eq!(render_markdown("'one'", false), "<p>'one'</p>\n");
}

#[test]
fn it_can_make_quotes_curly_except_when_they_are_in_code() {
    let input = r#"
'one'
```
'two'
```
`'three'` 'four'"#;
    let expected = r#"<p>‘one’</p>
<pre><code>'two'
</code></pre>
<p><code>'three'</code> ‘four’</p>
"#;
    assert_eq!(render_markdown(input, true), expected);
}

#[test]
fn text_around_a_rust_code_block_is_kept() {
    let input = "\nsome text with spaces\n```rust\nfn main() {\n// code inside is unchanged\n}\n```\nmore text with spaces\n";
    assert_eq!(
        render_markdown(input, true),
        "<p>some text with spaces</p>\n<pre><code class=\"language-rust\">fn main() {\n// code inside is unchanged\n}</code></pre>\n<p>more text with spaces</p>\n"
    );
}

#[test]
fn rust_code_block_without_properties_has_proper_html_class() {
    let input = r#"
```rust
```
"#;

    let expected = r#"<pre><code class="language-rust"></code></pre>
"#;
    assert_eq!(render_markdown(input, true), expected);

    let input = r#"
```rust
```
"#;
    assert_eq!(render_markdown(input, true), expected);
}

#[test]
fn code_block_properties_become_separate_classes() {
    assert_eq!(
        render_markdown("\n```rust,no_run,should_panic,property_3\n```\n", true),
        "<pre><code class=\"language-rust no_run should_panic property_3\"></code></pre>\n"
    );
    assert_eq!(
        render_markdown("\n```rust,    no_run,,,should_panic , ,property_3\n```\n", true),
        "<pre><code class=\"language-rust no_run should_panic property_3\"></code></pre>\n"
    );
}
