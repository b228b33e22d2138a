use mdbook_verified::chapter_html::{add_header_links, node_total, update_code_blocks, CodeBlockOptions};
use mdbook_verified::config::RustEdition;
use mdbook_verified::html_serialize::{serialize, AttrNamespace, HtmlElement, HtmlNode, NodeValue};

fn el(name: &str, attrs: Vec<(&str, &str)>, children: Vec<HtmlNode>) -> HtmlNode {
    HtmlNode {
        value: NodeValue::Element(HtmlElement {
            name: name.to_string(),
            attrs: attrs
                .into_iter()
                .map(|(k, v)| (AttrNamespace::Plain, k.to_string(), v.to_string()))
                .collect(),
            self_closing: false,
            was_raw: false,
        }),
        children,
    }
}

fn text(t: &str) -> HtmlNode {
    HtmlNode { value: NodeValue::Text(t.to_string()), children: Vec::new() }
}

fn fragment(children: Vec<HtmlNode>) -> HtmlNode {
    HtmlNode { value: NodeValue::Fragment, children }
}

fn render(root: &HtmlNode) -> String {
    let mut out = String::new();
    serialize(root, &mut out);
    out
}

fn options(hidelines: Vec<(&str, &str)>) -> CodeBlockOptions {
    CodeBlockOptions {
        runnable: true,
        editable: false,
        edition: Some(RustEdition::E2021),
        hidelines: hidelines.into_iter().map(|(k, v)| (k.to_string(), v.to_string())).collect(),
    }
}

#[test]
fn headings_get_ids_and_links() {
    let tree = fragment(vec![
        el("h1", vec![], vec![text("Hello World")]),
        el("h2", vec![("id", "x")], vec![text("Sub")]),
        el("h1", vec![], vec![text("Hello "), el("em", vec![], vec![text("World")])]),
        el("p", vec![], vec![text("p")]),
    ]);
    let out = render(&add_header_links(tree));
    assert_eq!(
        out,
        "<h1 id=\"hello-world\"><a class=\"header\" href=\"#hello-world\">Hello World</a></h1>\n\
         <h2 id=\"x\"><a class=\"header\" href=\"#x\">Sub</a></h2>\n\
         <h1 id=\"hello-world-1\"><a class=\"header\" href=\"#hello-world-1\">Hello <em>World</em></a></h1>\n\
         <p>p</p>\n"
    );
}

#[test]
fn definition_terms_get_links_too() {
    let tree = fragment(vec![el("dl", vec![], vec![el("dt", vec![], vec![text("Term")])])]);
    assert_eq!(
        render(&add_header_links(tree)),
        "<dl>\n<dt id=\"term\"><a class=\"header\" href=\"#term\">Term</a></dt>\n</dl>\n"
    );
}

#[test]
fn rust_playground_blocks_are_wrapped_and_hidden() {
    let tree = fragment(vec![el(
        "pre",
        vec![],
        vec![el("code", vec![("class", "language-rust")], vec![text("let x = 1;\n")])],
    )]);
    let out = render(&update_code_blocks(tree, &options(vec![])));
    assert_eq!(
        out,
        "<pre class=\"playground\"><code class=\"language-rust edition2021\">\
         <span class=\"boring\">#![allow(unused)]\n</span>\
         <span class=\"boring\">fn main() {\n</span>\
         let x = 1;\n\
         <span class=\"boring\">}</span></code></pre>\n"
    );
}

#[test]
fn ignored_rust_blocks_only_hide_lines() {
    let tree = fragment(vec![el(
        "pre",
        vec![],
        vec![el("code", vec![("class", "language-rust ignore")], vec![text("# use x;\nfn main() {}\n")])],
    )]);
    let out = render(&update_code_blocks(tree, &options(vec![])));
    assert_eq!(
        out,
        "<pre><code class=\"language-rust ignore\"><span class=\"boring\">use x;\n</span>fn main() {}</code></pre>\n"
    );
}

#[test]
fn other_languages_hide_configured_prefixes() {
    let tree = fragment(vec![el(
        "pre",
        vec![],
        vec![el("code", vec![("class", "language-python")], vec![text("~hidden\nshown\n")])],
    )]);
    let out = render(&update_code_blocks(tree, &options(vec![("python", "~")])));
    assert_eq!(
        out,
        "<pre><code class=\"language-python\"><span class=\"boring\">hidden\n</span>shown\n</code></pre>\n"
    );
    let tree = fragment(vec![el(
        "pre",
        vec![],
        vec![el("code", vec![("class", "language-text hidelines=!!")], vec![text("!!a\nb\n")])],
    )]);
    let out = render(&update_code_blocks(tree, &options(vec![])));
    assert_eq!(
        out,
        "<pre><code class=\"language-text hidelines=!!\"><span class=\"boring\">a\n</span>b\n</code></pre>\n"
    );
}

#[test]
fn nodes_are_counted() {
    let tree = fragment(vec![el("p", vec![], vec![text("a"), text("b")])]);
    assert_eq!(node_total(&tree), Some(4));
}
