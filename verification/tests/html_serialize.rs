use mdbook_verified::html_serialize::{
    is_void_element, serialize, wants_pretty_html_newline, AttrNamespace, HtmlElement, HtmlNode,
    NodeValue,
};

fn el(name: &str, attrs: Vec<(AttrNamespace, &str, &str)>, children: Vec<HtmlNode>) -> HtmlNode {
    HtmlNode {
        value: NodeValue::Element(HtmlElement {
            name: name.to_string(),
            attrs: attrs
                .into_iter()
                .map(|(ns, k, v)| (ns, k.to_string(), v.to_string()))
                .collect(),
            self_closing: false,
            was_raw: false,
        }),
        children,
    }
}

fn leaf(value: NodeValue) -> HtmlNode {
    HtmlNode { value, children: Vec::new() }
}

fn text(t: &str) -> HtmlNode {
    leaf(NodeValue::Text(t.to_string()))
}

fn fragment(children: Vec<HtmlNode>) -> HtmlNode {
    HtmlNode { value: NodeValue::Fragment, children }
}

fn render(root: &HtmlNode) -> String {
    let mut out = String::new();
    serialize(root, &mut out);
    out
}

#[test]
fn text_is_escaped_and_blocks_end_lines() {
    let tree = fragment(vec![el("p", vec![], vec![text("a < b & c")])]);
    assert_eq!(render(&tree), "<p>a &lt; b &amp; c</p>\n");
}

#[test]
fn a_block_after_text_starts_a_new_line() {
    let tree = fragment(vec![text("x"), el("div", vec![], vec![]), el("span", vec![], vec![text("y")])]);
    assert_eq!(render(&tree), "x\n<div></div>\n<span>y</span>");
}

#[test]
fn a_block_after_a_line_break_adds_none() {
    let tree = fragment(vec![text("x\n"), el("ul", vec![], vec![el("li", vec![], vec![text("i")])])]);
    assert_eq!(render(&tree), "x\n<ul>\n<li>i</li>\n</ul>\n");
}

#[test]
fn void_and_self_closing_elements_have_no_end_tag() {
    let mut img = el("img", vec![(AttrNamespace::Plain, "alt", "a\"b<c")], vec![]);
    if let NodeValue::Element(e) = &mut img.value {
        e.self_closing = true;
    }
    let tree = fragment(vec![el("br", vec![], vec![]), img]);
    assert_eq!(render(&tree), "<br><img alt=\"a&quot;b&lt;c\" />");
}

#[test]
fn attribute_namespaces_are_written_as_prefixes() {
    let tree = el(
        "svg",
        vec![
            (AttrNamespace::Xml, "lang", "en"),
            (AttrNamespace::Xmlns, "xlink", "http://www.w3.org/1999/xlink"),
            (AttrNamespace::XLink, "href", "#a"),
            (AttrNamespace::Other, "data", "1"),
        ],
        vec![],
    );
    assert_eq!(
        render(&tree),
        "<svg xml:lang=\"en\" xmlns:xlink=\"http://www.w3.org/1999/xlink\" xlink:href=\"#a\" data=\"1\"></svg>"
    );
    let tree = el("xmlns", vec![(AttrNamespace::Xmlns, "a", "b")], vec![]);
    assert_eq!(render(&tree), "<xmlns a=\"b\"></xmlns>");
}

#[test]
fn comments_and_raw_data_are_written_as_they_are() {
    let tree = fragment(vec![
        leaf(NodeValue::Comment(" note ".to_string())),
        leaf(NodeValue::RawData("<b>&</b>".to_string())),
    ]);
    assert_eq!(render(&tree), "<!-- note --><b>&</b>");
}

#[test]
fn output_is_appended_to() {
    let mut out = String::from("before");
    serialize(&el("hr", vec![], vec![]), &mut out);
    assert_eq!(out, "before\n<hr>");
}

#[test]
fn element_kinds() {
    assert!(wants_pretty_html_newline("blockquote"));
    assert!(wants_pretty_html_newline("h6"));
    assert!(!wants_pretty_html_newline("span"));
    assert!(is_void_element("wbr"));
    assert!(is_void_element("hr"));
    assert!(!is_void_element("div"));
}
