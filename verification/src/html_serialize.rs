//! Writes a tree of HTML nodes out as HTML text: text is escaped, element
//! attributes are escaped for attribute values, void and self-closing
//! elements get no end tag, and block elements stand on lines of their own.

use vstd::prelude::*;
use crate::html_escape::{escape_attr_seq, escape_html, escape_html_attribute, escape_text_seq};
use crate::text::{append_chars, chars_eq, chars_of, string_from_chars};

verus! {

/// The namespace of an attribute's name.
#[derive(Debug, Clone, Copy, PartialEq, Eq, Structural)]
pub enum AttrNamespace {
    /// No namespace.
    Plain,
    /// `xml:`.
    Xml,
    /// `xmlns:`.
    Xmlns,
    /// `xlink:`.
    XLink,
    /// Any other namespace; written without a prefix.
    Other,
}

/// An HTML element, without its children.
#[derive(Debug, Clone, PartialEq)]
pub struct HtmlElement {
    /// The tag name.
    pub name: String,
    /// The attributes in order: namespace, local name and value.
    pub attrs: Vec<(AttrNamespace, String, String)>,
    /// Whether the tag ends with `/>`.
    pub self_closing: bool,
    /// Whether the element was written as HTML in the Markdown, rather
    /// than made from Markdown syntax.
    pub was_raw: bool,
}

/// What a node of the tree holds.
#[derive(Debug, Clone, PartialEq)]
pub enum NodeValue {
    /// An element.
    Element(HtmlElement),
    /// Plain text, escaped when written.
    Text(String),
    /// A comment.
    Comment(String),
    /// The root of a tree fragment; writes nothing itself.
    Fragment,
    /// Raw data written as it is.
    RawData(String),
}

/// A node of an HTML tree with its children.
#[derive(Debug, PartialEq)]
pub struct HtmlNode {
    /// What the node holds.
    pub value: NodeValue,
    /// Its children, in order.
    pub children: Vec<HtmlNode>,
}

/// An attribute as values: namespace, local name and value.
pub type AttrView = (AttrNamespace, Seq<char>, Seq<char>);

/// The attributes of an element as values.
pub open spec fn attrs_view(attrs: Seq<(AttrNamespace, String, String)>) -> Seq<AttrView> {
    attrs.map_values(|a: (AttrNamespace, String, String)| (a.0, a.1@, a.2@))
}

/// What a node holds, as values.
pub enum ValueView {
    /// An element: name, attributes, whether the tag ends with `/>`, and
    /// whether it was written as HTML in the Markdown.
    Element { name: Seq<char>, attrs: Seq<AttrView>, self_closing: bool, was_raw: bool },
    /// Plain text.
    Text(Seq<char>),
    /// A comment.
    Comment(Seq<char>),
    /// The root of a tree fragment.
    Fragment,
    /// Raw data.
    RawData(Seq<char>),
}

/// A tree of HTML nodes as values.
pub struct NodeView {
    /// What the node holds.
    pub value: ValueView,
    /// Its children, in order.
    pub children: Seq<NodeView>,
}

/// The view of what a node holds.
pub open spec fn value_view(v: NodeValue) -> ValueView {
    match v {
        NodeValue::Element(el) => ValueView::Element {
            name: el.name@,
            attrs: attrs_view(el.attrs@),
            self_closing: el.self_closing,
            was_raw: el.was_raw,
        },
        NodeValue::Text(t) => ValueView::Text(t@),
        NodeValue::Comment(c) => ValueView::Comment(c@),
        NodeValue::Fragment => ValueView::Fragment,
        NodeValue::RawData(h) => ValueView::RawData(h@),
    }
}

/// The view of a tree.
pub open spec fn node_view(n: HtmlNode) -> NodeView
    decreases n, 1nat,
{
    NodeView { value: value_view(n.value), children: children_view(n.children@) }
}

/// The views of a list of trees.
pub open spec fn children_view(cs: Seq<HtmlNode>) -> Seq<NodeView>
    decreases cs, 0nat,
{
    if cs.len() == 0 {
        seq![]
    } else {
        let i = cs.len() - 1;
        children_view(cs.subrange(0, i)).push(node_view(cs[i]))
    }
}

/// The views of a list of trees, tree by tree.
pub proof fn lemma_children_view(cs: Seq<HtmlNode>)
    ensures
        children_view(cs).len() == cs.len(),
        forall|i: int| 0 <= i < cs.len() ==> #[trigger] children_view(cs)[i] == node_view(cs[i]),
    decreases cs.len(),
{
    if cs.len() > 0 {
        let p = cs.subrange(0, cs.len() - 1);
        lemma_children_view(p);
        assert forall|i: int| 0 <= i < cs.len() implies #[trigger] children_view(cs)[i] == node_view(cs[i]) by {
            if i < cs.len() - 1 {
                assert(p[i] == cs[i]);
            }
        }
    }
}

/// The names of the elements that stand on lines of their own.
pub open spec fn pretty_names() -> Seq<Seq<char>> {
    seq![
        "blockquote"@, "dd"@, "div"@, "dl"@, "dt"@, "h1"@, "h2"@, "h3"@, "h4"@, "h5"@, "h6"@,
        "hr"@, "li"@, "ol"@, "p"@, "pre"@, "table"@, "tbody"@, "thead"@, "tr"@, "ul"@,
    ]
}

/// The names of the void elements, which have no end tag.
pub open spec fn void_names() -> Seq<Seq<char>> {
    seq![
        "area"@, "base"@, "br"@, "col"@, "embed"@, "hr"@, "img"@, "input"@, "link"@, "meta"@,
        "param"@, "source"@, "track"@, "wbr"@,
    ]
}

/// The prefix written before an attribute's local name. An `xmlns`
/// attribute on an element named `xmlns` gets none.
pub open spec fn attr_prefix(ns: AttrNamespace, element: Seq<char>) -> Seq<char> {
    match ns {
        AttrNamespace::Xml => "xml:"@,
        AttrNamespace::Xmlns => if element == "xmlns"@ { seq![] } else { "xmlns:"@ },
        AttrNamespace::XLink => "xlink:"@,
        _ => seq![],
    }
}

/// The attributes of an element as written: each after a space, as
/// `name="value"` with the value escaped.
pub open spec fn attrs_text(attrs: Seq<AttrView>, element: Seq<char>) -> Seq<char>
    decreases attrs.len(),
{
    if attrs.len() == 0 {
        seq![]
    } else {
        let a = attrs.last();
        attrs_text(attrs.drop_last(), element) + " "@ + attr_prefix(a.0, element) + a.1 + "=\""@
            + escape_attr_seq(a.2) + "\""@
    }
}

/// The output after the start of an element: a line break first for an
/// element that stands on a line of its own, unless the output is empty or
/// already ends with one; then the start tag.
pub open spec fn start_tag(out: Seq<char>, name: Seq<char>, attrs: Seq<AttrView>, self_closing: bool) -> Seq<char> {
    let lead = if pretty_names().contains(name) && out.len() > 0 && out.last() != '\n' {
        out.push('\n')
    } else {
        out
    };
    lead + "<"@ + name + attrs_text(attrs, name) + (if self_closing { " /"@ } else { seq![] }) + ">"@
}

/// The output after the end of an element: nothing for a self-closing or
/// void element; else the end tag, and a line break after the end of an
/// element that stands on a line of its own.
pub open spec fn end_tag(out: Seq<char>, name: Seq<char>, self_closing: bool) -> Seq<char> {
    if self_closing || void_names().contains(name) {
        out
    } else {
        out + "</"@ + name + ">"@ + (if pretty_names().contains(name) { "\n"@ } else { seq![] })
    }
}

/// The output after a node is opened.
pub open spec fn open_node(out: Seq<char>, v: ValueView) -> Seq<char> {
    match v {
        ValueView::Element { name, attrs, self_closing, .. } => start_tag(out, name, attrs, self_closing),
        ValueView::Text(t) => out + escape_text_seq(t),
        ValueView::Comment(c) => out + "<!--"@ + c + "-->"@,
        ValueView::Fragment => out,
        ValueView::RawData(h) => out + h,
    }
}

/// The output after a node is closed.
pub open spec fn close_node(out: Seq<char>, v: ValueView) -> Seq<char> {
    match v {
        ValueView::Element { name, self_closing, .. } => end_tag(out, name, self_closing),
        _ => out,
    }
}

/// The output after a node and everything under it is written.
pub open spec fn written(out: Seq<char>, n: NodeView) -> Seq<char>
    decreases n, 1nat,
{
    close_node(written_all(open_node(out, n.value), n.children), n.value)
}

/// The output after nodes are written one after another.
pub open spec fn written_all(out: Seq<char>, ns: Seq<NodeView>) -> Seq<char>
    decreases ns, 0nat,
{
    if ns.len() == 0 {
        out
    } else {
        let i = ns.len() - 1;
        written(written_all(out, ns.subrange(0, i)), ns[i])
    }
}

/// Whether `name` is one of `names`.
fn name_in(name: &Vec<char>, names: &[&str]) -> (r: bool)
    ensures
        r == names@.map_values(|s: &str| s@).contains(name@),
{
    let ghost views = names@.map_values(|s: &str| s@);
    let mut i: usize = 0;
    while i < names.len()
        invariant
            i <= names@.len(),
            views == names@.map_values(|s: &str| s@),
            forall|j: int| 0 <= j < i ==> views[j] != name@,
        decreases names@.len() - i,
    {
        let c = chars_of(names[i]);
        if chars_eq(&c, name) {
            assert(views[i as int] == name@);
            return true;
        }
        i = i + 1;
    }
    false
}

/// Whether an element with this name stands on a line of its own.
pub fn wants_pretty_html_newline(name: &str) -> (r: bool)
    ensures
        r == pretty_names().contains(name@),
{
    let names: [&str; 21] = [
        "blockquote", "dd", "div", "dl", "dt", "h1", "h2", "h3", "h4", "h5", "h6", "hr", "li",
        "ol", "p", "pre", "table", "tbody", "thead", "tr", "ul",
    ];
    assert(names@.map_values(|s: &str| s@) =~= pretty_names());
    name_in(&chars_of(name), &names)
}

/// Whether an element with this name is a void element, which has no end
/// tag.
pub fn is_void_element(name: &str) -> (r: bool)
    ensures
        r == void_names().contains(name@),
{
    let names: [&str; 14] = [
        "area", "base", "br", "col", "embed", "hr", "img", "input", "link", "meta", "param",
        "source", "track", "wbr",
    ];
    assert(names@.map_values(|s: &str| s@) =~= void_names());
    name_in(&chars_of(name), &names)
}

/// Writes the start tag of an element; see [`start_tag`].
fn serialize_start(el: &HtmlElement, out: &mut Vec<char>)
    ensures
        final(out)@ == start_tag(old(out)@, el.name@, attrs_view(el.attrs@), el.self_closing),
{
    let n = chars_of(el.name.as_str());
    if wants_pretty_html_newline(el.name.as_str()) && out.len() > 0 && out[out.len() - 1] != '\n' {
        out.push('\n');
    }
    append_chars(out, &chars_of("<"));
    append_chars(out, &n);
    let ghost base = out@;
    let is_xmlns = chars_eq(&n, &chars_of("xmlns"));
    let mut j: usize = 0;
    while j < el.attrs.len()
        invariant
            j <= el.attrs@.len(),
            n@ == el.name@,
            is_xmlns == (n@ == "xmlns"@),
            out@ == base + attrs_text(attrs_view(el.attrs@).take(j as int), n@),
        decreases el.attrs@.len() - j,
    {
        let (ns, local, value) = &el.attrs[j];
        append_chars(out, &chars_of(" "));
        match ns {
            AttrNamespace::Xml => append_chars(out, &chars_of("xml:")),
            AttrNamespace::Xmlns => {
                if !is_xmlns {
                    append_chars(out, &chars_of("xmlns:"));
                }
            },
            AttrNamespace::XLink => append_chars(out, &chars_of("xlink:")),
            _ => {},
        }
        append_chars(out, &chars_of(local.as_str()));
        append_chars(out, &chars_of("=\""));
        append_chars(out, &chars_of(escape_html_attribute(value.as_str()).as_str()));
        append_chars(out, &chars_of("\""));
        proof {
            assert(attrs_view(el.attrs@).take(j + 1).drop_last() =~= attrs_view(el.attrs@).take(j as int));
        }
        j = j + 1;
    }
    assert(attrs_view(el.attrs@).take(el.attrs@.len() as int) =~= attrs_view(el.attrs@));
    if el.self_closing {
        append_chars(out, &chars_of(" /"));
    }
    append_chars(out, &chars_of(">"));
}

/// Writes the end tag of an element; see [`end_tag`].
fn serialize_end(el: &HtmlElement, out: &mut Vec<char>)
    ensures
        final(out)@ == end_tag(old(out)@, el.name@, el.self_closing),
{
    if el.self_closing || is_void_element(el.name.as_str()) {
        return;
    }
    append_chars(out, &chars_of("</"));
    append_chars(out, &chars_of(el.name.as_str()));
    append_chars(out, &chars_of(">"));
    if wants_pretty_html_newline(el.name.as_str()) {
        append_chars(out, &chars_of("\n"));
    }
}

/// Writes a node and everything under it; see [`written`].
fn write_node(n: &HtmlNode, out: &mut Vec<char>)
    ensures
        final(out)@ == written(old(out)@, node_view(*n)),
    decreases n,
{
    match &n.value {
        NodeValue::Element(el) => serialize_start(el, out),
        NodeValue::Text(t) => append_chars(out, &chars_of(escape_html(t.as_str()).as_str())),
        NodeValue::Comment(c) => {
            append_chars(out, &chars_of("<!--"));
            append_chars(out, &chars_of(c.as_str()));
            append_chars(out, &chars_of("-->"));
        },
        NodeValue::Fragment => {},
        NodeValue::RawData(h) => append_chars(out, &chars_of(h.as_str())),
    }
    let ghost opened = out@;
    let ghost cv = children_view(n.children@);
    proof {
        lemma_children_view(n.children@);
    }
    let mut i: usize = 0;
    while i < n.children.len()
        invariant
            i <= n.children@.len(),
            cv == children_view(n.children@),
            cv.len() == n.children@.len(),
            forall|k: int| 0 <= k < cv.len() ==> #[trigger] cv[k] == node_view(n.children@[k]),
            out@ == written_all(opened, cv.take(i as int)),
        decreases n.children@.len() - i,
    {
        proof {
            assert(cv.take(i + 1).subrange(0, i as int) =~= cv.take(i as int));
            assert(cv.take(i + 1)[i as int] == node_view(n.children@[i as int]));
            assert(decreases_to!(n => n.children@[i as int]));
        }
        write_node(&n.children[i], out);
        i = i + 1;
    }
    assert(cv.take(cv.len() as int) =~= cv);
    match &n.value {
        NodeValue::Element(el) => serialize_end(el, out),
        _ => {},
    }
}

/// Writes a tree of HTML nodes out after `output`; see [`written`].
pub fn serialize(root: &HtmlNode, output: &mut String)
    ensures
        final(output)@ == written(old(output)@, node_view(*root)),
{
    let mut out = chars_of(output.as_str());
    write_node(root, &mut out);
    *output = string_from_chars(&out);
}

proof fn lemma_prefix_trans(a: Seq<char>, b: Seq<char>, c: Seq<char>)
    requires
        a.is_prefix_of(b),
        b.is_prefix_of(c),
    ensures
        a.is_prefix_of(c),
{
    assert(c.subrange(0, a.len() as int) =~= b.subrange(0, a.len() as int));
}

proof fn lemma_append_extends(a: Seq<char>, b: Seq<char>)
    ensures
        a.is_prefix_of(a + b),
{
    assert((a + b).subrange(0, a.len() as int) =~= a);
}

proof fn lemma_open_close_extend(out: Seq<char>, v: ValueView)
    ensures
        out.is_prefix_of(open_node(out, v)),
        out.is_prefix_of(close_node(out, v)),
{
    assert(out.is_prefix_of(out)) by {
        assert(out.subrange(0, out.len() as int) =~= out);
    }
    match v {
        ValueView::Element { name, attrs, self_closing, .. } => {
            let n = name;
            let lead = if pretty_names().contains(n) && out.len() > 0 && out.last() != '\n' {
                out.push('\n')
            } else {
                out
            };
            assert(out.is_prefix_of(lead)) by {
                assert(lead.subrange(0, out.len() as int) =~= out);
            }
            let rest = "<"@ + n + attrs_text(attrs, n) + (if self_closing { " /"@ } else { seq![] }) + ">"@;
            assert(start_tag(out, n, attrs, self_closing) =~= lead + rest);
            lemma_append_extends(lead, rest);
            lemma_prefix_trans(out, lead, start_tag(out, n, attrs, self_closing));
            if !(self_closing || void_names().contains(n)) {
                let tail = "</"@ + n + ">"@ + (if pretty_names().contains(n) { "\n"@ } else { seq![] });
                assert(end_tag(out, n, self_closing) =~= out + tail);
                lemma_append_extends(out, tail);
            }
        },
        ValueView::Text(t) => lemma_append_extends(out, escape_text_seq(t)),
        ValueView::Comment(c) => {
            assert(open_node(out, v) =~= out + ("<!--"@ + c + "-->"@));
            lemma_append_extends(out, "<!--"@ + c + "-->"@);
        },
        ValueView::Fragment => {},
        ValueView::RawData(h) => lemma_append_extends(out, h),
    }
}

/// Writing a tree only adds to what was written before it.
pub proof fn law_serialize_appends(out: Seq<char>, n: NodeView)
    ensures
        out.is_prefix_of(written(out, n)),
    decreases n, 1nat,
{
    let o1 = open_node(out, n.value);
    lemma_open_close_extend(out, n.value);
    lemma_written_all_extends(o1, n.children);
    let o2 = written_all(o1, n.children);
    lemma_open_close_extend(o2, n.value);
    lemma_prefix_trans(out, o1, o2);
    lemma_prefix_trans(out, o2, written(out, n));
}

proof fn lemma_written_all_extends(out: Seq<char>, ns: Seq<NodeView>)
    ensures
        out.is_prefix_of(written_all(out, ns)),
    decreases ns, 0nat,
{
    if ns.len() == 0 {
        assert(out.subrange(0, out.len() as int) =~= out);
    } else {
        let i = ns.len() - 1;
        let p = ns.subrange(0, i);
        lemma_written_all_extends(out, p);
        law_serialize_appends(written_all(out, p), ns[i]);
        lemma_prefix_trans(out, written_all(out, p), written_all(out, ns));
    }
}

} // verus!
