//! What is done to the HTML tree of a chapter once its Markdown is parsed:
//! headings get ids and links to themselves, and code blocks get their
//! playground classes, a `main` wrapper and their hidden lines.

use vstd::prelude::*;
use crate::html_serialize::{
    attrs_view, children_view, lemma_children_view, node_view, value_view, AttrNamespace, AttrView,
    HtmlElement, HtmlNode, NodeValue, NodeView, ValueView,
};
use crate::ids::{id_for, id_from_content, string_views, unique_id};
use crate::print_page::{
    attr_of, get_attr, heading_names, lemma_nodes_count_split, lemma_unique_choice, node_count,
    nodes_count, set_attr, unique_choice, with_attr,
};
use crate::config::RustEdition;
use crate::rust_code::{
    hide_lines_rust, hide_lines_with_prefix, prefix_segment, rust_segments, segment_views, wrap_rust_main,
    wrapped_main,
};
use crate::text::{
    append_chars, chars_eq, chars_of, lines, split_chars, split_on, starts_with, starts_with_exec, strip_prefix,
    strip_prefix_chars, string_from_chars, views,
};

verus! {

/// Whether elements of this name get ids and links to themselves: the
/// headings and the terms of definition lists.
pub open spec fn is_header_name(name: Seq<char>) -> bool {
    heading_names().contains(name) || name == "dt"@
}

/// The text of a node's own value: that of a text node, nothing else.
pub open spec fn own_text(v: ValueView) -> Seq<char> {
    match v {
        ValueView::Text(t) => t,
        _ => seq![],
    }
}

/// The text under a node: that of the text nodes below it, in order.
pub open spec fn text_in(n: NodeView) -> Seq<char>
    decreases n, 1nat,
{
    texts_in(n.children)
}

/// The text of a list of trees, roots included.
pub open spec fn texts_in(ns: Seq<NodeView>) -> Seq<char>
    decreases ns, 0nat,
{
    if ns.len() == 0 {
        seq![]
    } else {
        let i = ns.len() - 1;
        texts_in(ns.subrange(0, i)) + own_text(ns[i].value) + text_in(ns[i])
    }
}

/// The link a heading gets around its content.
pub open spec fn self_link(href: Seq<char>, children: Seq<NodeView>) -> NodeView {
    NodeView {
        value: ValueView::Element {
            name: "a"@,
            attrs: seq![(AttrNamespace::Plain, "class"@, "header"@), (AttrNamespace::Plain, "href"@, href)],
            self_closing: false,
            was_raw: false,
        },
        children,
    }
}

/// A tree whose headings have ids and links to themselves, node before
/// children, and the generated ids in use after it. A heading keeps an id
/// it has; one without gets an id made from its text, unique among the
/// generated ones.
pub open spec fn link_headers(n: NodeView, used: Seq<Seq<char>>) -> (NodeView, Seq<Seq<char>>)
    decreases n, 1nat,
{
    match n.value {
        ValueView::Element { name, attrs, self_closing, was_raw } => if is_header_name(name) && !was_raw {
            let (v, href, u1) = match attr_of(attrs, "id"@) {
                Some(id) => (n.value, "#"@ + id, used),
                None => {
                    let id = unique_choice(id_for(text_in(n)), used);
                    (
                        ValueView::Element { name, attrs: with_attr(attrs, "id"@, id), self_closing, was_raw },
                        "#"@ + id,
                        used.push(id),
                    )
                },
            };
            let (cs, u2) = link_headers_all(n.children, u1);
            (NodeView { value: v, children: seq![self_link(href, cs)] }, u2)
        } else {
            let (cs, u2) = link_headers_all(n.children, used);
            (NodeView { value: n.value, children: cs }, u2)
        },
        _ => {
            let (cs, u2) = link_headers_all(n.children, used);
            (NodeView { value: n.value, children: cs }, u2)
        },
    }
}

/// Trees with their headings linked, one after another.
pub open spec fn link_headers_all(ns: Seq<NodeView>, used: Seq<Seq<char>>) -> (Seq<NodeView>, Seq<Seq<char>>)
    decreases ns, 0nat,
{
    if ns.len() == 0 {
        (seq![], used)
    } else {
        let i = ns.len() - 1;
        let (a, u1) = link_headers_all(ns.subrange(0, i), used);
        let (b, u2) = link_headers(ns[i], u1);
        (a.push(b), u2)
    }
}

/// The text under a node; see [`text_in`].
fn text_of(n: &HtmlNode, out: &mut Vec<char>)
    ensures
        final(out)@ == old(out)@ + text_in(node_view(*n)),
    decreases n,
{
    let ghost cv = children_view(n.children@);
    let ghost start = out@;
    proof {
        lemma_children_view(n.children@);
        assert(cv.take(0) =~= Seq::<NodeView>::empty());
        assert(out@ =~= start + texts_in(cv.take(0)));
    }
    let mut i: usize = 0;
    while i < n.children.len()
        invariant
            i <= n.children@.len(),
            cv == children_view(n.children@),
            cv.len() == n.children@.len(),
            forall|j: int| 0 <= j < cv.len() ==> #[trigger] cv[j] == node_view(n.children@[j]),
            out@ == start + texts_in(cv.take(i as int)),
        decreases n.children@.len() - i,
    {
        proof {
            assert(cv.take(i + 1).subrange(0, i as int) =~= cv.take(i as int));
            assert(cv.take(i + 1)[i as int] == node_view(n.children@[i as int]));
            assert(decreases_to!(n => n.children@[i as int]));
        }
        let c = &n.children[i];
        if let NodeValue::Text(t) = &c.value {
            append_chars(out, &chars_of(t.as_str()));
        }
        text_of(c, out);
        proof {
            assert(out@ =~= start + texts_in(cv.take(i + 1)));
        }
        i = i + 1;
    }
    proof {
        assert(cv.take(i as int) =~= cv);
    }
}

/// Whether an element's name is one of the headers.
fn is_header(name: &str) -> (r: bool)
    ensures
        r == is_header_name(name@),
{
    let names: [&str; 7] = ["h1", "h2", "h3", "h4", "h5", "h6", "dt"];
    let nv = chars_of(name);
    let mut i: usize = 0;
    while i < 7
        invariant
            i <= 7,
            nv@ == name@,
            names@.map_values(|s: &str| s@) == heading_names().push("dt"@),
            forall|j: int| 0 <= j < i ==> heading_names().push("dt"@)[j] != name@,
        decreases 7 - i,
    {
        assert(heading_names().push("dt"@)[i as int] == names@[i as int]@);
        if chars_eq(&chars_of(names[i]), &nv) {
            proof {
                if i < 6 {
                    assert(heading_names()[i as int] == name@);
                }
            }
            return true;
        }
        i = i + 1;
    }
    proof {
        if heading_names().contains(name@) {
            let j = choose|j: int| 0 <= j < 6 && heading_names()[j] == name@;
            assert(heading_names().push("dt"@)[j] == name@);
        }
        assert(heading_names().push("dt"@)[6] == "dt"@);
    }
    false
}

/// The link a heading gets around its content; see [`self_link`].
fn make_self_link(href: String, children: Vec<HtmlNode>) -> (r: HtmlNode)
    ensures
        node_view(r) == self_link(href@, children_view(children@)),
{
    let attrs = vec![
        (AttrNamespace::Plain, string_from_chars(&chars_of("class")), string_from_chars(&chars_of("header"))),
        (AttrNamespace::Plain, string_from_chars(&chars_of("href")), href),
    ];
    let r = HtmlNode {
        value: NodeValue::Element(HtmlElement { name: string_from_chars(&chars_of("a")), attrs, self_closing: false, was_raw: false }),
        children,
    };
    let ghost gr = r;
    proof {
        if let NodeValue::Element(e) = gr.value {
            assert(attrs_view(e.attrs@) =~= seq![
                (AttrNamespace::Plain, "class"@, "header"@),
                (AttrNamespace::Plain, "href"@, href@),
            ]);
        }
    }
    r
}

/// Links the headings of a tree; see [`link_headers`].
#[verifier::loop_isolation(false)]
fn link_headers_owned(n: HtmlNode, used: &mut Vec<String>) -> (r: HtmlNode)
    requires
        old(used)@.len() + node_count(node_view(n)) < u32::MAX,
    ensures
        (node_view(r), string_views(final(used)@)) == link_headers(node_view(n), string_views(old(used)@)),
        final(used)@.len() <= old(used)@.len() + node_count(node_view(n)),
    decreases n,
{
    let ghost n0 = n;
    let ghost u0 = string_views(used@);
    let ghost bound = used@.len() + node_count(node_view(n));
    let header = match &n.value {
        NodeValue::Element(el) => is_header(el.name.as_str()) && !el.was_raw,
        _ => false,
    };
    let mut text: Vec<char> = Vec::new();
    if header {
        text_of(&n, &mut text);
    }
    let HtmlNode { value, children } = n;
    assert(children == n0.children && value == n0.value);
    let mut href: Option<String> = None;
    let value = match value {
        NodeValue::Element(mut el) => {
            if header {
                match get_attr(&el, "id") {
                    Some(id) => {
                        let mut h = chars_of("#");
                        append_chars(&mut h, &chars_of(id.as_str()));
                        href = Some(string_from_chars(&h));
                    },
                    None => {
                        let base = id_from_content(string_from_chars(&text).as_str());
                        let ghost before = used@;
                        let id = unique_id(base.as_str(), used);
                        proof {
                            lemma_unique_choice(id_for(text_in(node_view(n0))), string_views(before), id@);
                            assert(string_views(used@) =~= string_views(before).push(id@));
                        }
                        let mut h = chars_of("#");
                        append_chars(&mut h, &chars_of(id.as_str()));
                        href = Some(string_from_chars(&h));
                        set_attr(&mut el, "id", id);
                    },
                }
            }
            NodeValue::Element(el)
        },
        other => other,
    };
    let ghost u1 = string_views(used@);
    proof {
        let nv = node_view(n0);
        match nv.value {
            ValueView::Element { name, attrs, self_closing, was_raw } => {
                assert(header == (is_header_name(name) && !was_raw));
                if header {
                    match attr_of(attrs, "id"@) {
                        Some(id) => {
                            assert(href matches Some(h) && h@ == "#"@ + id);
                            assert(value_view(value) == nv.value);
                            assert(u1 == u0);
                        },
                        None => {
                            let id = unique_choice(id_for(text_in(nv)), u0);
                            assert(href matches Some(h) && h@ == "#"@ + id);
                            assert(value_view(value) == ValueView::Element { name, attrs: with_attr(attrs, "id"@, id), self_closing, was_raw });
                            assert(u1 == u0.push(id));
                        },
                    }
                } else {
                    assert(href is None);
                    assert(value_view(value) == nv.value);
                    assert(u1 == u0);
                }
            },
            _ => {
                assert(!header);
                assert(href is None);
                assert(value_view(value) == nv.value);
                assert(u1 == u0);
            },
        }
    }
    let ghost orig = children@;
    let ghost cv = children_view(orig);
    proof {
        lemma_children_view(orig);
        assert(node_count(node_view(n0)) == 1 + nodes_count(cv));
        assert(cv.skip(0) =~= cv);
        assert(cv.take(0) =~= Seq::<NodeView>::empty());
    }
    let mut rest = children;
    let total = rest.len();
    let mut done: Vec<HtmlNode> = Vec::new();
    let mut k: usize = 0;
    while rest.len() > 0
        invariant
            k <= orig.len(),
            orig.len() == total,
            orig == n0.children@,
            rest@ == orig.skip(k as int),
            cv == children_view(orig),
            cv.len() == orig.len(),
            forall|j: int| 0 <= j < cv.len() ==> #[trigger] cv[j] == node_view(orig[j]),
            (children_view(done@), string_views(used@)) == link_headers_all(cv.take(k as int), u1),
            used@.len() + nodes_count(cv.skip(k as int)) <= bound,
            bound < u32::MAX,
        decreases rest@.len(),
    {
        assert(rest@.len() == orig.len() - k);
        let c = rest.remove(0);
        proof {
            assert(c == orig[k as int]);
            lemma_nodes_count_split(cv.skip(k as int), 1);
            assert(cv.skip(k as int).take(1) =~= seq![cv[k as int]]);
            assert(cv.skip(k as int).skip(1) =~= cv.skip(k + 1));
            let one = seq![cv[k as int]];
            assert(one.subrange(0, 0) =~= Seq::<NodeView>::empty());
            assert(nodes_count(Seq::<NodeView>::empty()) == 0);
            assert(one[0] == cv[k as int]);
            assert(nodes_count(one) == node_count(cv[k as int]));
            assert(decreases_to!(n0 => c)) by {
                assert(orig[k as int] == n0.children@[k as int]);
            }
        }
        let ghost d0 = done@;
        let c2 = link_headers_owned(c, used);
        done.push(c2);
        proof {
            assert(done@.subrange(0, done@.len() - 1) =~= d0);
            assert(children_view(done@) == children_view(d0).push(node_view(c2)));
            assert(cv.take(k + 1).subrange(0, k as int) =~= cv.take(k as int));
            assert(cv.take(k + 1)[k as int] == node_view(c));
        }
        k = k + 1;
    }
    proof {
        assert(cv.take(k as int) =~= cv);
        assert(node_view(n0).children == cv);
        assert(link_headers_all(node_view(n0).children, u1) == (children_view(done@), string_views(used@)));
    }
    match href {
        Some(h) => {
            let ghost dv = children_view(done@);
            let ghost gh = h;
            let link = make_self_link(h, done);
            let ghost gl = link;
            let mut kids: Vec<HtmlNode> = Vec::new();
            kids.push(link);
            let r = HtmlNode { value, children: kids };
            proof {
                assert(r.children@ =~= seq![gl]);
                assert(seq![gl].subrange(0, 0) =~= Seq::<HtmlNode>::empty());
                assert(children_view(seq![gl]) =~= seq![node_view(gl)]);
                assert(node_view(gl) == self_link(gh@, dv));
                assert(node_view(r) == NodeView { value: value_view(r.value), children: seq![self_link(gh@, dv)] });
            }
            r
        },
        None => HtmlNode { value, children: done },
    }
}

/// Gives the headings of a chapter's tree ids and links to themselves; see
/// [`link_headers`]. The ids made are unique among themselves.
pub fn add_header_links(root: HtmlNode) -> (r: HtmlNode)
    requires
        node_count(node_view(root)) < u32::MAX,
    ensures
        node_view(r) == link_headers(node_view(root), seq![]).0,
{
    let mut used: Vec<String> = Vec::new();
    assert(string_views(used@) =~= Seq::<Seq<char>>::empty());
    link_headers_owned(root, &mut used)
}

/// The number of nodes of a tree, when it is below `u32::MAX`.
pub fn node_total(n: &HtmlNode) -> (r: Option<u32>)
    ensures
        r matches Some(c) ==> c == node_count(node_view(*n)) && c < u32::MAX,
        r is None ==> node_count(node_view(*n)) >= u32::MAX,
    decreases n,
{
    let ghost cv = children_view(n.children@);
    proof {
        lemma_children_view(n.children@);
        assert(node_count(node_view(*n)) == 1 + nodes_count(cv));
        assert(cv.take(0) =~= Seq::<NodeView>::empty());
    }
    let mut total: u32 = 1;
    let mut i: usize = 0;
    while i < n.children.len()
        invariant
            i <= n.children@.len(),
            cv == children_view(n.children@),
            cv.len() == n.children@.len(),
            forall|j: int| 0 <= j < cv.len() ==> #[trigger] cv[j] == node_view(n.children@[j]),
            total == 1 + nodes_count(cv.take(i as int)),
            total < u32::MAX,
            node_count(node_view(*n)) == 1 + nodes_count(cv),
        decreases n.children@.len() - i,
    {
        proof {
            assert(cv.take(i + 1).subrange(0, i as int) =~= cv.take(i as int));
            assert(cv.take(i + 1)[i as int] == node_view(n.children@[i as int]));
            assert(decreases_to!(n => n.children@[i as int]));
            lemma_nodes_count_split(cv, i + 1);
            lemma_nodes_count_split(cv, i as int);
        }
        match node_total(&n.children[i]) {
            None => {
                return None;
            },
            Some(c) => {
                if c >= u32::MAX - total {
                    return None;
                }
                total = total + c;
            },
        }
        i = i + 1;
    }
    proof {
        assert(cv.take(i as int) =~= cv);
    }
    Some(total)
}

/// What code blocks take from the configuration.
pub struct CodeBlockOptions {
    /// Whether Rust code blocks can be run in the playground.
    pub runnable: bool,
    /// Whether playground code blocks can be edited.
    pub editable: bool,
    /// The Rust edition of the book.
    pub edition: Option<RustEdition>,
    /// The prefix that marks hidden lines, by language.
    pub hidelines: Vec<(String, String)>,
}

/// The classes in a `class` attribute.
pub open spec fn class_list(class: Seq<char>) -> Seq<Seq<char>> {
    split_on(class, ' ')
}

/// The `class` attribute, empty when there is none.
pub open spec fn class_of(attrs: Seq<AttrView>) -> Seq<char> {
    match attr_of(attrs, "class"@) {
        Some(c) => c,
        None => seq![],
    }
}

/// Whether a code block with these classes goes to the playground: Rust
/// code not marked `ignore`, `noplayground` or `noplaypen` when code is
/// runnable, or marked `mdbook-runnable`.
pub open spec fn plays(cl: Seq<Seq<char>>, runnable: bool) -> bool {
    cl.contains("language-rust"@) && ((!cl.contains("ignore"@) && !cl.contains("noplayground"@)
        && !cl.contains("noplaypen"@) && runnable) || cl.contains("mdbook-runnable"@))
}

/// What follows `prefix` in the first class that starts with it.
pub open spec fn after_prefix(cl: Seq<Seq<char>>, prefix: Seq<char>) -> Option<Seq<char>>
    decreases cl.len(),
{
    if cl.len() == 0 {
        None
    } else {
        match strip_prefix(cl[0], prefix) {
            Some(r) => Some(r),
            None => after_prefix(cl.drop_first(), prefix),
        }
    }
}

/// Whether some class names an edition.
pub open spec fn has_edition_class(cl: Seq<Seq<char>>) -> bool {
    exists|i: int| 0 <= i < cl.len() && starts_with(#[trigger] cl[i], "edition"@)
}

/// The class of an edition.
pub open spec fn edition_class(e: RustEdition) -> Seq<char> {
    match e {
        RustEdition::E2015 => "edition2015"@,
        RustEdition::E2018 => "edition2018"@,
        RustEdition::E2021 => "edition2021"@,
        RustEdition::E2024 => "edition2024"@,
    }
}

/// The prefix of hidden lines configured for a language: that of the first
/// entry for it.
pub open spec fn configured_prefix(hl: Seq<(Seq<char>, Seq<char>)>, lang: Seq<char>) -> Option<Seq<char>>
    decreases hl.len(),
{
    if hl.len() == 0 {
        None
    } else if hl[0].0 == lang {
        Some(hl[0].1)
    } else {
        configured_prefix(hl.drop_first(), lang)
    }
}

/// A piece of code as nodes: a hidden piece in a `<span class="boring">`.
pub open spec fn segment_node(seg: (Seq<char>, bool)) -> NodeView {
    let t = NodeView { value: ValueView::Text(seg.0), children: seq![] };
    if seg.1 {
        NodeView {
            value: ValueView::Element {
                name: "span"@,
                attrs: seq![(AttrNamespace::Plain, "class"@, "boring"@)],
                self_closing: false,
                was_raw: false,
            },
            children: seq![t],
        }
    } else {
        t
    }
}

/// Pieces of code as nodes.
pub open spec fn segment_nodes(segs: Seq<(Seq<char>, bool)>) -> Seq<NodeView> {
    segs.map_values(|seg: (Seq<char>, bool)| segment_node(seg))
}

/// The configuration of code blocks as values.
pub open spec fn hidelines_view(v: Seq<(String, String)>) -> Seq<(Seq<char>, Seq<char>)> {
    v.map_values(|p: (String, String)| (p.0@, p.1@))
}

/// A code element's attributes and children once updated, given its one
/// child. A playground block gets the book's edition as a class when it
/// names none, and its code wrapped in a `main` function where it has none
/// (unless it is editable and the configuration allows editing). Then Rust
/// code gets its `#` lines hidden, and code in another language its lines
/// that start with the block's `hidelines=` prefix or else the one
/// configured for the language.
pub open spec fn code_block(attrs: Seq<AttrView>, child: NodeView, opts: CodeBlockOptions) -> (Seq<AttrView>, Seq<NodeView>) {
    let class = class_of(attrs);
    let cl = class_list(class);
    let pg = plays(cl, opts.runnable);
    let attrs1 = if pg && !has_edition_class(cl) && opts.edition is Some {
        with_attr(attrs, "class"@, class + " "@ + edition_class(opts.edition->0))
    } else {
        attrs
    };
    let child1 = if pg && (!opts.editable || !cl.contains("editable"@)) {
        match child.value {
            ValueView::Text(t) => match wrapped_main(t) {
                Some(w) => NodeView { value: ValueView::Text(w), children: child.children },
                None => child,
            },
            _ => child,
        }
    } else {
        child
    };
    let cl2 = class_list(class_of(attrs1));
    let lang = match after_prefix(cl2, "language-"@) {
        Some(l) => l,
        None => seq![],
    };
    let kids = match child1.value {
        ValueView::Text(t) => if lang == "rust"@ {
            segment_nodes(rust_segments(lines(t)))
        } else {
            let prefix = match after_prefix(cl2, "hidelines="@) {
                Some(p) => Some(p),
                None => configured_prefix(hidelines_view(opts.hidelines@), lang),
            };
            match prefix {
                Some(p) => segment_nodes(lines(t).map_values(|l: Seq<char>| prefix_segment(l, p))),
                None => seq![child1],
            }
        },
        _ => seq![child1],
    };
    (attrs1, kids)
}

/// Whether a node is a code element with exactly one child.
pub open spec fn is_code_one(n: NodeView) -> bool {
    match n.value {
        ValueView::Element { name, .. } => name == "code"@ && n.children.len() == 1,
        _ => false,
    }
}

/// Whether a node is a code element with one child that goes to the
/// playground.
pub open spec fn code_plays(n: NodeView, runnable: bool) -> bool {
    is_code_one(n) && match n.value {
        ValueView::Element { attrs, .. } => plays(class_list(class_of(attrs)), runnable),
        _ => false,
    }
}

/// A tree with its code blocks updated (see [`code_block`]); an element
/// holding a code block that goes to the playground gets the class
/// `playground`.
pub open spec fn code_tree(n: NodeView, opts: CodeBlockOptions) -> NodeView
    decreases n, 1nat,
{
    if is_code_one(n) {
        match n.value {
            ValueView::Element { name, attrs, self_closing, was_raw } => {
                let (a, kids) = code_block(attrs, n.children[0], opts);
                NodeView { value: ValueView::Element { name, attrs: a, self_closing, was_raw }, children: kids }
            },
            _ => n,
        }
    } else {
        let cs = code_trees(n.children, opts);
        let v = match n.value {
            ValueView::Element { name, attrs, self_closing, was_raw } => if exists|i: int|
                0 <= i < n.children.len() && code_plays(#[trigger] n.children[i], opts.runnable) {
                ValueView::Element { name, attrs: with_attr(attrs, "class"@, "playground"@), self_closing, was_raw }
            } else {
                n.value
            },
            _ => n.value,
        };
        NodeView { value: v, children: cs }
    }
}

/// Trees with their code blocks updated.
pub open spec fn code_trees(ns: Seq<NodeView>, opts: CodeBlockOptions) -> Seq<NodeView>
    decreases ns, 0nat,
{
    if ns.len() == 0 {
        seq![]
    } else {
        let i = ns.len() - 1;
        code_trees(ns.subrange(0, i), opts).push(code_tree(ns[i], opts))
    }
}

/// The `class` attribute of an element and its classes.
fn classes(el: &HtmlElement) -> (r: (Vec<char>, Vec<Vec<char>>))
    ensures
        r.0@ == class_of(attrs_view(el.attrs@)),
        views(r.1@) == class_list(r.0@),
{
    let class = match get_attr(el, "class") {
        Some(c) => chars_of(c.as_str()),
        None => Vec::new(),
    };
    let cl = split_chars(&class, ' ');
    (class, cl)
}

/// Whether one of the classes is `lit`.
fn has_class(cl: &Vec<Vec<char>>, lit: &str) -> (r: bool)
    ensures
        r == views(cl@).contains(lit@),
{
    let l = chars_of(lit);
    let mut i: usize = 0;
    while i < cl.len()
        invariant
            i <= cl@.len(),
            l@ == lit@,
            forall|j: int| 0 <= j < i ==> views(cl@)[j] != lit@,
        decreases cl@.len() - i,
    {
        if chars_eq(&cl[i], &l) {
            assert(views(cl@)[i as int] == lit@);
            return true;
        }
        i = i + 1;
    }
    false
}

/// Whether a code block with these classes goes to the playground; see
/// [`plays`].
fn plays_exec(cl: &Vec<Vec<char>>, runnable: bool) -> (r: bool)
    ensures
        r == plays(views(cl@), runnable),
{
    has_class(cl, "language-rust") && ((!has_class(cl, "ignore") && !has_class(cl, "noplayground")
        && !has_class(cl, "noplaypen") && runnable) || has_class(cl, "mdbook-runnable"))
}

/// What follows `prefix` in the first class that starts with it.
fn after_prefix_exec(cl: &Vec<Vec<char>>, prefix: &str) -> (r: Option<Vec<char>>)
    ensures
        after_prefix(views(cl@), prefix@) == match r {
            Some(v) => Some(v@),
            None => None,
        },
{
    let p = chars_of(prefix);
    let ghost cv = views(cl@);
    assert(cv.skip(0) =~= cv);
    let mut i: usize = 0;
    while i < cl.len()
        invariant
            i <= cl@.len(),
            p@ == prefix@,
            cv == views(cl@),
            after_prefix(cv, prefix@) == after_prefix(cv.skip(i as int), prefix@),
        decreases cl@.len() - i,
    {
        assert(cv.skip(i as int)[0] == cl@[i as int]@);
        assert(cv.skip(i as int).drop_first() =~= cv.skip(i + 1));
        match strip_prefix_chars(&cl[i], &p) {
            Some(rest) => {
                return Some(rest);
            },
            None => {},
        }
        i = i + 1;
    }
    assert(cv.skip(i as int) =~= Seq::<Seq<char>>::empty());
    None
}

/// Whether some class names an edition.
fn has_edition_exec(cl: &Vec<Vec<char>>) -> (r: bool)
    ensures
        r == has_edition_class(views(cl@)),
{
    let e = chars_of("edition");
    let mut i: usize = 0;
    while i < cl.len()
        invariant
            i <= cl@.len(),
            e@ == "edition"@,
            forall|j: int| 0 <= j < i ==> !starts_with(#[trigger] views(cl@)[j], "edition"@),
        decreases cl@.len() - i,
    {
        assert(views(cl@)[i as int] == cl@[i as int]@);
        if starts_with_exec(&cl[i], &e) {
            return true;
        }
        i = i + 1;
    }
    false
}

/// The prefix of hidden lines configured for a language.
fn configured_prefix_exec(hl: &Vec<(String, String)>, lang: &Vec<char>) -> (r: Option<String>)
    ensures
        configured_prefix(hidelines_view(hl@), lang@) == match r {
            Some(v) => Some(v@),
            None => None,
        },
{
    let ghost hv = hidelines_view(hl@);
    assert(hv.skip(0) =~= hv);
    let mut i: usize = 0;
    while i < hl.len()
        invariant
            i <= hl@.len(),
            hv == hidelines_view(hl@),
            configured_prefix(hv, lang@) == configured_prefix(hv.skip(i as int), lang@),
        decreases hl@.len() - i,
    {
        assert(hv.skip(i as int)[0] == (hl@[i as int].0@, hl@[i as int].1@));
        assert(hv.skip(i as int).drop_first() =~= hv.skip(i + 1));
        if chars_eq(&chars_of(hl[i].0.as_str()), lang) {
            return Some(hl[i].1.clone());
        }
        i = i + 1;
    }
    assert(hv.skip(i as int) =~= Seq::<(Seq<char>, Seq<char>)>::empty());
    None
}

/// Pieces of code as nodes; see [`segment_nodes`].
fn segments_to_nodes(segs: Vec<(String, bool)>) -> (r: Vec<HtmlNode>)
    ensures
        children_view(r@) == segment_nodes(segment_views(segs@)),
{
    let ghost sv = segment_views(segs@);
    let mut out: Vec<HtmlNode> = Vec::new();
    let mut i: usize = 0;
    proof {
        assert(children_view(out@) =~= segment_nodes(sv.take(0)));
    }
    while i < segs.len()
        invariant
            i <= segs@.len(),
            sv == segment_views(segs@),
            children_view(out@) == segment_nodes(sv.take(i as int)),
        decreases segs@.len() - i,
    {
        let (t, hidden) = (segs[i].0.clone(), segs[i].1);
        let text = HtmlNode { value: NodeValue::Text(t), children: Vec::new() };
        proof {
            assert(children_view(Seq::<HtmlNode>::empty()) =~= Seq::<NodeView>::empty());
        }
        let node = if hidden {
            let mut kids: Vec<HtmlNode> = Vec::new();
            let ghost gt = text;
            kids.push(text);
            let n = HtmlNode {
                value: NodeValue::Element(HtmlElement {
                    name: string_from_chars(&chars_of("span")),
                    attrs: vec![
                        (AttrNamespace::Plain, string_from_chars(&chars_of("class")), string_from_chars(&chars_of("boring"))),
                    ],
                    self_closing: false,
                    was_raw: false,
                }),
                children: kids,
            };
            let ghost gn = n;
            proof {
                assert(gn.children@ =~= seq![gt]);
                assert(seq![gt].subrange(0, 0) =~= Seq::<HtmlNode>::empty());
                assert(children_view(seq![gt]) =~= seq![node_view(gt)]);
                if let NodeValue::Element(e) = gn.value {
                    assert(attrs_view(e.attrs@) =~= seq![(AttrNamespace::Plain, "class"@, "boring"@)]);
                }
            }
            n
        } else {
            text
        };
        proof {
            assert(node_view(node) == segment_node(sv[i as int]));
        }
        let ghost o0 = out@;
        out.push(node);
        proof {
            assert(out@.subrange(0, out@.len() - 1) =~= o0);
            assert(children_view(out@) == children_view(o0).push(node_view(node)));
            assert(segment_nodes(sv.take(i + 1)) =~= segment_nodes(sv.take(i as int)).push(segment_node(sv[i as int])));
        }
        i = i + 1;
    }
    proof {
        assert(sv.take(i as int) =~= sv);
    }
    out
}

/// The class of an edition; see [`edition_class`].
fn edition_class_exec(e: RustEdition) -> (r: Vec<char>)
    ensures
        r@ == edition_class(e),
{
    match e {
        RustEdition::E2015 => chars_of("edition2015"),
        RustEdition::E2018 => chars_of("edition2018"),
        RustEdition::E2021 => chars_of("edition2021"),
        RustEdition::E2024 => chars_of("edition2024"),
    }
}

/// Updates a code element given its one child; see [`code_block`].
fn update_code(el: HtmlElement, child: HtmlNode, opts: &CodeBlockOptions) -> (r: (HtmlElement, Vec<HtmlNode>))
    ensures
        (attrs_view(r.0.attrs@), children_view(r.1@)) == code_block(attrs_view(el.attrs@), node_view(child), *opts),
        r.0.name == el.name,
        r.0.self_closing == el.self_closing,
        r.0.was_raw == el.was_raw,
{
    let ghost el0 = el;
    let ghost child0 = child;
    let mut el = el;
    let (class, cl) = classes(&el);
    let pg = plays_exec(&cl, opts.runnable);
    if pg && !has_edition_exec(&cl) {
        if let Some(e) = opts.edition {
            let mut c = class.clone();
            append_chars(&mut c, &chars_of(" "));
            append_chars(&mut c, &edition_class_exec(e));
            set_attr(&mut el, "class", string_from_chars(&c));
        }
    }
    let wrap = pg && (!opts.editable || !has_class(&cl, "editable"));
    let HtmlNode { value, children } = child;
    let value = if wrap {
        match value {
            NodeValue::Text(t) => match wrap_rust_main(t.as_str()) {
                Some(w) => NodeValue::Text(w),
                None => NodeValue::Text(t),
            },
            other => other,
        }
    } else {
        value
    };
    let child = HtmlNode { value, children };
    let (_, cl2) = classes(&el);
    let lang = match after_prefix_exec(&cl2, "language-") {
        Some(l) => l,
        None => Vec::new(),
    };
    let text = match &child.value {
        NodeValue::Text(t) => Some(t.clone()),
        _ => None,
    };
    let ghost gc = child;
    let kids = match text {
        Some(t) => {
            if chars_eq(&lang, &chars_of("rust")) {
                segments_to_nodes(hide_lines_rust(t.as_str()))
            } else {
                let prefix = match after_prefix_exec(&cl2, "hidelines=") {
                    Some(p) => Some(string_from_chars(&p)),
                    None => configured_prefix_exec(&opts.hidelines, &lang),
                };
                match prefix {
                    Some(p) => {
                        let segs = hide_lines_with_prefix(t.as_str(), p.as_str());
                        proof {
                            assert(lines(t@).map_values(|l: Seq<char>| prefix_segment(l, p@)) =~= segment_views(segs@));
                        }
                        segments_to_nodes(segs)
                    },
                    None => {
                        let mut v: Vec<HtmlNode> = Vec::new();
                        v.push(child);
                        proof {
                            assert(v@ =~= seq![gc]);
                            assert(seq![gc].subrange(0, 0) =~= Seq::<HtmlNode>::empty());
                            assert(children_view(Seq::<HtmlNode>::empty()) =~= Seq::<NodeView>::empty());
                            assert(children_view(seq![gc]) =~= seq![node_view(gc)]);
                        }
                        v
                    },
                }
            }
        },
        None => {
            let mut v: Vec<HtmlNode> = Vec::new();
            v.push(child);
            proof {
                assert(v@ =~= seq![gc]);
                assert(seq![gc].subrange(0, 0) =~= Seq::<HtmlNode>::empty());
                            assert(children_view(Seq::<HtmlNode>::empty()) =~= Seq::<NodeView>::empty());
                assert(children_view(seq![gc]) =~= seq![node_view(gc)]);
            }
            v
        },
    };
    (el, kids)
}

/// Whether a node is a code element with one child.
fn is_code_one_exec(n: &HtmlNode) -> (r: bool)
    ensures
        r == is_code_one(node_view(*n)),
{
    proof {
        lemma_children_view(n.children@);
    }
    match &n.value {
        NodeValue::Element(el) => chars_eq(&chars_of(el.name.as_str()), &chars_of("code")) && n.children.len() == 1,
        _ => false,
    }
}

/// Whether a node is a code block that goes to the playground.
fn code_plays_exec(n: &HtmlNode, runnable: bool) -> (r: bool)
    ensures
        r == code_plays(node_view(*n), runnable),
{
    if !is_code_one_exec(n) {
        return false;
    }
    match &n.value {
        NodeValue::Element(el) => {
            let (_, cl) = classes(el);
            plays_exec(&cl, runnable)
        },
        _ => false,
    }
}

/// Updates the code blocks of a tree; see [`code_tree`].
#[verifier::loop_isolation(false)]
fn code_owned(n: HtmlNode, opts: &CodeBlockOptions) -> (r: HtmlNode)
    ensures
        node_view(r) == code_tree(node_view(n), *opts),
    decreases n,
{
    let ghost n0 = n;
    proof {
        lemma_children_view(n.children@);
    }
    if is_code_one_exec(&n) {
        let HtmlNode { value, children } = n;
        match value {
            NodeValue::Element(el) => {
                let mut children = children;
                let child = children.remove(0);
                let (el2, kids) = update_code(el, child, opts);
                return HtmlNode { value: NodeValue::Element(el2), children: kids };
            },
            other => {
                return HtmlNode { value: other, children };
            },
        }
    }
    let mut flag = false;
    let mut i: usize = 0;
    while i < n.children.len()
        invariant
            i <= n.children@.len(),
            flag == exists|j: int| 0 <= j < i && code_plays(#[trigger] node_view(n.children@[j]), opts.runnable),
        decreases n.children@.len() - i,
    {
        if code_plays_exec(&n.children[i], opts.runnable) {
            flag = true;
        }
        i = i + 1;
    }
    proof {
        let cv = children_view(n.children@);
        assert(flag == exists|j: int| 0 <= j < cv.len() && code_plays(#[trigger] cv[j], opts.runnable)) by {
            if flag {
                let j = choose|j: int| 0 <= j < i && code_plays(#[trigger] node_view(n.children@[j]), opts.runnable);
                assert(cv[j] == node_view(n.children@[j]));
            }
            if exists|j: int| 0 <= j < cv.len() && code_plays(#[trigger] cv[j], opts.runnable) {
                let j = choose|j: int| 0 <= j < cv.len() && code_plays(#[trigger] cv[j], opts.runnable);
                assert(cv[j] == node_view(n.children@[j]));
            }
        }
    }
    let HtmlNode { value, children } = n;
    assert(children == n0.children && value == n0.value);
    let value = match value {
        NodeValue::Element(mut el) => {
            if flag {
                set_attr(&mut el, "class", string_from_chars(&chars_of("playground")));
            }
            NodeValue::Element(el)
        },
        other => other,
    };
    let ghost orig = children@;
    let ghost cv = children_view(orig);
    proof {
        lemma_children_view(orig);
        assert(cv.take(0) =~= Seq::<NodeView>::empty());
    }
    let mut rest = children;
    let total = rest.len();
    let mut done: Vec<HtmlNode> = Vec::new();
    let mut k: usize = 0;
    while rest.len() > 0
        invariant
            k <= orig.len(),
            orig.len() == total,
            orig == n0.children@,
            rest@ == orig.skip(k as int),
            cv == children_view(orig),
            cv.len() == orig.len(),
            forall|j: int| 0 <= j < cv.len() ==> #[trigger] cv[j] == node_view(orig[j]),
            children_view(done@) == code_trees(cv.take(k as int), *opts),
        decreases rest@.len(),
    {
        assert(rest@.len() == orig.len() - k);
        let c = rest.remove(0);
        proof {
            assert(c == orig[k as int]);
            assert(decreases_to!(n0 => c)) by {
                assert(orig[k as int] == n0.children@[k as int]);
            }
        }
        let ghost d0 = done@;
        let c2 = code_owned(c, opts);
        done.push(c2);
        proof {
            assert(done@.subrange(0, done@.len() - 1) =~= d0);
            assert(children_view(done@) == children_view(d0).push(node_view(c2)));
            assert(cv.take(k + 1).subrange(0, k as int) =~= cv.take(k as int));
            assert(cv.take(k + 1)[k as int] == node_view(c));
        }
        k = k + 1;
    }
    proof {
        assert(cv.take(k as int) =~= cv);
    }
    HtmlNode { value, children: done }
}

/// Updates the code blocks of a chapter's tree; see [`code_tree`].
pub fn update_code_blocks(root: HtmlNode, opts: &CodeBlockOptions) -> (r: HtmlNode)
    ensures
        node_view(r) == code_tree(node_view(root), *opts),
{
    code_owned(root, opts)
}


/// Whether the classes mark a block that is kept out of the playground:
/// `ignore`, `noplayground` or `noplaypen`, without `mdbook-runnable`.
pub open spec fn kept_out_of_playground(cl: Seq<Seq<char>>) -> bool {
    (cl.contains("ignore"@) || cl.contains("noplayground"@) || cl.contains("noplaypen"@))
        && !cl.contains("mdbook-runnable"@)
}

/// A code block marked `ignore`, `noplayground` or `noplaypen` (and not
/// `mdbook-runnable`) is not a playground block, whatever the
/// configuration: its element gets no edition class and its code no
/// `main` wrapper, so it comes out as it would with the playground turned
/// off and no edition set; and the element around it gets no `playground`
/// class.
pub proof fn law_blocks_kept_out_of_playground(attrs: Seq<AttrView>, child: NodeView, opts: CodeBlockOptions, n: NodeView)
    requires
        kept_out_of_playground(class_list(class_of(attrs))),
    ensures
        !plays(class_list(class_of(attrs)), opts.runnable),
        code_block(attrs, child, opts).0 == attrs,
        code_block(attrs, child, opts) == code_block(
            attrs,
            child,
            CodeBlockOptions { runnable: false, editable: opts.editable, edition: None, hidelines: opts.hidelines },
        ),
        (n.value matches ValueView::Element { attrs: a, .. } && a == attrs) ==> !code_plays(n, opts.runnable),
{
}

/// Only Rust code goes to the playground. Rust code does in a runnable
/// book unless its classes keep it out, and it always does when marked
/// `mdbook-runnable`; without that mark it never does in a book whose code
/// is not runnable.
pub proof fn law_rust_blocks_play(cl: Seq<Seq<char>>, runnable: bool)
    ensures
        !cl.contains("language-rust"@) ==> !plays(cl, runnable),
        cl.contains("language-rust"@) && !cl.contains("ignore"@) && !cl.contains("noplayground"@)
            && !cl.contains("noplaypen"@) ==> plays(cl, true),
        cl.contains("language-rust"@) && cl.contains("mdbook-runnable"@) ==> plays(cl, runnable),
        !cl.contains("mdbook-runnable"@) ==> !plays(cl, false),
{
}

} // verus!
