//! Font Awesome icons: an empty `<i>` element whose classes name an icon
//! becomes a `span` holding the icon's SVG, and the `fa` template helper
//! writes an icon's SVG inside a `span`.

use vstd::prelude::*;
use crate::chapter_html::class_of;
use crate::html_serialize::{
    attrs_view, children_view, lemma_children_view, node_view, value_view, AttrNamespace, AttrView, HtmlElement,
    HtmlNode, NodeValue, NodeView, ValueView,
};
use crate::print_page::get_attr;
use crate::text::{chars_of, split_chars, split_on, starts_with, strip_prefix, strip_prefix_chars, string_from_chars, views};
use crate::tree_builder::{leaf, opt_str, plain};

verus! {

/// The styles of Font Awesome icons.
#[derive(Debug, Clone, Copy, PartialEq, Eq, Structural)]
pub enum IconKind {
    /// Brand logos.
    Brands,
    /// Regular icons.
    Regular,
    /// Solid icons.
    Solid,
}

/// The SVG of the named icon in the given style, when the icon set has it.
pub uninterp spec fn icon_svg(kind: IconKind, name: Seq<char>) -> Option<Seq<char>>;

/// Looks an icon up in the Font Awesome set
/// (`font_awesome_as_a_crate::svg`). The contract names the result: the SVG
/// text when the set has an icon of that name in that style, nothing
/// otherwise; what the set holds is not stated.
#[verifier::external_body]
fn svg_of(kind: IconKind, name: &str) -> (r: Option<String>)
    ensures
        opt_str(r) == icon_svg(kind, name@),
{
    let t = match kind {
        IconKind::Brands => font_awesome_as_a_crate::Type::Brands,
        IconKind::Regular => font_awesome_as_a_crate::Type::Regular,
        IconKind::Solid => font_awesome_as_a_crate::Type::Solid,
    };
    match font_awesome_as_a_crate::svg(t, name) {
        Ok(svg) => Some(svg.to_owned()),
        Err(_) => None,
    }
}

/// What the classes of an `<i>` element say: the style (regular unless a
/// class names another), the icon (the last class after `fa-` that names
/// no style), and the classes that the `span` keeps, after `fa-svg`.
pub open spec fn icon_parse(parts: Seq<Seq<char>>) -> (IconKind, Seq<char>, Seq<char>)
    decreases parts.len(),
{
    if parts.len() == 0 {
        (IconKind::Regular, seq![], "fa-svg"@)
    } else {
        let (k, icon, cls) = icon_parse(parts.drop_last());
        let c = parts.last();
        if c == "fa"@ || c == "fa-regular"@ {
            (IconKind::Regular, icon, cls)
        } else if c == "fas"@ || c == "fa-solid"@ {
            (IconKind::Solid, icon, cls)
        } else if c == "fab"@ || c == "fa-brands"@ {
            (IconKind::Brands, icon, cls)
        } else if starts_with(c, "fa-"@) {
            (k, c.skip(3), cls)
        } else {
            (k, icon, cls + " "@ + c)
        }
    }
}

/// The attributes but the plain `class` ones, in order.
pub open spec fn without_class(attrs: Seq<AttrView>) -> Seq<AttrView>
    decreases attrs.len(),
{
    if attrs.len() == 0 {
        seq![]
    } else {
        let rest = without_class(attrs.drop_last());
        let a = attrs.last();
        if a.0 == AttrNamespace::Plain && a.1 == "class"@ {
            rest
        } else {
            rest.push(a)
        }
    }
}

/// What an empty `<i>` element with these attributes becomes: a `span`
/// with the kept classes and its other attributes, holding the SVG, when
/// its classes name an icon that the set has.
pub open spec fn icon_node(attrs: Seq<AttrView>) -> Option<NodeView> {
    let (k, icon, cls) = icon_parse(split_on(class_of(attrs), ' '));
    if icon.len() > 0 {
        match icon_svg(k, icon) {
            Some(svg) => Some(
                NodeView {
                    value: ValueView::Element {
                        name: "span"@,
                        attrs: seq![plain("class"@, cls)] + without_class(attrs),
                        self_closing: false,
                        was_raw: false,
                    },
                    children: seq![leaf(ValueView::RawData(svg))],
                },
            ),
            None => None,
        }
    } else {
        None
    }
}

/// A tree with its icons replaced by their SVG.
pub open spec fn icon_tree(n: NodeView) -> NodeView
    decreases n, 1nat,
{
    match n.value {
        ValueView::Element { name, attrs, .. } => if name == "i"@ && n.children.len() == 0 && icon_node(attrs) is Some {
            icon_node(attrs)->0
        } else {
            NodeView { value: n.value, children: icon_trees(n.children) }
        },
        _ => NodeView { value: n.value, children: icon_trees(n.children) },
    }
}

/// Trees with their icons replaced.
pub open spec fn icon_trees(ns: Seq<NodeView>) -> Seq<NodeView>
    decreases ns, 0nat,
{
    if ns.len() == 0 {
        seq![]
    } else {
        let i = ns.len() - 1;
        icon_trees(ns.subrange(0, i)).push(icon_tree(ns[i]))
    }
}

/// Whether two strings hold the same characters.
fn same(a: &[char], b: &str) -> (r: bool)
    ensures
        r == (a@ == b@),
{
    let bv = chars_of(b);
    crate::text::chars_eq(a, &bv)
}

/// What the classes of an `<i>` element say; see [`icon_parse`].
fn icon_parse_exec(parts: &Vec<Vec<char>>) -> (r: (IconKind, Vec<char>, Vec<char>))
    ensures
        (r.0, r.1@, r.2@) == icon_parse(views(parts@)),
{
    let mut kind = IconKind::Regular;
    let mut icon: Vec<char> = Vec::new();
    let mut cls = chars_of("fa-svg");
    let mut i: usize = 0;
    assert(views(parts@).take(0) =~= Seq::<Seq<char>>::empty());
    while i < parts.len()
        invariant
            i <= parts@.len(),
            (kind, icon@, cls@) == icon_parse(views(parts@).take(i as int)),
        decreases parts@.len() - i,
    {
        let c = &parts[i];
        proof {
            let t = views(parts@).take(i + 1);
            assert(t.drop_last() =~= views(parts@).take(i as int));
            assert(t.last() == c@);
        }
        if same(c, "fa") || same(c, "fa-regular") {
            kind = IconKind::Regular;
        } else if same(c, "fas") || same(c, "fa-solid") {
            kind = IconKind::Solid;
        } else if same(c, "fab") || same(c, "fa-brands") {
            kind = IconKind::Brands;
        } else {
            let pre = chars_of("fa-");
            match crate::text::strip_prefix_chars(c, &pre) {
                Some(rest) => {
                    proof {
                        reveal_strlit("fa-");
                        assert(rest@ == c@.skip(3));
                    }
                    icon = rest;
                },
                None => {
                    crate::text::append_chars(&mut cls, &chars_of(" "));
                    crate::text::append_chars(&mut cls, c);
                },
            }
        }
        i = i + 1;
    }
    assert(views(parts@).take(i as int) =~= views(parts@));
    (kind, icon, cls)
}

/// The attributes but the plain `class` ones; see [`without_class`].
fn without_class_exec(attrs: &Vec<(AttrNamespace, String, String)>) -> (r: Vec<(AttrNamespace, String, String)>)
    ensures
        attrs_view(r@) == without_class(attrs_view(attrs@)),
{
    let mut out: Vec<(AttrNamespace, String, String)> = Vec::new();
    let mut i: usize = 0;
    assert(attrs_view(attrs@).take(0) =~= Seq::<AttrView>::empty());
    while i < attrs.len()
        invariant
            i <= attrs@.len(),
            attrs_view(out@) == without_class(attrs_view(attrs@).take(i as int)),
        decreases attrs@.len() - i,
    {
        let ghost o = attrs_view(out@);
        proof {
            let t = attrs_view(attrs@).take(i + 1);
            assert(t.drop_last() =~= attrs_view(attrs@).take(i as int));
        }
        let is_class = match attrs[i].0 {
            AttrNamespace::Plain => same(&chars_of(attrs[i].1.as_str()), "class"),
            _ => false,
        };
        if !is_class {
            out.push((attrs[i].0, attrs[i].1.clone(), attrs[i].2.clone()));
            assert(attrs_view(out@) =~= o.push(attrs_view(attrs@)[i as int]));
        }
        i = i + 1;
    }
    assert(attrs_view(attrs@).take(i as int) =~= attrs_view(attrs@));
    out
}

/// What an empty `<i>` element becomes, if anything; see [`icon_node`].
fn icon_node_exec(el: &HtmlElement) -> (r: Option<HtmlNode>)
    ensures
        match r {
            Some(n) => icon_node(attrs_view(el.attrs@)) == Some(node_view(n)),
            None => icon_node(attrs_view(el.attrs@)) is None,
        },
{
    let class = match get_attr(el, "class") {
        Some(c) => chars_of(c.as_str()),
        None => Vec::new(),
    };
    assert(class@ == class_of(attrs_view(el.attrs@)));
    let parts = split_chars(&class, ' ');
    let (kind, icon, cls) = icon_parse_exec(&parts);
    assert((kind, icon@, cls@) == icon_parse(split_on(class_of(attrs_view(el.attrs@)), ' ')));
    if icon.len() == 0 {
        return None;
    }
    let name = string_from_chars(&icon);
    match svg_of(kind, name.as_str()) {
        Some(svg) => {
            let mut attrs: Vec<(AttrNamespace, String, String)> = Vec::new();
            attrs.push((AttrNamespace::Plain, "class".to_owned(), string_from_chars(&cls)));
            let mut rest = without_class_exec(&el.attrs);
            let ghost a0 = attrs_view(attrs@);
            assert(a0 =~= seq![plain("class"@, cls@)]);
            let ghost r0 = attrs_view(rest@);
            attrs.append(&mut rest);
            let mut kids: Vec<HtmlNode> = Vec::new();
            kids.push(HtmlNode { value: NodeValue::RawData(svg), children: Vec::new() });
            let n = HtmlNode {
                value: NodeValue::Element(HtmlElement { name: "span".to_owned(), attrs, self_closing: false, was_raw: false }),
                children: kids,
            };
            proof {
                assert(attrs_view(attrs@) =~= a0 + r0);
                assert(children_view(Seq::<HtmlNode>::empty()) =~= seq![]);
                lemma_children_view(kids@);
                assert(children_view(kids@) =~= seq![leaf(ValueView::RawData(svg@))]);
                assert(icon_svg(kind, icon@) == Some(svg@));
                assert(node_view(n) == NodeView {
                    value: ValueView::Element {
                        name: "span"@,
                        attrs: seq![plain("class"@, cls@)] + without_class(attrs_view(el.attrs@)),
                        self_closing: false,
                        was_raw: false,
                    },
                    children: seq![leaf(ValueView::RawData(svg@))],
                });
            }
            Some(n)
        },
        None => None,
    }
}

/// Replaces the icons of a tree; see [`icon_tree`].
#[verifier::loop_isolation(false)]
fn icons_owned(n: HtmlNode) -> (r: HtmlNode)
    ensures
        node_view(r) == icon_tree(node_view(n)),
    decreases n,
{
    let ghost n0 = n;
    proof {
        lemma_children_view(n.children@);
    }
    let replaced = match &n.value {
        NodeValue::Element(el) => {
            if same(&chars_of(el.name.as_str()), "i") && n.children.len() == 0 {
                icon_node_exec(el)
            } else {
                None
            }
        },
        _ => None,
    };
    if let Some(r) = replaced {
        return r;
    }
    let HtmlNode { value, children } = n;
    assert(children == n0.children && value == n0.value);
    let ghost orig = children@;
    let ghost cv = children_view(orig);
    proof {
        lemma_children_view(orig);
        assert(cv.take(0) =~= Seq::<NodeView>::empty());
    }
    let mut rest = children;
    let total = rest.len();
    let mut done: Vec<HtmlNode> = Vec::new();
    let mut k: usize = 0;
    while rest.len() > 0
        invariant
            k <= orig.len(),
            orig.len() == total,
            orig == n0.children@,
            rest@ == orig.skip(k as int),
            cv == children_view(orig),
            cv.len() == orig.len(),
            forall|j: int| 0 <= j < cv.len() ==> #[trigger] cv[j] == node_view(orig[j]),
            children_view(done@) == icon_trees(cv.take(k as int)),
        decreases rest@.len(),
    {
        assert(rest@.len() == orig.len() - k);
        let c = rest.remove(0);
        proof {
            assert(c == orig[k as int]);
            assert(decreases_to!(n0 => c)) by {
                assert(orig[k as int] == n0.children@[k as int]);
            }
        }
        let ghost d0 = done@;
        let c2 = icons_owned(c);
        done.push(c2);
        proof {
            assert(done@.subrange(0, done@.len() - 1) =~= d0);
            assert(children_view(done@) == children_view(d0).push(node_view(c2)));
            assert(cv.take(k + 1).subrange(0, k as int) =~= cv.take(k as int));
            assert(cv.take(k + 1)[k as int] == node_view(c));
        }
        k = k + 1;
    }
    proof {
        assert(cv.take(k as int) =~= cv);
    }
    HtmlNode { value, children: done }
}

/// Replaces the Font Awesome icons of a chapter's tree by their SVG; see
/// [`icon_tree`].
pub fn convert_fontawesome(root: HtmlNode) -> (r: HtmlNode)
    ensures
        node_view(r) == icon_tree(node_view(root)),
{
    icons_owned(root)
}

/// The style that a name gives (`FromStr` for icon styles): `brands`,
/// `regular` or `solid`.
pub open spec fn icon_kind(s: Seq<char>) -> Option<IconKind> {
    if s == "brands"@ {
        Some(IconKind::Brands)
    } else if s == "regular"@ {
        Some(IconKind::Regular)
    } else if s == "solid"@ {
        Some(IconKind::Solid)
    } else {
        None
    }
}

/// Reads the name of an icon style; see [`icon_kind`].
pub fn parse_icon_kind(s: &str) -> (r: Option<IconKind>)
    ensures
        r == icon_kind(s@),
{
    let v = chars_of(s);
    if same(&v, "brands") {
        Some(IconKind::Brands)
    } else if same(&v, "regular") {
        Some(IconKind::Regular)
    } else if same(&v, "solid") {
        Some(IconKind::Solid)
    } else {
        None
    }
}

/// An icon name without the first of the prefixes `fa-`, `fab-` and
/// `fas-` that it has.
pub open spec fn bare_icon_name(name: Seq<char>) -> Seq<char> {
    match strip_prefix(name, "fa-"@) {
        Some(r) => r,
        None => match strip_prefix(name, "fab-"@) {
            Some(r) => r,
            None => match strip_prefix(name, "fas-"@) {
                Some(r) => r,
                None => name,
            },
        },
    }
}

/// Why the `fa` template helper fails.
#[derive(Debug, Clone, PartialEq)]
pub enum IconError {
    /// The first parameter is missing or names no style.
    TypeRequired,
    /// The second parameter is missing.
    NameRequired,
    /// The set has no icon of that name in that style.
    MissingFont(String),
}

impl IconError {
    /// The error's message.
    pub fn message(&self) -> (r: String)
        ensures
            r@ == match *self {
                IconError::TypeRequired => "Param 0 with String type is required for fontawesome helper."@,
                IconError::NameRequired => "Param 1 with String type is required for fontawesome helper."@,
                IconError::MissingFont(n) => "Missing font "@ + n@,
            },
    {
        match self {
            IconError::TypeRequired => "Param 0 with String type is required for fontawesome helper.".to_owned(),
            IconError::NameRequired => "Param 1 with String type is required for fontawesome helper.".to_owned(),
            IconError::MissingFont(n) => {
                let mut m = "Missing font ".to_owned();
                m.append(n.as_str());
                m
            },
        }
    }
}

/// The view of an optional string slice.
pub open spec fn opt_view(o: Option<&str>) -> Option<Seq<char>> {
    match o {
        Some(s) => Some(s@),
        None => None,
    }
}

/// The HTML that the `fa` helper writes for an icon's SVG.
pub open spec fn icon_html_text(id: Option<Seq<char>>, svg: Seq<char>) -> Seq<char> {
    (match id {
        Some(i) => "<span class=fa-svg id=\""@ + i + "\">"@,
        None => "<span class=fa-svg>"@,
    }) + svg + "</span>"@
}

/// An icon name without its style prefix; see [`bare_icon_name`].
fn bare_icon_name_exec(name: &str) -> (r: String)
    ensures
        r@ == bare_icon_name(name@),
{
    let v = chars_of(name);
    if let Some(r) = strip_prefix_chars(&v, &chars_of("fa-")) {
        return string_from_chars(&r);
    }
    if let Some(r) = strip_prefix_chars(&v, &chars_of("fab-")) {
        return string_from_chars(&r);
    }
    if let Some(r) = strip_prefix_chars(&v, &chars_of("fas-")) {
        return string_from_chars(&r);
    }
    name.to_owned()
}

/// The HTML of the `fa` template helper, given its parameters: the style,
/// the icon's name and an optional id. The name loses its style prefix;
/// the icon's SVG is written inside a `span` of class `fa-svg`, with the
/// id when there is one.
pub fn icon_html(kind: Option<&str>, name: Option<&str>, id: Option<&str>) -> (r: Result<String, IconError>)
    ensures
        match kind {
            None => r == Err::<String, IconError>(IconError::TypeRequired),
            Some(k) => match icon_kind(k@) {
                None => r == Err::<String, IconError>(IconError::TypeRequired),
                Some(kd) => match name {
                    None => r == Err::<String, IconError>(IconError::NameRequired),
                    Some(n) => match icon_svg(kd, bare_icon_name(n@)) {
                        Some(svg) => r matches Ok(s) && s@ == icon_html_text(opt_view(id), svg),
                        None => r matches Err(IconError::MissingFont(m)) && m@ == bare_icon_name(n@),
                    },
                },
            },
        },
{
    let kd = match kind {
        Some(k) => match parse_icon_kind(k) {
            Some(kd) => kd,
            None => {
                return Err(IconError::TypeRequired);
            },
        },
        None => {
            return Err(IconError::TypeRequired);
        },
    };
    let n = match name {
        Some(n) => n,
        None => {
            return Err(IconError::NameRequired);
        },
    };
    let bare = bare_icon_name_exec(n);
    match svg_of(kd, bare.as_str()) {
        Some(svg) => {
            let mut out = match id {
                Some(i) => {
                    let mut o = "<span class=fa-svg id=\"".to_owned();
                    o.append(i);
                    o.append("\">");
                    o
                },
                None => "<span class=fa-svg>".to_owned(),
            };
            out.append(svg.as_str());
            out.append("</span>");
            Ok(out)
        },
        None => Err(IconError::MissingFont(bare)),
    }
}

} // verus!
