//! The print page: every chapter on one page. Ids are made unique across
//! the chapters, each chapter gets an id at its top, and links between
//! chapters are turned into links within the page.

use vstd::prelude::*;
use crate::html_serialize::{
    attrs_view, children_view, lemma_children_view, node_view, serialize, written, AttrNamespace,
    value_view, AttrView, HtmlElement, HtmlNode, NodeValue, NodeView, ValueView,
};
use crate::ids::{id_for, id_from_content, is_unique_choice, lemma_candidate_injective, string_views, unique_id};
use crate::chapter_page::{same_path, url_path};
use crate::path_order::{components_of, normalize_path, normalized_path, path_components};
use crate::paths::{join, join_path, parent_chars, parent_of};
use crate::regex_ext::regex_capture_group;
use crate::regex_ext::regex_group_match;
use crate::text::{append_chars, chars_eq, chars_of, ends_with, ends_with_exec, replace_chars, string_from_chars};

verus! {

/// Where the first plain attribute named `name` stands, or the number of
/// attributes when there is none.
pub open spec fn attr_index(attrs: Seq<AttrView>, name: Seq<char>) -> int
    decreases attrs.len(),
{
    if attrs.len() == 0 {
        0
    } else if attrs[0].0 == AttrNamespace::Plain && attrs[0].1 == name {
        0
    } else {
        1 + attr_index(attrs.drop_first(), name)
    }
}

/// The value of the first plain attribute named `name`.
pub open spec fn attr_of(attrs: Seq<AttrView>, name: Seq<char>) -> Option<Seq<char>> {
    let i = attr_index(attrs, name);
    if i < attrs.len() {
        Some(attrs[i].2)
    } else {
        None
    }
}

/// The attributes with the first plain attribute named `name` set to
/// `value`, or with such an attribute added at the end.
pub open spec fn with_attr(attrs: Seq<AttrView>, name: Seq<char>, value: Seq<char>) -> Seq<AttrView> {
    let i = attr_index(attrs, name);
    if i < attrs.len() {
        attrs.update(i, (AttrNamespace::Plain, name, value))
    } else {
        attrs.push((AttrNamespace::Plain, name, value))
    }
}

proof fn lemma_attr_index(attrs: Seq<AttrView>, name: Seq<char>, i: int)
    requires
        0 <= i <= attrs.len(),
        forall|j: int| 0 <= j < i ==> !((#[trigger] attrs[j]).0 == AttrNamespace::Plain && attrs[j].1 == name),
        i < attrs.len() ==> attrs[i].0 == AttrNamespace::Plain && attrs[i].1 == name,
    ensures
        attr_index(attrs, name) == i,
    decreases attrs.len(),
{
    if attrs.len() > 0 && !(attrs[0].0 == AttrNamespace::Plain && attrs[0].1 == name) {
        assert forall|j: int| 0 <= j < i - 1 implies !((#[trigger] attrs.drop_first()[j]).0 == AttrNamespace::Plain
            && attrs.drop_first()[j].1 == name) by {
            assert(attrs.drop_first()[j] == attrs[j + 1]);
        }
        lemma_attr_index(attrs.drop_first(), name, i - 1);
    }
}

/// Where the first plain attribute named `name` stands.
fn find_attr(el: &HtmlElement, name: &str) -> (r: usize)
    ensures
        r as int == attr_index(attrs_view(el.attrs@), name@),
        r <= el.attrs@.len(),
{
    let nv = chars_of(name);
    let ghost av = attrs_view(el.attrs@);
    let mut i: usize = 0;
    while i < el.attrs.len()
        invariant
            i <= el.attrs@.len(),
            nv@ == name@,
            av == attrs_view(el.attrs@),
            forall|j: int| 0 <= j < i ==> !((#[trigger] av[j]).0 == AttrNamespace::Plain && av[j].1 == name@),
        decreases el.attrs@.len() - i,
    {
        let (ns, local, _) = &el.attrs[i];
        if *ns == AttrNamespace::Plain && chars_eq(&chars_of(local.as_str()), &nv) {
            proof {
                lemma_attr_index(av, name@, i as int);
            }
            return i;
        }
        i = i + 1;
    }
    proof {
        lemma_attr_index(av, name@, i as int);
    }
    i
}

/// The value of the first plain attribute named `name`; see [`attr_of`].
pub fn get_attr(el: &HtmlElement, name: &str) -> (r: Option<String>)
    ensures
        match r {
            Some(v) => attr_of(attrs_view(el.attrs@), name@) == Some(v@),
            None => attr_of(attrs_view(el.attrs@), name@) is None,
        },
{
    let i = find_attr(el, name);
    if i < el.attrs.len() {
        Some(el.attrs[i].2.clone())
    } else {
        None
    }
}

/// Sets the first plain attribute named `name`, or adds one; see
/// [`with_attr`].
pub fn set_attr(el: &mut HtmlElement, name: &str, value: String)
    ensures
        attrs_view(final(el).attrs@) == with_attr(attrs_view(old(el).attrs@), name@, value@),
        final(el).name == old(el).name,
        final(el).self_closing == old(el).self_closing,
        final(el).was_raw == old(el).was_raw,
{
    let i = find_attr(el, name);
    let n = string_from_chars(&chars_of(name));
    if i < el.attrs.len() {
        el.attrs.set(i, (AttrNamespace::Plain, n, value));
        proof {
            assert(attrs_view(el.attrs@) =~= with_attr(attrs_view(old(el).attrs@), name@, value@));
        }
    } else {
        el.attrs.push((AttrNamespace::Plain, n, value));
        proof {
            assert(attrs_view(el.attrs@) =~= with_attr(attrs_view(old(el).attrs@), name@, value@));
        }
    }
}

/// The id that making `id` unique against `used` gives.
pub open spec fn unique_choice(id: Seq<char>, used: Seq<Seq<char>>) -> Seq<char> {
    choose|r: Seq<char>| is_unique_choice(id, used, r)
}

/// There is one unique choice.
pub proof fn lemma_unique_choice(id: Seq<char>, used: Seq<Seq<char>>, r: Seq<char>)
    requires
        is_unique_choice(id, used, r),
    ensures
        unique_choice(id, used) == r,
{
    let c = unique_choice(id, used);
    assert(is_unique_choice(id, used, c));
    if used.contains(id) {
        let k1 = choose|k: nat|
            1 <= k && r == crate::ids::candidate(id, k) && !used.contains(crate::ids::candidate(id, k))
                && forall|j: nat| 1 <= j < k ==> used.contains(#[trigger] crate::ids::candidate(id, j));
        let k2 = choose|k: nat|
            1 <= k && c == crate::ids::candidate(id, k) && !used.contains(crate::ids::candidate(id, k))
                && forall|j: nat| 1 <= j < k ==> used.contains(#[trigger] crate::ids::candidate(id, j));
        if k1 < k2 {
            assert(used.contains(crate::ids::candidate(id, k1)));
        } else if k2 < k1 {
            assert(used.contains(crate::ids::candidate(id, k2)));
        }
    }
}

/// The number of nodes of a tree.
pub open spec fn node_count(n: NodeView) -> nat
    decreases n, 1nat,
{
    1 + nodes_count(n.children)
}

/// The number of nodes of a list of trees.
pub open spec fn nodes_count(ns: Seq<NodeView>) -> nat
    decreases ns, 0nat,
{
    if ns.len() == 0 {
        0
    } else {
        let i = ns.len() - 1;
        nodes_count(ns.subrange(0, i)) + node_count(ns[i])
    }
}

/// The number of nodes of a list of trees is the sum over any split.
pub proof fn lemma_nodes_count_split(ns: Seq<NodeView>, k: int)
    requires
        0 <= k <= ns.len(),
    ensures
        nodes_count(ns) == nodes_count(ns.take(k)) + nodes_count(ns.skip(k)),
    decreases ns.len(),
{
    if k < ns.len() {
        let i = ns.len() - 1;
        let p = ns.subrange(0, i);
        lemma_nodes_count_split(p, k);
        assert(p.take(k) =~= ns.take(k));
        let q = ns.skip(k);
        assert(q.subrange(0, q.len() - 1) =~= p.skip(k));
        assert(q[q.len() - 1] == ns[i]);
    } else {
        assert(ns.take(k) =~= ns);
        assert(ns.skip(k) =~= Seq::<NodeView>::empty());
    }
}

/// The state of making ids unique: the ids in use, and for each id that
/// was changed, the chapter's path, the id and its replacement, in order.
pub type IdState = (Seq<Seq<char>>, Seq<(Seq<char>, Seq<char>, Seq<char>)>);

/// What one node does to the state: an element with an id takes the id,
/// made unique; a changed id is recorded.
pub open spec fn uniq_value(v: ValueView, path: Seq<char>, st: IdState) -> (ValueView, IdState) {
    match v {
        ValueView::Element { name, attrs, self_closing, was_raw } => match attr_of(attrs, "id"@) {
            Some(id) => {
                let new = unique_choice(id, st.0);
                let used = st.0.push(new);
                if new != id {
                    (
                        ValueView::Element { name, attrs: with_attr(attrs, "id"@, new), self_closing, was_raw },
                        (used, st.1.push((path, id, new))),
                    )
                } else {
                    (v, (used, st.1))
                }
            },
            None => (v, st),
        },
        _ => (v, st),
    }
}

/// A tree with its ids made unique, node before children, and the state after it.
pub open spec fn uniq_tree(n: NodeView, path: Seq<char>, st: IdState) -> (NodeView, IdState)
    decreases n, 1nat,
{
    let (v, s1) = uniq_value(n.value, path, st);
    let (cs, s2) = uniq_trees(n.children, path, s1);
    (NodeView { value: v, children: cs }, s2)
}

/// Trees with their ids made unique, one after another.
pub open spec fn uniq_trees(ns: Seq<NodeView>, path: Seq<char>, st: IdState) -> (Seq<NodeView>, IdState)
    decreases ns, 0nat,
{
    if ns.len() == 0 {
        (seq![], st)
    } else {
        let i = ns.len() - 1;
        let (a, s1) = uniq_trees(ns.subrange(0, i), path, st);
        let (b, s2) = uniq_tree(ns[i], path, s1);
        (a.push(b), s2)
    }
}

/// The view of the recorded id changes.
pub open spec fn remap_view(v: Seq<(String, String, String)>) -> Seq<(Seq<char>, Seq<char>, Seq<char>)> {
    v.map_values(|t: (String, String, String)| (t.0@, t.1@, t.2@))
}

/// Makes the ids of a tree unique; see [`uniq_tree`].
#[verifier::loop_isolation(false)]
fn uniq_owned(
    n: HtmlNode,
    path: &str,
    used: &mut Vec<String>,
    remap: &mut Vec<(String, String, String)>,
) -> (r: HtmlNode)
    requires
        old(used)@.len() + node_count(node_view(n)) < u32::MAX,
    ensures
        (node_view(r), (string_views(final(used)@), remap_view(final(remap)@))) == uniq_tree(
            node_view(n),
            path@,
            (string_views(old(used)@), remap_view(old(remap)@)),
        ),
        final(used)@.len() <= old(used)@.len() + node_count(node_view(n)),
    decreases n,
{
    let ghost st0: IdState = (string_views(used@), remap_view(remap@));
    let ghost bound = used@.len() + node_count(node_view(n));
    let ghost n0 = n;
    let HtmlNode { value, children } = n;
    assert(children == n0.children && value == n0.value);
    let value = match value {
        NodeValue::Element(mut el) => {
            match get_attr(&el, "id") {
                Some(id) => {
                    let ghost u0 = used@;
                    let new = unique_id(id.as_str(), used);
                    proof {
                        lemma_unique_choice(id@, string_views(u0), new@);
                        assert(string_views(used@) =~= string_views(u0).push(new@));
                    }
                    if !chars_eq(&chars_of(new.as_str()), &chars_of(id.as_str())) {
                        let ghost r0 = remap@;
                        set_attr(&mut el, "id", new.clone());
                        remap.push((string_from_chars(&chars_of(path)), id, new));
                        proof {
                            assert(remap_view(remap@) =~= remap_view(r0).push((path@, id@, new@)));
                        }
                    }
                    NodeValue::Element(el)
                },
                None => NodeValue::Element(el),
            }
        },
        other => other,
    };
    let ghost s1: IdState = (string_views(used@), remap_view(remap@));
    assert(uniq_value(value_view(n0.value), path@, st0) == (value_view(value), s1));
    let ghost orig = children@;
    let ghost cv = children_view(orig);
    proof {
        lemma_children_view(orig);
        assert(node_count(node_view(n0)) == 1 + nodes_count(cv));
        assert(cv.skip(0) =~= cv);
    }
    let mut rest = children;
    let total = rest.len();
    let mut done: Vec<HtmlNode> = Vec::new();
    let mut k: usize = 0;
    while rest.len() > 0
        invariant
            k <= orig.len(),
            orig.len() == total,
            orig == n0.children@,
            rest@ == orig.skip(k as int),
            cv == children_view(orig),
            cv.len() == orig.len(),
            forall|j: int| 0 <= j < cv.len() ==> #[trigger] cv[j] == node_view(orig[j]),
            (children_view(done@), (string_views(used@), remap_view(remap@))) == uniq_trees(cv.take(k as int), path@, s1),
            used@.len() + nodes_count(cv.skip(k as int)) <= bound,
            bound < u32::MAX,
        decreases rest@.len(),
    {
        assert(rest@.len() == orig.len() - k);
        let c = rest.remove(0);
        proof {
            assert(c == orig[k as int]);
            lemma_nodes_count_split(cv.skip(k as int), 1);
            assert(cv.skip(k as int).take(1) =~= seq![cv[k as int]]);
            assert(cv.skip(k as int).skip(1) =~= cv.skip(k + 1));
            let one = seq![cv[k as int]];
            assert(one.subrange(0, 0) =~= Seq::<NodeView>::empty());
            assert(nodes_count(Seq::<NodeView>::empty()) == 0);
            assert(one[0] == cv[k as int]);
            assert(nodes_count(one) == node_count(cv[k as int]));
            assert(decreases_to!(n0 => c)) by {
                assert(orig[k as int] == n0.children@[k as int]);
            }
        }
        let ghost d0 = done@;
        let c2 = uniq_owned(c, path, used, remap);
        done.push(c2);
        proof {
            assert(done@.subrange(0, done@.len() - 1) =~= d0);
            assert(children_view(done@) == children_view(d0).push(node_view(c2)));
            assert(cv.take(k + 1).subrange(0, k as int) =~= cv.take(k as int));
            assert(cv.take(k + 1)[k as int] == node_view(c));
        }
        k = k + 1;
    }
    proof {
        assert(cv.take(k as int) =~= cv);
    }
    HtmlNode { value, children: done }
}

/// The names of the headings.
pub open spec fn heading_names() -> Seq<Seq<char>> {
    seq!["h1"@, "h2"@, "h3"@, "h4"@, "h5"@, "h6"@]
}

/// The first heading of a tree, node before children: its name and id.
pub open spec fn first_heading(n: NodeView) -> Option<(Seq<char>, Option<Seq<char>>)>
    decreases n, 1nat,
{
    match n.value {
        ValueView::Element { name, attrs, .. } => if heading_names().contains(name) {
            Some((name, attr_of(attrs, "id"@)))
        } else {
            first_heading_in(n.children)
        },
        _ => first_heading_in(n.children),
    }
}

/// The first heading of a list of trees.
pub open spec fn first_heading_in(ns: Seq<NodeView>) -> Option<(Seq<char>, Option<Seq<char>>)>
    decreases ns, 0nat,
{
    if ns.len() == 0 {
        None
    } else {
        let i = ns.len() - 1;
        match first_heading_in(ns.subrange(0, i)) {
            Some(h) => Some(h),
            None => first_heading(ns[i]),
        }
    }
}

/// The id at the top of a chapter: that of its first heading, when that is
/// an `h1` with an id.
pub open spec fn top_id(n: NodeView) -> Option<Seq<char>> {
    match first_heading(n) {
        Some((name, Some(id))) => if name == "h1"@ { Some(id) } else { None },
        _ => None,
    }
}

/// The heading put at the top of a chapter that has none: an `h1` with the
/// id, holding a link to itself with the chapter's name.
pub open spec fn title_heading(id: Seq<char>, title: Seq<char>) -> NodeView {
    NodeView {
        value: ValueView::Element {
            name: "h1"@,
            attrs: seq![(AttrNamespace::Plain, "id"@, id)],
            self_closing: false,
            was_raw: false,
        },
        children: seq![
            NodeView {
                value: ValueView::Element {
                    name: "a"@,
                    attrs: seq![
                        (AttrNamespace::Plain, "href"@, "#"@ + id),
                        (AttrNamespace::Plain, "class"@, "header"@),
                    ],
                    self_closing: false,
                    was_raw: false,
                },
                children: seq![NodeView { value: ValueView::Text(title), children: seq![] }],
            },
        ],
    }
}

/// A chapter's tree with an id at its top, that id, and the ids in use
/// after: the id of its first heading when that is an `h1` with an id,
/// else a new heading made from the chapter's name, put first.
pub open spec fn with_top(n: NodeView, title: Seq<char>, used: Seq<Seq<char>>) -> (NodeView, Seq<char>, Seq<Seq<char>>) {
    match top_id(n) {
        Some(id) => (n, id, used),
        None => {
            let id = unique_choice(id_for(title), used);
            (
                NodeView { value: n.value, children: seq![title_heading(id, title)] + n.children },
                id,
                used.push(id),
            )
        },
    }
}

/// Whether a name is that of a heading.
fn is_heading(name: &str) -> (r: bool)
    ensures
        r == heading_names().contains(name@),
{
    let names: [&str; 6] = ["h1", "h2", "h3", "h4", "h5", "h6"];
    assert(names@.map_values(|s: &str| s@) =~= heading_names());
    let nv = chars_of(name);
    let mut i: usize = 0;
    while i < 6
        invariant
            i <= 6,
            nv@ == name@,
            names@.map_values(|s: &str| s@) == heading_names(),
            forall|j: int| 0 <= j < i ==> heading_names()[j] != name@,
        decreases 6 - i,
    {
        assert(heading_names()[i as int] == names@[i as int]@);
        if chars_eq(&chars_of(names[i]), &nv) {
            return true;
        }
        i = i + 1;
    }
    false
}

/// The first heading of a tree; see [`first_heading`].
fn find_heading(n: &HtmlNode) -> (r: Option<(String, Option<String>)>)
    ensures
        first_heading(node_view(*n)) == match r {
            Some((name, id)) => Some((name@, match id {
                Some(i) => Some(i@),
                None => None,
            })),
            None => None,
        },
    decreases n,
{
    if let NodeValue::Element(el) = &n.value {
        if is_heading(el.name.as_str()) {
            return Some((el.name.clone(), get_attr(el, "id")));
        }
    }
    let ghost cv = children_view(n.children@);
    proof {
        lemma_children_view(n.children@);
        assert(first_heading(node_view(*n)) == first_heading_in(cv));
        assert(cv.take(0) =~= Seq::<NodeView>::empty());
    }
    let mut i: usize = 0;
    while i < n.children.len()
        invariant
            i <= n.children@.len(),
            cv == children_view(n.children@),
            cv.len() == n.children@.len(),
            first_heading(node_view(*n)) == first_heading_in(cv),
            forall|j: int| 0 <= j < cv.len() ==> #[trigger] cv[j] == node_view(n.children@[j]),
            first_heading_in(cv.take(i as int)) is None,
        decreases n.children@.len() - i,
    {
        proof {
            assert(cv.take(i + 1).subrange(0, i as int) =~= cv.take(i as int));
            assert(cv.take(i + 1)[i as int] == node_view(n.children@[i as int]));
            assert(decreases_to!(n => n.children@[i as int]));
        }
        let h = find_heading(&n.children[i]);
        if h.is_some() {
            proof {
                lemma_first_heading_prefix(cv, i as int + 1);
            }
            return h;
        }
        i = i + 1;
    }
    proof {
        assert(cv.take(i as int) =~= cv);
    }
    None
}

/// A heading found among the first trees is the first of all of them.
proof fn lemma_first_heading_prefix(ns: Seq<NodeView>, k: int)
    requires
        0 <= k <= ns.len(),
        first_heading_in(ns.take(k)) is Some,
    ensures
        first_heading_in(ns) == first_heading_in(ns.take(k)),
    decreases ns.len(),
{
    if k < ns.len() {
        let p = ns.subrange(0, ns.len() - 1);
        assert(p.take(k) =~= ns.take(k));
        lemma_first_heading_prefix(p, k);
    } else {
        assert(ns.take(k) =~= ns);
    }
}

/// The heading put at the top of a chapter; see [`title_heading`].
fn make_title_heading(id: &String, title: &String) -> (r: HtmlNode)
    ensures
        node_view(r) == title_heading(id@, title@),
{
    let mut href = chars_of("#");
    append_chars(&mut href, &chars_of(id.as_str()));
    let text = HtmlNode { value: NodeValue::Text(title.clone()), children: Vec::new() };
    let a = HtmlNode {
        value: NodeValue::Element(HtmlElement {
            name: string_from_chars(&chars_of("a")),
            attrs: vec![
                (AttrNamespace::Plain, string_from_chars(&chars_of("href")), string_from_chars(&href)),
                (AttrNamespace::Plain, string_from_chars(&chars_of("class")), string_from_chars(&chars_of("header"))),
            ],
            self_closing: false,
            was_raw: false,
        }),
        children: vec![text],
    };
    let ghost ga = a;
    let ghost gt = text;
    let h1 = HtmlNode {
        value: NodeValue::Element(HtmlElement {
            name: string_from_chars(&chars_of("h1")),
            attrs: vec![(AttrNamespace::Plain, string_from_chars(&chars_of("id")), id.clone())],
            self_closing: false,
            was_raw: false,
        }),
        children: vec![a],
    };
    let ghost gh = h1;
    proof {
        assert(children_view(Seq::<HtmlNode>::empty()) =~= Seq::<NodeView>::empty());
        assert(seq![gt].subrange(0, 0) =~= Seq::<HtmlNode>::empty());
        assert(seq![ga].subrange(0, 0) =~= Seq::<HtmlNode>::empty());
        assert(gh.children@ == seq![ga]);
        assert(ga.children@ == seq![gt]);
        assert(gt.children@ == Seq::<HtmlNode>::empty());
        assert(node_view(gt) == NodeView { value: ValueView::Text(title@), children: seq![] });
        assert(children_view(seq![gt]) =~= seq![node_view(gt)]);
        assert(children_view(seq![ga]) =~= seq![node_view(ga)]);
        if let NodeValue::Element(e) = ga.value {
            assert(attrs_view(e.attrs@) =~= seq![
                (AttrNamespace::Plain, "href"@, "#"@ + id@),
                (AttrNamespace::Plain, "class"@, "header"@),
            ]);
        }
        if let NodeValue::Element(e) = gh.value {
            assert(attrs_view(e.attrs@) =~= seq![(AttrNamespace::Plain, "id"@, id@)]);
        }
    }
    h1
}

/// The pattern that cuts a link into its scheme, path and anchor.
pub const PRINT_LINK_PATTERN: &'static str = r"(?x)(?P<scheme>^[a-z][a-z0-9+.-]*:)?(?P<path>[^\#]+)?(?:\#(?P<anchor>.*))?";

/// The text of a capture group that took part in a match.
pub open spec fn group_text(g: Option<Option<Seq<char>>>) -> Option<Seq<char>> {
    match g {
        Some(Some(t)) => Some(t),
        _ => None,
    }
}

/// Whether two paths have the same components.
pub open spec fn same_components(a: Seq<char>, b: Seq<char>) -> bool {
    path_components(a) == path_components(b)
}

/// What an id of the chapter at `key` became: the last change recorded for
/// that chapter and id, or the id itself.
pub open spec fn remapped(remap: Seq<(Seq<char>, Seq<char>, Seq<char>)>, key: Seq<char>, id: Seq<char>) -> Seq<char>
    decreases remap.len(),
{
    if remap.len() == 0 {
        id
    } else {
        let e = remap.last();
        if same_components(e.0, key) && e.1 == id {
            e.2
        } else {
            remapped(remap.drop_last(), key, id)
        }
    }
}

/// The id at the top of the chapter at `key`: the last one recorded.
pub open spec fn top_of(tops: Seq<(Seq<char>, Seq<char>)>, key: Seq<char>) -> Option<Seq<char>>
    decreases tops.len(),
{
    if tops.len() == 0 {
        None
    } else if same_components(tops.last().0, key) {
        Some(tops.last().1)
    } else {
        top_of(tops.drop_last(), key)
    }
}

/// Whether a normalized path leads out of the book: it starts at the root
/// or goes up.
pub open spec fn leads_out(p: Seq<char>) -> bool {
    let c = path_components(p);
    c.len() > 0 && (c[0].0 == 1u8 || c[0].0 == 3u8)
}

/// Where a link to the chapter at `key` goes on the print page: the
/// (possibly changed) id of its anchor, or else the chapter's top.
pub open spec fn in_page_target(
    key: Seq<char>,
    anchor: Option<Seq<char>>,
    remap: Seq<(Seq<char>, Seq<char>, Seq<char>)>,
    tops: Seq<(Seq<char>, Seq<char>)>,
) -> Option<Seq<char>> {
    match anchor {
        Some(a) => Some("#"@ + remapped(remap, key, a)),
        None => match top_of(tops, key) {
            Some(id) => Some("#"@ + id),
            None => None,
        },
    }
}

/// What a link of the chapter at `html_path` becomes on the print page,
/// given the groups of [`PRINT_LINK_PATTERN`] in it; `None` leaves it as it
/// is. A link with a scheme is left; a link to a path that leads out of
/// the book or not to a page is made relative to the print page; any other
/// link goes to an id on the page.
pub open spec fn print_link_for(
    html_path: Seq<char>,
    matched: bool,
    scheme: Option<Seq<char>>,
    path: Option<Seq<char>>,
    anchor: Option<Seq<char>>,
    remap: Seq<(Seq<char>, Seq<char>, Seq<char>)>,
    tops: Seq<(Seq<char>, Seq<char>)>,
) -> Option<Seq<char>> {
    if !matched || scheme is Some {
        None
    } else {
        match parent_of(html_path) {
            None => None,
            Some(base) => match path {
                Some(href) => if href.len() > 0 {
                    let norm = normalized_path(join_path(base, href));
                    if leads_out(norm) || !ends_with(href, ".html"@) {
                        Some(url_path(norm) + match anchor {
                            Some(a) => "#"@ + a,
                            None => seq![],
                        })
                    } else {
                        in_page_target(norm, anchor, remap, tops)
                    }
                } else {
                    in_page_target(normalized_path(html_path), anchor, remap, tops)
                },
                None => in_page_target(normalized_path(html_path), anchor, remap, tops),
            },
        }
    }
}

/// What a link becomes on the print page, with the groups the `regex`
/// crate finds; see [`print_link_for`].
pub open spec fn print_link(
    html_path: Seq<char>,
    dest: Seq<char>,
    remap: Seq<(Seq<char>, Seq<char>, Seq<char>)>,
    tops: Seq<(Seq<char>, Seq<char>)>,
) -> Option<Seq<char>> {
    let p = PRINT_LINK_PATTERN@;
    print_link_for(
        html_path,
        regex_group_match(p, dest, 1) is Some,
        group_text(regex_group_match(p, dest, 1)),
        group_text(regex_group_match(p, dest, 2)),
        group_text(regex_group_match(p, dest, 3)),
        remap,
        tops,
    )
}

/// The view of the tops of chapters.
pub open spec fn tops_view(v: Seq<(String, String)>) -> Seq<(Seq<char>, Seq<char>)> {
    v.map_values(|t: (String, String)| (t.0@, t.1@))
}

fn remapped_exec(remap: &Vec<(String, String, String)>, key: &str, id: &str) -> (r: String)
    ensures
        r@ == remapped(remap_view(remap@), key@, id@),
{
    let ghost rv = remap_view(remap@);
    assert(rv.take(rv.len() as int) =~= rv);
    let mut k = remap.len();
    while k > 0
        invariant
            k <= remap@.len(),
            rv == remap_view(remap@),
            remapped(rv, key@, id@) == remapped(rv.take(k as int), key@, id@),
        decreases k,
    {
        let (p, old, new) = &remap[k - 1];
        proof {
            assert(rv.take(k as int).drop_last() =~= rv.take(k - 1));
            assert(rv.take(k as int).last() == (p@, old@, new@));
        }
        if same_path(p.as_str(), key) && chars_eq(&chars_of(old.as_str()), &chars_of(id)) {
            return new.clone();
        }
        k = k - 1;
    }
    string_from_chars(&chars_of(id))
}

fn top_exec(tops: &Vec<(String, String)>, key: &str) -> (r: Option<String>)
    ensures
        top_of(tops_view(tops@), key@) == match r {
            Some(x) => Some(x@),
            None => None,
        },
{
    let ghost tv = tops_view(tops@);
    assert(tv.take(tv.len() as int) =~= tv);
    let mut k = tops.len();
    while k > 0
        invariant
            k <= tops@.len(),
            tv == tops_view(tops@),
            top_of(tv, key@) == top_of(tv.take(k as int), key@),
        decreases k,
    {
        let (p, id) = &tops[k - 1];
        proof {
            assert(tv.take(k as int).drop_last() =~= tv.take(k - 1));
            assert(tv.take(k as int).last() == (p@, id@));
        }
        if same_path(p.as_str(), key) {
            return Some(id.clone());
        }
        k = k - 1;
    }
    None
}

fn in_page_exec(
    key: &str,
    anchor: &Option<String>,
    remap: &Vec<(String, String, String)>,
    tops: &Vec<(String, String)>,
) -> (r: Option<String>)
    ensures
        in_page_target(key@, match anchor { Some(a) => Some(a@), None => None }, remap_view(remap@), tops_view(tops@))
            == match r {
            Some(x) => Some(x@),
            None => None,
        },
{
    match anchor {
        Some(a) => {
            let mut out = chars_of("#");
            append_chars(&mut out, &chars_of(remapped_exec(remap, key, a.as_str()).as_str()));
            Some(string_from_chars(&out))
        },
        None => match top_exec(tops, key) {
            Some(id) => {
                let mut out = chars_of("#");
                append_chars(&mut out, &chars_of(id.as_str()));
                Some(string_from_chars(&out))
            },
            None => None,
        },
    }
}

/// Whether a path leads out of the book; see [`leads_out`].
fn leads_out_exec(p: &str) -> (r: bool)
    ensures
        r == leads_out(p@),
{
    let c = components_of(p);
    if c.len() == 0 {
        return false;
    }
    assert(crate::path_order::component_views(c@)[0].0 == c@[0].0);
    c[0].0 == 1 || c[0].0 == 3
}

/// What a link of a chapter becomes on the print page; see [`print_link`].
pub fn print_link_exec(
    html_path: &str,
    dest: &str,
    remap: &Vec<(String, String, String)>,
    tops: &Vec<(String, String)>,
) -> (r: Option<String>)
    ensures
        print_link(html_path@, dest@, remap_view(remap@), tops_view(tops@)) == match r {
            Some(x) => Some(x@),
            None => None,
        },
{
    let g1 = regex_capture_group(PRINT_LINK_PATTERN, dest, 1);
    let scheme = match g1 {
        None => {
            return None;
        },
        Some(g) => g,
    };
    if scheme.is_some() {
        return None;
    }
    let path = match regex_capture_group(PRINT_LINK_PATTERN, dest, 2) {
        Some(Some(p)) => Some(p),
        _ => None,
    };
    let anchor = match regex_capture_group(PRINT_LINK_PATTERN, dest, 3) {
        Some(Some(a)) => Some(a),
        _ => None,
    };
    let base = match parent_chars(&chars_of(html_path)) {
        Some(b) => string_from_chars(&b),
        None => {
            return None;
        },
    };
    if let Some(href) = &path {
        if !href.as_str().is_empty() {
            let norm = normalize_path(join(base.as_str(), href.as_str()).as_str());
            if leads_out_exec(norm.as_str()) || !ends_with_exec(&chars_of(href.as_str()), &chars_of(".html")) {
                let back: [char; 1] = ['\\'];
                let fwd: [char; 1] = ['/'];
                assert(back@ == seq!['\\'] && fwd@ == seq!['/']);
                let mut out = replace_chars(&chars_of(norm.as_str()), &back, &fwd);
                if let Some(a) = &anchor {
                    append_chars(&mut out, &chars_of("#"));
                    append_chars(&mut out, &chars_of(a.as_str()));
                }
                return Some(string_from_chars(&out));
            }
            return in_page_exec(norm.as_str(), &anchor, remap, tops);
        }
    }
    let key = normalize_path(html_path);
    in_page_exec(key.as_str(), &anchor, remap, tops)
}

/// An attribute of a link with its target rewritten for the print page.
pub open spec fn fix_attr(
    attrs: Seq<AttrView>,
    name: Seq<char>,
    html_path: Seq<char>,
    remap: Seq<(Seq<char>, Seq<char>, Seq<char>)>,
    tops: Seq<(Seq<char>, Seq<char>)>,
) -> Seq<AttrView> {
    match attr_of(attrs, name) {
        Some(dest) => match print_link(html_path, dest, remap, tops) {
            Some(v) => with_attr(attrs, name, v),
            None => attrs,
        },
        None => attrs,
    }
}

/// A node with the `href`, `src` and `xlink:href` of a link or image
/// rewritten for the print page, in that order.
pub open spec fn fix_value(
    v: ValueView,
    html_path: Seq<char>,
    remap: Seq<(Seq<char>, Seq<char>, Seq<char>)>,
    tops: Seq<(Seq<char>, Seq<char>)>,
) -> ValueView {
    match v {
        ValueView::Element { name, attrs, self_closing, was_raw } => if name == "a"@ || name == "img"@ {
            let a1 = fix_attr(attrs, "href"@, html_path, remap, tops);
            let a2 = fix_attr(a1, "src"@, html_path, remap, tops);
            let a3 = fix_attr(a2, "xlink:href"@, html_path, remap, tops);
            ValueView::Element { name, attrs: a3, self_closing, was_raw }
        } else {
            v
        },
        _ => v,
    }
}

/// A tree with its links rewritten for the print page.
pub open spec fn fix_tree(
    n: NodeView,
    html_path: Seq<char>,
    remap: Seq<(Seq<char>, Seq<char>, Seq<char>)>,
    tops: Seq<(Seq<char>, Seq<char>)>,
) -> NodeView
    decreases n, 1nat,
{
    NodeView {
        value: fix_value(n.value, html_path, remap, tops),
        children: fix_trees(n.children, html_path, remap, tops),
    }
}

/// Trees with their links rewritten for the print page.
pub open spec fn fix_trees(
    ns: Seq<NodeView>,
    html_path: Seq<char>,
    remap: Seq<(Seq<char>, Seq<char>, Seq<char>)>,
    tops: Seq<(Seq<char>, Seq<char>)>,
) -> Seq<NodeView>
    decreases ns, 0nat,
{
    if ns.len() == 0 {
        seq![]
    } else {
        let i = ns.len() - 1;
        fix_trees(ns.subrange(0, i), html_path, remap, tops).push(fix_tree(ns[i], html_path, remap, tops))
    }
}

fn fix_attr_exec(
    el: &mut HtmlElement,
    name: &str,
    html_path: &str,
    remap: &Vec<(String, String, String)>,
    tops: &Vec<(String, String)>,
)
    ensures
        attrs_view(final(el).attrs@) == fix_attr(
            attrs_view(old(el).attrs@),
            name@,
            html_path@,
            remap_view(remap@),
            tops_view(tops@),
        ),
        final(el).name == old(el).name,
        final(el).self_closing == old(el).self_closing,
        final(el).was_raw == old(el).was_raw,
{
    if let Some(dest) = get_attr(el, name) {
        if let Some(v) = print_link_exec(html_path, dest.as_str(), remap, tops) {
            set_attr(el, name, v);
        }
    }
}

/// Rewrites the links of a tree; see [`fix_tree`].
#[verifier::loop_isolation(false)]
fn fix_owned(
    n: HtmlNode,
    html_path: &str,
    remap: &Vec<(String, String, String)>,
    tops: &Vec<(String, String)>,
) -> (r: HtmlNode)
    ensures
        node_view(r) == fix_tree(node_view(n), html_path@, remap_view(remap@), tops_view(tops@)),
    decreases n,
{
    let ghost n0 = n;
    let ghost rv = remap_view(remap@);
    let ghost tv = tops_view(tops@);
    let HtmlNode { value, children } = n;
    assert(children == n0.children && value == n0.value);
    let value = match value {
        NodeValue::Element(mut el) => {
            let is_link = chars_eq(&chars_of(el.name.as_str()), &chars_of("a")) || chars_eq(
                &chars_of(el.name.as_str()),
                &chars_of("img"),
            );
            if is_link {
                fix_attr_exec(&mut el, "href", html_path, remap, tops);
                fix_attr_exec(&mut el, "src", html_path, remap, tops);
                fix_attr_exec(&mut el, "xlink:href", html_path, remap, tops);
            }
            NodeValue::Element(el)
        },
        other => other,
    };
    assert(value_view(value) == fix_value(value_view(n0.value), html_path@, rv, tv));
    let ghost orig = children@;
    let ghost cv = children_view(orig);
    proof {
        lemma_children_view(orig);
        assert(cv.take(0) =~= Seq::<NodeView>::empty());
    }
    let mut rest = children;
    let total = rest.len();
    let mut done: Vec<HtmlNode> = Vec::new();
    let mut k: usize = 0;
    while rest.len() > 0
        invariant
            k <= orig.len(),
            orig.len() == total,
            orig == n0.children@,
            rest@ == orig.skip(k as int),
            cv == children_view(orig),
            cv.len() == orig.len(),
            forall|j: int| 0 <= j < cv.len() ==> #[trigger] cv[j] == node_view(orig[j]),
            children_view(done@) == fix_trees(cv.take(k as int), html_path@, rv, tv),
        decreases rest@.len(),
    {
        assert(rest@.len() == orig.len() - k);
        let c = rest.remove(0);
        proof {
            assert(c == orig[k as int]);
            assert(decreases_to!(n0 => c)) by {
                assert(orig[k as int] == n0.children@[k as int]);
            }
        }
        let ghost d0 = done@;
        let c2 = fix_owned(c, html_path, remap, tops);
        done.push(c2);
        proof {
            assert(done@.subrange(0, done@.len() - 1) =~= d0);
            assert(children_view(done@) == children_view(d0).push(node_view(c2)));
            assert(cv.take(k + 1).subrange(0, k as int) =~= cv.take(k as int));
            assert(cv.take(k + 1)[k as int] == node_view(c));
        }
        k = k + 1;
    }
    proof {
        assert(cv.take(k as int) =~= cv);
    }
    HtmlNode { value, children: done }
}

/// A chapter as the print page takes it: its name, the path of its page
/// and the tree of its content.
pub struct PrintChapter {
    /// The chapter's name.
    pub name: String,
    /// The path of its page, such as `intro/index.html`.
    pub html_path: String,
    /// Its content.
    pub tree: HtmlNode,
}

/// A chapter as values: name, page path and tree.
pub type ChapterView = (Seq<char>, Seq<char>, NodeView);

/// The chapters as values.
pub open spec fn chapter_views(cs: Seq<PrintChapter>) -> Seq<ChapterView> {
    cs.map_values(|c: PrintChapter| (c.name@, c.html_path@, node_view(c.tree)))
}

/// A bound on the ids that the print page can take: the nodes of every
/// chapter, and one more per chapter.
pub open spec fn print_size(cs: Seq<ChapterView>) -> nat
    decreases cs.len(),
{
    if cs.len() == 0 {
        0
    } else {
        print_size(cs.drop_last()) + node_count(cs.last().2) + 1
    }
}

proof fn lemma_print_size_take(cs: Seq<ChapterView>, k: int)
    requires
        0 <= k <= cs.len(),
    ensures
        print_size(cs.take(k)) <= print_size(cs),
    decreases cs.len(),
{
    if k < cs.len() {
        assert(cs.drop_last().take(k) =~= cs.take(k));
        lemma_print_size_take(cs.drop_last(), k);
    } else {
        assert(cs.take(k) =~= cs);
    }
}

/// The chapters with their ids made unique, chapter after chapter, and the
/// state after them.
pub open spec fn uniq_chapters(cs: Seq<ChapterView>, st: IdState) -> (Seq<ChapterView>, IdState)
    decreases cs.len(),
{
    if cs.len() == 0 {
        (seq![], st)
    } else {
        let (a, s1) = uniq_chapters(cs.drop_last(), st);
        let c = cs.last();
        let (t, s2) = uniq_tree(c.2, c.1, s1);
        (a.push((c.0, c.1, t)), s2)
    }
}

/// The chapters with an id at their top, the top id of each chapter's
/// page, and the ids in use after them.
pub open spec fn top_chapters(cs: Seq<ChapterView>, used: Seq<Seq<char>>) -> (
    Seq<ChapterView>,
    Seq<(Seq<char>, Seq<char>)>,
    Seq<Seq<char>>,
)
    decreases cs.len(),
{
    if cs.len() == 0 {
        (seq![], seq![], used)
    } else {
        let (a, tops, u1) = top_chapters(cs.drop_last(), used);
        let c = cs.last();
        let (t, id, u2) = with_top(c.2, c.0, u1);
        (a.push((c.0, c.1, t)), tops.push((c.1, id)), u2)
    }
}

/// What separates chapters on the print page.
pub const PAGE_BREAK: &'static str = r#"<div style="break-before: page; page-break-before: always;"></div>"#;

/// The trees written one after another, with a page break before each one
/// that follows some text.
pub open spec fn print_out(ts: Seq<NodeView>) -> Seq<char>
    decreases ts.len(),
{
    if ts.len() == 0 {
        seq![]
    } else {
        let o = print_out(ts.drop_last());
        let o2 = if o.len() > 0 { o + PAGE_BREAK@ } else { o };
        written(o2, ts.last())
    }
}

/// The content of the print page: the chapters' ids made unique, an id at
/// the top of each chapter, links rewritten to go within the page, and the
/// chapters written one after another.
pub open spec fn print_text(cs: Seq<ChapterView>) -> Seq<char> {
    let (u, st) = uniq_chapters(cs, (seq![], seq![]));
    let (t, tops, _) = top_chapters(u, st.0);
    print_out(t.map_values(|c: ChapterView| fix_tree(c.2, c.1, st.1, tops)))
}

/// Puts the chapters on one page; see [`print_text`].
pub fn render_print_page(chapters: Vec<PrintChapter>) -> (r: String)
    requires
        forall|i: int| 0 <= i < chapters@.len() ==> parent_of((#[trigger] chapters@[i]).html_path@) is Some,
        print_size(chapter_views(chapters@)) < u32::MAX,
    ensures
        r@ == print_text(chapter_views(chapters@)),
{
    let ghost cvs = chapter_views(chapters@);
    let ghost size = print_size(cvs);
    let n = chapters.len();
    let mut used: Vec<String> = Vec::new();
    let mut remap: Vec<(String, String, String)> = Vec::new();
    let mut rest = chapters;
    let mut stage1: Vec<PrintChapter> = Vec::new();
    let mut k: usize = 0;
    proof {
        assert(cvs.take(0) =~= Seq::<ChapterView>::empty());
        assert(cvs.skip(0) =~= cvs);
        assert(string_views(used@) =~= Seq::<Seq<char>>::empty());
        assert(remap_view(remap@) =~= Seq::<(Seq<char>, Seq<char>, Seq<char>)>::empty());
    }
    while rest.len() > 0
        invariant
            k <= n,
            cvs.len() == n,
            chapter_views(rest@) == cvs.skip(k as int),
            rest@.len() == n - k,
            stage1@.len() == k,
            (chapter_views(stage1@), (string_views(used@), remap_view(remap@))) == uniq_chapters(
                cvs.take(k as int),
                (seq![], seq![]),
            ),
            used@.len() + k <= print_size(cvs.take(k as int)),
            size == print_size(cvs),
            size < u32::MAX,
        decreases rest@.len(),
    {
        let ghost old_rest = rest@;
        let c = rest.remove(0);
        let ghost cview = (c.name@, c.html_path@, node_view(c.tree));
        proof {
            assert(rest@ =~= old_rest.drop_first());
            assert(chapter_views(rest@) =~= chapter_views(old_rest).drop_first());
            assert(chapter_views(rest@) =~= cvs.skip(k + 1));
            assert(cvs[k as int] == cview) by {
                assert(cvs.skip(k as int)[0] == cvs[k as int]);
            }
            assert(cvs.take(k + 1).drop_last() =~= cvs.take(k as int));
            assert(cvs.take(k + 1).last() == cview);
            lemma_print_size_take(cvs, k + 1);
        }
        let PrintChapter { name, html_path, tree } = c;
        let tree = uniq_owned(tree, html_path.as_str(), &mut used, &mut remap);
        let ghost s0 = chapter_views(stage1@);
        stage1.push(PrintChapter { name, html_path, tree });
        proof {
            assert(chapter_views(stage1@) =~= s0.push((cview.0, cview.1, node_view(tree))));
        }
        k = k + 1;
    }
    proof {
        assert(cvs.take(k as int) =~= cvs);
    }
    let ghost u = chapter_views(stage1@);
    let ghost st = (string_views(used@), remap_view(remap@));
    let mut tops: Vec<(String, String)> = Vec::new();
    let mut rest = stage1;
    let mut stage2: Vec<PrintChapter> = Vec::new();
    let mut k: usize = 0;
    proof {
        assert(u.take(0) =~= Seq::<ChapterView>::empty());
        assert(u.skip(0) =~= u);
        assert(tops_view(tops@) =~= Seq::<(Seq<char>, Seq<char>)>::empty());
    }
    while rest.len() > 0
        invariant
            k <= n,
            u.len() == n,
            chapter_views(rest@) == u.skip(k as int),
            rest@.len() == n - k,
            stage2@.len() == k,
            (chapter_views(stage2@), tops_view(tops@), string_views(used@)) == top_chapters(u.take(k as int), st.0),
            used@.len() + (n - k) <= size,
            size < u32::MAX,
        decreases rest@.len(),
    {
        let ghost old_rest = rest@;
        let c = rest.remove(0);
        let ghost cview = (c.name@, c.html_path@, node_view(c.tree));
        proof {
            assert(rest@ =~= old_rest.drop_first());
            assert(chapter_views(rest@) =~= chapter_views(old_rest).drop_first());
            assert(chapter_views(rest@) =~= u.skip(k + 1));
            assert(u[k as int] == cview) by {
                assert(u.skip(k as int)[0] == u[k as int]);
            }
            assert(u.take(k + 1).drop_last() =~= u.take(k as int));
            assert(u.take(k + 1).last() == cview);
        }
        let PrintChapter { name, html_path, tree } = c;
        let found = find_heading(&tree);
        let top = match found {
            Some((hname, Some(id))) => if chars_eq(&chars_of(hname.as_str()), &chars_of("h1")) {
                Some(id)
            } else {
                None
            },
            _ => None,
        };
        let ghost t0 = tops_view(tops@);
        let ghost s0 = chapter_views(stage2@);
        let ghost u0 = string_views(used@);
        match top {
            Some(id) => {
                tops.push((string_from_chars(&chars_of(html_path.as_str())), id));
                proof {
                    assert(tops_view(tops@) =~= t0.push((cview.1, id@)));
                }
                stage2.push(PrintChapter { name, html_path, tree });
                proof {
                    assert(chapter_views(stage2@) =~= s0.push(cview));
                }
            },
            None => {
                let base_id = id_from_content(name.as_str());
                let id = unique_id(base_id.as_str(), &mut used);
                proof {
                    lemma_unique_choice(id_for(name@), u0, id@);
                    assert(string_views(used@) =~= u0.push(id@));
                }
                let heading = make_title_heading(&id, &name);
                let HtmlNode { value, children } = tree;
                let mut kids: Vec<HtmlNode> = Vec::new();
                kids.push(heading);
                let mut more = children;
                let ghost cs0 = more@;
                kids.append(&mut more);
                let tree2 = HtmlNode { value, children: kids };
                proof {
                    assert(kids@ =~= seq![heading] + cs0);
                    lemma_children_view(kids@);
                    lemma_children_view(cs0);
                    assert(children_view(kids@) =~= seq![title_heading(id@, name@)] + children_view(cs0));
                }
                tops.push((string_from_chars(&chars_of(html_path.as_str())), id));
                proof {
                    assert(tops_view(tops@) =~= t0.push((cview.1, id@)));
                }
                stage2.push(PrintChapter { name, html_path, tree: tree2 });
                proof {
                    assert(chapter_views(stage2@) =~= s0.push((cview.0, cview.1, node_view(tree2))));
                }
            },
        }
        k = k + 1;
    }
    proof {
        assert(u.take(k as int) =~= u);
    }
    let ghost t = chapter_views(stage2@);
    let mut out = String::new();
    let mut rest = stage2;
    let mut k: usize = 0;
    let ghost fixed = t.map_values(|c: ChapterView| fix_tree(c.2, c.1, st.1, tops_view(tops@)));
    proof {
        assert(t.skip(0) =~= t);
        assert(fixed.take(0) =~= Seq::<NodeView>::empty());
    }
    while rest.len() > 0
        invariant
            k <= n,
            t.len() == n,
            fixed.len() == n,
            forall|j: int| 0 <= j < n ==> #[trigger] fixed[j] == fix_tree(t[j].2, t[j].1, st.1, tops_view(tops@)),
            chapter_views(rest@) == t.skip(k as int),
            rest@.len() == n - k,
            st.1 == remap_view(remap@),
            out@ == print_out(fixed.take(k as int)),
        decreases rest@.len(),
    {
        let ghost old_rest = rest@;
        let c = rest.remove(0);
        proof {
            assert(rest@ =~= old_rest.drop_first());
            assert(chapter_views(rest@) =~= chapter_views(old_rest).drop_first());
            assert(chapter_views(rest@) =~= t.skip(k + 1));
            assert(t[k as int] == (c.name@, c.html_path@, node_view(c.tree))) by {
                assert(t.skip(k as int)[0] == t[k as int]);
            }
            assert(fixed.take(k + 1).drop_last() =~= fixed.take(k as int));
        }
        let tree = fix_owned(c.tree, c.html_path.as_str(), &remap, &tops);
        if !out.as_str().is_empty() {
            let mut o = chars_of(out.as_str());
            append_chars(&mut o, &chars_of(PAGE_BREAK));
            out = string_from_chars(&o);
        }
        serialize(&tree, &mut out);
        k = k + 1;
    }
    proof {
        assert(fixed.take(k as int) =~= fixed);
    }
    out
}

} // verus!
