//! The table of contents of the HTML output: nested ordered lists of the
//! chapters, with section numbers, links and folding.

use vstd::prelude::*;
use crate::html_escape::{escape_attr_seq, escape_html_attribute};
use crate::paths::{file_name, path_file_name, path_without_extension, without_extension};
use crate::text::{append_chars, chars_eq, chars_of, string_from_chars};

verus! {

/// An entry of the table of contents, as the page data gives it: each
/// field is the value of the key of the same name, when the entry has it.
pub struct TocItem {
    /// The section number, such as `1.2.`.
    pub section: Option<String>,
    /// Whether the entry is a spacer (the key `spacer` is present).
    pub spacer: bool,
    /// The title of a part.
    pub part: Option<String>,
    /// The path of the chapter's source.
    pub path: Option<String>,
    /// The chapter's name.
    pub name: Option<String>,
    /// `true` when the chapter has nested chapters.
    pub has_sub_items: Option<String>,
}

/// How the table of contents is rendered.
pub struct TocOptions {
    /// Whether chapters may be folded.
    pub fold_enable: bool,
    /// The depth from which chapters are folded.
    pub fold_level: u64,
    /// Whether the table is rendered for the page without scripts, whose
    /// links open in the parent frame.
    pub is_toc_html: bool,
    /// Whether section numbers are left out.
    pub no_section_label: bool,
}

/// The number of times `c` occurs in `s`.
pub open spec fn count_char(s: Seq<char>, c: char) -> nat
    decreases s.len(),
{
    if s.len() == 0 {
        0
    } else {
        count_char(s.drop_last(), c) + if s.last() == c {
            1nat
        } else {
            0nat
        }
    }
}

/// The nesting level of an entry: the number of dots in its section
/// number, 1 when it has none.
pub open spec fn item_level(it: &TocItem) -> nat {
    match it.section {
        Some(s) => count_char(s@, '.'),
        None => 1,
    }
}

/// `s` repeated `n` times.
pub open spec fn repeat(s: Seq<char>, n: nat) -> Seq<char>
    decreases n,
{
    if n == 0 {
        seq![]
    } else {
        repeat(s, (n - 1) as nat) + s
    }
}

/// The opening tag of a list item; expanded items and items outside any
/// numbered section carry a class of their own.
pub open spec fn li_open(is_expanded: bool, is_affix: bool) -> Seq<char> {
    "<li class=\"chapter-item "@ + (if is_expanded {
        "expanded "@
    } else {
        seq![]
    }) + (if is_affix {
        "affix "@
    } else {
        seq![]
    }) + "\">"@
}

/// The path of a page as `Path::with_extension("html")` gives it: the
/// extension of the file name replaced by `html`, or the path itself when
/// it has no file name.
pub open spec fn html_path(p: Seq<char>) -> Seq<char> {
    match file_name(p) {
        Some(_) => without_extension(p) + ".html"@,
        None => p,
    }
}

/// Whether an entry links to a page: it has a non-empty path.
pub open spec fn has_link(it: &TocItem) -> bool {
    it.path matches Some(p) && p@.len() > 0
}

/// The start of a chapter entry: a link to its page, or a `div`.
pub open spec fn link_open(it: &TocItem, opts: &TocOptions) -> Seq<char> {
    if has_link(it) {
        "<a href=\""@ + html_path(it.path->0@) + (if opts.is_toc_html {
            "\" target=\"_parent\">"@
        } else {
            "\">"@
        })
    } else {
        "<div>"@
    }
}

/// The section number of a chapter entry, unless labels are left out.
pub open spec fn section_label(it: &TocItem, opts: &TocOptions) -> Seq<char> {
    if !opts.no_section_label && it.section is Some {
        "<strong aria-hidden=\"true\">"@ + it.section->0@ + "</strong> "@
    } else {
        seq![]
    }
}

/// The escaped name of a chapter entry.
pub open spec fn name_text(it: &TocItem) -> Seq<char> {
    match it.name {
        Some(n) => escape_attr_seq(n@),
        None => seq![],
    }
}

/// The end of a chapter entry's link or `div`.
pub open spec fn link_close(it: &TocItem) -> Seq<char> {
    if has_link(it) {
        "</a>"@
    } else {
        "</div>"@
    }
}

/// The fold toggle of a chapter entry: when folding is enabled and the
/// entry says it has nested chapters.
pub open spec fn toggle(it: &TocItem, opts: &TocOptions) -> Seq<char> {
    if opts.fold_enable && (it.has_sub_items matches Some(f) && f@ == "true"@) {
        "<a class=\"toggle\"><div>❱</div></a>"@
    } else {
        seq![]
    }
}

/// The markup of an entry after its opening tag: a spacer, a part title,
/// or a chapter with its link (or a `div` when it has no path), its
/// section number unless labels are left out, its escaped name and, when
/// folding is enabled and it has nested chapters, a toggle.
pub open spec fn item_body(it: &TocItem, opts: &TocOptions) -> Seq<char> {
    if it.spacer {
        "<li class=\"spacer\"></li>"@
    } else {
        match it.part {
            Some(t) => "<li class=\"part-title\">"@ + escape_attr_seq(t@) + "</li>"@,
            None => link_open(it, opts) + section_label(it, opts) + name_text(it) + link_close(it)
                + toggle(it, opts) + "</li>"@,
        }
    }
}

/// What comes before an entry at `level` when the lists are open to
/// `cur`: lists opened or closed to reach the level, then the entry's
/// opening tag.
pub open spec fn entry_opening(level: nat, cur: nat, is_expanded: bool, is_affix: bool) -> Seq<
    char,
> {
    if level > cur {
        repeat("<li><ol class=\"section\">"@, (level - cur) as nat) + li_open(is_expanded, false)
    } else if level < cur {
        repeat("</ol></li>"@, (cur - level) as nat) + li_open(is_expanded, false)
    } else {
        li_open(is_expanded, is_affix)
    }
}

/// The markup of an entry when the lists are open to level `cur`: lists
/// opened or closed to reach the entry's level, its opening tag (expanded
/// unless folding is enabled and it lies at the fold level or deeper), and
/// its body.
pub open spec fn entry_markup(it: &TocItem, opts: &TocOptions, cur: nat) -> Seq<char> {
    let level = item_level(it);
    let is_expanded = !opts.fold_enable || level - 1 < opts.fold_level;
    entry_opening(level, cur, is_expanded, it.section is None) + item_body(it, opts)
}

/// The markup of the entries and the nesting level reached after them,
/// starting at level 1: before each entry, lists are opened or closed to
/// reach its level, then its opening tag and body follow.
pub open spec fn toc_entries(items: Seq<TocItem>, opts: &TocOptions) -> (Seq<char>, nat)
    decreases items.len(),
{
    if items.len() == 0 {
        (seq![], 1)
    } else {
        let (prev, cur) = toc_entries(items.drop_last(), opts);
        let it = items.last();
        (prev + entry_markup(&it, opts, cur), item_level(&it))
    }
}

/// The table of contents: an ordered list of the entries, with the nested
/// lists still open at the end closed.
pub open spec fn toc_html(items: Seq<TocItem>, opts: &TocOptions) -> Seq<char> {
    let (body, level) = toc_entries(items, opts);
    "<ol class=\"chapter\">"@ + body + repeat("</ol></li>"@, (level - 1) as nat) + "</ol>"@
}

/// Appends a literal.
fn push_str(out: &mut Vec<char>, s: &str)
    ensures
        final(out)@ == old(out)@ + s@,
{
    let v = chars_of(s);
    append_chars(out, &v);
}

/// Appends `s` `n` times.
fn push_repeat(out: &mut Vec<char>, s: &str, n: usize)
    ensures
        final(out)@ == old(out)@ + repeat(s@, n as nat),
{
    let ghost start = out@;
    let mut i: usize = 0;
    while i < n
        invariant
            i <= n,
            out@ == start + repeat(s@, i as nat),
        decreases n - i,
    {
        push_str(out, s);
        i = i + 1;
        assert(out@ =~= start + repeat(s@, i as nat));
    }
}

/// Counts the dots of a section number.
fn count_dots(s: &str) -> (r: usize)
    ensures
        r == count_char(s@, '.'),
{
    let v = chars_of(s);
    let mut n: usize = 0;
    let mut i: usize = 0;
    assert(v@.take(0) =~= Seq::<char>::empty());
    while i < v.len()
        invariant
            i <= v@.len(),
            n <= i,
            n == count_char(v@.take(i as int), '.'),
        decreases v@.len() - i,
    {
        if v[i] == '.' {
            n = n + 1;
        }
        assert(v@.take(i + 1).drop_last() =~= v@.take(i as int));
        i = i + 1;
    }
    assert(v@.take(v@.len() as int) =~= v@);
    n
}

/// Appends the opening tag of a list item.
fn push_li_open(out: &mut Vec<char>, is_expanded: bool, is_affix: bool)
    ensures
        final(out)@ == old(out)@ + li_open(is_expanded, is_affix),
{
    push_str(out, "<li class=\"chapter-item ");
    if is_expanded {
        push_str(out, "expanded ");
    }
    if is_affix {
        push_str(out, "affix ");
    }
    push_str(out, "\">");
    assert(out@ =~= old(out)@ + li_open(is_expanded, is_affix));
}

/// Appends the start of a chapter entry.
fn push_link_open(out: &mut Vec<char>, it: &TocItem, opts: &TocOptions)
    ensures
        final(out)@ == old(out)@ + link_open(it, opts),
{
    let has_path = match &it.path {
        Some(p) => !p.as_str().is_empty(),
        None => false,
    };
    if has_path {
        push_str(out, "<a href=\"");
        if let Some(p) = &it.path {
            let pv = chars_of(p.as_str());
            let html = match path_file_name(p.as_str()) {
                Some(_) => {
                    let mut w = path_without_extension(&pv);
                    push_html_ext(&mut w);
                    w
                },
                None => pv,
            };
            append_chars(out, &html);
        }
        if opts.is_toc_html {
            push_str(out, "\" target=\"_parent\">");
        } else {
            push_str(out, "\">");
        }
    } else {
        push_str(out, "<div>");
    }
    assert(out@ =~= old(out)@ + link_open(it, opts));
}

/// Appends the section number, name, link end and toggle of a chapter
/// entry.
fn push_chapter_rest(out: &mut Vec<char>, it: &TocItem, opts: &TocOptions)
    ensures
        final(out)@ == old(out)@ + section_label(it, opts) + name_text(it) + link_close(it) + toggle(
            it,
            opts,
        ),
{
    let ghost s0 = out@;
    if !opts.no_section_label {
        if let Some(section) = &it.section {
            push_str(out, "<strong aria-hidden=\"true\">");
            push_str(out, section.as_str());
            push_str(out, "</strong> ");
        }
    }
    assert(out@ =~= s0 + section_label(it, opts));
    let ghost s1 = out@;
    if let Some(name) = &it.name {
        let e = escape_html_attribute(name.as_str());
        push_str(out, e.as_str());
    }
    assert(out@ =~= s1 + name_text(it));
    let ghost s2 = out@;
    let has_path = match &it.path {
        Some(p) => !p.as_str().is_empty(),
        None => false,
    };
    if has_path {
        push_str(out, "</a>");
    } else {
        push_str(out, "</div>");
    }
    assert(out@ =~= s2 + link_close(it));
    let ghost s3 = out@;
    if opts.fold_enable {
        if let Some(flag) = &it.has_sub_items {
            let f = chars_of(flag.as_str());
            let t = chars_of("true");
            if chars_eq(&f, &t) {
                push_str(out, "<a class=\"toggle\"><div>❱</div></a>");
            }
        }
    }
    assert(out@ =~= s3 + toggle(it, opts));
}

/// Appends the body of an entry.
fn push_item_body(out: &mut Vec<char>, it: &TocItem, opts: &TocOptions)
    ensures
        final(out)@ == old(out)@ + item_body(it, opts),
{
    if it.spacer {
        push_str(out, "<li class=\"spacer\"></li>");
        return;
    }
    if let Some(t) = &it.part {
        push_str(out, "<li class=\"part-title\">");
        let e = escape_html_attribute(t.as_str());
        push_str(out, e.as_str());
        push_str(out, "</li>");
        assert(out@ =~= old(out)@ + item_body(it, opts));
        return;
    }
    push_link_open(out, it, opts);
    push_chapter_rest(out, it, opts);
    push_str(out, "</li>");
    assert(out@ =~= old(out)@ + item_body(it, opts));
}

/// Appends what comes before an entry; see [`entry_opening`].
fn push_entry_opening(
    out: &mut Vec<char>,
    level: usize,
    cur: usize,
    is_expanded: bool,
    is_affix: bool,
)
    ensures
        final(out)@ == old(out)@ + entry_opening(level as nat, cur as nat, is_expanded, is_affix),
{
    if level > cur {
        push_repeat(out, "<li><ol class=\"section\">", level - cur);
        push_li_open(out, is_expanded, false);
    } else if level < cur {
        push_repeat(out, "</ol></li>", cur - level);
        push_li_open(out, is_expanded, false);
    } else {
        push_li_open(out, is_expanded, is_affix);
    }
    assert(out@ =~= old(out)@ + entry_opening(level as nat, cur as nat, is_expanded, is_affix));
}

/// The path of a page with the extension `html`; see [`html_path`].
pub fn with_html_extension(p: &str) -> (r: String)
    ensures
        r@ == html_path(p@),
{
    let pv = chars_of(p);
    match path_file_name(p) {
        Some(_) => {
            let mut w = path_without_extension(&pv);
            push_html_ext(&mut w);
            string_from_chars(&w)
        },
        None => string_from_chars(&pv),
    }
}

/// Appends `.html`.
fn push_html_ext(w: &mut Vec<char>)
    ensures
        final(w)@ == old(w)@ + ".html"@,
{
    push_str(w, ".html");
}

/// Appends the markup of an entry and gives its level.
fn push_entry(out: &mut Vec<char>, it: &TocItem, opts: &TocOptions, cur: usize) -> (level: usize)
    requires
        it.section matches Some(s) ==> count_char(s@, '.') >= 1,
    ensures
        level == item_level(it),
        level >= 1,
        final(out)@ == old(out)@ + entry_markup(it, opts, cur as nat),
{
    let level: usize = match &it.section {
        Some(s) => count_dots(s.as_str()),
        None => 1,
    };
    let is_expanded = !opts.fold_enable || ((level - 1) as u64) < opts.fold_level;
    push_entry_opening(out, level, cur, is_expanded, it.section.is_none());
    push_item_body(out, it, opts);
    assert(out@ =~= old(out)@ + entry_markup(it, opts, cur as nat));
    level
}

/// Renders the table of contents; see [`toc_html`]. Every section number
/// holds a dot.
pub fn render_toc(items: &Vec<TocItem>, opts: &TocOptions) -> (r: String)
    requires
        forall|i: int|
            0 <= i < items@.len() ==> ((#[trigger] items@[i]).section matches Some(s) ==> count_char(
                s@,
                '.',
            ) >= 1),
    ensures
        r@ == toc_html(items@, opts),
{
    let mut out: Vec<char> = Vec::new();
    push_str(&mut out, "<ol class=\"chapter\">");
    let ghost head = out@;
    let mut current_level: usize = 1;
    let mut i: usize = 0;
    while i < items.len()
        invariant
            i <= items@.len(),
            forall|k: int|
                0 <= k < items@.len() ==> ((#[trigger] items@[k]).section matches Some(s)
                    ==> count_char(s@, '.') >= 1),
            current_level >= 1,
            (out@, current_level as nat) == (head + toc_entries(items@.take(i as int), opts).0,
            toc_entries(items@.take(i as int), opts).1),
        decreases items@.len() - i,
    {
        let it = &items[i];
        let level = push_entry(&mut out, it, opts, current_level);
        proof {
            let t = items@.take(i + 1);
            assert(t.drop_last() =~= items@.take(i as int));
            assert(t.last() == items@[i as int]);
        }
        current_level = level;
        i = i + 1;
    }
    assert(items@.take(items@.len() as int) =~= items@);
    push_repeat(&mut out, "</ol></li>", current_level - 1);
    push_str(&mut out, "</ol>");
    string_from_chars(&out)
}


/// The number of copies of `p` at the front of `s`, one after another.
pub open spec fn leading(s: Seq<char>, p: Seq<char>) -> nat
    decreases s.len(),
{
    if p.len() > 0 && s.len() >= p.len() && s.take(p.len() as int) == p {
        1 + leading(s.skip(p.len() as int), p)
    } else {
        0
    }
}

/// The markup that opens one nested section list.
pub open spec fn section_open() -> Seq<char> {
    "<li><ol class=\"section\">"@
}

/// The markup that closes one nested section list.
pub open spec fn section_close() -> Seq<char> {
    "</ol></li>"@
}

/// The lists opened minus the lists closed before each entry's opening
/// tag, summed over the entries, as the table of contents writes them.
pub open spec fn net_lists(items: Seq<TocItem>, opts: &TocOptions) -> int
    decreases items.len(),
{
    if items.len() == 0 {
        0
    } else {
        let cur = toc_entries(items.drop_last(), opts).1;
        let m = entry_markup(&items.last(), opts, cur);
        net_lists(items.drop_last(), opts) + leading(m, section_open()) - leading(m, section_close())
    }
}

proof fn lemma_repeat_front(s: Seq<char>, n: nat)
    requires
        n > 0,
    ensures
        repeat(s, n) == s + repeat(s, (n - 1) as nat),
    decreases n,
{
    if n > 1 {
        lemma_repeat_front(s, (n - 1) as nat);
        assert(repeat(s, n) =~= s + repeat(s, (n - 1) as nat));
    } else {
        assert(repeat(s, 0) =~= Seq::<char>::empty());
        assert(repeat(s, 1) =~= s + repeat(s, 0));
    }
}

proof fn lemma_leading_repeat(p: Seq<char>, k: nat, t: Seq<char>)
    requires
        p.len() > 0,
    ensures
        leading(repeat(p, k) + t, p) == k + leading(t, p),
    decreases k,
{
    if k == 0 {
        assert(repeat(p, 0) + t =~= t);
    } else {
        lemma_repeat_front(p, k);
        let rest = repeat(p, (k - 1) as nat) + t;
        let s = repeat(p, k) + t;
        assert(s =~= p + rest);
        assert(s.take(p.len() as int) =~= p);
        assert(s.skip(p.len() as int) =~= rest);
        lemma_leading_repeat(p, (k - 1) as nat, t);
    }
}

proof fn lemma_leading_none(s: Seq<char>, p: Seq<char>, j: int)
    requires
        0 <= j < p.len(),
        j < s.len(),
        s[j] != p[j],
    ensures
        leading(s, p) == 0,
{
    if s.len() >= p.len() {
        assert(s.take(p.len() as int)[j] == s[j]);
    }
}

proof fn lemma_li_open_front(is_expanded: bool, is_affix: bool, t: Seq<char>)
    ensures
        leading(li_open(is_expanded, is_affix) + t, section_open()) == 0,
        leading(li_open(is_expanded, is_affix) + t, section_close()) == 0,
{
    reveal_strlit("<li class=\"chapter-item ");
    reveal_strlit("<li><ol class=\"section\">");
    reveal_strlit("</ol></li>");
    let s = li_open(is_expanded, is_affix) + t;
    assert(s[1] == 'l');
    assert(s[3] == ' ');
    lemma_leading_none(s, section_open(), 3);
    lemma_leading_none(s, section_close(), 1);
}

/// Before an entry, the lists are opened or closed from the current level
/// to exactly the entry's level: the current level, plus the section lists
/// opened, minus those closed in front of the entry's opening tag, is the
/// entry's level, and lists are never both opened and closed there.
pub proof fn law_entry_reaches_its_level(level: nat, cur: nat, is_expanded: bool, is_affix: bool, body: Seq<char>)
    ensures
        ({
            let s = entry_opening(level, cur, is_expanded, is_affix) + body;
            &&& cur + leading(s, section_open()) - leading(s, section_close()) == level
            &&& leading(s, section_open()) == 0 || leading(s, section_close()) == 0
        }),
{
    reveal_strlit("<li><ol class=\"section\">");
    reveal_strlit("</ol></li>");
    let s = entry_opening(level, cur, is_expanded, is_affix) + body;
    if level > cur {
        let k = (level - cur) as nat;
        let li = li_open(is_expanded, false);
        assert(s =~= repeat(section_open(), k) + (li + body));
        lemma_leading_repeat(section_open(), k, li + body);
        lemma_li_open_front(is_expanded, false, body);
        lemma_repeat_front(section_open(), k);
        assert(s[1] == 'l');
        lemma_leading_none(s, section_close(), 1);
    } else if level < cur {
        let k = (cur - level) as nat;
        let li = li_open(is_expanded, false);
        assert(s =~= repeat(section_close(), k) + (li + body));
        lemma_leading_repeat(section_close(), k, li + body);
        lemma_li_open_front(is_expanded, false, body);
        lemma_repeat_front(section_close(), k);
        assert(s[1] == '/');
        lemma_leading_none(s, section_open(), 1);
    } else {
        lemma_li_open_front(is_expanded, is_affix, body);
    }
}

proof fn lemma_toc_level(items: Seq<TocItem>, opts: &TocOptions)
    requires
        forall|i: int| 0 <= i < items.len() ==> item_level(&#[trigger] items[i]) >= 1,
    ensures
        toc_entries(items, opts).1 >= 1,
        toc_entries(items, opts).1 == 1 + net_lists(items, opts),
    decreases items.len(),
{
    if items.len() > 0 {
        let dl = items.drop_last();
        assert forall|i: int| 0 <= i < dl.len() implies item_level(&#[trigger] dl[i]) >= 1 by {
            assert(dl[i] == items[i]);
        }
        lemma_toc_level(dl, opts);
        let it = items.last();
        assert(item_level(&items[items.len() - 1]) >= 1);
        let cur = toc_entries(dl, opts).1;
        let level = item_level(&it);
        let is_expanded = !opts.fold_enable || level - 1 < opts.fold_level;
        law_entry_reaches_its_level(level, cur, is_expanded, it.section is None, item_body(&it, opts));
    }
}

/// In the table of contents, the section lists open in front of each entry
/// are exactly its level minus one: starting from the top list, the lists
/// opened minus those closed before the entries up to and including it sum
/// to its level minus one. The lists still open after the last entry are
/// the ones the table closes at its end.
pub proof fn law_toc_nesting_follows_levels(items: Seq<TocItem>, opts: &TocOptions)
    requires
        forall|i: int| 0 <= i < items.len() ==> item_level(&#[trigger] items[i]) >= 1,
    ensures
        forall|i: int| 0 <= i < items.len() ==> 1 + #[trigger] net_lists(items.take(i + 1), opts) == item_level(&items[i]),
        toc_entries(items, opts).1 == 1 + net_lists(items, opts),
{
    lemma_toc_level(items, opts);
    assert forall|i: int| 0 <= i < items.len() implies 1 + #[trigger] net_lists(items.take(i + 1), opts) == item_level(&items[i]) by {
        let t = items.take(i + 1);
        assert forall|k: int| 0 <= k < t.len() implies item_level(&#[trigger] t[k]) >= 1 by {
            assert(t[k] == items[k]);
        }
        lemma_toc_level(t, opts);
        assert(t.last() == items[i]);
    }
}

} // verus!
