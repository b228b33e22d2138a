//! The data of a chapter's page: its title, paths, edit link, section
//! number, the redirects into it and the links to its neighbours.

use vstd::prelude::*;
use std::collections::HashMap;
use crate::book::{section_number_text, SectionNumber};
use crate::maps::map_entries;
use crate::config::HtmlConfig;
use crate::path_order::{path_components, path_starts_with, path_starts_with_exec};
use crate::paths::{path_to_root, path_to_root_text};
use crate::preprocessors::{lemma_sorted_unique, name_seq, names_sorted, sort_by_name, sorted_names};
use crate::text::{
    append_chars, chars_of, replace_all, replace_chars, strip_prefix, strip_prefix_chars,
    string_from_chars,
};
use crate::ids::string_views;
use crate::toc::{html_path, with_html_extension};

verus! {

/// What a page links to for a neighbouring chapter.
pub struct NavLink {
    /// The chapter's name.
    pub title: String,
    /// The path of its page.
    pub link: String,
}

/// A chapter as its page needs it.
pub struct PageChapter {
    /// The chapter's name.
    pub name: String,
    /// The path of its source, relative to the book's source directory.
    pub path: String,
    /// Where it was read from, when it was read from a file.
    pub source_path: Option<String>,
    /// Its section number.
    pub number: Option<SectionNumber>,
}

/// The data of a chapter's page.
pub struct ChapterPage {
    /// The link for editing the chapter, when the configuration has a
    /// template for it.
    pub edit_url: Option<String>,
    /// The page's file, relative to the output directory.
    pub file: String,
    /// The chapter's path.
    pub path: String,
    /// The chapter's name.
    pub chapter_title: String,
    /// The page's title.
    pub title: String,
    /// The path from the page to the root of the book.
    pub path_to_root: String,
    /// The chapter's section number.
    pub section: Option<String>,
    /// The redirects into the page: fragment and target, ordered by
    /// fragment.
    pub fragment_map: Vec<(String, String)>,
    /// The previous chapter.
    pub previous: Option<NavLink>,
    /// The next chapter.
    pub next: Option<NavLink>,
    /// Whether the page is also written as the book's `index.html`: the
    /// first chapter's is.
    pub also_index: bool,
}

/// Why a chapter's page cannot be made.
#[derive(Debug, Clone, PartialEq)]
pub enum ChapterPageError {
    /// The chapter's path is `print.md`, which the print page uses.
    ReservedPath,
    /// A redirect starts at the page itself (the key is given).
    RedirectForExistingChapter(String),
}

/// A path as a URL path: backslashes made forward slashes.
pub open spec fn url_path(p: Seq<char>) -> Seq<char> {
    replace_all(p, seq!['\\'], seq!['/'])
}

/// The link to a neighbouring chapter: its name and the URL path of its
/// page.
pub open spec fn nav_link(ch: PageChapter) -> (Seq<char>, Seq<char>) {
    (ch.name@, url_path(html_path(ch.path@)))
}

/// The view of an optional link.
pub open spec fn nav_view(n: Option<NavLink>) -> Option<(Seq<char>, Seq<char>)> {
    match n {
        Some(l) => Some((l.title@, l.link@)),
        None => None,
    }
}

/// The page's title: the configured title of its path when there is one;
/// otherwise the chapter's name, followed by ` - ` and the book's title
/// when that is not empty.
pub open spec fn page_title(name: Seq<char>, book_title: Seq<char>, configured: Option<Seq<char>>) -> Seq<
    char,
> {
    match configured {
        Some(t) => t,
        None => if book_title.len() == 0 {
            name
        } else {
            name + " - "@ + book_title
        },
    }
}

/// The edit link: the template with `{path}` replaced by the source
/// directory, `/` and the chapter's source path (empty when it has none).
pub open spec fn edit_link(template: Seq<char>, src: Seq<char>, source_path: Option<Seq<char>>) -> Seq<
    char,
> {
    replace_all(
        template,
        "{path}"@,
        src + "/"@ + match source_path {
            Some(s) => s,
            None => seq![],
        },
    )
}

/// The redirect key of a page: `/` and the URL path of its file.
pub open spec fn page_key(file: Seq<char>) -> Seq<char> {
    "/"@ + url_path(file)
}

/// The redirect into a page for one redirect of the configuration: for a
/// source `<key>#<fragment>`, the fragment with its `#` and the target.
pub open spec fn redirect_into(key: Seq<char>, source: Seq<char>, dest: Seq<char>) -> Option<
    (Seq<char>, Seq<char>),
> {
    match strip_prefix(source, key + "#"@) {
        Some(fragment) => Some(("#"@ + fragment, dest)),
        None => None,
    }
}

/// Splits a string into characters and builds it back.
fn literal(s: &str) -> (r: Vec<char>)
    ensures
        r@ == s@,
{
    chars_of(s)
}

/// The page's title; see [`page_title`].
fn title_of(name: &str, book_title: &str, configured: Option<&str>) -> (r: String)
    ensures
        r@ == page_title(
            name@,
            book_title@,
            match configured {
                Some(t) => Some(t@),
                None => None,
            },
        ),
{
    match configured {
        Some(t) => t.to_owned(),
        None => {
            if book_title.is_empty() {
                name.to_owned()
            } else {
                let mut out = chars_of(name);
                append_chars(&mut out, &literal(" - "));
                append_chars(&mut out, &chars_of(book_title));
                string_from_chars(&out)
            }
        },
    }
}

/// The URL path of a page's file.
fn url_path_of(p: &str) -> (r: String)
    ensures
        r@ == url_path(p@),
{
    let back: [char; 1] = ['\\'];
    let fwd: [char; 1] = ['/'];
    assert(back@ == seq!['\\'] && fwd@ == seq!['/']);
    string_from_chars(&replace_chars(&chars_of(p), &back, &fwd))
}

/// The link to a neighbouring chapter.
fn nav_of(ch: &PageChapter) -> (r: NavLink)
    ensures
        (r.title@, r.link@) == nav_link(*ch),
{
    let file = with_html_extension(ch.path.as_str());
    NavLink { title: ch.name.clone(), link: url_path_of(file.as_str()) }
}

/// The edit link; see [`edit_link`].
fn edit_url_of(template: &str, src: &str, source_path: &Option<String>) -> (r: String)
    ensures
        r@ == edit_link(
            template@,
            src@,
            match source_path {
                Some(s) => Some(s@),
                None => None,
            },
        ),
{
    let mut full = chars_of(src);
    append_chars(&mut full, &literal("/"));
    if let Some(s) = source_path {
        append_chars(&mut full, &chars_of(s.as_str()));
    }
    let pat = literal("{path}");
    proof {
        reveal_strlit("{path}");
    }
    string_from_chars(&replace_chars(&chars_of(template), &pat, &full))
}

/// The fragment of a redirect into a page.
pub open spec fn fragment_of(r: Option<(Seq<char>, Seq<char>)>) -> Seq<char> {
    match r {
        Some(p) => p.0,
        None => seq![],
    }
}

/// The fragments of a list of redirects.
pub open spec fn fragment_names(v: Seq<(String, String)>) -> Seq<Seq<char>> {
    v.map_values(|p: (String, String)| p.0@)
}

/// Whether some redirect of the configuration leads from fragment `f` of
/// the page with key `key` to `d`.
pub open spec fn redirected(redirects: Map<String, String>, key: Seq<char>, f: Seq<char>, d: Seq<char>) -> bool {
    exists|s: String|
        redirects.contains_key(s) && #[trigger] redirect_into(key, s@, redirects[s]@) == Some((f, d))
}

/// Whether a redirect of the configuration starts at the page with key
/// `key`.
pub open spec fn redirect_at(redirects: Map<String, String>, key: Seq<char>) -> bool {
    exists|s: String| redirects.contains_key(s) && #[trigger] s@ == key
}

/// The redirects into the page with key `key`, ordered by fragment, each
/// fragment once; `Err` with the key when a redirect starts at the page
/// itself.
fn redirects_for(key: &str, redirects: &HashMap<String, String>) -> (r: Result<
    Vec<(String, String)>,
    String,
>)
    ensures
        r is Err <==> redirect_at(redirects@, key@),
        r matches Err(k) ==> k@ == key@,
        r matches Ok(v) ==> names_sorted(fragment_names(v@)),
        r matches Ok(v) ==> forall|i: int|
            0 <= i < v@.len() ==> redirected(redirects@, key@, (#[trigger] v@[i]).0@, v@[i].1@),
        r matches Ok(v) ==> forall|s: String|
            redirects@.contains_key(s) && #[trigger] redirect_into(key@, s@, redirects@[s]@) is Some
                ==> fragment_names(v@).contains(fragment_of(redirect_into(key@, s@, redirects@[s]@))),
{
    let entries = map_entries(redirects);
    let kv = chars_of(key);
    let mut prefix = chars_of(key);
    append_chars(&mut prefix, &literal("#"));
    let mut frags: Vec<String> = Vec::new();
    let mut dests: Vec<String> = Vec::new();
    let mut i: usize = 0;
    while i < entries.len()
        invariant
            i <= entries@.len(),
            entries@.len() == redirects@.len(),
            forall|j: int|
                0 <= j < entries@.len() ==> redirects@.contains_key(*(#[trigger] entries@[j]).0)
                    && redirects@[*entries@[j].0] == *entries@[j].1,
            kv@ == key@,
            prefix@ == key@ + "#"@,
            frags@.len() == dests@.len(),
            string_views(frags@).no_duplicates(),
            forall|j: int| 0 <= j < i ==> (*entries@[j].0)@ != key@,
            forall|m: int|
                0 <= m < frags@.len() ==> exists|j: int|
                    0 <= j < i && redirect_into(key@, (*entries@[j].0)@, (*entries@[j].1)@)
                        == Some(((#[trigger] frags@[m])@, dests@[m]@)),
            forall|j: int|
                0 <= j < i && #[trigger] redirect_into(key@, (*entries@[j].0)@, (*entries@[j].1)@)
                    is Some ==> string_views(frags@).contains(
                    fragment_of(redirect_into(key@, (*entries@[j].0)@, (*entries@[j].1)@)),
                ),
        decreases entries@.len() - i,
    {
        let (src, dest) = entries[i];
        let sv = chars_of(src.as_str());
        if crate::text::chars_eq(&sv, &kv) {
            proof {
                assert(redirects@.contains_key(*entries@[i as int].0));
                assert(redirect_at(redirects@, key@));
            }
            return Err(key.to_owned());
        }
        let ghost before_f = frags@;
        let ghost before_d = dests@;
        match strip_prefix_chars(&sv, &prefix) {
            Some(rest) => {
                let mut f = literal("#");
                append_chars(&mut f, &rest);
                let fs = string_from_chars(&f);
                let found = crate::preprocessors::find_name(&frags, fs.as_str());
                if found.is_none() {
                    frags.push(fs);
                    dests.push(dest.clone());
                    proof {
                        assert(string_views(frags@) =~= string_views(before_f).push(f@));
                    }
                } else {
                    proof {
                        let m = found->0;
                        assert(string_views(frags@)[m as int] == f@);
                    }
                }
                proof {
                    assert(redirect_into(key@, sv@, dest@) == Some((f@, dest@)));
                    assert forall|m: int| 0 <= m < frags@.len() implies exists|j: int|
                        0 <= j < i + 1 && redirect_into(key@, (*entries@[j].0)@, (*entries@[j].1)@)
                            == Some(((#[trigger] frags@[m])@, dests@[m]@)) by {
                        if m < before_f.len() {
                            assert(frags@[m] == before_f[m] && dests@[m] == before_d[m]);
                        } else {
                            assert(redirect_into(key@, (*entries@[i as int].0)@, (*entries@[i as int].1)@)
                                == Some((frags@[m]@, dests@[m]@)));
                        }
                    }
                    assert(string_views(frags@).contains(f@)) by {
                        if found.is_none() {
                            assert(string_views(frags@)[before_f.len() as int] == f@);
                        } else {
                            assert(string_views(frags@)[found->0 as int] == f@);
                        }
                    }
                    assert forall|j: int|
                        0 <= j < i + 1 && #[trigger] redirect_into(key@, (*entries@[j].0)@, (*entries@[j].1)@)
                            is Some implies string_views(frags@).contains(
                            fragment_of(redirect_into(key@, (*entries@[j].0)@, (*entries@[j].1)@)),
                        ) by {
                        if j < i {
                            let w = fragment_of(redirect_into(key@, (*entries@[j].0)@, (*entries@[j].1)@));
                            assert(string_views(before_f).contains(w));
                            let k = choose|k: int| 0 <= k < before_f.len() && string_views(before_f)[k] == w;
                            assert(string_views(frags@)[k] == w);
                        }
                    }
                }
            },
            None => {
                proof {
                    assert(redirect_into(key@, sv@, dest@) is None);
                }
            },
        }
        i = i + 1;
    }
    proof {
        assert forall|s: String| #[trigger] redirects@.contains_key(s) implies s@ != key@ by {
            let j = choose|j: int| 0 <= j < entries@.len() && *entries@[j].0 == s;
        }
    }
    let mut ids: Vec<u64> = Vec::new();
    let mut k: usize = 0;
    while k < frags.len()
        invariant
            k <= frags@.len(),
            ids@.len() == k,
            forall|m: int| 0 <= m < k ==> #[trigger] ids@[m] == m,
        decreases frags@.len() - k,
    {
        ids.push(k as u64);
        k = k + 1;
    }
    assert forall|a: int, b: int| 0 <= a < b < ids@.len() implies ids@[a] != ids@[b] by {}
    let order = sort_by_name(&ids, &frags);
    let mut out: Vec<(String, String)> = Vec::new();
    let mut m: usize = 0;
    while m < order.len()
        invariant
            m <= order@.len(),
            order@.len() == frags@.len(),
            frags@.len() == dests@.len(),
            forall|x: int| 0 <= x < order@.len() ==> #[trigger] order@[x] < frags@.len(),
            out@.len() == m,
            forall|x: int|
                0 <= x < m ==> (#[trigger] out@[x]) == (frags@[order@[x] as int], dests@[order@[x] as int]),
        decreases order@.len() - m,
    {
        let id = order[m];
        assert(id < frags.len());
        let j = id as usize;
        assert(j as int == id as int);
        out.push((frags[j].clone(), dests[j].clone()));
        m = m + 1;
    }
    proof {
        let nv = string_views(frags@);
        assert(fragment_names(out@) =~= name_seq(nv, order@));
        assert(names_sorted(fragment_names(out@)));
        assert forall|i: int| 0 <= i < out@.len() implies redirected(
            redirects@,
            key@,
            (#[trigger] out@[i]).0@,
            out@[i].1@,
        ) by {
            let x = order@[i] as int;
            assert(out@[i] == (frags@[x], dests@[x]));
            let j = choose|j: int|
                0 <= j < entries@.len() && redirect_into(key@, (*entries@[j].0)@, (*entries@[j].1)@)
                    == Some((frags@[x]@, dests@[x]@));
            assert(redirects@.contains_key(*entries@[j].0));
            assert(redirect_into(key@, (*entries@[j].0)@, redirects@[*entries@[j].0]@) == Some(
                (out@[i].0@, out@[i].1@),
            ));
        }
        assert forall|s: String|
            redirects@.contains_key(s) && #[trigger] redirect_into(key@, s@, redirects@[s]@)
                is Some implies fragment_names(out@).contains(
                fragment_of(redirect_into(key@, s@, redirects@[s]@)),
            ) by {
            let j = choose|j: int| 0 <= j < entries@.len() && *entries@[j].0 == s;
            let w = fragment_of(redirect_into(key@, s@, redirects@[s]@));
            assert(nv.contains(w));
            let k = choose|k: int| 0 <= k < nv.len() && nv[k] == w;
            assert(ids@[k] == k as u64);
            assert(ids@.to_set().contains(k as u64));
            assert(order@.to_set().contains(k as u64));
            let p = choose|p: int| 0 <= p < order@.len() && order@[p] == k as u64;
            assert(fragment_names(out@)[p] == w);
        }
    }
    Ok(out)
}

/// Whether two paths have the same components (`Path`'s `==`).
pub(crate) fn same_path(a: &str, b: &str) -> (r: bool)
    ensures
        r == (path_components(a@) == path_components(b@)),
{
    let ab = path_starts_with_exec(a, b);
    let ba = path_starts_with_exec(b, a);
    proof {
        let ca = path_components(a@);
        let cb = path_components(b@);
        if ab && ba {
            assert(ca.take(cb.len() as int) =~= ca);
        }
        if ca == cb {
            assert(ca.take(cb.len() as int) =~= cb);
        }
    }
    ab && ba
}

/// The view of an optional string.
pub open spec fn opt_str_view(o: Option<String>) -> Option<Seq<char>> {
    match o {
        Some(s) => Some(s@),
        None => None,
    }
}

/// The link to a neighbour, when there is one.
pub open spec fn nav_for(ch: Option<&PageChapter>) -> Option<(Seq<char>, Seq<char>)> {
    match ch {
        Some(c) => Some(nav_link(*c)),
        None => None,
    }
}

/// Makes the data of a chapter's page. `book_src` is the book's source
/// directory, `book_title` its title (possibly empty) and
/// `configured_title` the title configured for the chapter's path, if any.
/// A chapter at `print.md` is refused, and so is one that a redirect
/// starts at.
pub fn chapter_page(
    ch: &PageChapter,
    prev: Option<&PageChapter>,
    next: Option<&PageChapter>,
    book_src: &str,
    book_title: &str,
    configured_title: Option<&str>,
    html_config: &HtmlConfig,
) -> (r: Result<ChapterPage, ChapterPageError>)
    ensures
        (r matches Err(ChapterPageError::ReservedPath)) <==> path_components(ch.path@)
            == path_components("print.md"@),
        r matches Err(ChapterPageError::RedirectForExistingChapter(k)) ==> k@ == page_key(
            html_path(ch.path@),
        ),
        (r matches Err(ChapterPageError::RedirectForExistingChapter(_))) <==> path_components(
            ch.path@,
        ) != path_components("print.md"@) && redirect_at(
            html_config.redirect@,
            page_key(html_path(ch.path@)),
        ),
        r matches Ok(p) ==> {
            &&& opt_str_view(p.edit_url) == match html_config.edit_url_template {
                Some(t) => Some(edit_link(t@, book_src@, opt_str_view(ch.source_path))),
                None => None,
            }
            &&& p.file@ == html_path(ch.path@)
            &&& p.path@ == ch.path@
            &&& p.chapter_title@ == ch.name@
            &&& p.title@ == page_title(
                ch.name@,
                book_title@,
                match configured_title {
                    Some(t) => Some(t@),
                    None => None,
                },
            )
            &&& p.path_to_root@ == path_to_root_text(ch.path@)
            &&& opt_str_view(p.section) == match ch.number {
                Some(n) => Some(section_number_text(n.0@)),
                None => None,
            }
            &&& names_sorted(fragment_names(p.fragment_map@))
            &&& forall|i: int|
                0 <= i < p.fragment_map@.len() ==> redirected(
                    html_config.redirect@,
                    page_key(html_path(ch.path@)),
                    (#[trigger] p.fragment_map@[i]).0@,
                    p.fragment_map@[i].1@,
                )
            &&& forall|s: String|
                html_config.redirect@.contains_key(s) && #[trigger] redirect_into(
                    page_key(html_path(ch.path@)),
                    s@,
                    html_config.redirect@[s]@,
                ) is Some ==> fragment_names(p.fragment_map@).contains(
                    fragment_of(
                        redirect_into(
                            page_key(html_path(ch.path@)),
                            s@,
                            html_config.redirect@[s]@,
                        ),
                    ),
                )
            &&& nav_view(p.previous) == nav_for(prev)
            &&& nav_view(p.next) == nav_for(next)
            &&& p.also_index == prev is None
        },
{
    if same_path(ch.path.as_str(), "print.md") {
        return Err(ChapterPageError::ReservedPath);
    }
    let edit_url = match &html_config.edit_url_template {
        Some(t) => Some(edit_url_of(t.as_str(), book_src, &ch.source_path)),
        None => None,
    };
    let file = with_html_extension(ch.path.as_str());
    let url = url_path_of(file.as_str());
    let mut kv = literal("/");
    append_chars(&mut kv, &chars_of(url.as_str()));
    let key = string_from_chars(&kv);
    assert(key@ == page_key(html_path(ch.path@)));
    let fragment_map = match redirects_for(key.as_str(), &html_config.redirect) {
        Ok(v) => v,
        Err(k) => {
            return Err(ChapterPageError::RedirectForExistingChapter(k));
        },
    };
    let title = title_of(ch.name.as_str(), book_title, configured_title);
    let section = match &ch.number {
        Some(n) => Some(n.to_string()),
        None => None,
    };
    let previous = match prev {
        Some(c) => Some(nav_of(c)),
        None => None,
    };
    let next_link = match next {
        Some(c) => Some(nav_of(c)),
        None => None,
    };
    Ok(
        ChapterPage {
            edit_url,
            file,
            path: ch.path.clone(),
            chapter_title: ch.name.clone(),
            title,
            path_to_root: path_to_root(ch.path.as_str()),
            section,
            fragment_map,
            previous,
            next: next_link,
            also_index: prev.is_none(),
        },
    )
}

} // verus!
