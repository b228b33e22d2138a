//! Links in chapters: `.md` links become `.html` links, and links to
//! README files become links to index files.

use vstd::prelude::*;
use crate::book::{Book, BookItem};
use crate::markdown::{parser_extensions, MarkdownOptions};
use crate::md_parse::{
    cmark_text, event_view, events_view, markdown_events, open_ends, opt_view, options_ext, parse_markdown,
    write_markdown,
    MdEventView, MdTagView,
};
use crate::tree_builder::{LinkKind, MdEvent, MdTag};
use crate::paths::{file_stem, join, join_path, parent_chars, parent_of, path_file_stem};
use crate::regex_ext::{regex_capture_group, regex_group_match};
use crate::text::{append_chars, chars_of, starts_with, starts_with_exec, string_from_chars};

verus! {

/// The pattern of a link with a URL scheme, such as `https:`.
pub const SCHEME_LINK: &'static str = r"^[a-z][a-z0-9+.-]*:";

/// The pattern of a link to a Markdown file: group 1 is the part before
/// `.md`, group 2 the fragment after it, if any.
pub const MD_LINK: &'static str = r"(?P<link>.*)\.md(?P<anchor>#.*)?";

/// The pattern of a README file stem, in any case.
pub const README: &'static str = r"(?i)^readme$";

/// A link adjusted to work with HTML: fragment-only links and links with a
/// scheme are kept; a link that the Markdown-link pattern matches becomes
/// the part before `.md`, then `.html`, then the fragment; any other link
/// is kept.
pub open spec fn fixed_link(link: Seq<char>) -> Seq<char> {
    if starts_with(link, seq!['#']) {
        link
    } else if regex_group_match(SCHEME_LINK@, link, 0) is Some {
        link
    } else {
        match regex_group_match(MD_LINK@, link, 1) {
            Some(Some(base)) => base + seq!['.', 'h', 't', 'm', 'l'] + match regex_group_match(
                MD_LINK@,
                link,
                2,
            ) {
                Some(Some(anchor)) => anchor,
                _ => seq![],
            },
            _ => link,
        }
    }
}

/// Modifies links to work with HTML: for local paths, this changes the
/// `.md` extension to `.html`.
pub fn fix_link(link: &str) -> (r: String)
    ensures
        r@ == fixed_link(link@),
{
    let v = chars_of(link);
    let hash: [char; 1] = ['#'];
    assert(hash@ == seq!['#']);
    if starts_with_exec(&v, &hash) {
        return link.to_owned();
    }
    if regex_capture_group(SCHEME_LINK, link, 0).is_some() {
        return link.to_owned();
    }
    match regex_capture_group(MD_LINK, link, 1) {
        Some(Some(base)) => {
            let mut out = chars_of(base.as_str());
            let html: [char; 5] = ['.', 'h', 't', 'm', 'l'];
            assert(html@ == seq!['.', 'h', 't', 'm', 'l']);
            append_chars(&mut out, &html);
            match regex_capture_group(MD_LINK, link, 2) {
                Some(Some(anchor)) => {
                    let a = chars_of(anchor.as_str());
                    append_chars(&mut out, &a);
                },
                _ => {},
            }
            string_from_chars(&out)
        },
        _ => link.to_owned(),
    }
}

/// Whether the file stem of a path is `readme` in any case.
pub open spec fn is_readme(path: Seq<char>) -> bool {
    let stem = match file_stem(path) {
        Some(s) => s,
        None => seq![],
    };
    regex_group_match(README@, stem, 0) is Some
}

/// Whether a path names a README file.
pub fn is_readme_file(path: &str) -> (r: bool)
    ensures
        r == is_readme(path@),
{
    match path_file_stem(path) {
        Some(s) => regex_capture_group(README, s.as_str(), 0).is_some(),
        None => {
            let e = String::new();
            regex_capture_group(README, e.as_str(), 0).is_some()
        },
    }
}

/// `index.md`
pub open spec fn index_md() -> Seq<char> {
    seq!['i', 'n', 'd', 'e', 'x', '.', 'm', 'd']
}

/// A path with its file name replaced by `index.md`, as
/// `PathBuf::set_file_name` does: the final component is dropped and
/// `index.md` is joined on; a path without a file name just gets it joined.
pub open spec fn with_index_name(p: Seq<char>) -> Seq<char> {
    match parent_of(p) {
        Some(q) => join_path(q, index_md()),
        None => join_path(p, index_md()),
    }
}

fn set_index_file_name(p: &str) -> (r: String)
    ensures
        r@ == with_index_name(p@),
{
    let v = chars_of(p);
    let name = string_from_chars(&['i', 'n', 'd', 'e', 'x', '.', 'm', 'd']);
    assert(name@ == index_md());
    match parent_chars(&v) {
        Some(q) => {
            let qs = string_from_chars(&q);
            join(qs.as_str(), name.as_str())
        },
        None => join(p, name.as_str()),
    }
}

/// The path a chapter gets from the index preprocessor: README files become
/// `index.md` in the same directory; other paths stay.
pub open spec fn index_path(p: Seq<char>) -> Seq<char> {
    if is_readme(p) {
        with_index_name(p)
    } else {
        p
    }
}

/// Renames a README path to `index.md`.
pub fn readme_to_index(p: &str) -> (r: String)
    ensures
        r@ == index_path(p@),
{
    if is_readme_file(p) {
        set_index_file_name(p)
    } else {
        p.to_owned()
    }
}

/// Whether `url::Url::parse` rejects a text as a relative URL without a base.
pub uninterp spec fn relative_without_base(s: Seq<char>) -> bool;

/// Calls `url::Url::parse` and reports whether it fails with
/// `ParseError::RelativeUrlWithoutBase`; the result is named
/// `relative_without_base`.
#[verifier::external_body]
fn is_relative_url(s: &str) -> (r: bool)
    ensures
        r == relative_without_base(s@),
{
    matches!(url::Url::parse(s), Err(url::ParseError::RelativeUrlWithoutBase))
}

/// The destination of a link after the index preprocessor: a relative link
/// to a README file points to `index.md` instead.
pub open spec fn index_link(dest: Seq<char>) -> Seq<char> {
    if relative_without_base(dest) {
        index_path(dest)
    } else {
        dest
    }
}

/// Adjusts the destination of a link to a README file.
pub fn fix_readme_link(dest: &str) -> (r: String)
    ensures
        r@ == index_link(dest@),
{
    if is_relative_url(dest) {
        readme_to_index(dest)
    } else {
        dest.to_owned()
    }
}


/// Whether the index preprocessor rewrites the destination of a link of
/// this kind: an inline link or one to a reference definition.
pub open spec fn relinks(kind: LinkKind) -> bool {
    kind is Inline || kind is Reference || kind is Collapsed || kind is Shortcut
}

/// An event after the index preprocessor: the start of a link that it
/// rewrites points at `index_link` of its destination.
pub open spec fn relinked_event(e: MdEventView) -> MdEventView {
    match e {
        MdEventView::Start(MdTagView::Link { kind, dest_url, title, id }) => if relinks(kind) {
            MdEventView::Start(MdTagView::Link { kind, dest_url: index_link(dest_url), title, id })
        } else {
            e
        },
        _ => e,
    }
}

/// The events after the index preprocessor, one for one.
pub open spec fn relinked(es: Seq<MdEventView>) -> Seq<MdEventView> {
    es.map_values(|e: MdEventView| relinked_event(e))
}

/// Points the links to README files among the events at index files; see
/// [`relinked`].
pub fn relink_readme(events: Vec<MdEvent>) -> (r: Vec<MdEvent>)
    ensures
        events_view(r@) == relinked(events_view(events@)),
{
    let mut rest = events;
    let mut out: Vec<MdEvent> = Vec::new();
    let ghost all = rest@;
    let ghost n = all.len();
    while rest.len() > 0
        invariant
            out@.len() + rest@.len() == n,
            all.len() == n,
            rest@ == all.skip(out@.len() as int),
            events_view(out@) == relinked(events_view(all.take(out@.len() as int))),
        decreases rest@.len(),
    {
        let ghost k = out@.len() as int;
        let first = rest.remove(0);
        let e = match first {
            MdEvent::Start(MdTag::Link { kind, dest_url, title, id }) => {
                if matches!(kind, LinkKind::Inline | LinkKind::Reference | LinkKind::Collapsed | LinkKind::Shortcut) {
                    MdEvent::Start(MdTag::Link { kind, dest_url: fix_readme_link(dest_url.as_str()), title, id })
                } else {
                    MdEvent::Start(MdTag::Link { kind, dest_url, title, id })
                }
            },
            other => other,
        };
        proof {
            assert(first == all[k]);
            assert(event_view(e) == relinked_event(event_view(first)));
        }
        let ghost o0 = out@;
        out.push(e);
        proof {
            assert(rest@ =~= all.skip(k + 1));
            assert(all.take(k + 1) =~= all.take(k).push(first));
            assert(events_view(out@) =~= events_view(o0).push(event_view(e)));
            assert(relinked(events_view(all.take(k + 1))) =~= relinked(events_view(all.take(k))).push(relinked_event(event_view(first))));
        }
    }
    proof {
        assert(all.take(n as int) =~= all);
    }
    out
}

/// Rewriting link destinations keeps the events balanced.
proof fn lemma_relinked_open_ends(es: Seq<MdEventView>)
    ensures
        open_ends(relinked(es)) == open_ends(es),
    decreases es.len(),
{
    if es.len() > 0 {
        lemma_relinked_open_ends(es.drop_last());
        assert(relinked(es).drop_last() =~= relinked(es.drop_last()));
        assert(relinked(es).last() == relinked_event(es.last()));
    }
}

/// Rewrites the links to README files in a chapter's Markdown to point at
/// index files: the text is parsed with the options' extensions, the links
/// rewritten (see [`relinked`]) and the events written back out as
/// Markdown; `None` where the writer refuses them.
pub fn fix_readme_links(content: &str, options: &MarkdownOptions) -> (r: Option<String>)
    ensures
        opt_view(r) == cmark_text(relinked(markdown_events(content@, options_ext(*options))), options_ext(*options)),
{
    let ext = parser_extensions(options);
    let events = parse_markdown(content, &ext);
    let ghost ev = events_view(events@);
    let fixed = relink_readme(events);
    proof {
        lemma_relinked_open_ends(ev);
    }
    write_markdown(fixed, &ext)
}

} // verus!
