//! The data that every page template of the HTML output is rendered with.

use vstd::prelude::*;
use crate::book::{preorder, section_number_text, Book, BookItem};
use crate::config::{realized_direction, BookConfig, HtmlConfig, TextDirection};
use crate::path_order::path_starts_with;
use crate::text::{lowercase, split_on, to_lowercase};
use crate::theme::Theme;
use crate::toc::TocItem;

verus! {

/// The result of `Path::strip_prefix`: the rest of `path` once the
/// components of `base` are taken off its front.
pub uninterp spec fn stripped_path(path: Seq<char>, base: Seq<char>) -> Option<Seq<char>>;

/// Takes the components of `base` off the front of `path`
/// (`std::path::Path::strip_prefix`). Its documentation says that this
/// fails exactly when `path` does not start with `base` (`Path::starts_with`,
/// component by component); the text of the rest is named, not written out.
#[verifier::external_body]
fn strip_path_prefix(path: &str, base: &str) -> (r: Option<String>)
    ensures
        r is Some <==> path_starts_with(path@, base@),
        r matches Some(s) ==> stripped_path(path@, base@) == Some(s@),
        r is None ==> stripped_path(path@, base@) is None,
{
    std::path::Path::new(path).strip_prefix(base).ok().and_then(|p| p.to_str()).map(|s| s.to_owned())
}

/// The data of the page templates.
pub struct PageData {
    /// The book's language, empty when it has none.
    pub language: String,
    /// The direction of the book's text.
    pub text_direction: TextDirection,
    /// The book's title, empty when it has none.
    pub book_title: String,
    /// The book's description, empty when it has none.
    pub description: String,
    /// Whether the theme has a PNG favicon (`favicon.png`).
    pub favicon_png: bool,
    /// Whether the theme has an SVG favicon (`favicon.svg`).
    pub favicon_svg: bool,
    /// Where a live-reloading server listens.
    pub live_reload_endpoint: Option<String>,
    /// The default theme, lowercased; `light` when none is set.
    pub default_theme: String,
    /// The theme for readers who prefer dark ones, lowercased; `navy` when
    /// none is set.
    pub preferred_dark_theme: String,
    /// Whether MathJax is loaded.
    pub mathjax_support: bool,
    /// The additional stylesheets, relative to the book root where they are
    /// below it; `None` when there are none.
    pub additional_css: Option<Vec<String>>,
    /// The additional scripts, likewise.
    pub additional_js: Option<Vec<String>>,
    /// Whether the playground editor's scripts are loaded.
    pub playground_js: bool,
    /// Whether the playground editor shows line numbers.
    pub playground_line_numbers: bool,
    /// Whether code blocks get a copy button.
    pub playground_copyable: bool,
    /// Whether the print page is made.
    pub print_enable: bool,
    /// Whether chapters fold.
    pub fold_enable: bool,
    /// The depth from which chapters are folded.
    pub fold_level: u8,
    /// Whether the sidebar shows the headings of the current page.
    pub sidebar_header_nav: bool,
    /// Whether search is enabled.
    pub search_enabled: bool,
    /// Whether the search scripts are copied.
    pub search_js: bool,
    /// The URL of the book's repository.
    pub git_repository_url: Option<String>,
    /// The icon of the repository link.
    pub git_repository_icon: String,
    /// The style class of that icon.
    pub git_repository_icon_class: String,
    /// The entries of the table of contents, one per item of the book in
    /// depth-first order.
    pub chapters: Vec<TocItem>,
}

/// The view of an optional string.
pub open spec fn opt_str(o: Option<String>) -> Option<Seq<char>> {
    match o {
        Some(s) => Some(s@),
        None => None,
    }
}

/// An entry of the table of contents as values: section, spacer, part,
/// path, name and whether there are nested chapters.
pub type TocItemView = (
    Option<Seq<char>>,
    bool,
    Option<Seq<char>>,
    Option<Seq<char>>,
    Option<Seq<char>>,
    Option<Seq<char>>,
);

/// The view of an entry of the table of contents.
pub open spec fn toc_item_view(e: TocItem) -> TocItemView {
    (
        opt_str(e.section),
        e.spacer,
        opt_str(e.part),
        opt_str(e.path),
        opt_str(e.name),
        opt_str(e.has_sub_items),
    )
}

/// The entry of the table of contents for an item of the book: a part
/// title; a chapter with its section number (when it has one), whether it
/// has nested chapters (`true` or `false`), its name and its path (when it
/// has one); or a spacer.
pub open spec fn toc_entry_for(item: BookItem) -> TocItemView {
    match item {
        BookItem::PartTitle(t) => (None, false, Some(t@), None, None, None),
        BookItem::Chapter(ch) => (
            match ch.number {
                Some(n) => Some(section_number_text(n.0@)),
                None => None,
            },
            false,
            None,
            opt_str(ch.path),
            Some(ch.name@),
            Some(
                if ch.sub_items@.len() > 0 {
                    "true"@
                } else {
                    "false"@
                },
            ),
        ),
        BookItem::Separator => (None, true, None, None, None, None),
    }
}

/// An additional file as the templates name it: relative to the book root
/// when it lies below it.
pub open spec fn relative_to_root(file: Seq<char>, root: Seq<char>) -> Seq<char> {
    match stripped_path(file, root) {
        Some(rest) => rest,
        None => file,
    }
}

/// The additional files as the templates name them; `None` when there
/// are none.
pub open spec fn additional_files(files: Seq<String>, root: Seq<char>) -> Option<Seq<Seq<char>>> {
    if files.len() == 0 {
        None
    } else {
        Some(files.map_values(|f: String| relative_to_root(f@, root)))
    }
}

/// The style class of a repository icon, from the part of its name before
/// the first `-`: `fas` is solid, `fab` brands, anything else regular.
pub open spec fn icon_class(icon: Seq<char>) -> Seq<char> {
    let first = split_on(icon, '-')[0];
    if first == "fas"@ {
        "solid"@
    } else if first == "fab"@ {
        "brands"@
    } else {
        "regular"@
    }
}

/// The views of a list of strings.
pub open spec fn strs(v: Seq<String>) -> Seq<Seq<char>> {
    v.map_values(|s: String| s@)
}

/// Names the additional files relative to the book root.
fn relative_files(files: &Vec<String>, root: &str) -> (r: Option<Vec<String>>)
    ensures
        match r {
            Some(v) => additional_files(files@, root@) == Some(strs(v@)),
            None => additional_files(files@, root@) is None,
        },
{
    if files.len() == 0 {
        return None;
    }
    let mut out: Vec<String> = Vec::new();
    let mut i: usize = 0;
    while i < files.len()
        invariant
            i <= files@.len(),
            strs(out@) == files@.take(i as int).map_values(|f: String| relative_to_root(f@, root@)),
        decreases files@.len() - i,
    {
        let f = &files[i];
        let name = match strip_path_prefix(f.as_str(), root) {
            Some(rest) => rest,
            None => f.clone(),
        };
        assert(name@ == relative_to_root(f@, root@));
        let ghost before = strs(out@);
        out.push(name);
        assert(strs(out@) =~= before.push(name@));
        assert(files@.take(i + 1) =~= files@.take(i as int).push(*f));
        assert(strs(out@) =~= files@.take(i + 1).map_values(|f: String| relative_to_root(f@, root@)));
        i = i + 1;
    }
    assert(files@.take(files@.len() as int) =~= files@);
    Some(out)
}

/// The entry of the table of contents for an item of the book.
fn toc_entry(item: &BookItem) -> (e: TocItem)
    ensures
        toc_item_view(e) == toc_entry_for(*item),
{
    match item {
        BookItem::PartTitle(t) => TocItem {
            section: None,
            spacer: false,
            part: Some(t.clone()),
            path: None,
            name: None,
            has_sub_items: None,
        },
        BookItem::Chapter(ch) => {
            let section = match &ch.number {
                Some(n) => Some(n.to_string()),
                None => None,
            };
            let has_sub = if ch.sub_items.len() > 0 {
                "true".to_owned()
            } else {
                "false".to_owned()
            };
            TocItem {
                section,
                spacer: false,
                part: None,
                path: ch.path.clone(),
                name: Some(ch.name.clone()),
                has_sub_items: Some(has_sub),
            }
        },
        BookItem::Separator => TocItem {
            section: None,
            spacer: true,
            part: None,
            path: None,
            name: None,
            has_sub_items: None,
        },
    }
}

/// The entries of the table of contents: one per item of the book, in
/// depth-first order.
fn toc_entries_of(book: &Book) -> (r: Vec<TocItem>)
    ensures
        r@.len() == preorder(book.sections@).len(),
        forall|i: int|
            0 <= i < r@.len() ==> toc_item_view(#[trigger] r@[i]) == toc_entry_for(
                preorder(book.sections@)[i],
            ),
{
    let ghost all = preorder(book.sections@);
    let mut it = book.iter();
    let mut out: Vec<TocItem> = Vec::new();
    loop
        invariant
            out@.len() <= all.len(),
            all == preorder(book.sections@),
            it.remaining() == all.skip(out@.len() as int),
            forall|i: int|
                0 <= i < out@.len() ==> toc_item_view(#[trigger] out@[i]) == toc_entry_for(all[i]),
        ensures
            out@.len() == all.len(),
            forall|i: int|
                0 <= i < out@.len() ==> toc_item_view(#[trigger] out@[i]) == toc_entry_for(all[i]),
        decreases it.remaining().len(),
    {
        let ghost before = it.remaining();
        match it.next() {
            None => {
                assert(all.skip(out@.len() as int).len() == 0);
                break;
            },
            Some(item) => {
                let ghost k = out@.len() as int;
                assert(all[k] == *item) by {
                    assert(before[0] == *item);
                }
                let e = toc_entry(item);
                out.push(e);
                assert(it.remaining() =~= all.skip(out@.len() as int)) by {
                    assert(before =~= seq![*item] + it.remaining());
                    assert(all.skip(k + 1) =~= all.skip(k).drop_first());
                }
            },
        }
    }
    out
}

/// The class of a repository icon; see [`icon_class`].
fn icon_class_of(icon: &str) -> (r: String)
    ensures
        r@ == icon_class(icon@),
{
    let v = crate::text::chars_of(icon);
    let parts = crate::text::split_chars(&v, '-');
    proof {
        lemma_split_nonempty(v@);
    }
    assert(crate::text::views(parts@)[0] == parts@[0]@);
    let fas = crate::text::chars_of("fas");
    let fab = crate::text::chars_of("fab");
    if crate::text::chars_eq(&parts[0], &fas) {
        "solid".to_owned()
    } else if crate::text::chars_eq(&parts[0], &fab) {
        "brands".to_owned()
    } else {
        "regular".to_owned()
    }
}

proof fn lemma_split_nonempty(s: Seq<char>)
    ensures
        split_on(s, '-').len() >= 1,
{
}

/// Whether search is enabled and whether its scripts are copied: the
/// search settings' own, or the defaults (enabled, scripts copied) when
/// there are none.
pub open spec fn search_flags(html: &HtmlConfig) -> (bool, bool) {
    match html.search {
        Some(s) => (s.enable, s.enable && s.copy_js),
        None => (true, true),
    }
}

/// The data of the page templates for a book; see [`PageData`]. Additional
/// files are named relative to `root` when they lie below it.
pub fn make_data(
    root: &str,
    book: &Book,
    book_config: &BookConfig,
    html_config: &HtmlConfig,
    theme: &Theme,
) -> (r: PageData)
    ensures
        r.language@ == match book_config.language {
            Some(l) => l@,
            None => Seq::<char>::empty(),
        },
        r.text_direction == realized_direction(*book_config),
        r.book_title@ == match book_config.title {
            Some(t) => t@,
            None => Seq::<char>::empty(),
        },
        r.description@ == match book_config.description {
            Some(d) => d@,
            None => Seq::<char>::empty(),
        },
        r.favicon_png == theme.favicon_png is Some,
        r.favicon_svg == theme.favicon_svg is Some,
        opt_str(r.live_reload_endpoint) == opt_str(html_config.live_reload_endpoint),
        r.default_theme@ == match html_config.default_theme {
            Some(t) => lowercase(t@),
            None => "light"@,
        },
        r.preferred_dark_theme@ == match html_config.preferred_dark_theme {
            Some(t) => lowercase(t@),
            None => "navy"@,
        },
        r.mathjax_support == html_config.mathjax_support,
        match r.additional_css {
            Some(v) => additional_files(html_config.additional_css@, root@) == Some(strs(v@)),
            None => additional_files(html_config.additional_css@, root@) is None,
        },
        match r.additional_js {
            Some(v) => additional_files(html_config.additional_js@, root@) == Some(strs(v@)),
            None => additional_files(html_config.additional_js@, root@) is None,
        },
        r.playground_js == (html_config.playground.editable && html_config.playground.copy_js),
        r.playground_line_numbers == (html_config.playground.editable
            && html_config.playground.copy_js && html_config.playground.line_numbers),
        r.playground_copyable == html_config.playground.copyable,
        r.print_enable == html_config.print.enable,
        r.fold_enable == html_config.fold.enable,
        r.fold_level == html_config.fold.level,
        r.sidebar_header_nav == html_config.sidebar_header_nav,
        (r.search_enabled, r.search_js) == search_flags(html_config),
        opt_str(r.git_repository_url) == opt_str(html_config.git_repository_url),
        r.git_repository_icon@ == match html_config.git_repository_icon {
            Some(i) => i@,
            None => "fa-github"@,
        },
        r.git_repository_icon_class@ == icon_class(r.git_repository_icon@),
        r.chapters@.len() == preorder(book.sections@).len(),
        forall|i: int|
            0 <= i < r.chapters@.len() ==> toc_item_view(#[trigger] r.chapters@[i])
                == toc_entry_for(preorder(book.sections@)[i]),
{
    let language = match &book_config.language {
        Some(l) => l.clone(),
        None => String::new(),
    };
    let book_title = match &book_config.title {
        Some(t) => t.clone(),
        None => String::new(),
    };
    let description = match &book_config.description {
        Some(d) => d.clone(),
        None => String::new(),
    };
    let default_theme = match &html_config.default_theme {
        Some(t) => to_lowercase(t.as_str()),
        None => "light".to_owned(),
    };
    let preferred_dark_theme = match &html_config.preferred_dark_theme {
        Some(t) => to_lowercase(t.as_str()),
        None => "navy".to_owned(),
    };
    let playground_js = html_config.playground.editable && html_config.playground.copy_js;
    let (search_enabled, search_js) = match &html_config.search {
        Some(s) => (s.enable, s.enable && s.copy_js),
        None => (true, true),
    };
    let git_repository_icon = match &html_config.git_repository_icon {
        Some(i) => i.clone(),
        None => "fa-github".to_owned(),
    };
    let git_repository_icon_class = icon_class_of(git_repository_icon.as_str());
    PageData {
        language,
        text_direction: book_config.realized_text_direction(),
        book_title,
        description,
        favicon_png: theme.favicon_png.is_some(),
        favicon_svg: theme.favicon_svg.is_some(),
        live_reload_endpoint: html_config.live_reload_endpoint.clone(),
        default_theme,
        preferred_dark_theme,
        mathjax_support: html_config.mathjax_support,
        additional_css: relative_files(&html_config.additional_css, root),
        additional_js: relative_files(&html_config.additional_js, root),
        playground_js,
        playground_line_numbers: playground_js && html_config.playground.line_numbers,
        playground_copyable: html_config.playground.copyable,
        print_enable: html_config.print.enable,
        fold_enable: html_config.fold.enable,
        fold_level: html_config.fold.level,
        sidebar_header_nav: html_config.sidebar_header_nav,
        search_enabled,
        search_js,
        git_repository_url: html_config.git_repository_url.clone(),
        git_repository_icon,
        git_repository_icon_class,
        chapters: toc_entries_of(book),
    }
}

} // verus!
