//! The files of a theme: templates, stylesheets, scripts and images.

use vstd::prelude::*;
use crate::text::chars_eq;
use crate::text::chars_of;

verus! {

/// The contents of the files of a theme. A theme directory of the book
/// overrides the bundled default of each file it holds.
#[derive(Debug, PartialEq)]
pub struct Theme {
    /// The page template.
    pub index: Vec<u8>,
    /// The template included in the `<head>` of each page.
    pub head: Vec<u8>,
    /// The template of redirect pages.
    pub redirect: Vec<u8>,
    /// The template included at the top of each page.
    pub header: Vec<u8>,
    /// The template of the table of contents script.
    pub toc_js: Vec<u8>,
    /// The template of the table of contents for pages without scripts.
    pub toc_html: Vec<u8>,
    /// `css/chrome.css`.
    pub chrome_css: Vec<u8>,
    /// `css/general.css`.
    pub general_css: Vec<u8>,
    /// `css/print.css`.
    pub print_css: Vec<u8>,
    /// `css/variables.css`.
    pub variables_css: Vec<u8>,
    /// `fonts/fonts.css` of the theme, when it has one.
    pub fonts_css: Option<Vec<u8>>,
    /// The paths of the other files of the theme's `fonts` directory.
    pub font_files: Vec<String>,
    /// `favicon.png`.
    pub favicon_png: Option<Vec<u8>>,
    /// `favicon.svg`.
    pub favicon_svg: Option<Vec<u8>>,
    /// `book.js`.
    pub js: Vec<u8>,
    /// `highlight.css`.
    pub highlight_css: Vec<u8>,
    /// `tomorrow-night.css`.
    pub tomorrow_night_css: Vec<u8>,
    /// `ayu-highlight.css`.
    pub ayu_highlight_css: Vec<u8>,
    /// `highlight.js`.
    pub highlight_js: Vec<u8>,
    /// `clipboard.min.js`.
    pub clipboard_js: Vec<u8>,
}

/// Files bundled with the renderer that are written besides the theme:
/// the default fonts and the playground editor.
pub struct BundledAssets {
    /// The default `fonts/fonts.css`.
    pub fonts_css: Vec<u8>,
    /// The default font files and their licenses, by output name, in the
    /// order they are written.
    pub font_files: Vec<(String, Vec<u8>)>,
    /// The editor scripts, by output name: `editor.js`, `ace.js`,
    /// `mode-rust.js`, `theme-dawn.js`, `theme-tomorrow_night.js`.
    pub editor_files: Vec<(String, Vec<u8>)>,
}

/// An entry of a theme's `fonts` directory.
pub struct FontEntry {
    /// Its path.
    pub path: String,
    /// Its file name.
    pub file_name: String,
    /// Whether it is a directory; `None` when that could not be told.
    pub is_dir: Option<bool>,
}

/// A theme's `fonts` directory.
pub struct FontsDir {
    /// The contents of its `fonts.css`, when it could be read.
    pub fonts_css: Option<Vec<u8>>,
    /// Its entries, when it could be listed.
    pub entries: Option<Vec<FontEntry>>,
}

/// The files that a theme directory holds, each when it could be read;
/// each field is the file of the same name in [`Theme`].
pub struct ThemeOverrides {
    /// `index.hbs`.
    pub index: Option<Vec<u8>>,
    /// `head.hbs`.
    pub head: Option<Vec<u8>>,
    /// `redirect.hbs`.
    pub redirect: Option<Vec<u8>>,
    /// `header.hbs`.
    pub header: Option<Vec<u8>>,
    /// `toc.js.hbs`.
    pub toc_js: Option<Vec<u8>>,
    /// `toc.html.hbs`.
    pub toc_html: Option<Vec<u8>>,
    /// `book.js`.
    pub js: Option<Vec<u8>>,
    /// `css/chrome.css`.
    pub chrome_css: Option<Vec<u8>>,
    /// `css/general.css`.
    pub general_css: Option<Vec<u8>>,
    /// `css/print.css`.
    pub print_css: Option<Vec<u8>>,
    /// `css/variables.css`.
    pub variables_css: Option<Vec<u8>>,
    /// `highlight.js`.
    pub highlight_js: Option<Vec<u8>>,
    /// `clipboard.min.js`.
    pub clipboard_js: Option<Vec<u8>>,
    /// `highlight.css`.
    pub highlight_css: Option<Vec<u8>>,
    /// `tomorrow-night.css`.
    pub tomorrow_night_css: Option<Vec<u8>>,
    /// `ayu-highlight.css`.
    pub ayu_highlight_css: Option<Vec<u8>>,
    /// The `fonts` directory, when there is one.
    pub fonts_dir: Option<FontsDir>,
    /// `favicon.png`.
    pub favicon_png: Option<Vec<u8>>,
    /// `favicon.svg`.
    pub favicon_svg: Option<Vec<u8>>,
}

/// A file of the theme: the one read from the theme directory, or else
/// the default.
pub open spec fn picked(o: Option<Vec<u8>>, default: Vec<u8>) -> Seq<u8> {
    match o {
        Some(v) => v@,
        None => default@,
    }
}

/// The view of an optional file.
pub open spec fn opt_bytes(o: Option<Vec<u8>>) -> Option<Seq<u8>> {
    match o {
        Some(v) => Some(v@),
        None => None,
    }
}

/// The font files of a listed `fonts` directory: every entry that is
/// known not to be a directory, other than `fonts.css`.
pub open spec fn font_paths(entries: Seq<FontEntry>) -> Seq<Seq<char>>
    decreases entries.len(),
{
    if entries.len() == 0 {
        seq![]
    } else {
        let e = entries.last();
        font_paths(entries.drop_last()) + if e.file_name@ != "fonts.css"@ && e.is_dir == Some(
            false,
        ) {
            seq![e.path@]
        } else {
            seq![]
        }
    }
}

/// The views of a list of strings.
pub open spec fn paths_view(v: Seq<String>) -> Seq<Seq<char>> {
    v.map_values(|s: String| s@)
}

/// The favicons of a theme directory over the defaults: each one read
/// replaces its default, and when only one of them is read the other is
/// left out.
pub open spec fn favicons(
    png: Option<Vec<u8>>,
    svg: Option<Vec<u8>>,
    default_png: Option<Vec<u8>>,
    default_svg: Option<Vec<u8>>,
) -> (Option<Seq<u8>>, Option<Seq<u8>>) {
    if png is Some && svg is None {
        (opt_bytes(png), None)
    } else if png is None && svg is Some {
        (None, opt_bytes(svg))
    } else if png is Some {
        (opt_bytes(png), opt_bytes(svg))
    } else {
        (opt_bytes(default_png), opt_bytes(default_svg))
    }
}

/// Lists the font files of a `fonts` directory; see [`font_paths`].
fn font_files_of(entries: Vec<FontEntry>) -> (r: Vec<String>)
    ensures
        paths_view(r@) == font_paths(entries@),
{
    let mut out: Vec<String> = Vec::new();
    let mut i: usize = 0;
    let css = chars_of("fonts.css");
    while i < entries.len()
        invariant
            i <= entries@.len(),
            css@ == "fonts.css"@,
            paths_view(out@) == font_paths(entries@.take(i as int)),
        decreases entries@.len() - i,
    {
        let e = &entries[i];
        let ghost before = paths_view(out@);
        if !chars_eq(&chars_of(e.file_name.as_str()), &css) && e.is_dir == Some(false) {
            out.push(e.path.clone());
        }
        proof {
            let t = entries@.take(i + 1);
            assert(t.drop_last() =~= entries@.take(i as int));
            assert(t.last() == entries@[i as int]);
            assert(paths_view(out@) =~= font_paths(t));
        }
        i = i + 1;
    }
    assert(entries@.take(entries@.len() as int) =~= entries@);
    out
}

impl Theme {
    /// The theme that a theme directory makes over the defaults: without a
    /// directory, the defaults; otherwise each file the directory holds
    /// replaces its default, its `fonts/fonts.css` becomes the fonts
    /// stylesheet, the other files of its `fonts` directory become the
    /// font files, and the favicons are taken as [`favicons`] says.
    pub fn with_overrides(defaults: Theme, overrides: Option<ThemeOverrides>) -> (r: Theme)
        requires
            overrides is Some ==> defaults.favicon_png is Some && defaults.favicon_svg is Some,
        ensures
            overrides is None ==> r == defaults,
            overrides matches Some(o) ==> {
                &&& r.index@ == picked(o.index, defaults.index)
                &&& r.head@ == picked(o.head, defaults.head)
                &&& r.redirect@ == picked(o.redirect, defaults.redirect)
                &&& r.header@ == picked(o.header, defaults.header)
                &&& r.toc_js@ == picked(o.toc_js, defaults.toc_js)
                &&& r.toc_html@ == picked(o.toc_html, defaults.toc_html)
                &&& r.js@ == picked(o.js, defaults.js)
                &&& r.chrome_css@ == picked(o.chrome_css, defaults.chrome_css)
                &&& r.general_css@ == picked(o.general_css, defaults.general_css)
                &&& r.print_css@ == picked(o.print_css, defaults.print_css)
                &&& r.variables_css@ == picked(o.variables_css, defaults.variables_css)
                &&& r.highlight_js@ == picked(o.highlight_js, defaults.highlight_js)
                &&& r.clipboard_js@ == picked(o.clipboard_js, defaults.clipboard_js)
                &&& r.highlight_css@ == picked(o.highlight_css, defaults.highlight_css)
                &&& r.tomorrow_night_css@ == picked(o.tomorrow_night_css, defaults.tomorrow_night_css)
                &&& r.ayu_highlight_css@ == picked(o.ayu_highlight_css, defaults.ayu_highlight_css)
                &&& opt_bytes(r.fonts_css) == match o.fonts_dir {
                    Some(fd) => match fd.fonts_css {
                        Some(c) => Some(c@),
                        None => opt_bytes(defaults.fonts_css),
                    },
                    None => opt_bytes(defaults.fonts_css),
                }
                &&& paths_view(r.font_files@) == match o.fonts_dir {
                    Some(fd) => match fd.entries {
                        Some(es) => font_paths(es@),
                        None => paths_view(defaults.font_files@),
                    },
                    None => paths_view(defaults.font_files@),
                }
                &&& (opt_bytes(r.favicon_png), opt_bytes(r.favicon_svg)) == favicons(
                    o.favicon_png,
                    o.favicon_svg,
                    defaults.favicon_png,
                    defaults.favicon_svg,
                )
            },
    {
        let o = match overrides {
            None => {
                return defaults;
            },
            Some(o) => o,
        };
        let d = defaults;
        let (fonts_css, font_files) = match o.fonts_dir {
            Some(fd) => {
                let css = match fd.fonts_css {
                    Some(c) => Some(c),
                    None => d.fonts_css,
                };
                let files = match fd.entries {
                    Some(es) => font_files_of(es),
                    None => d.font_files,
                };
                (css, files)
            },
            None => (d.fonts_css, d.font_files),
        };
        let (favicon_png, favicon_svg) = match (o.favicon_png, o.favicon_svg) {
            (Some(p), None) => (Some(p), None),
            (None, Some(s)) => (None, Some(s)),
            (Some(p), Some(s)) => (Some(p), Some(s)),
            (None, None) => (d.favicon_png, d.favicon_svg),
        };
        Theme {
            index: o.index.unwrap_or(d.index),
            head: o.head.unwrap_or(d.head),
            redirect: o.redirect.unwrap_or(d.redirect),
            header: o.header.unwrap_or(d.header),
            toc_js: o.toc_js.unwrap_or(d.toc_js),
            toc_html: o.toc_html.unwrap_or(d.toc_html),
            chrome_css: o.chrome_css.unwrap_or(d.chrome_css),
            general_css: o.general_css.unwrap_or(d.general_css),
            print_css: o.print_css.unwrap_or(d.print_css),
            variables_css: o.variables_css.unwrap_or(d.variables_css),
            fonts_css,
            font_files,
            favicon_png,
            favicon_svg,
            js: o.js.unwrap_or(d.js),
            highlight_css: o.highlight_css.unwrap_or(d.highlight_css),
            tomorrow_night_css: o.tomorrow_night_css.unwrap_or(d.tomorrow_night_css),
            ayu_highlight_css: o.ayu_highlight_css.unwrap_or(d.ayu_highlight_css),
            highlight_js: o.highlight_js.unwrap_or(d.highlight_js),
            clipboard_js: o.clipboard_js.unwrap_or(d.clipboard_js),
        }
    }
}

} // verus!
