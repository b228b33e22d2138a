//! The book's configuration: metadata, build settings and the options of the
//! HTML renderer.

use vstd::prelude::*;
use std::collections::HashMap;
use crate::json::{json_entries, json_value, json_view, parse_json, JsonValue, JsonView};
use crate::paths::{join, join_path};
use crate::toml_ext::{law_read_after_insert, opt_ref_view, toml_view, view_insert, view_read, TomlValue, TomlView};
use crate::text::{
    append_chars, chars_eq, chars_of, lowercase, replace_all, replace_chars, string_from_chars, strip_prefix,
    strip_prefix_chars, to_lowercase,
};

verus! {

/// Text direction to use for HTML output.
#[derive(Debug, Clone, Copy, PartialEq, Eq, Structural)]
pub enum TextDirection {
    /// Left to right.
    LeftToRight,
    /// Right to left.
    RightToLeft,
}

/// Rust edition to use for the code.
#[derive(Debug, Clone, Copy, PartialEq, Eq, Structural)]
pub enum RustEdition {
    /// The 2024 edition of Rust.
    E2024,
    /// The 2021 edition of Rust.
    E2021,
    /// The 2018 edition of Rust.
    E2018,
    /// The 2015 edition of Rust.
    E2015,
}

/// The language codes that are written right to left.
pub open spec fn is_rtl_code(c: Seq<char>) -> bool {
    ||| c == seq!['a', 'r']
    ||| c == seq!['a', 'r', 'a']
    ||| c == seq!['a', 'r', 'c']
    ||| c == seq!['a', 'e']
    ||| c == seq!['a', 'v', 'e']
    ||| c == seq!['e', 'g', 'y']
    ||| c == seq!['h', 'e']
    ||| c == seq!['h', 'e', 'b']
    ||| c == seq!['n', 'q', 'o']
    ||| c == seq!['p', 'a', 'l']
    ||| c == seq!['p', 'h', 'n']
    ||| c == seq!['s', 'a', 'm']
    ||| c == seq!['s', 'y', 'c']
    ||| c == seq!['s', 'y', 'r']
    ||| c == seq!['f', 'a']
    ||| c == seq!['p', 'e', 'r']
    ||| c == seq!['f', 'a', 's']
    ||| c == seq!['k', 'u']
    ||| c == seq!['k', 'u', 'r']
    ||| c == seq!['u', 'r']
    ||| c == seq!['u', 'r', 'd']
    ||| c == seq!['p', 'u', 's']
    ||| c == seq!['p', 's']
    ||| c == seq!['y', 'i']
    ||| c == seq!['y', 'i', 'd']
}

/// The direction of the language with code `c`.
pub open spec fn direction_of(c: Seq<char>) -> TextDirection {
    if is_rtl_code(c) {
        TextDirection::RightToLeft
    } else {
        TextDirection::LeftToRight
    }
}

fn is_rtl(c: &[char]) -> (r: bool)
    ensures
        r == is_rtl_code(c@),
{
    chars_eq(c, &['a', 'r']) || chars_eq(c, &['a', 'r', 'a']) || chars_eq(c, &['a', 'r', 'c'])
        || chars_eq(c, &['a', 'e']) || chars_eq(c, &['a', 'v', 'e']) || chars_eq(
        c,
        &['e', 'g', 'y'],
    ) || chars_eq(c, &['h', 'e']) || chars_eq(c, &['h', 'e', 'b']) || chars_eq(
        c,
        &['n', 'q', 'o'],
    ) || chars_eq(c, &['p', 'a', 'l']) || chars_eq(c, &['p', 'h', 'n']) || chars_eq(
        c,
        &['s', 'a', 'm'],
    ) || chars_eq(c, &['s', 'y', 'c']) || chars_eq(c, &['s', 'y', 'r']) || chars_eq(
        c,
        &['f', 'a'],
    ) || chars_eq(c, &['p', 'e', 'r']) || chars_eq(c, &['f', 'a', 's']) || chars_eq(
        c,
        &['k', 'u'],
    ) || chars_eq(c, &['k', 'u', 'r']) || chars_eq(c, &['u', 'r']) || chars_eq(
        c,
        &['u', 'r', 'd'],
    ) || chars_eq(c, &['p', 'u', 's']) || chars_eq(c, &['p', 's']) || chars_eq(c, &['y', 'i'])
        || chars_eq(c, &['y', 'i', 'd'])
}

impl TextDirection {
    /// Gets the text direction from a language code.
    pub fn from_lang_code(code: &str) -> (r: TextDirection)
        ensures
            r == direction_of(code@),
    {
        let c = chars_of(code);
        if is_rtl(&c) {
            TextDirection::RightToLeft
        } else {
            TextDirection::LeftToRight
        }
    }
}

/// Configuration options which are specific to the book and required for
/// loading it from disk.
#[derive(Debug, Clone, PartialEq)]
pub struct BookConfig {
    /// The book's title.
    pub title: Option<String>,
    /// The book's authors.
    pub authors: Vec<String>,
    /// An optional description for the book.
    pub description: Option<String>,
    /// Location of the book source relative to the book's root directory.
    pub src: String,
    /// The main language of the book.
    pub language: Option<String>,
    /// The direction of text in the book. When not specified, the text
    /// direction is derived from [`BookConfig::language`].
    pub text_direction: Option<TextDirection>,
}

/// The direction a book configuration stands for.
pub open spec fn realized_direction(cfg: BookConfig) -> TextDirection {
    match cfg.text_direction {
        Some(d) => d,
        None => match cfg.language {
            Some(l) => direction_of(l@),
            None => direction_of(seq![]),
        },
    }
}

impl BookConfig {
    /// Gets the realized text direction, either from
    /// [`BookConfig::text_direction`] or derived from [`BookConfig::language`].
    pub fn realized_text_direction(&self) -> (r: TextDirection)
        ensures
            r == realized_direction(*self),
    {
        if let Some(direction) = self.text_direction {
            direction
        } else {
            match &self.language {
                Some(l) => TextDirection::from_lang_code(l.as_str()),
                None => {
                    let e = String::new();
                    TextDirection::from_lang_code(e.as_str())
                },
            }
        }
    }
}

impl Default for BookConfig {
    fn default() -> (r: BookConfig)
        ensures
            r.title is None,
            r.authors@.len() == 0,
            r.description is None,
            r.src@ == seq!['s', 'r', 'c'],
            r.language matches Some(l) && l@ == seq!['e', 'n'],
            r.text_direction is None,
    {
        BookConfig {
            title: None,
            authors: Vec::new(),
            description: None,
            src: string_from_chars(&['s', 'r', 'c']),
            language: Some(string_from_chars(&['e', 'n'])),
            text_direction: None,
        }
    }
}

/// Whether a source directory is the default one, `src`.
pub fn is_default_src(src: &str) -> (r: bool)
    ensures
        r == (src@ == seq!['s', 'r', 'c']),
{
    let c = chars_of(src);
    chars_eq(&c, &['s', 'r', 'c'])
}

/// Configuration for the build procedure.
#[derive(Debug, Clone, PartialEq)]
pub struct BuildConfig {
    /// Where to put built artifacts relative to the book's root directory.
    pub build_dir: String,
    /// Should non-existent markdown files specified in `SUMMARY.md` be created
    /// if they don't exist?
    pub create_missing: bool,
    /// Should the default preprocessors always be used when they are
    /// compatible with the renderer?
    pub use_default_preprocessors: bool,
    /// Extra directories to trigger rebuild when watching/serving.
    pub extra_watch_dirs: Vec<String>,
}

impl Default for BuildConfig {
    fn default() -> (r: BuildConfig)
        ensures
            r.build_dir@ == seq!['b', 'o', 'o', 'k'],
            r.create_missing,
            r.use_default_preprocessors,
            r.extra_watch_dirs@.len() == 0,
    {
        BuildConfig {
            build_dir: string_from_chars(&['b', 'o', 'o', 'k']),
            create_missing: true,
            use_default_preprocessors: true,
            extra_watch_dirs: Vec::new(),
        }
    }
}

/// Configuration for the Rust compiler (e.g., for playground).
#[derive(Debug, Clone, PartialEq)]
pub struct RustConfig {
    /// Rust edition used in playground.
    pub edition: Option<RustEdition>,
}

impl Default for RustConfig {
    fn default() -> (r: RustConfig)
        ensures
            r.edition is None,
    {
        RustConfig { edition: None }
    }
}

/// Configuration for how to render the print icon, print.html, and print.css.
#[derive(Debug, Clone, PartialEq)]
pub struct Print {
    /// Whether print support is enabled.
    pub enable: bool,
    /// Insert page breaks between chapters.
    pub page_break: bool,
}

impl Default for Print {
    fn default() -> (r: Print)
        ensures
            r.enable,
            r.page_break,
    {
        Print { enable: true, page_break: true }
    }
}

/// Configuration for how to fold chapters of sidebar.
#[derive(Debug, Clone, PartialEq)]
pub struct Fold {
    /// When off, all folds are open.
    pub enable: bool,
    /// The higher the more folded regions are open. When level is 0, all
    /// folds are closed.
    pub level: u8,
}

impl Default for Fold {
    fn default() -> (r: Fold)
        ensures
            !r.enable,
            r.level == 0,
    {
        Fold { enable: false, level: 0 }
    }
}

/// Configuration for tweaking how the HTML renderer handles the playground.
#[derive(Debug, Clone, PartialEq)]
pub struct Playground {
    /// Should playground snippets be editable?
    pub editable: bool,
    /// Display the copy button.
    pub copyable: bool,
    /// Copy JavaScript files for the editor to the output directory?
    pub copy_js: bool,
    /// Display line numbers on playground snippets.
    pub line_numbers: bool,
    /// Display the run button.
    pub runnable: bool,
}

impl Default for Playground {
    fn default() -> (r: Playground)
        ensures
            !r.editable,
            r.copyable,
            r.copy_js,
            !r.line_numbers,
            r.runnable,
    {
        Playground {
            editable: false,
            copyable: true,
            copy_js: true,
            line_numbers: false,
            runnable: true,
        }
    }
}

/// Configuration for tweaking how the HTML renderer handles code blocks.
#[derive(Debug, Clone, PartialEq)]
pub struct Code {
    /// Enable or disable the default line hiding with '#' for rust.
    pub default_hidelines: bool,
    /// A prefix string to hide lines per language (one or more chars).
    pub hidelines: HashMap<String, String>,
}

impl Default for Code {
    fn default() -> (r: Code)
        ensures
            r.default_hidelines,
            r.hidelines@ == Map::<String, String>::empty(),
    {
        Code { default_hidelines: true, hidelines: HashMap::new() }
    }
}

/// Search options for chapters (or paths).
#[derive(Debug, Clone, PartialEq, Default)]
pub struct SearchChapterSettings {
    /// Whether or not indexing is enabled, default `true`.
    pub enable: Option<bool>,
}

/// Configuration of the search functionality of the HTML renderer.
#[derive(Debug, Clone, PartialEq)]
pub struct Search {
    /// Enable the search feature.
    pub enable: bool,
    /// Maximum number of visible results.
    pub limit_results: u32,
    /// The number of words used for a search result teaser.
    pub teaser_word_count: u32,
    /// If true, all search words must appear in each result.
    pub use_boolean_and: bool,
    /// Boost factor for the search result score if a search word appears in the header.
    pub boost_title: u8,
    /// Boost factor for the search result score if a search word appears in the hierarchy.
    pub boost_hierarchy: u8,
    /// Boost factor for the search result score if a search word appears in the text.
    pub boost_paragraph: u8,
    /// True if the searchword `micro` should match `microwave`.
    pub expand: bool,
    /// The heading level up to which documents are split into parts.
    pub heading_split_level: u8,
    /// Copy JavaScript files for the search functionality to the output directory?
    pub copy_js: bool,
    /// Search settings for the given path; more specific paths take precedence.
    pub chapter: HashMap<String, SearchChapterSettings>,
}

impl Default for Search {
    fn default() -> (r: Search)
        ensures
            r.enable,
            r.limit_results == 30,
            r.teaser_word_count == 30,
            !r.use_boolean_and,
            r.boost_title == 2,
            r.boost_hierarchy == 1,
            r.boost_paragraph == 1,
            r.expand,
            r.heading_split_level == 3,
            r.copy_js,
            r.chapter@ == Map::<String, SearchChapterSettings>::empty(),
    {
        Search {
            enable: true,
            limit_results: 30,
            teaser_word_count: 30,
            use_boolean_and: false,
            boost_title: 2,
            boost_hierarchy: 1,
            boost_paragraph: 1,
            expand: true,
            heading_split_level: 3,
            copy_js: true,
            chapter: HashMap::new(),
        }
    }
}

/// Configuration for the HTML renderer.
#[derive(Debug, Clone, PartialEq)]
pub struct HtmlConfig {
    /// The theme directory, if specified.
    pub theme: Option<String>,
    /// The default theme to use, defaults to 'light'.
    pub default_theme: Option<String>,
    /// The theme to use if the browser requests the dark version of the site.
    pub preferred_dark_theme: Option<String>,
    /// Supports smart quotes, apostrophes, ellipsis, en-dash, and em-dash.
    pub smart_punctuation: bool,
    /// Support for definition lists.
    pub definition_lists: bool,
    /// Support for admonitions.
    pub admonitions: bool,
    /// Should mathjax be enabled?
    pub mathjax_support: bool,
    /// Additional CSS stylesheets to include in the rendered page's `<head>`.
    pub additional_css: Vec<String>,
    /// Additional JS scripts to include at the bottom of the rendered page's `<body>`.
    pub additional_js: Vec<String>,
    /// Fold settings.
    pub fold: Fold,
    /// Playground settings.
    pub playground: Playground,
    /// Code settings.
    pub code: Code,
    /// Print settings.
    pub print: Print,
    /// Don't render section labels.
    pub no_section_label: bool,
    /// Search settings. If `None`, the default will be used.
    pub search: Option<Search>,
    /// Git repository url. If `None`, the git button will not be shown.
    pub git_repository_url: Option<String>,
    /// FontAwesome icon class to use for the Git repository link.
    pub git_repository_icon: Option<String>,
    /// Input path for the 404 file, defaults to 404.md, set to "" to disable
    /// 404 file output.
    pub input_404: Option<String>,
    /// Absolute url to site, used to emit correct paths for the 404 page.
    pub site_url: Option<String>,
    /// The DNS subdomain or apex domain at which your book will be hosted.
    pub cname: Option<String>,
    /// Edit url template, with `{path}` standing for the chapter's source path.
    pub edit_url_template: Option<String>,
    /// Endpoint of websocket, for livereload usage.
    pub live_reload_endpoint: Option<String>,
    /// The mapping from old pages to new pages/URLs to use when generating
    /// redirects.
    pub redirect: HashMap<String, String>,
    /// "Cache bust" static files by adding hashes to their file names.
    pub hash_files: bool,
    /// If enabled, the sidebar includes navigation for headers on the current page.
    pub sidebar_header_nav: bool,
}

/// The name of the 404 output file for a given 404 input.
pub open spec fn output_404(input_404: Option<String>) -> Seq<char> {
    let input = match input_404 {
        Some(s) => s@,
        None => seq!['4', '0', '4', '.', 'm', 'd'],
    };
    replace_all(input, seq!['.', 'm', 'd'], seq!['.', 'h', 't', 'm', 'l'])
}

impl HtmlConfig {
    /// Returns the directory of the theme under the provided root directory:
    /// the configured one, or `theme`.
    pub fn theme_dir(&self, root: &str) -> (r: String)
        ensures
            r@ == join_path(
                root@,
                match self.theme {
                    Some(d) => d@,
                    None => seq!['t', 'h', 'e', 'm', 'e'],
                },
            ),
    {
        match &self.theme {
            Some(d) => join(root, d.as_str()),
            None => {
                let t = string_from_chars(&['t', 'h', 'e', 'm', 'e']);
                join(root, t.as_str())
            },
        }
    }

    /// Returns the name of the file used for HTTP 404 "not found", with the
    /// `.md` of the input replaced by `.html`.
    pub fn get_404_output_file(&self) -> (r: String)
        ensures
            r@ == output_404(self.input_404),
    {
        let input = match &self.input_404 {
            Some(s) => chars_of(s.as_str()),
            None => {
                let v: Vec<char> = vec!['4', '0', '4', '.', 'm', 'd'];
                v
            },
        };
        let out = replace_chars(&input, &['.', 'm', 'd'], &['.', 'h', 't', 'm', 'l']);
        string_from_chars(&out)
    }
}

impl Default for HtmlConfig {
    fn default() -> (r: HtmlConfig)
        ensures
            r.theme is None,
            r.default_theme is None,
            r.preferred_dark_theme is None,
            r.smart_punctuation,
            r.definition_lists,
            r.admonitions,
            !r.mathjax_support,
            r.additional_css@.len() == 0,
            r.additional_js@.len() == 0,
            !r.fold.enable && r.fold.level == 0,
            !r.playground.editable && r.playground.copyable && r.playground.copy_js
                && !r.playground.line_numbers && r.playground.runnable,
            r.code.default_hidelines,
            r.code.hidelines@ == Map::<String, String>::empty(),
            r.print.enable && r.print.page_break,
            !r.no_section_label,
            r.search is None,
            r.git_repository_url is None,
            r.git_repository_icon is None,
            r.input_404 is None,
            r.site_url is None,
            r.cname is None,
            r.edit_url_template is None,
            r.live_reload_endpoint is None,
            r.redirect@ == Map::<String, String>::empty(),
            r.hash_files,
            r.sidebar_header_nav,
    {
        HtmlConfig {
            theme: None,
            default_theme: None,
            preferred_dark_theme: None,
            smart_punctuation: true,
            definition_lists: true,
            admonitions: true,
            mathjax_support: false,
            additional_css: Vec::new(),
            additional_js: Vec::new(),
            fold: Fold::default(),
            playground: Playground::default(),
            code: Code::default(),
            print: Print::default(),
            no_section_label: false,
            search: None,
            git_repository_url: None,
            git_repository_icon: None,
            input_404: None,
            site_url: None,
            cname: None,
            edit_url_template: None,
            live_reload_endpoint: None,
            redirect: HashMap::new(),
            hash_files: true,
            sidebar_header_nav: true,
        }
    }
}

/// The configuration key an environment variable stands for: the name
/// without its `MDBOOK_` prefix, lowercased, with `__` turned into `.` and
/// then `_` into `-`; `None` for a variable without the prefix.
pub open spec fn env_key(key: Seq<char>) -> Option<Seq<char>> {
    match strip_prefix(key, seq!['M', 'D', 'B', 'O', 'O', 'K', '_']) {
        Some(rest) => Some(
            replace_all(
                replace_all(lowercase(rest), seq!['_', '_'], seq!['.']),
                seq!['_'],
                seq!['-'],
            ),
        ),
        None => None,
    }
}

/// Turns the name of an environment variable into a configuration key; see
/// [`env_key`].
pub fn parse_env(key: &str) -> (r: Option<String>)
    ensures
        r matches Some(s) ==> env_key(key@) == Some(s@),
        r is None ==> env_key(key@) is None,
{
    let k = chars_of(key);
    let prefix: [char; 7] = ['M', 'D', 'B', 'O', 'O', 'K', '_'];
    assert(prefix@ == seq!['M', 'D', 'B', 'O', 'O', 'K', '_']);
    match strip_prefix_chars(&k, &prefix) {
        Some(rest) => {
            let rest_s = string_from_chars(&rest);
            let lower = to_lowercase(rest_s.as_str());
            let l = chars_of(lower.as_str());
            let p1: [char; 2] = ['_', '_'];
            let r1: [char; 1] = ['.'];
            let p2: [char; 1] = ['_'];
            let r2: [char; 1] = ['-'];
            assert(p1@ == seq!['_', '_'] && r1@ == seq!['.'] && p2@ == seq!['_'] && r2@ == seq!['-']);
            let a = replace_chars(&l, &p1, &r1);
            let b = replace_chars(&a, &p2, &r2);
            Some(string_from_chars(&b))
        },
        None => None,
    }
}

/// The value that an environment variable sets: its JSON value, or the
/// text itself where it is not JSON.
pub open spec fn env_value(v: Seq<char>) -> JsonView {
    match json_value(v) {
        Some(j) => j,
        None => JsonView::Str(v),
    }
}

/// The entries of an object set one by one under a table: each key with
/// the table's name and a dot before it.
pub open spec fn entries_under(table: Seq<char>, entries: Seq<(Seq<char>, JsonView)>) -> Seq<(Seq<char>, JsonView)> {
    entries.map_values(|e: (Seq<char>, JsonView)| (table + seq!['.'] + e.0, e.1))
}

/// The keys and values that environment variables set, in order. A
/// variable whose name is not an `MDBOOK_` one (see [`env_key`]), or that
/// names `log`, sets nothing. A JSON object for the `book` or `build` table
/// sets each of its entries under the table. Any other value is set under
/// its key. Every variable is taken, whatever the ones before it held.
pub open spec fn env_settings(vars: Seq<(Seq<char>, Seq<char>)>) -> Seq<(Seq<char>, JsonView)>
    decreases vars.len(),
{
    if vars.len() == 0 {
        seq![]
    } else {
        let rest = vars.subrange(1, vars.len() as int);
        match env_key(vars[0].0) {
            None => env_settings(rest),
            Some(key) => if key == seq!['l', 'o', 'g'] {
                env_settings(rest)
            } else {
                let v = env_value(vars[0].1);
                match v {
                    JsonView::Object(entries) => if key == seq!['b', 'o', 'o', 'k'] || key == seq!['b', 'u', 'i', 'l', 'd'] {
                        entries_under(key, entries) + env_settings(rest)
                    } else {
                        seq![(key, v)] + env_settings(rest)
                    },
                    _ => seq![(key, v)] + env_settings(rest),
                }
            },
        }
    }
}

/// The views of pairs of strings.
pub open spec fn vars_view(v: Seq<(String, String)>) -> Seq<(Seq<char>, Seq<char>)> {
    v.map_values(|p: (String, String)| (p.0@, p.1@))
}

/// The views of keys with values.
pub open spec fn settings_view(v: Seq<(String, JsonValue)>) -> Seq<(Seq<char>, JsonView)> {
    v.map_values(|p: (String, JsonValue)| (p.0@, json_view(p.1)))
}

/// The keys and values that environment variables, given as names and
/// values, set in the configuration, in order; see [`env_settings`].
pub fn env_overrides(vars: Vec<(String, String)>) -> (r: Vec<(String, JsonValue)>)
    ensures
        settings_view(r@) == env_settings(vars_view(vars@)),
{
    let mut rest = vars;
    let ghost all = vars_view(rest@);
    let mut out: Vec<(String, JsonValue)> = Vec::new();
    proof {
        assert(settings_view(out@) + env_settings(vars_view(rest@)) =~= env_settings(all));
    }
    while rest.len() > 0
        invariant
            settings_view(out@) + env_settings(vars_view(rest@)) == env_settings(all),
            all == vars_view(vars@),
        decreases rest@.len(),
    {
        let ghost r0 = rest@;
        let (name, value) = rest.remove(0);
        let ghost tail = vars_view(rest@);
        proof {
            assert(tail =~= vars_view(r0).subrange(1, r0.len() as int));
            assert(vars_view(r0)[0] == (name@, value@));
        }
        let ghost o0 = out@;
        if let Some(key) = parse_env(name.as_str()) {
            let k = chars_of(key.as_str());
            if !chars_eq(&k, &['l', 'o', 'g']) {
                let ghost vs = value@;
                let parsed = match parse_json(value.as_str()) {
                    Some(j) => j,
                    None => JsonValue::Str(value),
                };
                assert(json_view(parsed) == env_value(vs));
                let ghost pv = json_view(parsed);
                let ghost kv = key@;
                let splat = chars_eq(&k, &['b', 'o', 'o', 'k']) || chars_eq(&k, &['b', 'u', 'i', 'l', 'd']);
                match parsed {
                    JsonValue::Object(entries) => {
                        if splat {
                            let ghost ents = json_entries(entries@);
                            proof {
                                assert(pv == JsonView::Object(ents));
                                assert(k@ == key@);
                                assert(vars_view(r0)[0].0 == name@);
                                assert(env_key(vars_view(r0)[0].0) == Some(kv));
                                assert(env_settings(vars_view(r0)) == entries_under(kv, ents) + env_settings(tail));
                            }
                            push_under(&mut out, &key, entries);
                            proof {
                                assert(settings_view(out@) + env_settings(tail) =~= settings_view(o0) + env_settings(vars_view(r0)));
                            }
                            continue;
                        }
                        out.push((key, JsonValue::Object(entries)));
                    },
                    other => {
                        out.push((key, other));
                    },
                }
                proof {
                    assert(settings_view(out@) =~= settings_view(o0).push((kv, pv)));
                }
            }
        }
    }
    proof {
        assert(settings_view(out@) + env_settings(vars_view(rest@)) =~= settings_view(out@));
    }
    out
}

/// Adds the entries of an object under a table, in order; see
/// [`entries_under`].
fn push_under(out: &mut Vec<(String, JsonValue)>, table: &String, entries: Vec<(String, JsonValue)>)
    ensures
        settings_view(final(out)@) == settings_view(old(out)@) + entries_under(table@, json_entries(entries@)),
{
    let ghost o0 = settings_view(out@);
    let ghost all = entries@;
    let mut rest = entries;
    let mut i: usize = 0;
    assert(all.len() == rest.len());
    proof {
        reveal_strlit(".");
        assert(all.take(0) =~= seq![]);
        assert(settings_view(out@) =~= o0 + entries_under(table@, json_entries(all.take(0))));
    }
    while rest.len() > 0
        invariant
            i + rest@.len() == all.len(),
            all.len() <= usize::MAX,
            rest@ == all.skip(i as int),
            settings_view(out@) == o0 + entries_under(table@, json_entries(all.take(i as int))),
            "."@ == seq!['.'],
        decreases rest@.len(),
    {
        let ghost k = i as int;
        let (name, value) = rest.remove(0);
        proof {
            assert((name, value) == all[k]);
            assert(rest@ =~= all.skip(k + 1));
            assert(all.take(k + 1).subrange(0, k) =~= all.take(k));
        }
        let full = table.clone().concat(".").concat(name.as_str());
        let ghost e = json_entries(all.take(k));
        let ghost prev = settings_view(out@);
        out.push((full, value));
        proof {
            assert(json_entries(all.take(k + 1)) == e.push((name@, json_view(value))));
            assert(entries_under(table@, e.push((name@, json_view(value)))) =~= entries_under(table@, e).push(
                (table@ + seq!['.'] + name@, json_view(value)),
            ));
            assert(settings_view(out@) =~= prev.push((full@, json_view(value))));
        }
        i = i + 1;
    }
    proof {
        assert(all.take(i as int) =~= all);
    }
}


/// The tables of a configuration that a dotted key can start with.
#[derive(Debug, Clone, Copy, PartialEq, Eq, Structural)]
pub enum ConfigSection {
    /// `book.`: the book's metadata.
    Book,
    /// `build.`: the build settings.
    Build,
    /// `rust.`: the Rust settings.
    Rust,
    /// `output.`: the tables of the renderers.
    Output,
    /// `preprocessor.`: the tables of the preprocessors.
    Preprocessor,
}

/// The table a dotted key starts with, and the rest of the key after the
/// table's name and its dot; `None` for a key that starts with none of them.
pub open spec fn section_of(index: Seq<char>) -> Option<(ConfigSection, Seq<char>)> {
    let book = seq!['b', 'o', 'o', 'k', '.'];
    let build = seq!['b', 'u', 'i', 'l', 'd', '.'];
    let rust = seq!['r', 'u', 's', 't', '.'];
    let output = seq!['o', 'u', 't', 'p', 'u', 't', '.'];
    let pre = seq!['p', 'r', 'e', 'p', 'r', 'o', 'c', 'e', 's', 's', 'o', 'r', '.'];
    if let Some(k) = strip_prefix(index, book) {
        Some((ConfigSection::Book, k))
    } else if let Some(k) = strip_prefix(index, build) {
        Some((ConfigSection::Build, k))
    } else if let Some(k) = strip_prefix(index, rust) {
        Some((ConfigSection::Rust, k))
    } else if let Some(k) = strip_prefix(index, output) {
        Some((ConfigSection::Output, k))
    } else if let Some(k) = strip_prefix(index, pre) {
        Some((ConfigSection::Preprocessor, k))
    } else {
        None
    }
}

/// Splits a dotted key into its table and the rest; see [`section_of`].
pub fn config_section(index: &str) -> (r: Option<(ConfigSection, String)>)
    ensures
        r matches Some((sec, k)) ==> section_of(index@) == Some((sec, k@)),
        r is None ==> section_of(index@) is None,
{
    let k = chars_of(index);
    let book: [char; 5] = ['b', 'o', 'o', 'k', '.'];
    let build: [char; 6] = ['b', 'u', 'i', 'l', 'd', '.'];
    let rust: [char; 5] = ['r', 'u', 's', 't', '.'];
    let output: [char; 7] = ['o', 'u', 't', 'p', 'u', 't', '.'];
    let pre: [char; 13] = ['p', 'r', 'e', 'p', 'r', 'o', 'c', 'e', 's', 's', 'o', 'r', '.'];
    assert(book@ == seq!['b', 'o', 'o', 'k', '.']);
    assert(build@ == seq!['b', 'u', 'i', 'l', 'd', '.']);
    assert(rust@ == seq!['r', 'u', 's', 't', '.']);
    assert(output@ == seq!['o', 'u', 't', 'p', 'u', 't', '.']);
    assert(pre@ == seq!['p', 'r', 'e', 'p', 'r', 'o', 'c', 'e', 's', 's', 'o', 'r', '.']);
    if let Some(rest) = strip_prefix_chars(&k, &book) {
        return Some((ConfigSection::Book, string_from_chars(&rest)));
    }
    if let Some(rest) = strip_prefix_chars(&k, &build) {
        return Some((ConfigSection::Build, string_from_chars(&rest)));
    }
    if let Some(rest) = strip_prefix_chars(&k, &rust) {
        return Some((ConfigSection::Rust, string_from_chars(&rest)));
    }
    if let Some(rest) = strip_prefix_chars(&k, &output) {
        return Some((ConfigSection::Output, string_from_chars(&rest)));
    }
    if let Some(rest) = strip_prefix_chars(&k, &pre) {
        return Some((ConfigSection::Preprocessor, string_from_chars(&rest)));
    }
    None
}

/// A configuration key that was refused.
#[derive(Debug, Clone, PartialEq)]
pub enum ConfigKeyError {
    /// Reading a key outside the `output` and `preprocessor` tables.
    NotReadable(String),
    /// Setting a key outside the tables of a configuration.
    InvalidKey(String),
}

/// The message of a refused key.
pub open spec fn config_key_message(e: ConfigKeyError) -> Seq<char> {
    match e {
        ConfigKeyError::NotReadable(name) => "unable to get `"@ + name@
            + "`, only `output` and `preprocessor` table entries are allowed"@,
        ConfigKeyError::InvalidKey(index) => "invalid key `"@ + index@ + "`"@,
    }
}

impl ConfigKeyError {
    /// The message that reports the refusal.
    pub fn message(&self) -> (r: String)
        ensures
            r@ == config_key_message(*self),
    {
        let (head, key, tail) = match self {
            ConfigKeyError::NotReadable(name) => (
                "unable to get `",
                name,
                "`, only `output` and `preprocessor` table entries are allowed",
            ),
            ConfigKeyError::InvalidKey(index) => ("invalid key `", index, "`"),
        };
        let mut out = chars_of(head);
        let k = chars_of(key.as_str());
        append_chars(&mut out, &k);
        let t = chars_of(tail);
        append_chars(&mut out, &t);
        string_from_chars(&out)
    }
}

/// The overall configuration of a book, as read from `book.toml`: the
/// book's metadata, the build settings, the Rust settings, and the tables
/// of the renderers and of the preprocessors, whose values other than
/// tables are of type `L`.
#[derive(Debug, PartialEq)]
pub struct Config<L> {
    /// Metadata about the book.
    pub book: BookConfig,
    /// Information about the build environment.
    pub build: BuildConfig,
    /// Information about Rust language support.
    pub rust: RustConfig,
    /// The tables of the renderers, by name.
    pub output: TomlValue<L>,
    /// The tables of the preprocessors, by name.
    pub preprocessor: TomlValue<L>,
}

impl<L> Default for Config<L> {
    fn default() -> (r: Config<L>)
        ensures
            r.book.title is None,
            r.book.authors@.len() == 0,
            r.book.src@ == seq!['s', 'r', 'c'],
            r.build.build_dir@ == seq!['b', 'o', 'o', 'k'],
            r.build.create_missing,
            r.build.use_default_preprocessors,
            r.rust.edition is None,
            r.output_view() == TomlView::<L>::Table(Map::empty()),
            r.preprocessor_view() == TomlView::<L>::Table(Map::empty()),
    {
        let r = Config {
            book: BookConfig::default(),
            build: BuildConfig::default(),
            rust: RustConfig::default(),
            output: TomlValue::Table(Vec::new()),
            preprocessor: TomlValue::Table(Vec::new()),
        };
        assert(r.output_view() == TomlView::<L>::Table(Map::empty()));
        r
    }
}

impl<L> Config<L> {
    /// The table of the renderers.
    pub open spec fn output_view(&self) -> TomlView<L> {
        toml_view(self.output)
    }

    /// The table of the preprocessors.
    pub open spec fn preprocessor_view(&self) -> TomlView<L> {
        toml_view(self.preprocessor)
    }

    /// The value under a dotted key such as `output.html.playground`; only
    /// the `output` and `preprocessor` tables can be read. `Ok(None)` where
    /// the key names no value.
    pub fn get(&self, name: &str) -> (r: Result<Option<&TomlValue<L>>, ConfigKeyError>)
        ensures
            match section_of(name@) {
                Some((ConfigSection::Output, key)) => r matches Ok(o)
                    && opt_ref_view(o) == view_read(self.output_view(), key),
                Some((ConfigSection::Preprocessor, key)) => r matches Ok(o)
                    && opt_ref_view(o) == view_read(self.preprocessor_view(), key),
                _ => r matches Err(ConfigKeyError::NotReadable(n)) && n@ == name@,
            },
    {
        match config_section(name) {
            Some((ConfigSection::Output, key)) => Ok(self.output.read(key.as_str())),
            Some((ConfigSection::Preprocessor, key)) => Ok(self.preprocessor.read(key.as_str())),
            _ => Err(ConfigKeyError::NotReadable(string_from_chars(&chars_of(name)))),
        }
    }

    /// Sets a dotted key, clobbering what stands in the way. A key of the
    /// `output` or `preprocessor` table is set here and `Ok(None)` comes back.
    /// A key of the `book`, `build` or `rust` table leaves the configuration
    /// as it is and comes back as `Ok(Some((table, rest of the key)))`: those
    /// tables are typed, and the caller sets the key in their TOML form. Any
    /// other key is refused and changes nothing.
    pub fn set(&mut self, index: &str, value: TomlValue<L>) -> (r: Result<
        Option<(ConfigSection, String)>,
        ConfigKeyError,
    >)
        ensures
            match section_of(index@) {
                Some((ConfigSection::Output, key)) => {
                    &&& r matches Ok(None)
                    &&& final(self).output_view() == view_insert(old(self).output_view(), key, toml_view(value))
                    &&& final(self).preprocessor_view() == old(self).preprocessor_view()
                    &&& final(self).book == old(self).book
                    &&& final(self).build == old(self).build
                    &&& final(self).rust == old(self).rust
                },
                Some((ConfigSection::Preprocessor, key)) => {
                    &&& r matches Ok(None)
                    &&& final(self).preprocessor_view() == view_insert(old(self).preprocessor_view(), key, toml_view(value))
                    &&& final(self).output_view() == old(self).output_view()
                    &&& final(self).book == old(self).book
                    &&& final(self).build == old(self).build
                    &&& final(self).rust == old(self).rust
                },
                Some((sec, key)) => {
                    &&& r matches Ok(Some((s, k))) && s == sec && k@ == key
                    &&& *final(self) == *old(self)
                },
                None => {
                    &&& r matches Err(ConfigKeyError::InvalidKey(i)) && i@ == index@
                    &&& *final(self) == *old(self)
                },
            },
    {
        match config_section(index) {
            Some((ConfigSection::Output, key)) => {
                self.output.insert(key.as_str(), value);
                Ok(None)
            },
            Some((ConfigSection::Preprocessor, key)) => {
                self.preprocessor.insert(key.as_str(), value);
                Ok(None)
            },
            Some((sec, key)) => Ok(Some((sec, key))),
            None => Err(ConfigKeyError::InvalidKey(string_from_chars(&chars_of(index)))),
        }
    }
}

/// Getting a key of the `output` or `preprocessor` table just after setting
/// it gives the value that was set.
pub proof fn law_get_after_set<L>(c: Config<L>, index: Seq<char>, x: TomlView<L>)
    ensures
        section_of(index) matches Some((ConfigSection::Output, key))
            ==> view_read(view_insert(c.output_view(), key, x), key) == Some(x),
        section_of(index) matches Some((ConfigSection::Preprocessor, key))
            ==> view_read(view_insert(c.preprocessor_view(), key, x), key) == Some(x),
{
    if let Some((_, key)) = section_of(index) {
        law_read_after_insert(c.output_view(), key, x);
        law_read_after_insert(c.preprocessor_view(), key, x);
    }
}


/// The language codes written right to left, as the configuration's
/// documentation lists them.
pub open spec fn right_to_left_codes() -> Set<Seq<char>> {
    set![
        seq!['a', 'r'],
        seq!['a', 'r', 'a'],
        seq!['a', 'r', 'c'],
        seq!['a', 'e'],
        seq!['a', 'v', 'e'],
        seq!['e', 'g', 'y'],
        seq!['h', 'e'],
        seq!['h', 'e', 'b'],
        seq!['n', 'q', 'o'],
        seq!['p', 'a', 'l'],
        seq!['p', 'h', 'n'],
        seq!['s', 'a', 'm'],
        seq!['s', 'y', 'c'],
        seq!['s', 'y', 'r'],
        seq!['f', 'a'],
        seq!['p', 'e', 'r'],
        seq!['f', 'a', 's'],
        seq!['k', 'u'],
        seq!['k', 'u', 'r'],
        seq!['u', 'r'],
        seq!['u', 'r', 'd'],
        seq!['p', 'u', 's'],
        seq!['p', 's'],
        seq!['y', 'i'],
        seq!['y', 'i', 'd'],
    ]
}

/// A language code gives right to left exactly when it is one of the
/// listed right-to-left codes, and left to right otherwise; a book with a
/// language and no text direction set takes the direction of its language.
pub proof fn law_direction_follows_language(c: Seq<char>, cfg: BookConfig)
    ensures
        direction_of(c) == (if right_to_left_codes().contains(c) {
            TextDirection::RightToLeft
        } else {
            TextDirection::LeftToRight
        }),
        cfg.text_direction is None && cfg.language is Some ==> realized_direction(cfg) == (if right_to_left_codes().contains(
            cfg.language->0@,
        ) {
            TextDirection::RightToLeft
        } else {
            TextDirection::LeftToRight
        }),
{
    assert(right_to_left_codes().contains(c) <==> is_rtl_code(c));
    if cfg.language is Some {
        let l = cfg.language->0@;
        assert(right_to_left_codes().contains(l) <==> is_rtl_code(l));
    }
}

} // verus!
