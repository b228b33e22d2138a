//! Static files of the HTML output and their fingerprinted names.
//!
//! Every static file may be renamed to carry the first four bytes of the
//! SHA-256 digest of its contents (`book.js` becomes `book-e3b0c442.js`);
//! the old and new names are recorded so that references can be rewritten.

use vstd::prelude::*;
use crate::static_urls::{
    is_absolute_css_url, is_css_url_absolute, make_url_relative, normalize_url_path,
    normalized_url, parent_dir, relative_url, url_parent_dir,
};
use crate::config::HtmlConfig;
use crate::paths::{file_name, join, join_path, path_file_name};
use crate::theme::{BundledAssets, Theme};
use crate::text::{
    append_chars, chars_eq, chars_of, find_char_from, first_index_of, lemma_first_index_of,
    slice_chars, string_from_chars,
};

verus! {

/// The SHA-256 digest of `data`.
pub uninterp spec fn sha256_digest(data: Seq<u8>) -> Seq<u8>;

/// Computes the SHA-256 digest of `data` with the `sha2` crate. The result
/// is named `sha256_digest` of the input; it is 32 bytes long.
#[verifier::external_body]
fn sha256(data: &[u8]) -> (r: Vec<u8>)
    ensures
        r@ == sha256_digest(data@),
        r@.len() == 32,
{
    <sha2::Sha256 as sha2::Digest>::digest(data).to_vec()
}

/// The lowercase hexadecimal digit for a value below 16.
pub open spec fn hex_digit(d: u8) -> char {
    if d < 10 {
        (48 + d) as char
    } else {
        (87 + d) as char
    }
}

/// Lowercase hexadecimal text of the bytes, two digits per byte, as
/// `hex::encode` writes it.
pub open spec fn hex_text(b: Seq<u8>) -> Seq<char>
    decreases b.len(),
{
    if b.len() == 0 {
        seq![]
    } else {
        hex_text(b.drop_last()) + seq![hex_digit(b.last() / 16), hex_digit(b.last() % 16)]
    }
}

fn hex_char(d: u8) -> (c: char)
    requires
        d < 16,
    ensures
        c == hex_digit(d),
{
    if d < 10 {
        (48u8 + d) as char
    } else {
        (87u8 + d) as char
    }
}

/// Encodes the first `n` bytes of `b` as lowercase hexadecimal.
pub fn hex_prefix(b: &[u8], n: usize) -> (r: Vec<char>)
    requires
        n <= b@.len(),
    ensures
        r@ == hex_text(b@.take(n as int)),
{
    let mut out: Vec<char> = Vec::new();
    let mut i: usize = 0;
    while i < n
        invariant
            i <= n <= b@.len(),
            out@ == hex_text(b@.take(i as int)),
        decreases n - i,
    {
        let x = b[i];
        out.push(hex_char(x / 16));
        out.push(hex_char(x % 16));
        proof {
            let t = b@.take(i + 1);
            assert(t.drop_last() == b@.take(i as int));
            assert(t.last() == x);
        }
        i = i + 1;
    }
    out
}

/// A static file: built-in contents, or a file of the book to be copied.
pub enum StaticFile {
    /// A file whose contents the renderer holds.
    Builtin {
        /// The contents.
        data: Vec<u8>,
        /// The name under which it is written.
        filename: String,
    },
    /// A file of the book.
    Additional {
        /// Where the file is read from.
        input_location: String,
        /// The name under which it is written.
        filename: String,
    },
}

/// A static file as a mathematical value.
pub enum StaticFileView {
    /// Built-in contents written under a name.
    Builtin { data: Seq<u8>, filename: Seq<char> },
    /// A file of the book read from a place and written under a name.
    Additional { input_location: Seq<char>, filename: Seq<char> },
}

/// The view of a static file.
pub open spec fn file_view(f: StaticFile) -> StaticFileView {
    match f {
        StaticFile::Builtin { data, filename } => StaticFileView::Builtin {
            data: data@,
            filename: filename@,
        },
        StaticFile::Additional { input_location, filename } => StaticFileView::Additional {
            input_location: input_location@,
            filename: filename@,
        },
    }
}

/// The views of a list of static files.
pub open spec fn files_view(fs: Seq<StaticFile>) -> Seq<StaticFileView> {
    fs.map_values(|f: StaticFile| file_view(f))
}

/// The static files of the output and the names they were renamed from.
pub struct StaticFiles {
    /// The files, in the order they were added.
    pub static_files: Vec<StaticFile>,
    /// Pairs of original and fingerprinted names, in the order of renaming;
    /// the last pair for a name is the one that counts.
    pub hash_map: Vec<(String, String)>,
}

/// The name a static file is written under.
pub open spec fn name_of(f: StaticFileView) -> Seq<char> {
    match f {
        StaticFileView::Builtin { filename, .. } => filename,
        StaticFileView::Additional { filename, .. } => filename,
    }
}

/// A file name split at its first dot: the part before and the part after.
pub open spec fn split_first_dot(name: Seq<char>) -> Option<(Seq<char>, Seq<char>)> {
    let i = first_index_of(name, '.');
    if i < name.len() {
        Some((name.take(i), name.skip(i + 1)))
    } else {
        None
    }
}

/// The fingerprinted name for a file with the given contents, if it is
/// renamed: a name with a dot, a non-empty part before the first dot and a
/// non-empty suffix after it (other than `txt` for built-in files) gets the
/// first four digest bytes in hex between its stem and suffix.
pub open spec fn fingerprinted(name: Seq<char>, data: Seq<u8>, builtin: bool) -> Option<Seq<char>> {
    match split_first_dot(name) {
        Some((stem, suffix)) => if stem.len() > 0 && suffix.len() > 0 && !(builtin && suffix
            == seq!['t', 'x', 't']) {
            Some(stem + seq!['-'] + hex_text(sha256_digest(data).take(4)) + seq!['.'] + suffix)
        } else {
            None
        },
        None => None,
    }
}

/// The number of files of the book among `fs`.
pub open spec fn additional_count(fs: Seq<StaticFileView>) -> nat
    decreases fs.len(),
{
    if fs.len() == 0 {
        0
    } else {
        additional_count(fs.drop_last()) + if fs.last() is Additional {
            1nat
        } else {
            0nat
        }
    }
}

/// The contents of the `i`-th file: its own for a built-in file, the
/// matching entry of `extra` (the contents of the files of the book, in
/// order) for a file of the book.
pub open spec fn file_contents(fs: Seq<StaticFileView>, extra: Seq<Seq<u8>>, i: int) -> Seq<u8> {
    match fs[i] {
        StaticFileView::Builtin { data, .. } => data,
        StaticFileView::Additional { .. } => extra[additional_count(fs.take(i)) as int],
    }
}

/// The fingerprinted name of the `i`-th file, if it is renamed.
pub open spec fn renaming_of(fs: Seq<StaticFileView>, extra: Seq<Seq<u8>>, i: int) -> Option<
    Seq<char>,
> {
    fingerprinted(name_of(fs[i]), file_contents(fs, extra, i), fs[i] is Builtin)
}

/// The `i`-th file once fingerprinted.
pub open spec fn hashed_file(fs: Seq<StaticFileView>, extra: Seq<Seq<u8>>, i: int) -> StaticFileView {
    let name = match renaming_of(fs, extra, i) {
        Some(n) => n,
        None => name_of(fs[i]),
    };
    match fs[i] {
        StaticFileView::Builtin { data, .. } => StaticFileView::Builtin { data, filename: name },
        StaticFileView::Additional { input_location, .. } => StaticFileView::Additional {
            input_location,
            filename: name,
        },
    }
}

/// The renamings that fingerprinting records, in file order.
pub open spec fn renamings(fs: Seq<StaticFileView>, extra: Seq<Seq<u8>>) -> Seq<
    (Seq<char>, Seq<char>),
>
    decreases fs.len(),
{
    if fs.len() == 0 {
        seq![]
    } else {
        let i = fs.len() - 1;
        renamings(fs.drop_last(), extra) + match renaming_of(fs, extra, i) {
            Some(n) => seq![(name_of(fs[i]), n)],
            None => seq![],
        }
    }
}

/// Computes the fingerprinted name of a file, if it is renamed.
pub fn fingerprinted_name(filename: &str, data: &[u8], builtin: bool) -> (r: Option<String>)
    ensures
        r matches Some(x) ==> fingerprinted(filename@, data@, builtin) == Some(x@),
        r is None ==> fingerprinted(filename@, data@, builtin) is None,
{
    let v = chars_of(filename);
    let i = find_char_from(&v, '.', 0);
    assert(v@.skip(0) == v@);
    proof {
        lemma_first_index_of(v@, '.');
    }
    if i == v.len() {
        return None;
    }
    let stem = slice_chars(&v, 0, i);
    let suffix = slice_chars(&v, i + 1, v.len());
    let txt: [char; 3] = ['t', 'x', 't'];
    assert(txt@ == seq!['t', 'x', 't']);
    assert(stem@ == v@.take(i as int) && suffix@ == v@.skip(i + 1));
    if stem.len() > 0 && suffix.len() > 0 && !(builtin && chars_eq(&suffix, &txt)) {
        let digest = sha256(data);
        let hex = hex_prefix(&digest, 4);
        let mut out: Vec<char> = Vec::new();
        append_chars(&mut out, &stem);
        out.push('-');
        append_chars(&mut out, &hex);
        out.push('.');
        append_chars(&mut out, &suffix);
        assert(out@ =~= stem@ + seq!['-'] + hex@ + seq!['.'] + suffix@);
        Some(string_from_chars(&out))
    } else {
        None
    }
}

/// The value last recorded for `key` among the pairs, if any.
pub open spec fn lookup(pairs: Seq<(Seq<char>, Seq<char>)>, key: Seq<char>) -> Option<Seq<char>>
    decreases pairs.len(),
{
    if pairs.len() == 0 {
        None
    } else if pairs.last().0 == key {
        Some(pairs.last().1)
    } else {
        lookup(pairs.drop_last(), key)
    }
}

/// The views of name pairs.
pub open spec fn pair_views(v: Seq<(String, String)>) -> Seq<(Seq<char>, Seq<char>)> {
    v.map_values(|p: (String, String)| (p.0@, p.1@))
}

/// Looks up the name recorded for `key`.
pub fn lookup_name(pairs: &Vec<(String, String)>, key: &[char]) -> (r: Option<String>)
    ensures
        r matches Some(x) ==> lookup(pair_views(pairs@), key@) == Some(x@),
        r is None ==> lookup(pair_views(pairs@), key@) is None,
{
    let mut i = pairs.len();
    assert(pair_views(pairs@).take(pairs@.len() as int) =~= pair_views(pairs@));
    while i > 0
        invariant
            i <= pairs@.len(),
            lookup(pair_views(pairs@), key@) == lookup(pair_views(pairs@).take(i as int), key@),
        decreases i,
    {
        let k = chars_of(pairs[i - 1].0.as_str());
        proof {
            let t = pair_views(pairs@).take(i as int);
            assert(t.drop_last() =~= pair_views(pairs@).take(i - 1));
            assert(t.last() == (pairs@[i - 1].0@, pairs@[i - 1].1@));
        }
        if chars_eq(&k, key) {
            return Some(pairs[i - 1].1.clone());
        }
        i = i - 1;
    }
    None
}

impl StaticFiles {
    /// The files as mathematical values.
    pub open spec fn files(&self) -> Seq<StaticFileView> {
        files_view(self.static_files@)
    }

    /// The recorded renamings as mathematical values.
    pub open spec fn renamed(&self) -> Seq<(Seq<char>, Seq<char>)> {
        pair_views(self.hash_map@)
    }

    /// An empty set of static files.
    pub fn new_empty() -> (r: StaticFiles)
        ensures
            r.files() == Seq::<StaticFileView>::empty(),
            r.renamed() == Seq::<(Seq<char>, Seq<char>)>::empty(),
    {
        let r = StaticFiles { static_files: Vec::new(), hash_map: Vec::new() };
        assert(r.files() =~= Seq::<StaticFileView>::empty());
        assert(r.renamed() =~= Seq::<(Seq<char>, Seq<char>)>::empty());
        r
    }

    /// Adds a file with built-in contents.
    pub fn add_builtin(&mut self, filename: &str, data: &[u8])
        ensures
            final(self).renamed() == old(self).renamed(),
            final(self).files() == old(self).files().push(
                StaticFileView::Builtin { data: data@, filename: filename@ },
            ),
    {
        let mut d: Vec<u8> = Vec::new();
        let mut k: usize = 0;
        while k < data.len()
            invariant
                k <= data@.len(),
                d@ == data@.take(k as int),
            decreases data@.len() - k,
        {
            d.push(data[k]);
            k = k + 1;
            assert(data@.take(k as int) == data@.take(k - 1).push(data@[k - 1]));
        }
        assert(data@.take(data@.len() as int) == data@);
        self.static_files.push(StaticFile::Builtin { data: d, filename: filename.to_owned() });
        assert(self.files() =~= old(self).files().push(
            StaticFileView::Builtin { data: data@, filename: filename@ },
        ));
    }

    /// Adds a file of the book, read from `input_location`.
    pub fn add_additional(&mut self, input_location: &str, filename: &str)
        ensures
            final(self).renamed() == old(self).renamed(),
            final(self).files() == old(self).files().push(
                StaticFileView::Additional {
                    input_location: input_location@,
                    filename: filename@,
                },
            ),
    {
        self.static_files.push(
            StaticFile::Additional {
                input_location: input_location.to_owned(),
                filename: filename.to_owned(),
            },
        );
        assert(self.files() =~= old(self).files().push(
            StaticFileView::Additional { input_location: input_location@, filename: filename@ },
        ));
    }

    /// Renames every file to its fingerprinted name and records each
    /// renaming. `additional` holds the contents of the files of the book,
    /// one entry for each, in order.
    pub fn hash_files(&mut self, additional: &Vec<Vec<u8>>)
        requires
            additional@.len() == additional_count(old(self).files()),
        ensures
            final(self).files().len() == old(self).files().len(),
            forall|i: int|
                0 <= i < old(self).files().len() ==> #[trigger] final(self).files()[i]
                    == hashed_file(old(self).files(), additional.deep_view(), i),
            final(self).renamed() == old(self).renamed() + renamings(
                old(self).files(),
                additional.deep_view(),
            ),
    {
        let n = self.static_files.len();
        let ghost fs = self.files();
        let ghost extra = additional.deep_view();
        let ghost old_map = self.renamed();
        let mut i: usize = 0;
        let mut k: usize = 0;
        let total = additional.len();
        assert(fs.take(0) =~= Seq::<StaticFileView>::empty());
        while i < n
            invariant
                i <= n,
                n == fs.len(),
                self.static_files@.len() == n,
                extra == additional.deep_view(),
                extra.len() == additional_count(fs),
                total == additional@.len(),
                total == extra.len(),
                k == additional_count(fs.take(i as int)),
                self.renamed() == old_map + renamings(fs.take(i as int), extra),
                forall|j: int| i <= j < n ==> #[trigger] self.files()[j] == fs[j],
                forall|j: int| 0 <= j < i ==> #[trigger] self.files()[j] == hashed_file(fs, extra, j),
            decreases n - i,
        {
            proof {
                lemma_additional_count_prefix(fs, i as int);
                let t = fs.take(i + 1);
                assert(t.drop_last() =~= fs.take(i as int));
                assert(t.take(i as int) =~= fs.take(i as int));
                assert(t[i as int] == fs[i as int]);
            }
            let ghost map_before = self.renamed();
            let ghost files_before = self.files();
            assert(files_before[i as int] == fs[i as int]);
            let ghost step: Seq<(Seq<char>, Seq<char>)> = match renaming_of(fs, extra, i as int) {
                Some(nm) => seq![(name_of(fs[i as int]), nm)],
                None => seq![],
            };
            let entry = &mut self.static_files[i];
            match entry {
                StaticFile::Builtin { filename, data } => {
                    assert(file_contents(fs, extra, i as int) == data@);
                    if let Some(new_name) = fingerprinted_name(filename.as_str(), data.as_slice(), true) {
                        self.hash_map.push((filename.clone(), new_name.clone()));
                        *filename = new_name;
                    }
                },
                StaticFile::Additional { filename, input_location } => {
                    assert(fs[i as int] is Additional);
                    assert(k < total);
                    assert(additional[k as int].deep_view() =~= additional@[k as int]@);
                    assert(file_contents(fs, extra, i as int) == additional@[k as int]@);
                    if let Some(new_name) = fingerprinted_name(
                        filename.as_str(),
                        additional[k].as_slice(),
                        false,
                    ) {
                        self.hash_map.push((filename.clone(), new_name.clone()));
                        *filename = new_name;
                    }
                    k = k + 1;
                },
            }
            proof {
                assert(self.renamed() =~= map_before + step);
                let t = fs.take(i + 1);
                assert(renaming_of(t, extra, i as int) == renaming_of(fs, extra, i as int));
                assert(renamings(t, extra) == renamings(fs.take(i as int), extra) + step);
                assert(self.renamed() =~= old_map + renamings(fs.take(i + 1), extra));
                assert forall|j: int| 0 <= j < n && j != i implies #[trigger] self.files()[j] == files_before[j] by {}
            }
            i = i + 1;
        }
        proof {
            assert(fs.take(n as int) =~= fs);
        }
    }
}

/// A file with built-in contents.
pub open spec fn builtin_view(filename: Seq<char>, data: Seq<u8>) -> StaticFileView {
    StaticFileView::Builtin { data, filename }
}

/// Built-in files for named contents, in order.
pub open spec fn builtins_of(v: Seq<(String, Vec<u8>)>) -> Seq<StaticFileView> {
    v.map_values(|p: (String, Vec<u8>)| builtin_view(p.0@, p.1@))
}

/// The files of the book named in the configuration, read from below
/// `root`.
pub open spec fn additionals_of(root: Seq<char>, names: Seq<String>) -> Seq<StaticFileView> {
    names.map_values(
        |f: String| StaticFileView::Additional { input_location: join_path(root, f@), filename: f@ },
    )
}

/// The font files of a theme, written into `fonts` under their file names.
pub open spec fn theme_fonts_of(paths: Seq<String>) -> Seq<StaticFileView> {
    paths.map_values(
        |p: String| StaticFileView::Additional {
            input_location: p@,
            filename: join_path("fonts"@, file_name(p@)->0),
        },
    )
}

/// A built-in file when its contents are there.
pub open spec fn optional_builtin(filename: Seq<char>, data: Option<Vec<u8>>) -> Seq<StaticFileView> {
    match data {
        Some(d) => seq![builtin_view(filename, d@)],
        None => seq![],
    }
}

/// The font files written: the bundled fonts when the theme has no
/// `fonts.css`, the theme's `fonts.css` when it is not empty, nothing
/// otherwise.
pub open spec fn font_builtins(theme: &Theme, bundled: &BundledAssets) -> Seq<StaticFileView> {
    match theme.fonts_css {
        None => seq![builtin_view("fonts/fonts.css"@, bundled.fonts_css@)] + builtins_of(
            bundled.font_files@,
        ),
        Some(c) => if c@.len() > 0 {
            seq![builtin_view("fonts/fonts.css"@, c@)]
        } else {
            seq![]
        },
    }
}

/// The theme's own scripts, stylesheets and images, in the order they are
/// written; the print stylesheet only when printing is enabled.
pub open spec fn theme_builtins(theme: &Theme, print: bool) -> Seq<StaticFileView> {
    seq![
        builtin_view("book.js"@, theme.js@),
        builtin_view("css/general.css"@, theme.general_css@),
        builtin_view("css/chrome.css"@, theme.chrome_css@),
    ] + (if print {
        seq![builtin_view("css/print.css"@, theme.print_css@)]
    } else {
        seq![]
    }) + seq![builtin_view("css/variables.css"@, theme.variables_css@)] + optional_builtin(
        "favicon.png"@,
        theme.favicon_png,
    ) + optional_builtin("favicon.svg"@, theme.favicon_svg) + seq![
        builtin_view("highlight.css"@, theme.highlight_css@),
        builtin_view("tomorrow-night.css"@, theme.tomorrow_night_css@),
        builtin_view("ayu-highlight.css"@, theme.ayu_highlight_css@),
        builtin_view("highlight.js"@, theme.highlight_js@),
        builtin_view("clipboard.min.js"@, theme.clipboard_js@),
    ]
}

/// The editor files, when the playground is editable and its scripts are
/// copied.
pub open spec fn editor_builtins(html: &HtmlConfig, bundled: &BundledAssets) -> Seq<StaticFileView> {
    if html.playground.editable && html.playground.copy_js {
        builtins_of(bundled.editor_files@)
    } else {
        seq![]
    }
}

/// The static files of the HTML output, in the order they are written:
/// the theme's own files, the fonts, the editor, the additional CSS and
/// JavaScript files of the book, and the theme's font files.
pub open spec fn initial_static_files(
    theme: &Theme,
    html: &HtmlConfig,
    root: Seq<char>,
    bundled: &BundledAssets,
) -> Seq<StaticFileView> {
    theme_builtins(theme, html.print.enable) + font_builtins(theme, bundled) + editor_builtins(
        html,
        bundled,
    ) + additionals_of(root, html.additional_css@) + additionals_of(root, html.additional_js@)
        + theme_fonts_of(theme.font_files@)
}

impl StaticFiles {
    /// Adds built-in files for named contents, in order.
    fn add_builtins(&mut self, v: &Vec<(String, Vec<u8>)>)
        ensures
            final(self).renamed() == old(self).renamed(),
            final(self).files() == old(self).files() + builtins_of(v@),
    {
        let ghost start = self.files();
        let mut i: usize = 0;
        while i < v.len()
            invariant
                i <= v@.len(),
                self.renamed() == old(self).renamed(),
                self.files() == start + builtins_of(v@.take(i as int)),
            decreases v@.len() - i,
        {
            self.add_builtin(v[i].0.as_str(), v[i].1.as_slice());
            proof {
                assert(v@.take(i + 1).drop_last() =~= v@.take(i as int));
                assert(builtins_of(v@.take(i + 1)) =~= builtins_of(v@.take(i as int)).push(
                    builtin_view(v@[i as int].0@, v@[i as int].1@),
                ));
            }
            i = i + 1;
        }
        assert(v@.take(v@.len() as int) =~= v@);
    }

    /// Adds the files of the book named in the configuration.
    fn add_additionals(&mut self, root: &str, names: &Vec<String>)
        ensures
            final(self).renamed() == old(self).renamed(),
            final(self).files() == old(self).files() + additionals_of(root@, names@),
    {
        let ghost start = self.files();
        let mut i: usize = 0;
        while i < names.len()
            invariant
                i <= names@.len(),
                self.renamed() == old(self).renamed(),
                self.files() == start + additionals_of(root@, names@.take(i as int)),
            decreases names@.len() - i,
        {
            let input_location = join(root, names[i].as_str());
            self.add_additional(input_location.as_str(), names[i].as_str());
            proof {
                assert(additionals_of(root@, names@.take(i + 1)) =~= additionals_of(
                    root@,
                    names@.take(i as int),
                ).push(
                    StaticFileView::Additional {
                        input_location: join_path(root@, names@[i as int]@),
                        filename: names@[i as int]@,
                    },
                ));
            }
            i = i + 1;
        }
        assert(names@.take(names@.len() as int) =~= names@);
    }

    /// Adds the font files of a theme.
    fn add_theme_fonts(&mut self, paths: &Vec<String>)
        requires
            forall|i: int| 0 <= i < paths@.len() ==> #[trigger] file_name(paths@[i]@) is Some,
        ensures
            final(self).renamed() == old(self).renamed(),
            final(self).files() == old(self).files() + theme_fonts_of(paths@),
    {
        let ghost start = self.files();
        let mut i: usize = 0;
        while i < paths.len()
            invariant
                i <= paths@.len(),
                forall|j: int| 0 <= j < paths@.len() ==> #[trigger] file_name(paths@[j]@) is Some,
                self.renamed() == old(self).renamed(),
                self.files() == start + theme_fonts_of(paths@.take(i as int)),
            decreases paths@.len() - i,
        {
            let ghost p = paths@[i as int];
            assert(file_name(p@) is Some);
            match path_file_name(paths[i].as_str()) {
                Some(name) => {
                    let filename = join("fonts", name.as_str());
                    self.add_additional(paths[i].as_str(), filename.as_str());
                },
                None => {},
            }
            proof {
                assert(theme_fonts_of(paths@.take(i + 1)) =~= theme_fonts_of(paths@.take(i as int)).push(
                    StaticFileView::Additional {
                        input_location: p@,
                        filename: join_path("fonts"@, file_name(p@)->0),
                    },
                ));
            }
            i = i + 1;
        }
        assert(paths@.take(paths@.len() as int) =~= paths@);
    }

    /// Adds the theme's own files.
    fn add_theme_builtins(&mut self, theme: &Theme, print: bool)
        ensures
            final(self).renamed() == old(self).renamed(),
            final(self).files() == old(self).files() + theme_builtins(theme, print),
    {
        let ghost s0 = self.files();
        self.add_builtin("book.js", theme.js.as_slice());
        self.add_builtin("css/general.css", theme.general_css.as_slice());
        self.add_builtin("css/chrome.css", theme.chrome_css.as_slice());
        let ghost s1 = self.files();
        if print {
            self.add_builtin("css/print.css", theme.print_css.as_slice());
        }
        self.add_builtin("css/variables.css", theme.variables_css.as_slice());
        let ghost s2 = self.files();
        if let Some(contents) = &theme.favicon_png {
            self.add_builtin("favicon.png", contents.as_slice());
        }
        assert(self.files() =~= s2 + optional_builtin("favicon.png"@, theme.favicon_png));
        let ghost s3 = self.files();
        if let Some(contents) = &theme.favicon_svg {
            self.add_builtin("favicon.svg", contents.as_slice());
        }
        assert(self.files() =~= s3 + optional_builtin("favicon.svg"@, theme.favicon_svg));
        let ghost s4 = self.files();
        self.add_builtin("highlight.css", theme.highlight_css.as_slice());
        self.add_builtin("tomorrow-night.css", theme.tomorrow_night_css.as_slice());
        self.add_builtin("ayu-highlight.css", theme.ayu_highlight_css.as_slice());
        self.add_builtin("highlight.js", theme.highlight_js.as_slice());
        self.add_builtin("clipboard.min.js", theme.clipboard_js.as_slice());
        assert(s2 =~= s1 + (if print {
            seq![builtin_view("css/print.css"@, theme.print_css@)]
        } else {
            seq![]
        }) + seq![builtin_view("css/variables.css"@, theme.variables_css@)]);
        assert(self.files() =~= old(self).files() + theme_builtins(theme, print));
    }

    /// Adds the font files that are written as built-in files.
    fn add_font_builtins(&mut self, theme: &Theme, bundled: &BundledAssets)
        ensures
            final(self).renamed() == old(self).renamed(),
            final(self).files() == old(self).files() + font_builtins(theme, bundled),
    {
        match &theme.fonts_css {
            None => {
                self.add_builtin("fonts/fonts.css", bundled.fonts_css.as_slice());
                self.add_builtins(&bundled.font_files);
            },
            Some(fonts_css) => {
                if fonts_css.len() > 0 {
                    self.add_builtin("fonts/fonts.css", fonts_css.as_slice());
                }
            },
        }
        assert(self.files() =~= old(self).files() + font_builtins(theme, bundled));
    }

    /// Lists the static files of the HTML output for a theme and a
    /// configuration; see [`initial_static_files`]. The files of the book are
    /// read from below `root`; `bundled` holds the fonts and editor that
    /// ship with the renderer.
    pub fn new(theme: &Theme, html_config: &HtmlConfig, root: &str, bundled: &BundledAssets) -> (r:
        StaticFiles)
        requires
            forall|i: int|
                0 <= i < theme.font_files@.len() ==> #[trigger] file_name(theme.font_files@[i]@) is Some,
        ensures
            r.files() == initial_static_files(theme, html_config, root@, bundled),
            r.renamed() == Seq::<(Seq<char>, Seq<char>)>::empty(),
    {
        let mut this = StaticFiles::new_empty();
        this.add_theme_builtins(theme, html_config.print.enable);
        this.add_font_builtins(theme, bundled);
        let ghost before_editor = this.files();
        if html_config.playground.editable && html_config.playground.copy_js {
            this.add_builtins(&bundled.editor_files);
        }
        assert(this.files() =~= before_editor + editor_builtins(html_config, bundled));
        this.add_additionals(root, &html_config.additional_css);
        this.add_additionals(root, &html_config.additional_js);
        this.add_theme_fonts(&theme.font_files);
        assert(this.files() =~= initial_static_files(theme, html_config, root@, bundled));
        this
    }
}

proof fn lemma_additional_count_prefix(fs: Seq<StaticFileView>, i: int)
    requires
        0 <= i < fs.len(),
    ensures
        additional_count(fs.take(i + 1)) == additional_count(fs.take(i)) + if fs[i] is Additional {
            1nat
        } else {
            0nat
        },
        additional_count(fs.take(i)) <= additional_count(fs),
        additional_count(fs.take(i + 1)) <= additional_count(fs),
    decreases fs.len(),
{
    let t = fs.take(i + 1);
    assert(t.drop_last() =~= fs.take(i));
    if i + 1 < fs.len() {
        lemma_additional_count_prefix(fs.drop_last(), i);
        assert(fs.drop_last().take(i + 1) =~= fs.take(i + 1));
        assert(fs.drop_last().take(i) =~= fs.take(i));
    } else {
        assert(t =~= fs);
    }
}

} // verus!
