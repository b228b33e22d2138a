//! Rewriting of the references that static files make to one another.
//!
//! When static files are renamed to fingerprinted names, the CSS and
//! JavaScript files that name them are rewritten in two passes:
//! `{{ resource "name" }}` directives become the path to the root of the
//! book followed by the file's final name, and then each CSS `url(...)` that
//! resolves to a renamed file is pointed at its new name.

use vstd::prelude::*;
use vstd::utf8::{decode_utf8, encode_utf8, valid_utf8};
use crate::paths::{path_to_root, path_to_root_text};
use crate::regex_ext::{matches_in_order, regex_bytes_captures, regex_bytes_matches, ByteMatch};
use crate::static_files::{lookup, lookup_name, pair_views, StaticFile, StaticFileView, StaticFiles};
use crate::static_urls::{
    is_absolute_css_url, is_css_url_absolute, make_url_relative, normalize_url_path,
    normalized_url, parent_dir, relative_url, url_parent_dir,
};
use crate::text::{
    append_chars, chars_of, ends_with, ends_with_exec, replace_all, replace_chars, str_from_utf8,
    string_from_chars,
};

verus! {

/// The `{{ resource "name" }}` directive of static files; group 1 is the
/// name.
pub const RESOURCE_PATTERN: &'static str = r#"\{\{ resource "([^"]+)" \}\}"#;

/// A CSS `url(...)` with a double-quoted (group 1), single-quoted (group 2)
/// or unquoted (group 3) path.
pub const CSS_URL_PATTERN: &'static str =
    r#"url\(\s*(?:"([^"]*?)"|'([^']*?)'|([^'"\s()]+))\s*\)"#;

/// `data` with every match replaced by what `rep` gives for it; the bytes
/// between matches are kept.
pub open spec fn splice(data: Seq<u8>, ms: Seq<ByteMatch>, rep: spec_fn(ByteMatch) -> Seq<u8>) -> Seq<
    u8,
>
    decreases ms.len(),
{
    if ms.len() == 0 {
        data
    } else {
        let m = ms.last();
        splice(data.take(m.0 as int), ms.drop_last(), rep) + rep(m) + data.skip(m.1 as int)
    }
}

proof fn lemma_splice_extend(
    data: Seq<u8>,
    ms: Seq<ByteMatch>,
    rep: spec_fn(ByteMatch) -> Seq<u8>,
    a: int,
    b: int,
)
    requires
        0 <= a <= b <= data.len(),
        ms.len() > 0 ==> ms.last().0 <= ms.last().1 <= a,
    ensures
        splice(data.take(b), ms, rep) == splice(data.take(a), ms, rep) + data.subrange(a, b),
{
    if ms.len() == 0 {
        assert(data.take(b) =~= data.take(a) + data.subrange(a, b));
    } else {
        let m = ms.last();
        assert(data.take(b).take(m.0 as int) =~= data.take(m.0 as int));
        assert(data.take(a).take(m.0 as int) =~= data.take(m.0 as int));
        assert(data.take(b).skip(m.1 as int) =~= data.take(a).skip(m.1 as int) + data.subrange(
            a,
            b,
        ));
    }
}

/// The name that a reference to `name` is written with: its fingerprinted
/// name when it was renamed, the name itself otherwise.
pub open spec fn resource_target(hash: Seq<(Seq<char>, Seq<char>)>, name: Seq<char>) -> Seq<char> {
    match lookup(hash, name) {
        Some(h) => h,
        None => name,
    }
}

/// What a `{{ resource "name" }}` directive in the file `filename` becomes:
/// the path from the file to the root of the book, then the final name of
/// the resource. A match whose name is missing or not UTF-8 is kept.
pub open spec fn resource_replacement(
    hash: Seq<(Seq<char>, Seq<char>)>,
    filename: Seq<char>,
    data: Seq<u8>,
    m: ByteMatch,
) -> Seq<u8> {
    if m.2.len() > 1 && m.2[1] is Some && valid_utf8(m.2[1]->0) {
        encode_utf8(path_to_root_text(filename) + resource_target(hash, decode_utf8(m.2[1]->0)))
    } else {
        data.subrange(m.0 as int, m.1 as int)
    }
}

/// The path of a CSS `url(...)` and the quote it is written with.
pub open spec fn css_url_group(g: Seq<Option<Seq<u8>>>) -> Option<(Seq<u8>, Seq<char>)> {
    if g.len() > 1 && g[1] is Some {
        Some((g[1]->0, seq!['"']))
    } else if g.len() > 2 && g[2] is Some {
        Some((g[2]->0, seq!['\'']))
    } else if g.len() > 3 && g[3] is Some {
        Some((g[3]->0, seq![]))
    } else {
        None
    }
}

/// The path, from the root of the book, that a CSS `url(...)` written in a
/// file of directory `dir` refers to.
pub open spec fn css_url_resolved(dir: Seq<char>, url: Seq<char>) -> Seq<char> {
    if dir.len() == 0 {
        normalized_url(url)
    } else {
        normalized_url(dir + seq!['/'] + url)
    }
}

/// What a CSS `url(...)` in the file `filename` becomes: when its path is
/// relative and resolves to a renamed file, a `url(...)` with the same quote
/// and the new name, relative to the file's directory; otherwise it is kept.
pub open spec fn css_url_replacement(
    hash: Seq<(Seq<char>, Seq<char>)>,
    filename: Seq<char>,
    data: Seq<u8>,
    m: ByteMatch,
) -> Seq<u8> {
    let orig = data.subrange(m.0 as int, m.1 as int);
    let dir = parent_dir(filename);
    match css_url_group(m.2) {
        Some((bytes, quote)) => if valid_utf8(bytes) && !is_absolute_css_url(decode_utf8(bytes)) {
            match lookup(hash, css_url_resolved(dir, decode_utf8(bytes))) {
                Some(h) => encode_utf8(
                    seq!['u', 'r', 'l', '('] + quote + (if dir.len() == 0 {
                        h
                    } else {
                        relative_url(dir, h)
                    }) + quote + seq![')'],
                ),
                None => orig,
            }
        } else {
            orig
        },
        None => orig,
    }
}

/// The two passes over a static file.
#[derive(Clone, Copy, PartialEq, Eq, Structural)]
pub enum RefPass {
    /// `{{ resource "name" }}` directives.
    Resources,
    /// CSS `url(...)` references.
    CssUrls,
}

/// The replacement that a pass makes for each of its matches.
pub open spec fn pass_rep(
    pass: RefPass,
    hash: Seq<(Seq<char>, Seq<char>)>,
    filename: Seq<char>,
    data: Seq<u8>,
) -> spec_fn(ByteMatch) -> Seq<u8> {
    |m: ByteMatch|
        match pass {
            RefPass::Resources => resource_replacement(hash, filename, data, m),
            RefPass::CssUrls => css_url_replacement(hash, filename, data, m),
        }
}

/// The pattern that a pass looks for.
pub open spec fn pass_pattern(pass: RefPass) -> Seq<char> {
    match pass {
        RefPass::Resources => RESOURCE_PATTERN@,
        RefPass::CssUrls => CSS_URL_PATTERN@,
    }
}

/// What a pass makes of `data`, given the matches the `regex` crate
/// reports for its pattern (`data` itself if the pattern did not compile).
pub open spec fn pass_output(
    pass: RefPass,
    hash: Seq<(Seq<char>, Seq<char>)>,
    filename: Seq<char>,
    data: Seq<u8>,
) -> Seq<u8> {
    match regex_bytes_matches(pass_pattern(pass), data) {
        Some(ms) => splice(data, ms, pass_rep(pass, hash, filename, data)),
        None => data,
    }
}

/// The contents of the static file `filename` once both passes have run.
pub open spec fn rewritten(
    hash: Seq<(Seq<char>, Seq<char>)>,
    filename: Seq<char>,
    data: Seq<u8>,
) -> Seq<u8> {
    pass_output(
        RefPass::CssUrls,
        hash,
        filename,
        pass_output(RefPass::Resources, hash, filename, data),
    )
}

/// The UTF-8 bytes of a string.
fn bytes_of(s: &String) -> (r: Vec<u8>)
    ensures
        r@ == encode_utf8(s@),
{
    let b = s.as_str().as_bytes();
    copy_range(b, 0, b.len())
}

/// A copy of `data[lo..hi]`.
fn copy_range(data: &[u8], lo: usize, hi: usize) -> (r: Vec<u8>)
    requires
        lo <= hi <= data@.len(),
    ensures
        r@ == data@.subrange(lo as int, hi as int),
{
    let mut out: Vec<u8> = Vec::new();
    let mut i: usize = lo;
    while i < hi
        invariant
            lo <= i <= hi <= data@.len(),
            out@ == data@.subrange(lo as int, i as int),
        decreases hi - i,
    {
        out.push(data[i]);
        i = i + 1;
        assert(out@ =~= data@.subrange(lo as int, i as int));
    }
    out
}

/// Appends `data[lo..hi]` to `out`.
fn append_range(out: &mut Vec<u8>, data: &[u8], lo: usize, hi: usize)
    requires
        lo <= hi <= data@.len(),
    ensures
        final(out)@ == old(out)@ + data@.subrange(lo as int, hi as int),
{
    let ghost start = out@;
    let mut i: usize = lo;
    while i < hi
        invariant
            lo <= i <= hi <= data@.len(),
            out@ == start + data@.subrange(lo as int, i as int),
        decreases hi - i,
    {
        out.push(data[i]);
        i = i + 1;
        assert(out@ =~= start + data@.subrange(lo as int, i as int));
    }
}

/// Appends all of `data` to `out`.
fn append_all(out: &mut Vec<u8>, data: &Vec<u8>)
    ensures
        final(out)@ == old(out)@ + data@,
{
    append_range(out, data.as_slice(), 0, data.len());
    assert(data@.subrange(0, data@.len() as int) =~= data@);
}

/// The replacement for one match of a pass over `data`.
fn replacement(
    pass: RefPass,
    hash_map: &Vec<(String, String)>,
    filename: &str,
    data: &[u8],
    m: &(usize, usize, Vec<Option<Vec<u8>>>),
) -> (r: Vec<u8>)
    requires
        m.0 <= m.1 <= data@.len(),
    ensures
        r@ == (pass_rep(pass, pair_views(hash_map@), filename@, data@))(m.deep_view()),
{
    let ghost mv = m.deep_view();
    let ghost hash = pair_views(hash_map@);
    let groups = &m.2;
    assert(mv.2.len() == groups@.len());
    match pass {
        RefPass::Resources => {
            if groups.len() > 1 {
                assert(mv.2[1] == groups@[1].deep_view());
                if let Some(b) = &groups[1] {
                    assert(b.deep_view() =~= b@);
                    if let Some(name) = str_from_utf8(b.as_slice()) {
                        let name_chars = chars_of(name.as_str());
                        let target = match lookup_name(hash_map, &name_chars) {
                            Some(h) => h,
                            None => name,
                        };
                        assert(target@ == resource_target(hash, decode_utf8(mv.2[1]->0)));
                        let root = path_to_root(filename);
                        let mut out = chars_of(root.as_str());
                        let t = chars_of(target.as_str());
                        append_chars(&mut out, &t);
                        let s = string_from_chars(&out);
                        return bytes_of(&s);
                    }
                }
            }
            copy_range(data, m.0, m.1)
        },
        RefPass::CssUrls => {
            let orig = copy_range(data, m.0, m.1);
            let mut picked: Option<(&Vec<u8>, char)> = None;
            let mut quoted = true;
            if groups.len() > 1 && groups[1].is_some() {
                assert(mv.2[1] == groups@[1].deep_view());
                if let Some(b) = &groups[1] {
                    picked = Some((b, '"'));
                }
            } else if groups.len() > 2 && groups[2].is_some() {
                assert(mv.2[1] == groups@[1].deep_view());
                assert(mv.2[2] == groups@[2].deep_view());
                if let Some(b) = &groups[2] {
                    picked = Some((b, '\''));
                }
            } else if groups.len() > 3 && groups[3].is_some() {
                assert(mv.2[1] == groups@[1].deep_view());
                assert(mv.2[2] == groups@[2].deep_view());
                assert(mv.2[3] == groups@[3].deep_view());
                if let Some(b) = &groups[3] {
                    picked = Some((b, ' '));
                    quoted = false;
                }
            } else {
                proof {
                    if groups.len() > 1 {
                        assert(mv.2[1] == groups@[1].deep_view());
                    }
                    if groups.len() > 2 {
                        assert(mv.2[2] == groups@[2].deep_view());
                    }
                    if groups.len() > 3 {
                        assert(mv.2[3] == groups@[3].deep_view());
                    }
                }
            }
            match picked {
                None => orig,
                Some((b, q)) => {
                    let ghost quote: Seq<char> = if quoted { seq![q] } else { seq![] };
                    assert(css_url_group(mv.2) == Some((b@, quote)));
                    match str_from_utf8(b.as_slice()) {
                        None => orig,
                        Some(url) => {
                            if is_css_url_absolute(url.as_str()) {
                                return orig;
                            }
                            let dir = url_parent_dir(filename);
                            let dir_chars = chars_of(dir.as_str());
                            let resolved = if dir_chars.len() == 0 {
                                normalize_url_path(url.as_str())
                            } else {
                                let mut joined = dir_chars.clone();
                                joined.push('/');
                                let u = chars_of(url.as_str());
                                append_chars(&mut joined, &u);
                                let js = string_from_chars(&joined);
                                assert(js@ == dir@ + seq!['/'] + url@);
                                normalize_url_path(js.as_str())
                            };
                            assert(resolved@ == css_url_resolved(dir@, url@));
                            let rc = chars_of(resolved.as_str());
                            match lookup_name(hash_map, &rc) {
                                None => orig,
                                Some(hashed) => {
                                    let rel = if dir_chars.len() == 0 {
                                        hashed
                                    } else {
                                        make_url_relative(dir.as_str(), hashed.as_str())
                                    };
                                    let mut out: Vec<char> = Vec::new();
                                    out.push('u');
                                    out.push('r');
                                    out.push('l');
                                    out.push('(');
                                    if quoted {
                                        out.push(q);
                                    }
                                    let rel_chars = chars_of(rel.as_str());
                                    append_chars(&mut out, &rel_chars);
                                    if quoted {
                                        out.push(q);
                                    }
                                    out.push(')');
                                    assert(out@ =~= seq!['u', 'r', 'l', '('] + quote + rel@
                                        + quote + seq![')']);
                                    let s = string_from_chars(&out);
                                    bytes_of(&s)
                                },
                            }
                        },
                    }
                },
            }
        },
    }
}

/// Replaces each match of a pass over `data` with its replacement,
/// keeping the bytes in between.
fn splice_matches(
    pass: RefPass,
    hash_map: &Vec<(String, String)>,
    filename: &str,
    data: &[u8],
    ms: &Vec<(usize, usize, Vec<Option<Vec<u8>>>)>,
) -> (r: Vec<u8>)
    requires
        matches_in_order(ms.deep_view(), data@.len()),
    ensures
        r@ == splice(data@, ms.deep_view(), pass_rep(pass, pair_views(hash_map@), filename@, data@)),
{
    let ghost rep = pass_rep(pass, pair_views(hash_map@), filename@, data@);
    let ghost msv = ms.deep_view();
    let mut out: Vec<u8> = Vec::new();
    let mut cursor: usize = 0;
    let mut k: usize = 0;
    while k < ms.len()
        invariant
            k <= ms@.len(),
            msv == ms.deep_view(),
            msv.len() == ms@.len(),
            matches_in_order(msv, data@.len()),
            rep == pass_rep(pass, pair_views(hash_map@), filename@, data@),
            cursor <= data@.len(),
            k == 0 ==> cursor == 0,
            k > 0 ==> cursor == msv[k - 1].1,
            out@ == splice(data@.take(cursor as int), msv.take(k as int), rep),
        decreases ms@.len() - k,
    {
        let m = &ms[k];
        assert(msv[k as int] == m.deep_view());
        proof {
            if k > 0 {
                assert(msv[k - 1].1 <= msv[k as int].0);
            }
        }
        let start = m.0;
        let end = m.1;
        proof {
            let pre = msv.take(k as int);
            if k > 0 {
                assert(pre.last() == msv[k - 1]);
            }
            lemma_splice_extend(data@, pre, rep, cursor as int, start as int);
        }
        append_range(&mut out, data, cursor, start);
        let piece = replacement(pass, hash_map, filename, data, m);
        append_all(&mut out, &piece);
        proof {
            let next = msv.take(k + 1);
            assert(next.drop_last() =~= msv.take(k as int));
            assert(next.last() == msv[k as int]);
            assert(data@.take(end as int).take(start as int) =~= data@.take(start as int));
            assert(data@.take(end as int).skip(end as int) =~= Seq::<u8>::empty());
        }
        cursor = end;
        k = k + 1;
    }
    proof {
        assert(msv.take(k as int) =~= msv);
        if k > 0 {
            assert(msv.last() == msv[k - 1]);
        }
        lemma_splice_extend(data@, msv, rep, cursor as int, data@.len() as int);
        assert(data@.take(data@.len() as int) =~= data@);
    }
    append_range(&mut out, data, cursor, data.len());
    out
}

/// Replaces each `{{ resource "name" }}` directive of the static file
/// `filename`, given the matches of [`RESOURCE_PATTERN`] in `data`.
pub fn replace_resource_directives(
    hash_map: &Vec<(String, String)>,
    filename: &str,
    data: &[u8],
    matches: &Vec<(usize, usize, Vec<Option<Vec<u8>>>)>,
) -> (r: Vec<u8>)
    requires
        matches_in_order(matches.deep_view(), data@.len()),
    ensures
        r@ == splice(
            data@,
            matches.deep_view(),
            pass_rep(RefPass::Resources, pair_views(hash_map@), filename@, data@),
        ),
{
    splice_matches(RefPass::Resources, hash_map, filename, data, matches)
}

/// Points each CSS `url(...)` of the static file `filename` that resolves to
/// a renamed file at its new name, given the matches of [`CSS_URL_PATTERN`]
/// in `data`.
pub fn replace_css_urls(
    hash_map: &Vec<(String, String)>,
    filename: &str,
    data: &[u8],
    matches: &Vec<(usize, usize, Vec<Option<Vec<u8>>>)>,
) -> (r: Vec<u8>)
    requires
        matches_in_order(matches.deep_view(), data@.len()),
    ensures
        r@ == splice(
            data@,
            matches.deep_view(),
            pass_rep(RefPass::CssUrls, pair_views(hash_map@), filename@, data@),
        ),
{
    splice_matches(RefPass::CssUrls, hash_map, filename, data, matches)
}

/// Runs one pass over `data`.
fn run_pass(pass: RefPass, hash_map: &Vec<(String, String)>, filename: &str, data: &[u8]) -> (r:
    Vec<u8>)
    ensures
        r@ == pass_output(pass, pair_views(hash_map@), filename@, data@),
{
    let pattern = match pass {
        RefPass::Resources => RESOURCE_PATTERN,
        RefPass::CssUrls => CSS_URL_PATTERN,
    };
    match regex_bytes_captures(pattern, data) {
        Some(ms) => splice_matches(pass, hash_map, filename, data, &ms),
        None => copy_range(data, 0, data.len()),
    }
}

/// The contents of the static file `filename` with its references to other
/// static files rewritten: first its `{{ resource "name" }}` directives,
/// then its CSS `url(...)` paths.
pub fn rewrite_references(hash_map: &Vec<(String, String)>, filename: &str, data: &[u8]) -> (r: Vec<
    u8,
>)
    ensures
        r@ == rewritten(pair_views(hash_map@), filename@, data@),
{
    let first = run_pass(RefPass::Resources, hash_map, filename, data);
    run_pass(RefPass::CssUrls, hash_map, filename, first.as_slice())
}

/// Whether the references in a static file are rewritten when it is
/// written: CSS and JavaScript files.
pub open spec fn rewrites_references(filename: Seq<char>) -> bool {
    ends_with(filename, ".css"@) || ends_with(filename, ".js"@)
}

/// Decides whether the references in a static file are rewritten.
pub fn is_rewritten(filename: &str) -> (r: bool)
    ensures
        r == rewrites_references(filename@),
{
    let v = chars_of(filename);
    let css = chars_of(".css");
    let js = chars_of(".js");
    ends_with_exec(&v, &css) || ends_with_exec(&v, &js)
}

/// What writing a static file takes, with paths relative to the output
/// directory.
pub enum WriteStep {
    /// Write the bytes under the name.
    Write { filename: String, data: Vec<u8> },
    /// Read the file of the book as text, rewrite its references with
    /// [`rewrite_references`], and write it under the name.
    RewriteCopy { input_location: String, filename: String },
    /// Copy the file of the book as it is.
    Copy { input_location: String, filename: String },
}

/// A write step as a mathematical value.
pub enum WriteStepView {
    /// Write the bytes under the name.
    Write { filename: Seq<char>, data: Seq<u8> },
    /// Read, rewrite and write a file of the book.
    RewriteCopy { input_location: Seq<char>, filename: Seq<char> },
    /// Copy a file of the book.
    Copy { input_location: Seq<char>, filename: Seq<char> },
}

/// The view of a write step.
pub open spec fn step_view(s: WriteStep) -> WriteStepView {
    match s {
        WriteStep::Write { filename, data } => WriteStepView::Write {
            filename: filename@,
            data: data@,
        },
        WriteStep::RewriteCopy { input_location, filename } => WriteStepView::RewriteCopy {
            input_location: input_location@,
            filename: filename@,
        },
        WriteStep::Copy { input_location, filename } => WriteStepView::Copy {
            input_location: input_location@,
            filename: filename@,
        },
    }
}

/// How a static file is written: a built-in file with its contents, its
/// references rewritten when it is CSS or JavaScript; a file of the book
/// read and rewritten when it is CSS or JavaScript, copied otherwise.
pub open spec fn write_step_for(hash: Seq<(Seq<char>, Seq<char>)>, f: StaticFileView) -> WriteStepView {
    match f {
        StaticFileView::Builtin { data, filename } => WriteStepView::Write {
            filename,
            data: if rewrites_references(filename) {
                rewritten(hash, filename, data)
            } else {
                data
            },
        },
        StaticFileView::Additional { input_location, filename } => if rewrites_references(
            filename,
        ) {
            WriteStepView::RewriteCopy { input_location, filename }
        } else {
            WriteStepView::Copy { input_location, filename }
        },
    }
}

/// Renders `{{ resource "name" }}` in a page template: the path to the
/// root of the book, then the resource's final name. The path to the root
/// is the one the page's render data gives (without double quotes) when it
/// is not empty; otherwise it is derived from the page's path (without
/// double quotes), and `None` says that the page has no path.
pub open spec fn resource_link(
    hash: Seq<(Seq<char>, Seq<char>)>,
    root_value: Option<Seq<char>>,
    page_path: Option<Seq<char>>,
    name: Seq<char>,
) -> Option<Seq<char>> {
    let given = match root_value {
        Some(v) => replace_all(v, seq!['"'], seq![]),
        None => seq![],
    };
    if given.len() > 0 {
        Some(given + resource_target(hash, name))
    } else {
        match page_path {
            Some(p) => Some(
                path_to_root_text(replace_all(p, seq!['"'], seq![])) + resource_target(hash, name),
            ),
            None => None,
        }
    }
}

/// The template helper that names static files by their final names.
pub struct ResourceHelper {
    /// Pairs of original and fingerprinted names.
    pub hash_map: Vec<(String, String)>,
}

impl ResourceHelper {
    /// Renders `{{ resource "name" }}`; see [`resource_link`].
    pub fn render(&self, root_value: Option<&str>, page_path: Option<&str>, name: &str) -> (r:
        Option<String>)
        ensures
            r matches Some(x) ==> resource_link(
                pair_views(self.hash_map@),
                match root_value {
                    Some(v) => Some(v@),
                    None => None,
                },
                match page_path {
                    Some(p) => Some(p@),
                    None => None,
                },
                name@,
            ) == Some(x@),
            r is None ==> resource_link(
                pair_views(self.hash_map@),
                match root_value {
                    Some(v) => Some(v@),
                    None => None,
                },
                match page_path {
                    Some(p) => Some(p@),
                    None => None,
                },
                name@,
            ) is None,
    {
        let quote: [char; 1] = ['"'];
        let nothing: [char; 0] = [];
        assert(quote@ == seq!['"'] && nothing@ == Seq::<char>::empty());
        let given = match root_value {
            Some(v) => replace_chars(&chars_of(v), &quote, &nothing),
            None => Vec::new(),
        };
        let name_chars = chars_of(name);
        let target = match lookup_name(&self.hash_map, &name_chars) {
            Some(h) => chars_of(h.as_str()),
            None => name_chars,
        };
        if given.len() > 0 {
            let mut out = given;
            append_chars(&mut out, &target);
            return Some(string_from_chars(&out));
        }
        match page_path {
            Some(p) => {
                let base = replace_chars(&chars_of(p), &quote, &nothing);
                let base_str = string_from_chars(&base);
                let root = path_to_root(base_str.as_str());
                let mut out = chars_of(root.as_str());
                append_chars(&mut out, &target);
                Some(string_from_chars(&out))
            },
            None => None,
        }
    }
}

impl StaticFiles {
    /// How each static file is written, in order; see [`write_step_for`].
    /// The files' recorded renamings make the template helper returned
    /// beside.
    pub fn write_steps(self) -> (r: (Vec<WriteStep>, ResourceHelper))
        ensures
            r.0@.len() == self.files().len(),
            forall|i: int|
                0 <= i < r.0@.len() ==> step_view(#[trigger] r.0@[i]) == write_step_for(
                    self.renamed(),
                    self.files()[i],
                ),
            r.1.hash_map@ == self.hash_map@,
    {
        let mut steps: Vec<WriteStep> = Vec::new();
        let mut i: usize = 0;
        while i < self.static_files.len()
            invariant
                i <= self.static_files@.len(),
                steps@.len() == i,
                forall|j: int|
                    0 <= j < i ==> step_view(#[trigger] steps@[j]) == write_step_for(
                        self.renamed(),
                        self.files()[j],
                    ),
            decreases self.static_files@.len() - i,
        {
            let step = match &self.static_files[i] {
                StaticFile::Builtin { filename, data } => {
                    let d = if is_rewritten(filename.as_str()) {
                        rewrite_references(&self.hash_map, filename.as_str(), data.as_slice())
                    } else {
                        copy_range(data.as_slice(), 0, data.len())
                    };
                    assert(data@.subrange(0, data@.len() as int) =~= data@);
                    WriteStep::Write { filename: filename.clone(), data: d }
                },
                StaticFile::Additional { input_location, filename } => {
                    if is_rewritten(filename.as_str()) {
                        WriteStep::RewriteCopy {
                            input_location: input_location.clone(),
                            filename: filename.clone(),
                        }
                    } else {
                        WriteStep::Copy {
                            input_location: input_location.clone(),
                            filename: filename.clone(),
                        }
                    }
                },
            };
            steps.push(step);
            i = i + 1;
        }
        let helper = ResourceHelper { hash_map: self.hash_map };
        (steps, helper)
    }
}

} // verus!
