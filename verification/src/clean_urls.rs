//! Paths for "clean URL" output, where a page `foo/bar.html` is served as
//! `foo/bar/`.

use vstd::prelude::*;
use crate::paths::{
    file_stem, join, join_path, parent_chars, parent_of, path_file_stem, path_to_root,
    path_to_root_text, path_without_extension, without_extension,
};
use crate::text::{append_chars, chars_eq, chars_of, string_from_chars};

verus! {

/// `index`
pub open spec fn index_stem() -> Seq<char> {
    seq!['i', 'n', 'd', 'e', 'x']
}

/// Whether a path names an index page.
pub open spec fn is_index(p: Seq<char>) -> bool {
    file_stem(p) == Some(index_stem())
}

fn is_index_path(p: &str) -> (r: bool)
    ensures
        r == is_index(p@),
{
    let idx: [char; 5] = ['i', 'n', 'd', 'e', 'x'];
    assert(idx@ == index_stem());
    match path_file_stem(p) {
        Some(s) => {
            let v = chars_of(s.as_str());
            chars_eq(&v, &idx)
        },
        None => false,
    }
}

/// The clean URL link for a logical HTML path: an index page links to its
/// directory (`./` at the root), any other page to its path without
/// extension followed by `/`.
pub open spec fn clean_link(p: Seq<char>) -> Seq<char> {
    if is_index(p) {
        match parent_of(p) {
            Some(q) => if q.len() == 0 {
                seq!['.', '/']
            } else {
                q + seq!['/']
            },
            None => seq!['.', '/'],
        }
    } else {
        without_extension(p) + seq!['/']
    }
}

/// Converts a logical HTML path to a clean URL link string.
pub fn clean_url_link_path(logical_html_path: &str) -> (r: String)
    ensures
        r@ == clean_link(logical_html_path@),
{
    let v = chars_of(logical_html_path);
    let mut out: Vec<char> = Vec::new();
    if is_index_path(logical_html_path) {
        match parent_chars(&v) {
            Some(q) => {
                if q.len() == 0 {
                    out.push('.');
                    out.push('/');
                } else {
                    append_chars(&mut out, &q);
                    out.push('/');
                }
            },
            None => {
                out.push('.');
                out.push('/');
            },
        }
        assert(out@ =~= clean_link(logical_html_path@));
    } else {
        let w = path_without_extension(&v);
        append_chars(&mut out, &w);
        out.push('/');
        assert(out@ =~= clean_link(logical_html_path@));
    }
    string_from_chars(&out)
}

/// `index.html`
pub open spec fn index_html() -> Seq<char> {
    seq!['i', 'n', 'd', 'e', 'x', '.', 'h', 't', 'm', 'l']
}

/// The physical output path of a page in clean URL mode: index pages stay,
/// other pages become `index.html` in a directory named after them.
pub open spec fn clean_output(p: Seq<char>) -> Seq<char> {
    if is_index(p) {
        p
    } else {
        join_path(without_extension(p), index_html())
    }
}

/// Converts a logical HTML path to the physical output path in clean URL mode.
pub fn clean_url_output_path(logical_html_path: &str) -> (r: String)
    ensures
        r@ == clean_output(logical_html_path@),
{
    if is_index_path(logical_html_path) {
        logical_html_path.to_owned()
    } else {
        let v = chars_of(logical_html_path);
        let w = string_from_chars(&path_without_extension(&v));
        let ih = string_from_chars(&['i', 'n', 'd', 'e', 'x', '.', 'h', 't', 'm', 'l']);
        assert(ih@ == index_html());
        join(w.as_str(), ih.as_str())
    }
}

/// The path to the root from a source file in clean URL mode: one more
/// `../` than usual for a page that is not an index page.
pub open spec fn clean_root(p: Seq<char>) -> Seq<char> {
    if is_index(p) {
        path_to_root_text(p)
    } else {
        path_to_root_text(p) + seq!['.', '.', '/']
    }
}

/// Computes the path-to-root for a source `.md` file in clean URL mode.
pub fn clean_url_path_to_root(source_md_path: &str) -> (r: String)
    ensures
        r@ == clean_root(source_md_path@),
{
    let root = path_to_root(source_md_path);
    if is_index_path(source_md_path) {
        root
    } else {
        let mut out = chars_of(root.as_str());
        out.push('.');
        out.push('.');
        out.push('/');
        assert(out@ =~= clean_root(source_md_path@));
        string_from_chars(&out)
    }
}

} // verus!
