//! Rust code blocks: inner attributes, the `fn main` wrapper, and hidden
//! ("boring") lines.

use vstd::prelude::*;
use crate::regex_ext::{regex_capture_group, regex_group_match};
use crate::text::{
    append_chars, chars_eq, chars_of, contains, contains_exec, find_first, first_occurrence,
    lines, skip_ws_from, slice_chars, split_lines, starts_with, starts_with_exec,
    string_from_chars, trim, trim_chars, trim_start, views,
};

verus! {

/// The pattern of the inner attributes at the head of Rust source; group 1
/// is the attribute lines together with blank lines between them.
pub const HEADER_RE: &'static str = r"^(?mx)
        (
            (?:
                ^[ \t]*\#!\[.* (?:\r?\n)?
                |
                ^\s* (?:\r?\n)?
            )*
        )";

/// Splits Rust source into its inner attributes and the rest: the head
/// that the header pattern captures, unless it is only whitespace.
pub open spec fn partitioned(s: Seq<char>) -> (Seq<char>, Seq<char>) {
    match regex_group_match(HEADER_RE@, s, 1) {
        Some(Some(g)) => if trim(g).len() > 0 && starts_with(s, g) {
            (g, s.skip(g.len() as int))
        } else {
            (seq![], s)
        },
        _ => (seq![], s),
    }
}

/// Splits Rust inner attributes from the given source string.
///
/// Returns `(inner_attrs, rest_of_code)`.
pub fn partition_rust_source(s: &str) -> (r: (String, String))
    ensures
        (r.0@, r.1@) == partitioned(s@),
{
    let v = chars_of(s);
    match regex_capture_group(HEADER_RE, s, 1) {
        Some(Some(g)) => {
            let gv = chars_of(g.as_str());
            let t = trim_chars(&gv);
            if t.len() > 0 && starts_with_exec(&v, &gv) {
                let rest = slice_chars(&v, gv.len(), v.len());
                assert(rest@ == s@.skip(gv@.len() as int));
                (g, string_from_chars(&rest))
            } else {
                (String::new(), string_from_chars(&v))
            }
        },
        _ => (String::new(), string_from_chars(&v)),
    }
}

/// `fn main`
pub open spec fn fn_main() -> Seq<char> {
    seq!['f', 'n', ' ', 'm', 'a', 'i', 'n']
}

/// `quick_main!`
pub open spec fn quick_main() -> Seq<char> {
    seq!['q', 'u', 'i', 'c', 'k', '_', 'm', 'a', 'i', 'n', '!']
}

/// `# #![allow(unused)]` and a line feed.
pub open spec fn allow_unused_line() -> Seq<char> {
    seq!['#', ' ', '#', '!', '[', 'a', 'l', 'l', 'o', 'w', '(', 'u', 'n', 'u', 's', 'e', 'd', ')', ']', '\n']
}

/// `# fn main() {` and a line feed.
pub open spec fn main_open_line() -> Seq<char> {
    seq!['#', ' ', 'f', 'n', ' ', 'm', 'a', 'i', 'n', '(', ')', ' ', '{', '\n']
}

/// `# }`
pub open spec fn main_close() -> Seq<char> {
    seq!['#', ' ', '}']
}

/// The code wrapped in a hidden `fn main`, or `None` when it already has
/// `fn main` or `quick_main!`.
pub open spec fn wrapped_main(text: Seq<char>) -> Option<Seq<char>> {
    if !contains(text, fn_main()) && !contains(text, quick_main()) {
        let (attrs, code) = partitioned(text);
        let newline = if code.len() == 0 || code.last() == '\n' {
            seq![]
        } else {
            seq!['\n']
        };
        Some(allow_unused_line() + attrs + main_open_line() + code + newline + main_close())
    } else {
        None
    }
}

/// If this code text is missing an `fn main`, then wrap it with `fn main` in
/// a fashion similar to rustdoc, with the wrapper hidden.
pub fn wrap_rust_main(text: &str) -> (r: Option<String>)
    ensures
        r matches Some(x) ==> wrapped_main(text@) == Some(x@),
        r is None ==> wrapped_main(text@) is None,
{
    let v = chars_of(text);
    let fm: [char; 7] = ['f', 'n', ' ', 'm', 'a', 'i', 'n'];
    let qm: [char; 11] = ['q', 'u', 'i', 'c', 'k', '_', 'm', 'a', 'i', 'n', '!'];
    assert(fm@ == fn_main() && qm@ == quick_main());
    if !contains_exec(&v, &fm) && !contains_exec(&v, &qm) {
        let (attrs, code) = partition_rust_source(text);
        let a = chars_of(attrs.as_str());
        let c = chars_of(code.as_str());
        let l1: [char; 20] = [
            '#', ' ', '#', '!', '[', 'a', 'l', 'l', 'o', 'w', '(', 'u', 'n', 'u', 's', 'e', 'd', ')', ']', '\n',
        ];
        let l2: [char; 14] = ['#', ' ', 'f', 'n', ' ', 'm', 'a', 'i', 'n', '(', ')', ' ', '{', '\n'];
        let l3: [char; 3] = ['#', ' ', '}'];
        assert(l1@ == allow_unused_line() && l2@ == main_open_line() && l3@ == main_close());
        let mut out: Vec<char> = Vec::new();
        append_chars(&mut out, &l1);
        append_chars(&mut out, &a);
        append_chars(&mut out, &l2);
        append_chars(&mut out, &c);
        if !(c.len() == 0 || c[c.len() - 1] == '\n') {
            out.push('\n');
        }
        append_chars(&mut out, &l3);
        proof {
            let newline = if c@.len() == 0 || c@.last() == '\n' {
                Seq::<char>::empty()
            } else {
                seq!['\n']
            };
            assert(out@ =~= allow_unused_line() + a@ + main_open_line() + c@ + newline
                + main_close());
        }
        Some(string_from_chars(&out))
    } else {
        None
    }
}

/// A piece of a code block after hiding lines: its text and whether it
/// is hidden (wrapped in a `boring` span).
pub open spec fn segment_views(v: Seq<(String, bool)>) -> Seq<(Seq<char>, bool)> {
    v.map_values(|p: (String, bool)| (p.0@, p.1))
}

/// The segment for one line when hiding lines that start, after leading
/// whitespace, with `prefix`: a hidden line keeps its leading whitespace and
/// loses the prefix; every line gets a line feed.
pub open spec fn prefix_segment(line: Seq<char>, prefix: Seq<char>) -> (Seq<char>, bool) {
    if starts_with(trim_start(line), prefix) {
        match first_occurrence(line, prefix, 0) {
            Some(pos) => (line.take(pos) + line.skip(pos + prefix.len()) + seq!['\n'], true),
            None => (line + seq!['\n'], false),
        }
    } else {
        (line + seq!['\n'], false)
    }
}

/// Splits code into segments, hiding the lines that start with `prefix`.
pub fn hide_lines_with_prefix(content: &str, prefix: &str) -> (r: Vec<(String, bool)>)
    ensures
        segment_views(r@) == lines(content@).map_values(|l: Seq<char>| prefix_segment(l, prefix@)),
{
    let v = chars_of(content);
    let p = chars_of(prefix);
    let ls = split_lines(&v);
    let mut out: Vec<(String, bool)> = Vec::new();
    let mut i: usize = 0;
    while i < ls.len()
        invariant
            i <= ls@.len(),
            p@ == prefix@,
            views(ls@) == lines(content@),
            segment_views(out@) =~= views(ls@).take(i as int).map_values(
                |l: Seq<char>| prefix_segment(l, prefix@),
            ),
        decreases ls@.len() - i,
    {
        let line = &ls[i];
        let lo = skip_ws_from(line, 0);
        assert(line@.skip(0) == line@);
        let t = slice_chars(line, lo, line.len());
        assert(t@ == line@.skip(lo as int));
        let mut seg: Vec<char> = Vec::new();
        let mut boring = false;
        if starts_with_exec(&t, &p) {
            match find_first(line, &p, 0) {
                Some(pos) => {
                    proof {
                        let j = choose|j: int| crate::text::is_first_occurrence_from(line@, p@, 0, j);
                        assert(j == pos);
                    }
                    let ws = slice_chars(line, 0, pos);
                    let rest = slice_chars(line, pos + p.len(), line.len());
                    append_chars(&mut seg, &ws);
                    append_chars(&mut seg, &rest);
                    seg.push('\n');
                    boring = true;
                    assert(seg@ =~= line@.take(pos as int) + line@.skip(pos + p@.len()) + seq!['\n']);
                },
                None => {
                    append_chars(&mut seg, line);
                    seg.push('\n');
                },
            }
        } else {
            append_chars(&mut seg, line);
            seg.push('\n');
        }
        let ghost before = segment_views(out@);
        out.push((string_from_chars(&seg), boring));
        proof {
            assert((seg@, boring) == prefix_segment(line@, prefix@));
            assert(segment_views(out@) =~= before.push((seg@, boring)));
            let t2 = views(ls@).take(i + 1);
            assert(t2 =~= views(ls@).take(i as int).push(line@));
        }
        i = i + 1;
    }
    assert(views(ls@).take(ls@.len() as int) =~= views(ls@));
    out
}

/// The pattern of a line of Rust code that may be hidden: group 1 is the
/// leading whitespace, group 2 the character after `#` (if any), group 3
/// the rest.
pub const BORING_LINES_RE: &'static str = r"^(\s*)#(.?)(.*)$";

/// The segment for one line of Rust code: `##` lines lose one `#`; `#`
/// lines (alone or followed by a space) are hidden without the `#` and the
/// space; every line but the last gets a line feed.
pub open spec fn rust_segment(line: Seq<char>, last: bool) -> (Seq<char>, bool) {
    let newline = if last {
        seq![]
    } else {
        seq!['\n']
    };
    let g1 = regex_group_match(BORING_LINES_RE@, line, 1);
    let g2 = regex_group_match(BORING_LINES_RE@, line, 2);
    let g3 = regex_group_match(BORING_LINES_RE@, line, 3);
    match (g1, g2, g3) {
        (Some(Some(ws)), Some(Some(mark)), Some(Some(rest))) => if mark == seq!['#'] {
            (ws + mark + rest + newline, false)
        } else if mark.len() == 0 || mark == seq![' '] {
            (ws + rest + newline, true)
        } else {
            (line + newline, false)
        },
        _ => (line + newline, false),
    }
}

/// The segments of a Rust code block.
pub open spec fn rust_segments(ls: Seq<Seq<char>>) -> Seq<(Seq<char>, bool)> {
    Seq::new(ls.len(), |i: int| rust_segment(ls[i], i == ls.len() - 1))
}

/// Splits Rust code into segments, hiding lines that start with `#`.
pub fn hide_lines_rust(text: &str) -> (r: Vec<(String, bool)>)
    ensures
        segment_views(r@) == rust_segments(lines(text@)),
{
    let v = chars_of(text);
    let ls = split_lines(&v);
    let mut out: Vec<(String, bool)> = Vec::new();
    let mut i: usize = 0;
    while i < ls.len()
        invariant
            i <= ls@.len(),
            views(ls@) == lines(text@),
            segment_views(out@) =~= rust_segments(views(ls@)).take(i as int),
        decreases ls@.len() - i,
    {
        let line = &ls[i];
        let ls_str = string_from_chars(line);
        let last = i + 1 == ls.len();
        let g1 = regex_capture_group(BORING_LINES_RE, ls_str.as_str(), 1);
        let g2 = regex_capture_group(BORING_LINES_RE, ls_str.as_str(), 2);
        let g3 = regex_capture_group(BORING_LINES_RE, ls_str.as_str(), 3);
        let mut seg: Vec<char> = Vec::new();
        let mut boring = false;
        let mut plain = true;
        if let (Some(Some(ws)), Some(Some(mark)), Some(Some(rest))) = (&g1, &g2, &g3) {
            let wv = chars_of(ws.as_str());
            let mv = chars_of(mark.as_str());
            let rv = chars_of(rest.as_str());
            let hash: [char; 1] = ['#'];
            let space: [char; 1] = [' '];
            assert(hash@ == seq!['#'] && space@ == seq![' ']);
            if chars_eq(&mv, &hash) {
                append_chars(&mut seg, &wv);
                append_chars(&mut seg, &mv);
                append_chars(&mut seg, &rv);
                plain = false;
            } else if mv.len() == 0 || chars_eq(&mv, &space) {
                append_chars(&mut seg, &wv);
                append_chars(&mut seg, &rv);
                boring = true;
                plain = false;
            }
        }
        if plain {
            append_chars(&mut seg, line);
        }
        if !last {
            seg.push('\n');
        }
        let ghost before = segment_views(out@);
        out.push((string_from_chars(&seg), boring));
        proof {
            assert((seg@, boring) == rust_segment(line@, last));
            assert(segment_views(out@) =~= before.push((seg@, boring)));
        }
        i = i + 1;
    }
    out
}

} // verus!
