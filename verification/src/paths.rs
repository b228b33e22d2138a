//! Paths held as text, with `/` as the separator.

use vstd::prelude::*;
use crate::static_urls::last_index_of;
use crate::text::{append_chars, chars_eq, chars_of, slice_chars, split_on, string_from_chars};

verus! {

/// `base` joined with `p` as `Path::join` does on Unix: an absolute `p`
/// replaces `base`; otherwise a `/` is put between them unless `base` is
/// empty or already ends with one.
pub open spec fn join_path(base: Seq<char>, p: Seq<char>) -> Seq<char> {
    if p.len() > 0 && p[0] == '/' {
        p
    } else if base.len() == 0 {
        p
    } else if base.last() == '/' {
        base + p
    } else {
        base + seq!['/'] + p
    }
}

/// Joins two paths as `Path::join` does on Unix.
pub fn join(base: &str, p: &str) -> (r: String)
    ensures
        r@ == join_path(base@, p@),
{
    let b = chars_of(base);
    let q = chars_of(p);
    if q.len() > 0 && q[0] == '/' {
        return p.to_owned();
    }
    if b.len() == 0 {
        return p.to_owned();
    }
    let mut out = b;
    if out[out.len() - 1] != '/' {
        out.push('/');
    }
    let ghost prefix = out@;
    let mut i: usize = 0;
    while i < q.len()
        invariant
            i <= q@.len(),
            out@ == prefix + q@.take(i as int),
        decreases q@.len() - i,
    {
        out.push(q[i]);
        i = i + 1;
        assert(q@.take(i as int) == q@.take(i - 1).push(q@[i - 1]));
    }
    assert(q@.take(q@.len() as int) == q@);
    string_from_chars(&out)
}

/// The length of `p` without its trailing separators.
pub open spec fn trimmed_end(p: Seq<char>) -> int
    decreases p.len(),
{
    if p.len() > 0 && p.last() == '/' {
        trimmed_end(p.drop_last())
    } else {
        p.len() as int
    }
}

proof fn lemma_trimmed_end(p: Seq<char>)
    ensures
        0 <= trimmed_end(p) <= p.len(),
        trimmed_end(p) > 0 ==> p[trimmed_end(p) - 1] != '/',
        forall|j: int| trimmed_end(p) <= j < p.len() ==> p[j] == '/',
    decreases p.len(),
{
    if p.len() > 0 && p.last() == '/' {
        lemma_trimmed_end(p.drop_last());
        assert forall|j: int| trimmed_end(p) <= j < p.len() implies p[j] == '/' by {
            if j < p.len() - 1 {
                assert(p[j] == p.drop_last()[j]);
            }
        }
    }
}

/// Where the final component of `p` starts.
pub open spec fn last_start(p: Seq<char>) -> int {
    last_index_of(p.take(trimmed_end(p)), '/') + 1
}

/// The final component of `p` as text (empty for an empty path or a root).
pub open spec fn last_component(p: Seq<char>) -> Seq<char> {
    p.subrange(last_start(p), trimmed_end(p))
}

/// The file name of a path, as `Path::file_name` gives it for paths whose
/// final component is a plain name: `None` when there is no final
/// component or it is `.` or `..`.
pub open spec fn file_name(p: Seq<char>) -> Option<Seq<char>> {
    let n = last_component(p);
    if n.len() == 0 || n == seq!['.'] || n == seq!['.', '.'] {
        None
    } else {
        Some(n)
    }
}

/// The stem of a file name: the part before its last dot, unless there is
/// no dot or the only dot comes first.
pub open spec fn stem_of(name: Seq<char>) -> Seq<char> {
    let i = last_index_of(name, '.');
    if i <= 0 {
        name
    } else {
        name.take(i)
    }
}

/// The file stem of a path, as `Path::file_stem` gives it.
pub open spec fn file_stem(p: Seq<char>) -> Option<Seq<char>> {
    match file_name(p) {
        Some(n) => Some(stem_of(n)),
        None => None,
    }
}

/// The span of the final component of a path.
fn last_component_span(p: &[char]) -> (r: (usize, usize))
    ensures
        r.0 == last_start(p@),
        r.1 == trimmed_end(p@),
        r.0 <= r.1 <= p@.len(),
{
    proof {
        lemma_trimmed_end(p@);
    }
    let mut e = p.len();
    assert(p@.take(p@.len() as int) == p@);
    while e > 0 && p[e - 1] == '/'
        invariant
            e <= p@.len(),
            trimmed_end(p@) == trimmed_end(p@.take(e as int)),
        decreases e,
    {
        assert(p@.take(e as int).drop_last() == p@.take(e - 1));
        e = e - 1;
    }
    assert(trimmed_end(p@.take(e as int)) == e);
    let mut s = e;
    assert(p@.take(e as int).take(s as int) == p@.take(e as int));
    while s > 0 && p[s - 1] != '/'
        invariant
            s <= e <= p@.len(),
            last_index_of(p@.take(e as int), '/') == last_index_of(p@.take(s as int), '/'),
        decreases s,
    {
        assert(p@.take(s as int).drop_last() == p@.take(s - 1));
        s = s - 1;
    }
    proof {
        if s > 0 {
            assert(p@.take(s as int).last() == '/');
        } else {
            assert(last_index_of(p@.take(0), '/') == -1);
        }
    }
    (s, e)
}

/// Where the final component of a path starts and where its stem ends.
fn stem_span(v: &[char]) -> (r: Option<(usize, usize)>)
    ensures
        r matches Some((s, t)) ==> file_name(v@) is Some && s == last_start(v@) && t == s
            + stem_of(file_name(v@)->0).len() && t <= v@.len() && v@.subrange(s as int, t as int)
            == stem_of(file_name(v@)->0),
        r is None ==> file_name(v@) is None,
{
    let (s, e) = last_component_span(v);
    let n = slice_chars(v, s, e);
    let dot: [char; 1] = ['.'];
    let dotdot: [char; 2] = ['.', '.'];
    assert(dot@ == seq!['.'] && dotdot@ == seq!['.', '.']);
    if n.len() == 0 || chars_eq(&n, &dot) || chars_eq(&n, &dotdot) {
        return None;
    }
    let mut i = n.len();
    assert(n@.take(n@.len() as int) == n@);
    while i > 0 && n[i - 1] != '.'
        invariant
            i <= n@.len(),
            last_index_of(n@, '.') == last_index_of(n@.take(i as int), '.'),
        decreases i,
    {
        assert(n@.take(i as int).drop_last() == n@.take(i - 1));
        i = i - 1;
    }
    proof {
        if i > 0 {
            assert(n@.take(i as int).last() == '.');
        } else {
            assert(last_index_of(n@.take(0), '.') == -1);
        }
    }
    if i <= 1 {
        assert(v@.subrange(s as int, (s + n.len()) as int) == n@);
        Some((s, s + n.len()))
    } else {
        assert(v@.subrange(s as int, (s + i - 1) as int) == n@.take(i - 1));
        Some((s, s + i - 1))
    }
}

/// The file name of a path, if it has one.
pub fn path_file_name(p: &str) -> (r: Option<String>)
    ensures
        r matches Some(x) ==> file_name(p@) == Some(x@),
        r is None ==> file_name(p@) is None,
{
    let v = chars_of(p);
    let (s, e) = last_component_span(&v);
    let n = slice_chars(&v, s, e);
    let dot: [char; 1] = ['.'];
    let dotdot: [char; 2] = ['.', '.'];
    assert(dot@ == seq!['.'] && dotdot@ == seq!['.', '.']);
    if n.len() == 0 || chars_eq(&n, &dot) || chars_eq(&n, &dotdot) {
        None
    } else {
        Some(string_from_chars(&n))
    }
}

/// The file stem of a path, if it has a file name.
pub fn path_file_stem(p: &str) -> (r: Option<String>)
    ensures
        r matches Some(x) ==> file_stem(p@) == Some(x@),
        r is None ==> file_stem(p@) is None,
{
    let v = chars_of(p);
    match stem_span(&v) {
        Some((s, t)) => {
            let stem = slice_chars(&v, s, t);
            Some(string_from_chars(&stem))
        },
        None => None,
    }
}

/// The path with the extension of its file name removed, as
/// `Path::with_extension("")` gives it.
pub open spec fn without_extension(p: Seq<char>) -> Seq<char> {
    match file_name(p) {
        Some(n) => p.take(last_start(p) + stem_of(n).len()),
        None => p,
    }
}

/// Removes the extension of the file name of a path.
pub fn path_without_extension(v: &[char]) -> (r: Vec<char>)
    ensures
        r@ == without_extension(v@),
{
    match stem_span(v) {
        Some((s, t)) => slice_chars(v, 0, t),
        None => slice_chars(v, 0, v.len()),
    }
}

/// The parent of a path as text: what comes before its final component,
/// without trailing separators (a lone root separator is kept); `None`
/// when the path has no final component.
pub open spec fn parent_of(p: Seq<char>) -> Option<Seq<char>> {
    if last_component(p).len() == 0 {
        None
    } else {
        let q = p.take(last_start(p));
        let t = q.take(trimmed_end(q));
        if t.len() == 0 && q.len() > 0 {
            Some(seq!['/'])
        } else {
            Some(t)
        }
    }
}

/// The number of plain (not `.` or `..`) components of a path.
pub open spec fn normal_count(p: Seq<char>) -> nat {
    split_on(p, '/').filter(
        |c: Seq<char>| c.len() > 0 && c != seq!['.'] && c != seq!['.', '.'],
    ).len()
}

/// `../` repeated `n` times.
pub open spec fn ups_text(n: nat) -> Seq<char>
    decreases n,
{
    if n == 0 {
        seq![]
    } else {
        ups_text((n - 1) as nat) + seq!['.', '.', '/']
    }
}

/// The relative path from a file to the root of the book: one `../` for
/// each directory above the file.
pub open spec fn path_to_root_text(p: Seq<char>) -> Seq<char> {
    match parent_of(p) {
        Some(q) => ups_text(normal_count(q)),
        None => seq![],
    }
}

/// The text of the parent of a path.
pub fn parent_chars(v: &[char]) -> (r: Option<Vec<char>>)
    ensures
        r matches Some(x) ==> parent_of(v@) == Some(x@),
        r is None ==> parent_of(v@) is None,
{
    let (s, e) = last_component_span(v);
    if s == e {
        return None;
    }
    let q = slice_chars(v, 0, s);
    assert(q@ == v@.take(s as int));
    let (_, qe) = last_component_span(&q);
    let t = slice_chars(&q, 0, qe);
    assert(t@ == q@.take(qe as int));
    if t.len() == 0 && q.len() > 0 {
        let root: Vec<char> = vec!['/'];
        assert(root@ == seq!['/']);
        Some(root)
    } else {
        Some(t)
    }
}

/// Counts the plain components of a path.
fn count_normal(v: &[char]) -> (r: usize)
    ensures
        r == normal_count(v@),
{
    let comps = crate::text::split_chars(v, '/');
    let mut n: usize = 0;
    let mut i: usize = 0;
    let dot: [char; 1] = ['.'];
    let dotdot: [char; 2] = ['.', '.'];
    assert(dot@ == seq!['.'] && dotdot@ == seq!['.', '.']);
    while i < comps.len()
        invariant
            i <= comps@.len(),
            dot@ == seq!['.'] && dotdot@ == seq!['.', '.'],
            n == crate::text::views(comps@).take(i as int).filter(
                |c: Seq<char>| c.len() > 0 && c != seq!['.'] && c != seq!['.', '.'],
            ).len(),
            n <= i,
        decreases comps@.len() - i,
    {
        proof {
            let t = crate::text::views(comps@).take(i + 1);
            assert(t.drop_last() =~= crate::text::views(comps@).take(i as int));
            reveal_with_fuel(Seq::filter, 1);
        }
        let c = &comps[i];
        if c.len() > 0 && !chars_eq(c, &dot) && !chars_eq(c, &dotdot) {
            n = n + 1;
        }
        i = i + 1;
    }
    assert(crate::text::views(comps@).take(comps@.len() as int) =~= crate::text::views(comps@));
    n
}

/// Appends `../` `n` times.
fn push_ups(out: &mut Vec<char>, n: usize)
    ensures
        final(out)@ == old(out)@ + ups_text(n as nat),
{
    let mut k: usize = 0;
    while k < n
        invariant
            k <= n,
            out@ == old(out)@ + ups_text(k as nat),
        decreases n - k,
    {
        out.push('.');
        out.push('.');
        out.push('/');
        k = k + 1;
        assert(ups_text(k as nat) == ups_text((k - 1) as nat) + seq!['.', '.', '/']);
    }
}

/// The relative path from the file at `p` to the root of the book.
pub fn path_to_root(p: &str) -> (r: String)
    ensures
        r@ == path_to_root_text(p@),
{
    let v = chars_of(p);
    let mut out: Vec<char> = Vec::new();
    match parent_chars(&v) {
        Some(q) => {
            let n = count_normal(&q);
            push_ups(&mut out, n);
        },
        None => {},
    }
    string_from_chars(&out)
}

} // verus!
