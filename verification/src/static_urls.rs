//! Slash-separated URL paths of static files: parent directories,
//! normalization and relative references.

use vstd::prelude::*;
use crate::path_order::{lacks, lemma_split_concat, lemma_split_join, lemma_split_lacks, lemma_split_single};
use crate::text::{
    first_index_of, lemma_first_index_of, lemma_first_index_of_unique,
    append_chars, chars_eq, chars_of, join_chars, join_with, split_chars, split_on,
    starts_with, starts_with_exec, string_from_chars, views,
};

verus! {

/// Index of the last occurrence of `c` in `s`, or -1 if there is none.
pub open spec fn last_index_of(s: Seq<char>, c: char) -> int
    decreases s.len(),
{
    if s.len() == 0 {
        -1
    } else if s.last() == c {
        s.len() - 1
    } else {
        last_index_of(s.drop_last(), c)
    }
}

proof fn lemma_last_index_of(s: Seq<char>, c: char)
    ensures
        -1 <= last_index_of(s, c) < s.len(),
        last_index_of(s, c) >= 0 ==> s[last_index_of(s, c)] == c,
        forall|j: int| last_index_of(s, c) < j < s.len() ==> s[j] != c,
    decreases s.len(),
{
    if s.len() > 0 && s.last() != c {
        lemma_last_index_of(s.drop_last(), c);
        assert forall|j: int| last_index_of(s, c) < j < s.len() implies s[j] != c by {
            if j < s.len() - 1 {
                assert(s[j] == s.drop_last()[j]);
            }
        }
    }
}

/// The directory part of a slash-separated path, without a trailing slash;
/// empty when the path has no slash.
pub open spec fn parent_dir(path: Seq<char>) -> Seq<char> {
    let i = last_index_of(path, '/');
    if i >= 0 {
        path.take(i)
    } else {
        seq![]
    }
}

/// Returns the directory component of a forward-slash path (no trailing
/// slash), or `""` for a path with no directory component.
pub fn url_parent_dir(path: &str) -> (r: String)
    ensures
        r@ == parent_dir(path@),
{
    let v = chars_of(path);
    let mut i = v.len();
    assert(v@.take(v@.len() as int) == v@);
    while i > 0 && v[i - 1] != '/'
        invariant
            i <= v@.len(),
            last_index_of(v@, '/') == last_index_of(v@.take(i as int), '/'),
        decreases i,
    {
        assert(v@.take(i as int).drop_last() == v@.take(i - 1));
        i = i - 1;
    }
    assert(v@.take(v@.len() as int) == v@);
    if i == 0 {
        assert(last_index_of(v@.take(0), '/') == -1);
        String::new()
    } else {
        let mut out: Vec<char> = Vec::new();
        let mut k: usize = 0;
        while k < i - 1
            invariant
                k <= i - 1,
                i <= v@.len(),
                out@ == v@.take(k as int),
            decreases i - 1 - k,
        {
            out.push(v[k]);
            k = k + 1;
            assert(v@.take(k as int) == v@.take(k - 1).push(v@[k - 1]));
        }
        string_from_chars(&out)
    }
}

/// One step of path normalization: skip empty and `.` parts, let `..` drop
/// the last kept part, keep every other part.
pub open spec fn normalize_step(acc: Seq<Seq<char>>, part: Seq<char>) -> Seq<Seq<char>> {
    if part.len() == 0 || part == seq!['.'] {
        acc
    } else if part == seq!['.', '.'] {
        if acc.len() == 0 {
            acc
        } else {
            acc.drop_last()
        }
    } else {
        acc.push(part)
    }
}

/// The parts that remain after normalizing `parts` from left to right.
pub open spec fn normalize_parts(parts: Seq<Seq<char>>) -> Seq<Seq<char>>
    decreases parts.len(),
{
    if parts.len() == 0 {
        seq![]
    } else {
        normalize_step(normalize_parts(parts.drop_last()), parts.last())
    }
}

/// A slash-separated path with `.` and `..` components resolved.
pub open spec fn normalized_url(path: Seq<char>) -> Seq<char> {
    join_with(normalize_parts(split_on(path, '/')), seq!['/'])
}

/// Normalizes a slash-separated path by resolving `.` and `..` components.
pub fn normalize_url_path(path: &str) -> (r: String)
    ensures
        r@ == normalized_url(path@),
{
    let v = chars_of(path);
    let comps = split_chars(&v, '/');
    let mut parts: Vec<Vec<char>> = Vec::new();
    let mut i: usize = 0;
    while i < comps.len()
        invariant
            i <= comps@.len(),
            views(parts@) == normalize_parts(views(comps@).take(i as int)),
        decreases comps@.len() - i,
    {
        let c = &comps[i];
        let ghost before = views(parts@);
        proof {
            let t = views(comps@).take(i + 1);
            assert(t.drop_last() =~= views(comps@).take(i as int));
            assert(t.last() == c@);
        }
        let dot: [char; 1] = ['.'];
        let dotdot: [char; 2] = ['.', '.'];
        assert(dot@ == seq!['.'] && dotdot@ == seq!['.', '.']);
        if c.len() == 0 || chars_eq(c, &dot) {
        } else if chars_eq(c, &dotdot) {
            if parts.len() > 0 {
                parts.pop();
                assert(views(parts@) =~= before.drop_last());
            }
        } else {
            parts.push(c.clone());
            assert(views(parts@) =~= before.push(c@));
        }
        i = i + 1;
    }
    assert(views(comps@).take(comps@.len() as int) =~= views(comps@));
    let slash: [char; 1] = ['/'];
    assert(slash@ == seq!['/']);
    let out = join_chars(&parts, &slash);
    string_from_chars(&out)
}

/// The non-empty pieces of a slash-separated path.
pub open spec fn path_parts(s: Seq<char>) -> Seq<Seq<char>> {
    split_on(s, '/').filter(|p: Seq<char>| p.len() > 0)
}

/// The number of leading pieces that `a` and `b` have in common.
pub open spec fn common_prefix_len(a: Seq<Seq<char>>, b: Seq<Seq<char>>) -> nat
    decreases a.len(),
{
    if a.len() == 0 || b.len() == 0 || a[0] != b[0] {
        0
    } else {
        1 + common_prefix_len(a.drop_first(), b.drop_first())
    }
}

/// `n` copies of `..`.
pub open spec fn ups(n: nat) -> Seq<Seq<char>> {
    Seq::new(n, |i: int| seq!['.', '.'])
}

/// `target` written relative to the directory `from_dir`; `.` when they are
/// the same place.
pub open spec fn relative_url(from_dir: Seq<char>, target: Seq<char>) -> Seq<char> {
    let from = path_parts(from_dir);
    let to = path_parts(target);
    let common = common_prefix_len(from, to);
    let parts = ups((from.len() - common) as nat) + to.skip(common as int);
    if parts.len() == 0 {
        seq!['.']
    } else {
        join_with(parts, seq!['/'])
    }
}

proof fn lemma_common_prefix_len(a: Seq<Seq<char>>, b: Seq<Seq<char>>, k: int)
    requires
        0 <= k <= a.len(),
        k <= b.len(),
        forall|j: int| 0 <= j < k ==> a[j] == b[j],
        k == a.len() || k == b.len() || a[k] != b[k],
    ensures
        common_prefix_len(a, b) == k,
    decreases a.len(),
{
    if k > 0 {
        assert(a[0] == b[0]);
        assert forall|j: int| 0 <= j < k - 1 implies a.drop_first()[j] == b.drop_first()[j] by {
            assert(a[j + 1] == b[j + 1]);
        }
        lemma_common_prefix_len(a.drop_first(), b.drop_first(), k - 1);
    }
}

/// The non-empty pieces of a path.
fn nonempty_parts(v: &[char]) -> (r: Vec<Vec<char>>)
    ensures
        views(r@) == path_parts(v@),
{
    let comps = split_chars(v, '/');
    let mut out: Vec<Vec<char>> = Vec::new();
    let mut i: usize = 0;
    while i < comps.len()
        invariant
            i <= comps@.len(),
            views(out@) == views(comps@).take(i as int).filter(|p: Seq<char>| p.len() > 0),
        decreases comps@.len() - i,
    {
        let ghost before = views(out@);
        proof {
            let t = views(comps@).take(i + 1);
            assert(t.drop_last() =~= views(comps@).take(i as int));
            reveal_with_fuel(Seq::filter, 1);
        }
        if comps[i].len() > 0 {
            out.push(comps[i].clone());
            assert(views(out@) =~= before.push(comps@[i as int]@));
        }
        i = i + 1;
    }
    assert(views(comps@).take(comps@.len() as int) =~= views(comps@));
    out
}

/// Expresses `target` as a path relative to `from_dir`. Both are
/// root-relative slash-separated paths.
pub fn make_url_relative(from_dir: &str, target: &str) -> (r: String)
    ensures
        r@ == relative_url(from_dir@, target@),
{
    let fv = chars_of(from_dir);
    let tv = chars_of(target);
    let from = nonempty_parts(&fv);
    let to = nonempty_parts(&tv);
    let mut common: usize = 0;
    while common < from.len() && common < to.len() && chars_eq(&from[common], &to[common])
        invariant
            common <= from@.len(),
            common <= to@.len(),
            forall|j: int| 0 <= j < common ==> views(from@)[j] == views(to@)[j],
        decreases from@.len() - common,
    {
        common = common + 1;
    }
    proof {
        lemma_common_prefix_len(views(from@), views(to@), common as int);
    }
    let n_ups = from.len() - common;
    let mut parts: Vec<Vec<char>> = Vec::new();
    let mut k: usize = 0;
    while k < n_ups
        invariant
            k <= n_ups,
            views(parts@) =~= ups(k as nat),
        decreases n_ups - k,
    {
        let mut up: Vec<char> = Vec::new();
        up.push('.');
        up.push('.');
        assert(up@ =~= seq!['.', '.']);
        let ghost before = views(parts@);
        parts.push(up);
        assert(views(parts@) =~= before.push(seq!['.', '.']));
        k = k + 1;
    }
    let mut j = common;
    while j < to.len()
        invariant
            common <= j <= to@.len(),
            views(parts@) =~= ups(n_ups as nat) + views(to@).subrange(common as int, j as int),
        decreases to@.len() - j,
    {
        let ghost before = views(parts@);
        parts.push(to[j].clone());
        assert(views(parts@) =~= before.push(views(to@)[j as int]));
        j = j + 1;
    }
    assert(views(to@).subrange(common as int, to@.len() as int) =~= views(to@).skip(common as int));
    let dot: [char; 1] = ['.'];
    let slash: [char; 1] = ['/'];
    assert(dot@ == seq!['.'] && slash@ == seq!['/']);
    if parts.len() == 0 {
        string_from_chars(&dot)
    } else {
        let out = join_chars(&parts, &slash);
        string_from_chars(&out)
    }
}

/// Whether a CSS `url()` value is absolute and should not be rewritten.
pub open spec fn is_absolute_css_url(url: Seq<char>) -> bool {
    ||| starts_with(url, seq!['h', 't', 't', 'p', ':', '/', '/'])
    ||| starts_with(url, seq!['h', 't', 't', 'p', 's', ':', '/', '/'])
    ||| starts_with(url, seq!['d', 'a', 't', 'a', ':'])
    ||| starts_with(url, seq!['/', '/'])
    ||| starts_with(url, seq!['/'])
    ||| starts_with(url, seq!['#'])
}

/// Returns `true` if a CSS `url()` value is absolute and should not be rewritten.
pub fn is_css_url_absolute(url: &str) -> (r: bool)
    ensures
        r == is_absolute_css_url(url@),
{
    let v = chars_of(url);
    let http: [char; 7] = ['h', 't', 't', 'p', ':', '/', '/'];
    let https: [char; 8] = ['h', 't', 't', 'p', 's', ':', '/', '/'];
    let data: [char; 5] = ['d', 'a', 't', 'a', ':'];
    let two: [char; 2] = ['/', '/'];
    let one: [char; 1] = ['/'];
    let hash: [char; 1] = ['#'];
    assert(http@ == seq!['h', 't', 't', 'p', ':', '/', '/']);
    assert(https@ == seq!['h', 't', 't', 'p', 's', ':', '/', '/']);
    assert(data@ == seq!['d', 'a', 't', 'a', ':']);
    assert(two@ == seq!['/', '/'] && one@ == seq!['/'] && hash@ == seq!['#']);
    starts_with_exec(&v, &http) || starts_with_exec(&v, &https) || starts_with_exec(&v, &data)
        || starts_with_exec(&v, &two) || starts_with_exec(&v, &one) || starts_with_exec(&v, &hash)
}


/// Normalizing parts from left to right, starting from the parts `acc`.
pub open spec fn normalize_from(acc: Seq<Seq<char>>, parts: Seq<Seq<char>>) -> Seq<Seq<char>>
    decreases parts.len(),
{
    if parts.len() == 0 {
        acc
    } else {
        normalize_step(normalize_from(acc, parts.drop_last()), parts.last())
    }
}

/// Whether a piece of a path is neither `.` nor `..`.
pub open spec fn undotted(p: Seq<char>) -> bool {
    p != seq!['.'] && p != seq!['.', '.']
}

/// Whether no slash-separated piece of a path is `.` or `..`.
pub open spec fn undotted_path(s: Seq<char>) -> bool {
    forall|i: int| 0 <= i < split_on(s, '/').len() ==> undotted(#[trigger] split_on(s, '/')[i])
}

proof fn lemma_normalize_from_empty(parts: Seq<Seq<char>>)
    ensures
        normalize_parts(parts) == normalize_from(seq![], parts),
    decreases parts.len(),
{
    if parts.len() > 0 {
        lemma_normalize_from_empty(parts.drop_last());
    }
}

proof fn lemma_normalize_append(acc: Seq<Seq<char>>, xs: Seq<Seq<char>>, ys: Seq<Seq<char>>)
    ensures
        normalize_from(acc, xs + ys) == normalize_from(normalize_from(acc, xs), ys),
    decreases ys.len(),
{
    if ys.len() == 0 {
        assert(xs + ys =~= xs);
    } else {
        lemma_normalize_append(acc, xs, ys.drop_last());
        assert((xs + ys).drop_last() =~= xs + ys.drop_last());
        assert((xs + ys).last() == ys.last());
    }
}

proof fn lemma_normalize_undotted(acc: Seq<Seq<char>>, parts: Seq<Seq<char>>)
    requires
        forall|i: int| 0 <= i < parts.len() ==> undotted(#[trigger] parts[i]),
    ensures
        normalize_from(acc, parts) == acc + parts.filter(|p: Seq<char>| p.len() > 0),
    decreases parts.len(),
{
    reveal_with_fuel(Seq::filter, 1);
    if parts.len() == 0 {
        assert(acc + parts.filter(|p: Seq<char>| p.len() > 0) =~= acc);
    } else {
        let init = parts.drop_last();
        assert forall|i: int| 0 <= i < init.len() implies undotted(#[trigger] init[i]) by {
            assert(init[i] == parts[i]);
        }
        lemma_normalize_undotted(acc, init);
        let l = parts.last();
        assert(undotted(l));
        let f = init.filter(|p: Seq<char>| p.len() > 0);
        if l.len() > 0 {
            assert((acc + f).push(l) =~= acc + f.push(l));
        }
    }
}

proof fn lemma_filter_parts(ps: Seq<Seq<char>>, f: Seq<Seq<char>>)
    requires
        forall|i: int| 0 <= i < ps.len() ==> lacks(#[trigger] ps[i], '/') && undotted(ps[i]),
        f == ps.filter(|p: Seq<char>| p.len() > 0),
    ensures
        forall|i: int| 0 <= i < f.len() ==> lacks(#[trigger] f[i], '/') && undotted(f[i]) && f[i].len() > 0,
    decreases ps.len(),
{
    reveal_with_fuel(Seq::filter, 1);
    if ps.len() > 0 {
        let init = ps.drop_last();
        assert forall|i: int| 0 <= i < init.len() implies lacks(#[trigger] init[i], '/') && undotted(init[i]) by {
            assert(init[i] == ps[i]);
        }
        let g = init.filter(|p: Seq<char>| p.len() > 0);
        lemma_filter_parts(init, g);
        assert(lacks(ps.last(), '/') && undotted(ps.last()));
        assert forall|i: int| 0 <= i < f.len() implies lacks(#[trigger] f[i], '/') && undotted(f[i]) && f[i].len() > 0 by {
            if i < g.len() {
                assert(f[i] == g[i]);
            }
        }
    }
}

proof fn lemma_normalize_ups(acc: Seq<Seq<char>>, k: nat)
    requires
        k <= acc.len(),
    ensures
        normalize_from(acc, ups(k)) == acc.take(acc.len() - k),
    decreases k,
{
    if k == 0 {
        assert(ups(0) =~= Seq::<Seq<char>>::empty());
        assert(acc.take(acc.len() as int) =~= acc);
    } else {
        lemma_normalize_ups(acc, (k - 1) as nat);
        assert(ups(k).drop_last() =~= ups((k - 1) as nat));
        assert(ups(k).last() == seq!['.', '.']);
        assert(acc.take(acc.len() - k + 1).drop_last() =~= acc.take(acc.len() - k));
    }
}

proof fn lemma_normalize_names(acc: Seq<Seq<char>>, names: Seq<Seq<char>>)
    requires
        forall|i: int| 0 <= i < names.len() ==> (#[trigger] names[i]).len() > 0 && undotted(names[i]),
    ensures
        normalize_from(acc, names) == acc + names,
    decreases names.len(),
{
    if names.len() == 0 {
        assert(acc + names =~= acc);
    } else {
        let init = names.drop_last();
        assert forall|i: int| 0 <= i < init.len() implies (#[trigger] init[i]).len() > 0 && undotted(init[i]) by {
            assert(init[i] == names[i]);
        }
        lemma_normalize_names(acc, init);
        assert(names.last().len() > 0 && undotted(names.last()));
        assert((acc + init).push(names.last()) =~= acc + names);
    }
}

proof fn lemma_common_prefix(a: Seq<Seq<char>>, b: Seq<Seq<char>>)
    ensures
        common_prefix_len(a, b) <= a.len(),
        common_prefix_len(a, b) <= b.len(),
        forall|j: int| 0 <= j < common_prefix_len(a, b) ==> #[trigger] a[j] == b[j],
    decreases a.len(),
{
    if !(a.len() == 0 || b.len() == 0 || a[0] != b[0]) {
        lemma_common_prefix(a.drop_first(), b.drop_first());
        assert forall|j: int| 0 <= j < common_prefix_len(a, b) implies #[trigger] a[j] == b[j] by {
            if j > 0 {
                assert(a[j] == a.drop_first()[j - 1]);
                assert(b[j] == b.drop_first()[j - 1]);
            }
        }
    }
}

proof fn lemma_split_concat_any(a: Seq<char>, b: Seq<char>, c: char)
    ensures
        split_on(a + seq![c] + b, c) == split_on(a, c) + split_on(b, c),
    decreases a.len(),
{
    let i = first_index_of(a, c);
    lemma_first_index_of(a, c);
    let s = a + seq![c] + b;
    if i < a.len() {
        lemma_first_index_of_unique(s, c, i);
        assert(s.take(i) =~= a.take(i));
        assert(s.skip(i + 1) =~= a.skip(i + 1) + seq![c] + b);
        lemma_split_concat_any(a.skip(i + 1), b, c);
        assert(split_on(s, c) =~= split_on(a, c) + split_on(b, c));
    } else {
        assert(lacks(a, c));
        lemma_split_concat(a, b, c);
        lemma_split_single(a, c);
    }
}

/// Following the relative URL from the directory leads to the target: the
/// directory, a slash and [`relative_url`] of the target normalize to what
/// the target normalizes to, where no slash-separated piece of either is
/// `.` or `..`.
pub proof fn law_relative_url_round_trip(from_dir: Seq<char>, target: Seq<char>)
    requires
        undotted_path(from_dir),
        undotted_path(target),
    ensures
        normalized_url(from_dir + seq!['/'] + relative_url(from_dir, target)) == normalized_url(target),
{
    let fs = split_on(from_dir, '/');
    let ts = split_on(target, '/');
    let from = path_parts(from_dir);
    let to = path_parts(target);
    let common = common_prefix_len(from, to);
    lemma_common_prefix(from, to);
    let k = (from.len() - common) as nat;
    let tail = to.skip(common as int);
    let parts = ups(k) + tail;
    let rel = relative_url(from_dir, target);
    lemma_split_lacks(from_dir, '/');
    lemma_split_lacks(target, '/');
    assert forall|i: int| 0 <= i < fs.len() implies lacks(#[trigger] fs[i], '/') && undotted(fs[i]) by {}
    assert forall|i: int| 0 <= i < ts.len() implies lacks(#[trigger] ts[i], '/') && undotted(ts[i]) by {}
    lemma_filter_parts(fs, from);
    lemma_filter_parts(ts, to);
    lemma_normalize_from_empty(ts);
    lemma_normalize_undotted(seq![], ts);
    assert(normalize_parts(ts) =~= to);
    lemma_split_concat_any(from_dir, rel, '/');
    let rs = split_on(rel, '/');
    lemma_normalize_from_empty(fs + rs);
    lemma_normalize_append(seq![], fs, rs);
    lemma_normalize_undotted(seq![], fs);
    assert(normalize_from(seq![], fs) =~= from);
    if parts.len() == 0 {
        assert(rel == seq!['.']);
        assert(lacks(seq!['.'], '/'));
        lemma_split_single(seq!['.'], '/');
        assert(rs == seq![seq!['.']]);
        assert(rs.drop_last() =~= Seq::<Seq<char>>::empty());
        assert(normalize_from(from, rs.drop_last()) == from);
        assert(rs.last() == seq!['.']);
        assert(normalize_step(from, seq!['.']) == from);
        assert(normalize_from(from, rs) == from);
        assert(from =~= to);
    } else {
        assert(rel == join_with(parts, seq!['/']));
        assert forall|i: int| 0 <= i < parts.len() implies lacks(#[trigger] parts[i], '/') by {
            if i >= k {
                assert(parts[i] == to[common + i - k]);
            } else {
                assert(parts[i] == seq!['.', '.']);
            }
        }
        lemma_split_join(parts, '/');
        lemma_normalize_append(from, ups(k), tail);
        lemma_normalize_ups(from, k);
        assert forall|i: int| 0 <= i < tail.len() implies (#[trigger] tail[i]).len() > 0 && undotted(tail[i]) by {
            assert(tail[i] == to[common + i]);
        }
        lemma_normalize_names(from.take(common as int), tail);
        assert(from.take(common as int) + tail =~= to);
    }
}

} // verus!
