//! Paths as sequences of components, compared and matched component by
//! component as `std::path::Path` does on Unix.

use vstd::prelude::*;
use crate::text::{append_chars, chars_eq, chars_of, join_with, split_chars, split_on, string_from_chars, views};

verus! {

/// A component of a path: its kind (1 the root, 2 the current directory,
/// 3 the parent directory, 4 a plain name) and, for a plain name, its
/// text. Kinds are numbered in the order components compare.
pub type PathComponent = (u8, Seq<char>);

/// The component that a part of a path after the first one gives: none
/// for an empty part or `.`, the parent directory for `..`, a plain name
/// otherwise.
pub open spec fn component_of(part: Seq<char>) -> Seq<PathComponent> {
    if part.len() == 0 || part == seq!['.'] {
        seq![]
    } else if part == seq!['.', '.'] {
        seq![(3u8, Seq::<char>::empty())]
    } else {
        seq![(4u8, part)]
    }
}

/// The components that the parts of a path after the first one give.
pub open spec fn later_components(parts: Seq<Seq<char>>) -> Seq<PathComponent>
    decreases parts.len(),
{
    if parts.len() == 0 {
        seq![]
    } else {
        later_components(parts.drop_last()) + component_of(parts.last())
    }
}

/// The components of a path, as `Path::components` gives them on Unix: a
/// leading `/` is the root; a leading `.` part is the current directory;
/// empty parts and later `.` parts are skipped.
pub open spec fn path_components(s: Seq<char>) -> Seq<PathComponent> {
    let parts = split_on(s, '/');
    let head = if s.len() > 0 && s[0] == '/' {
        seq![(1u8, Seq::<char>::empty())]
    } else if parts[0] == seq!['.'] {
        seq![(2u8, Seq::<char>::empty())]
    } else {
        component_of(parts[0])
    };
    head + later_components(parts.drop_first())
}

/// Whether `base` is a leading run of the components of `path`, as
/// `Path::starts_with` decides.
pub open spec fn path_starts_with(path: Seq<char>, base: Seq<char>) -> bool {
    let p = path_components(path);
    let b = path_components(base);
    b.len() <= p.len() && p.take(b.len() as int) == b
}

/// Text ordered character by character, a prefix first.
pub open spec fn chars_lt(a: Seq<char>, b: Seq<char>) -> bool
    decreases a.len(),
{
    if b.len() == 0 {
        false
    } else if a.len() == 0 {
        true
    } else if a[0] != b[0] {
        a[0] < b[0]
    } else {
        chars_lt(a.drop_first(), b.drop_first())
    }
}

/// Components ordered by kind, then plain names by their text.
pub open spec fn component_lt(a: PathComponent, b: PathComponent) -> bool {
    a.0 < b.0 || (a.0 == b.0 && chars_lt(a.1, b.1))
}

/// Component sequences ordered component by component, a prefix first.
pub open spec fn components_lt(a: Seq<PathComponent>, b: Seq<PathComponent>) -> bool
    decreases a.len(),
{
    if b.len() == 0 {
        false
    } else if a.len() == 0 {
        true
    } else if a[0] != b[0] {
        component_lt(a[0], b[0])
    } else {
        components_lt(a.drop_first(), b.drop_first())
    }
}

/// Paths ordered as `Path`'s `Ord` orders them: by their components.
pub open spec fn path_lt(a: Seq<char>, b: Seq<char>) -> bool {
    components_lt(path_components(a), path_components(b))
}

/// Exactly one of `a < b`, `a == b` and `b < a` holds, and `<` is
/// transitive, for text.
pub proof fn lemma_chars_order(a: Seq<char>, b: Seq<char>, c: Seq<char>)
    ensures
        !chars_lt(a, a),
        a != b ==> chars_lt(a, b) || chars_lt(b, a),
        !(chars_lt(a, b) && chars_lt(b, a)),
        chars_lt(a, b) && chars_lt(b, c) ==> chars_lt(a, c),
    decreases a.len(),
{
    if a.len() > 0 && b.len() > 0 && c.len() > 0 {
        lemma_chars_order(a.drop_first(), b.drop_first(), c.drop_first());
    }
    if a.len() > 0 {
        lemma_chars_order(a.drop_first(), a.drop_first(), a.drop_first());
    }
    if a.len() > 0 && b.len() > 0 {
        lemma_chars_order(a.drop_first(), b.drop_first(), a.drop_first());
    }
    if a.len() > 0 && b.len() > 0 && a[0] == b[0] && a != b {
        assert(a.drop_first() != b.drop_first()) by {
            if a.drop_first() == b.drop_first() {
                assert(a =~= seq![a[0]] + a.drop_first());
                assert(b =~= seq![b[0]] + b.drop_first());
            }
        }
    }
    if a.len() == 0 && b.len() == 0 {
        assert(a =~= b);
    }
}

/// Exactly one of `a < b`, `a == b` and `b < a` holds, and `<` is
/// transitive, for components.
pub proof fn lemma_component_order(a: PathComponent, b: PathComponent, c: PathComponent)
    ensures
        !component_lt(a, a),
        a != b ==> component_lt(a, b) || component_lt(b, a),
        !(component_lt(a, b) && component_lt(b, a)),
        component_lt(a, b) && component_lt(b, c) ==> component_lt(a, c),
{
    lemma_chars_order(a.1, b.1, c.1);
    lemma_chars_order(a.1, a.1, a.1);
    lemma_chars_order(b.1, a.1, c.1);
}

/// Exactly one of `a < b`, `a == b` and `b < a` holds, and `<` is
/// transitive, for component sequences.
pub proof fn lemma_components_order(
    a: Seq<PathComponent>,
    b: Seq<PathComponent>,
    c: Seq<PathComponent>,
)
    ensures
        !components_lt(a, a),
        a != b ==> components_lt(a, b) || components_lt(b, a),
        !(components_lt(a, b) && components_lt(b, a)),
        components_lt(a, b) && components_lt(b, c) ==> components_lt(a, c),
    decreases a.len(),
{
    if a.len() > 0 && b.len() > 0 && c.len() > 0 {
        lemma_components_order(a.drop_first(), b.drop_first(), c.drop_first());
        lemma_component_order(a[0], b[0], c[0]);
    }
    if a.len() > 0 {
        lemma_components_order(a.drop_first(), a.drop_first(), a.drop_first());
    }
    if a.len() > 0 && b.len() > 0 {
        lemma_component_order(a[0], b[0], a[0]);
        if a[0] == b[0] && a != b {
            assert(a.drop_first() != b.drop_first()) by {
                if a.drop_first() == b.drop_first() {
                    assert(a =~= seq![a[0]] + a.drop_first());
                    assert(b =~= seq![b[0]] + b.drop_first());
                }
            }
            lemma_components_order(a.drop_first(), b.drop_first(), a.drop_first());
        }
    }
    if a.len() == 0 && b.len() == 0 {
        assert(a =~= b);
    }
}

/// The views of components held in vectors.
pub open spec fn component_views(v: Seq<(u8, Vec<char>)>) -> Seq<PathComponent> {
    v.map_values(|c: (u8, Vec<char>)| (c.0, c.1@))
}

/// Appends the component that a later part of a path gives.
fn push_component(out: &mut Vec<(u8, Vec<char>)>, part: &Vec<char>)
    ensures
        component_views(final(out)@) == component_views(old(out)@) + component_of(part@),
{
    let dot: [char; 1] = ['.'];
    let dotdot: [char; 2] = ['.', '.'];
    assert(dot@ == seq!['.'] && dotdot@ == seq!['.', '.']);
    if part.len() == 0 || chars_eq(part, &dot) {
        assert(component_views(out@) + component_of(part@) =~= component_views(out@));
    } else if chars_eq(part, &dotdot) {
        out.push((3u8, Vec::new()));
        assert(component_views(out@) =~= component_views(old(out)@) + component_of(part@));
    } else {
        out.push((4u8, part.clone()));
        assert(component_views(out@) =~= component_views(old(out)@) + component_of(part@));
    }
}

proof fn lemma_split_on_nonempty(s: Seq<char>, c: char)
    ensures
        split_on(s, c).len() >= 1,
{
}

/// The components of a path.
pub fn components_of(p: &str) -> (r: Vec<(u8, Vec<char>)>)
    ensures
        component_views(r@) == path_components(p@),
{
    let v = chars_of(p);
    let parts = split_chars(&v, '/');
    let ghost pv = views(parts@);
    proof {
        lemma_split_on_nonempty(v@, '/');
    }
    assert(pv.len() == parts@.len());
    assert(pv[0] == parts@[0]@);
    let mut out: Vec<(u8, Vec<char>)> = Vec::new();
    let dot: [char; 1] = ['.'];
    assert(dot@ == seq!['.']);
    if v.len() > 0 && v[0] == '/' {
        out.push((1u8, Vec::new()));
    } else if chars_eq(&parts[0], &dot) {
        out.push((2u8, Vec::new()));
    } else {
        push_component(&mut out, &parts[0]);
    }
    let ghost head = component_views(out@);
    assert(component_views(out@) =~= head + later_components(pv.subrange(1, 1)));
    let mut i: usize = 1;
    while i < parts.len()
        invariant
            1 <= i <= parts@.len(),
            pv == views(parts@),
            component_views(out@) == head + later_components(pv.subrange(1, i as int)),
        decreases parts@.len() - i,
    {
        push_component(&mut out, &parts[i]);
        proof {
            let t = pv.subrange(1, i + 1);
            assert(t.drop_last() =~= pv.subrange(1, i as int));
            assert(t.last() == parts@[i as int]@);
        }
        i = i + 1;
    }
    assert(pv.subrange(1, pv.len() as int) =~= pv.drop_first());
    out
}

/// Whether text `a` comes before `b`.
pub fn chars_less(a: &Vec<char>, b: &Vec<char>) -> (r: bool)
    ensures
        r == chars_lt(a@, b@),
{
    let mut i: usize = 0;
    assert(a@.skip(0) =~= a@ && b@.skip(0) =~= b@);
    while i < a.len() && i < b.len() && a[i] == b[i]
        invariant
            i <= a@.len(),
            i <= b@.len(),
            chars_lt(a@, b@) == chars_lt(a@.skip(i as int), b@.skip(i as int)),
        decreases a@.len() - i,
    {
        assert(a@.skip(i as int).drop_first() =~= a@.skip(i + 1));
        assert(b@.skip(i as int).drop_first() =~= b@.skip(i + 1));
        i = i + 1;
    }
    if i == b.len() {
        false
    } else if i == a.len() {
        true
    } else {
        a[i] < b[i]
    }
}

/// Whether component `a` comes before `b`.
fn component_less(a: &(u8, Vec<char>), b: &(u8, Vec<char>)) -> (r: bool)
    ensures
        r == component_lt((a.0, a.1@), (b.0, b.1@)),
{
    a.0 < b.0 || (a.0 == b.0 && chars_less(&a.1, &b.1))
}

/// Whether the components `a` come before `b`.
fn components_less(a: &Vec<(u8, Vec<char>)>, b: &Vec<(u8, Vec<char>)>) -> (r: bool)
    ensures
        r == components_lt(component_views(a@), component_views(b@)),
{
    let ghost av = component_views(a@);
    let ghost bv = component_views(b@);
    let mut i: usize = 0;
    assert(av.skip(0) =~= av && bv.skip(0) =~= bv);
    loop
        invariant
            i <= a@.len(),
            i <= b@.len(),
            av == component_views(a@),
            bv == component_views(b@),
            components_lt(av, bv) == components_lt(av.skip(i as int), bv.skip(i as int)),
        decreases a@.len() - i,
    {
        if i == b.len() {
            return false;
        }
        if i == a.len() {
            return true;
        }
        let same = a[i].0 == b[i].0 && chars_eq(&a[i].1, &b[i].1);
        assert(av.skip(i as int)[0] == av[i as int] && bv.skip(i as int)[0] == bv[i as int]);
        if !same {
            assert(av[i as int] != bv[i as int]);
            return component_less(&a[i], &b[i]);
        }
        assert(av.skip(i as int).drop_first() =~= av.skip(i + 1));
        assert(bv.skip(i as int).drop_first() =~= bv.skip(i + 1));
        i = i + 1;
    }
}

/// Whether path `a` comes before path `b`.
pub fn path_less(a: &str, b: &str) -> (r: bool)
    ensures
        r == path_lt(a@, b@),
{
    let ca = components_of(a);
    let cb = components_of(b);
    components_less(&ca, &cb)
}

/// Whether `path` starts with the components of `base`.
pub fn path_starts_with_exec(path: &str, base: &str) -> (r: bool)
    ensures
        r == path_starts_with(path@, base@),
{
    let p = components_of(path);
    let b = components_of(base);
    let ghost pv = component_views(p@);
    let ghost bv = component_views(b@);
    assert(bv.len() == b@.len() && pv.len() == p@.len());
    assert(path_components(path@) == pv && path_components(base@) == bv);
    if b.len() > p.len() {
        assert(!path_starts_with(path@, base@));
        return false;
    }
    let mut i: usize = 0;
    while i < b.len()
        invariant
            i <= b@.len() <= p@.len(),
            pv == component_views(p@),
            bv == component_views(b@),
            path_components(path@) == pv,
            path_components(base@) == bv,
            forall|j: int| 0 <= j < i ==> pv[j] == bv[j],
        decreases b@.len() - i,
    {
        if !(p[i].0 == b[i].0 && chars_eq(&p[i].1, &b[i].1)) {
            assert(pv.take(bv.len() as int)[i as int] != bv[i as int]);
            return false;
        }
        i = i + 1;
    }
    assert(pv.take(bv.len() as int) =~= bv);
    true
}

/// A path being normalized: whether it starts at the root, and its parts.
pub type NormPath = (bool, Seq<Seq<char>>);

/// One step of normalizing: the root starts over, `.` is dropped, `..`
/// takes off the last part (or is kept when there is none to take off, or
/// the last is `..` too; at the root it is dropped), and a plain name is
/// added.
pub open spec fn norm_step(acc: NormPath, c: PathComponent) -> NormPath {
    if c.0 == 1 {
        (true, seq![])
    } else if c.0 == 2 {
        acc
    } else if c.0 == 3 {
        if acc.1.len() > 0 && acc.1.last() == seq!['.', '.'] {
            (acc.0, acc.1.push(seq!['.', '.']))
        } else if acc.1.len() > 0 {
            (acc.0, acc.1.drop_last())
        } else if acc.0 {
            acc
        } else {
            (false, seq![seq!['.', '.']])
        }
    } else {
        (acc.0, acc.1.push(c.1))
    }
}

/// Normalizing the components in order, from `acc`.
pub open spec fn norm_fold(acc: NormPath, cs: Seq<PathComponent>) -> NormPath
    decreases cs.len(),
{
    if cs.len() == 0 {
        acc
    } else {
        norm_step(norm_fold(acc, cs.drop_last()), cs.last())
    }
}

/// The text of a normalized path.
pub open spec fn norm_text(n: NormPath) -> Seq<char> {
    (if n.0 {
        seq!['/']
    } else {
        seq![]
    }) + join_with(n.1, seq!['/'])
}

/// A path with `.` components dropped and `..` components resolved
/// against what precedes them, as text.
pub open spec fn normalized_path(p: Seq<char>) -> Seq<char> {
    norm_text(norm_fold((false, seq![]), path_components(p)))
}

/// Normalizes a path; see [`normalized_path`].
pub fn normalize_path(p: &str) -> (r: String)
    ensures
        r@ == normalized_path(p@),
{
    let comps = components_of(p);
    let ghost cv = component_views(comps@);
    let mut rooted = false;
    let mut parts: Vec<Vec<char>> = Vec::new();
    let mut i: usize = 0;
    assert(cv.take(0) =~= Seq::<PathComponent>::empty());
    while i < comps.len()
        invariant
            i <= comps@.len(),
            cv == component_views(comps@),
            cv.len() == comps@.len(),
            (rooted, views(parts@)) == norm_fold((false, seq![]), cv.take(i as int)),
        decreases comps@.len() - i,
    {
        let kind = comps[i].0;
        let ghost acc = (rooted, views(parts@));
        assert(cv[i as int] == (kind, comps@[i as int].1@));
        if kind == 1 {
            rooted = true;
            parts = Vec::new();
            assert(views(parts@) =~= Seq::<Seq<char>>::empty());
        } else if kind == 2 {
        } else if kind == 3 {
            let dd: [char; 2] = ['.', '.'];
            assert(dd@ == seq!['.', '.']);
            let n = parts.len();
            if n > 0 && chars_eq(&parts[n - 1], &dd) {
                parts.push(vec!['.', '.']);
                assert(views(parts@) =~= acc.1.push(seq!['.', '.']));
            } else if n > 0 {
                parts.pop();
                assert(views(parts@) =~= acc.1.drop_last());
            } else if rooted {
            } else {
                parts.push(vec!['.', '.']);
                assert(views(parts@) =~= seq![seq!['.', '.']]);
            }
        } else {
            let t = comps[i].1.clone();
            parts.push(t);
            assert(views(parts@) =~= acc.1.push(comps@[i as int].1@));
        }
        proof {
            let tk = cv.take(i + 1);
            assert(tk.drop_last() =~= cv.take(i as int));
            assert(tk.last() == cv[i as int]);
        }
        i = i + 1;
    }
    assert(cv.take(comps@.len() as int) =~= cv);
    let mut out: Vec<char> = Vec::new();
    if rooted {
        out.push('/');
    }
    let sep: [char; 1] = ['/'];
    assert(sep@ == seq!['/']);
    let joined = crate::text::join_chars(&parts, &sep);
    append_chars(&mut out, &joined);
    assert(out@ =~= norm_text((rooted, views(parts@))));
    string_from_chars(&out)
}


/// Whether `c` does not occur in `p`.
pub open spec fn lacks(p: Seq<char>, c: char) -> bool {
    forall|j: int| 0 <= j < p.len() ==> p[j] != c
}

/// A part of a path that names a file or directory: not empty, without a
/// slash, and neither `.` nor `..`.
pub open spec fn plain_name(p: Seq<char>) -> bool {
    p.len() > 0 && lacks(p, '/') && p != seq!['.'] && p != seq!['.', '.']
}

/// Whether a path is one that normalizing gives: its parts are plain names
/// or `..`; a rooted one has no `..`; every `..` comes before every name.
pub open spec fn normal_form(rooted: bool, parts: Seq<Seq<char>>) -> bool {
    &&& forall|i: int| 0 <= i < parts.len() ==> plain_name(#[trigger] parts[i]) || parts[i] == seq!['.', '.']
    &&& rooted ==> forall|i: int| 0 <= i < parts.len() ==> #[trigger] parts[i] != seq!['.', '.']
    &&& forall|i: int, j: int| 0 <= i < j < parts.len() && #[trigger] parts[j] == seq!['.', '.'] ==> #[trigger] parts[i] == seq!['.', '.']
}

/// The component that a part of a normalized path gives.
pub open spec fn part_component(p: Seq<char>) -> PathComponent {
    if p == seq!['.', '.'] {
        (3u8, Seq::<char>::empty())
    } else {
        (4u8, p)
    }
}

/// Whether a component is one that a path's text can give: a plain name
/// when it is one.
pub open spec fn good_component(c: PathComponent) -> bool {
    1 <= c.0 <= 4 && (c.0 == 4 ==> plain_name(c.1))
}

pub(crate) proof fn lemma_split_lacks(s: Seq<char>, c: char)
    ensures
        forall|i: int| 0 <= i < split_on(s, c).len() ==> lacks(#[trigger] split_on(s, c)[i], c),
    decreases s.len(),
{
    let i = crate::text::first_index_of(s, c);
    crate::text::lemma_first_index_of(s, c);
    if i < s.len() {
        lemma_split_lacks(s.skip(i + 1), c);
        let r = split_on(s, c);
        assert(r == seq![s.take(i)] + split_on(s.skip(i + 1), c));
        assert forall|k: int| 0 <= k < r.len() implies lacks(#[trigger] r[k], c) by {
            if k > 0 {
                assert(r[k] == split_on(s.skip(i + 1), c)[k - 1]);
            }
        }
    }
}

pub(crate) proof fn lemma_split_single(a: Seq<char>, c: char)
    requires
        lacks(a, c),
    ensures
        split_on(a, c) == seq![a],
{
    crate::text::lemma_first_index_of_unique(a, c, a.len() as int);
}

pub(crate) proof fn lemma_split_concat(a: Seq<char>, b: Seq<char>, c: char)
    requires
        lacks(a, c),
    ensures
        split_on(a + seq![c] + b, c) == seq![a] + split_on(b, c),
{
    let s = a + seq![c] + b;
    crate::text::lemma_first_index_of_unique(s, c, a.len() as int);
    assert(s.take(a.len() as int) =~= a);
    assert(s.skip(a.len() as int + 1) =~= b);
}

proof fn lemma_join_front(parts: Seq<Seq<char>>, sep: Seq<char>)
    requires
        parts.len() >= 2,
    ensures
        join_with(parts, sep) == parts[0] + sep + join_with(parts.drop_first(), sep),
    decreases parts.len(),
{
    let dl = parts.drop_last();
    let df = parts.drop_first();
    assert(join_with(parts, sep) == join_with(dl, sep) + sep + parts.last());
    if parts.len() > 2 {
        lemma_join_front(dl, sep);
        assert(dl.drop_first() =~= df.drop_last());
        assert(df.last() == parts.last());
        assert(df.len() >= 2);
        assert(join_with(df, sep) == join_with(df.drop_last(), sep) + sep + df.last());
        assert(dl[0] == parts[0]);
        assert(join_with(parts, sep) =~= parts[0] + sep + join_with(df, sep));
    } else {
        assert(dl.len() == 1 && dl[0] == parts[0]);
        assert(df.len() == 1 && df[0] == parts[1]);
        assert(join_with(df, sep) == parts[1]);
        assert(join_with(dl, sep) == parts[0]);
    }
}

pub(crate) proof fn lemma_split_join(parts: Seq<Seq<char>>, c: char)
    requires
        parts.len() >= 1,
        forall|i: int| 0 <= i < parts.len() ==> lacks(#[trigger] parts[i], c),
    ensures
        split_on(join_with(parts, seq![c]), c) == parts,
        parts[0].len() > 0 ==> join_with(parts, seq![c])[0] == parts[0][0],
    decreases parts.len(),
{
    if parts.len() == 1 {
        assert(lacks(parts[0], c));
        lemma_split_single(parts[0], c);
        assert(seq![parts[0]] =~= parts);
    } else {
        lemma_join_front(parts, seq![c]);
        let rest = parts.drop_first();
        assert forall|i: int| 0 <= i < rest.len() implies lacks(#[trigger] rest[i], c) by {
            assert(rest[i] == parts[i + 1]);
        }
        lemma_split_join(rest, c);
        assert(lacks(parts[0], c));
        lemma_split_concat(parts[0], join_with(rest, seq![c]), c);
        assert(seq![parts[0]] + rest =~= parts);
    }
}

proof fn lemma_later_parts(parts: Seq<Seq<char>>)
    requires
        forall|i: int| 0 <= i < parts.len() ==> plain_name(#[trigger] parts[i]) || parts[i] == seq!['.', '.'],
    ensures
        later_components(parts) == parts.map_values(|p: Seq<char>| part_component(p)),
    decreases parts.len(),
{
    if parts.len() > 0 {
        let init = parts.drop_last();
        assert forall|i: int| 0 <= i < init.len() implies plain_name(#[trigger] init[i]) || init[i] == seq!['.', '.'] by {
            assert(init[i] == parts[i]);
        }
        lemma_later_parts(init);
        let l = parts.last();
        assert(plain_name(l) || l == seq!['.', '.']);
        assert(component_of(l) == seq![part_component(l)]);
        assert(parts.map_values(|p: Seq<char>| part_component(p)) =~= init.map_values(|p: Seq<char>| part_component(p)).push(part_component(l)));
    }
}

proof fn lemma_later_good(parts: Seq<Seq<char>>)
    requires
        forall|i: int| 0 <= i < parts.len() ==> lacks(#[trigger] parts[i], '/'),
    ensures
        forall|i: int| 0 <= i < later_components(parts).len() ==> good_component(#[trigger] later_components(parts)[i]),
    decreases parts.len(),
{
    if parts.len() > 0 {
        let init = parts.drop_last();
        assert forall|i: int| 0 <= i < init.len() implies lacks(#[trigger] init[i], '/') by {
            assert(init[i] == parts[i]);
        }
        lemma_later_good(init);
        let l = parts.last();
        assert(lacks(l, '/'));
        let lc = later_components(parts);
        assert(lc == later_components(init) + component_of(l));
        assert forall|i: int| 0 <= i < lc.len() implies good_component(#[trigger] lc[i]) by {
            if i >= later_components(init).len() {
                assert(lc[i] == component_of(l)[i - later_components(init).len()]);
            } else {
                assert(lc[i] == later_components(init)[i]);
            }
        }
    }
}

proof fn lemma_components_good(p: Seq<char>)
    ensures
        forall|i: int| 0 <= i < path_components(p).len() ==> good_component(#[trigger] path_components(p)[i]),
{
    let parts = split_on(p, '/');
    lemma_split_on_nonempty(p, '/');
    lemma_split_lacks(p, '/');
    let rest = parts.drop_first();
    assert forall|i: int| 0 <= i < rest.len() implies lacks(#[trigger] rest[i], '/') by {
        assert(rest[i] == parts[i + 1]);
    }
    lemma_later_good(rest);
    assert(lacks(parts[0], '/'));
    let head = if p.len() > 0 && p[0] == '/' {
        seq![(1u8, Seq::<char>::empty())]
    } else if parts[0] == seq!['.'] {
        seq![(2u8, Seq::<char>::empty())]
    } else {
        component_of(parts[0])
    };
    let cs = path_components(p);
    assert(cs == head + later_components(rest));
    assert forall|i: int| 0 <= i < cs.len() implies good_component(#[trigger] cs[i]) by {
        if i >= head.len() {
            assert(cs[i] == later_components(rest)[i - head.len()]);
        } else {
            assert(cs[i] == head[i]);
        }
    }
}

proof fn lemma_step_normal(a: NormPath, c: PathComponent)
    requires
        normal_form(a.0, a.1),
        good_component(c),
    ensures
        normal_form(norm_step(a, c).0, norm_step(a, c).1),
{
    let r = norm_step(a, c);
    let dd = seq!['.', '.'];
    if c.0 == 1 || c.0 == 2 {
    } else if c.0 == 3 {
        if a.1.len() > 0 && a.1.last() == dd {
            assert(!a.0);
            assert(r.1 == a.1.push(dd));
            assert forall|i: int| 0 <= i < r.1.len() implies plain_name(#[trigger] r.1[i]) || r.1[i] == dd by {
                if i < a.1.len() {
                    assert(r.1[i] == a.1[i]);
                }
            }
            assert forall|i: int, j: int| 0 <= i < j < r.1.len() && #[trigger] r.1[j] == dd implies #[trigger] r.1[i] == dd by {
                assert(r.1[i] == a.1[i]);
                if j < a.1.len() {
                    assert(r.1[j] == a.1[j]);
                } else {
                    let k = a.1.len() - 1;
                    if i < k {
                        assert(a.1[k] == dd);
                    }
                }
            }
        } else if a.1.len() > 0 {
            assert(r.1 == a.1.drop_last());
            assert forall|i: int| 0 <= i < r.1.len() implies #[trigger] r.1[i] == a.1[i] by {}
            assert forall|i: int, j: int| 0 <= i < j < r.1.len() && #[trigger] r.1[j] == dd implies #[trigger] r.1[i] == dd by {
                assert(r.1[i] == a.1[i] && r.1[j] == a.1[j]);
            }
        } else if a.0 {
        } else {
            assert(r.1 == seq![dd]);
        }
    } else {
        assert(plain_name(c.1));
        assert(r.1 == a.1.push(c.1));
        assert forall|i: int| 0 <= i < r.1.len() implies plain_name(#[trigger] r.1[i]) || r.1[i] == dd by {
            if i < a.1.len() {
                assert(r.1[i] == a.1[i]);
            }
        }
        assert forall|i: int, j: int| 0 <= i < j < r.1.len() && #[trigger] r.1[j] == dd implies #[trigger] r.1[i] == dd by {
            assert(r.1[i] == a.1[i]);
            assert(j < a.1.len());
            assert(r.1[j] == a.1[j]);
        }
    }
}

proof fn lemma_fold_normal(acc: NormPath, cs: Seq<PathComponent>)
    requires
        normal_form(acc.0, acc.1),
        forall|i: int| 0 <= i < cs.len() ==> good_component(#[trigger] cs[i]),
    ensures
        normal_form(norm_fold(acc, cs).0, norm_fold(acc, cs).1),
    decreases cs.len(),
{
    if cs.len() > 0 {
        let init = cs.drop_last();
        assert forall|i: int| 0 <= i < init.len() implies good_component(#[trigger] init[i]) by {
            assert(init[i] == cs[i]);
        }
        lemma_fold_normal(acc, init);
        assert(good_component(cs.last()));
        lemma_step_normal(norm_fold(acc, init), cs.last());
    }
}

proof fn lemma_fold_parts(r: bool, parts: Seq<Seq<char>>)
    requires
        normal_form(r, parts),
    ensures
        norm_fold((r, seq![]), parts.map_values(|p: Seq<char>| part_component(p))) == (r, parts),
    decreases parts.len(),
{
    let cs = parts.map_values(|p: Seq<char>| part_component(p));
    if parts.len() > 0 {
        let init = parts.drop_last();
        assert forall|i: int| 0 <= i < init.len() implies plain_name(#[trigger] init[i]) || init[i] == seq!['.', '.'] by {
            assert(init[i] == parts[i]);
        }
        assert(r ==> forall|i: int| 0 <= i < init.len() ==> #[trigger] init[i] != seq!['.', '.']) by {
            if r {
                assert forall|i: int| 0 <= i < init.len() implies #[trigger] init[i] != seq!['.', '.'] by {
                    assert(init[i] == parts[i]);
                }
            }
        }
        assert forall|i: int, j: int| 0 <= i < j < init.len() && #[trigger] init[j] == seq!['.', '.'] implies #[trigger] init[i] == seq!['.', '.'] by {
            assert(init[i] == parts[i] && init[j] == parts[j]);
        }
        lemma_fold_parts(r, init);
        assert(cs.drop_last() =~= init.map_values(|p: Seq<char>| part_component(p)));
        let l = parts.last();
        if l == seq!['.', '.'] {
            assert(!r);
            if init.len() > 0 {
                assert(parts[init.len() - 1] == seq!['.', '.']);
                assert(init.last() == seq!['.', '.']);
            }
        } else {
            assert(plain_name(l));
        }
        assert(init.push(l) =~= parts);
    } else {
        assert(cs.len() == 0);
    }
}

proof fn lemma_fold_append(acc: NormPath, xs: Seq<PathComponent>, ys: Seq<PathComponent>)
    ensures
        norm_fold(acc, xs + ys) == norm_fold(norm_fold(acc, xs), ys),
    decreases ys.len(),
{
    if ys.len() == 0 {
        assert(xs + ys =~= xs);
    } else {
        lemma_fold_append(acc, xs, ys.drop_last());
        assert((xs + ys).drop_last() =~= xs + ys.drop_last());
        assert((xs + ys).last() == ys.last());
    }
}

/// Normalizing the text of a normalized path gives it back.
proof fn lemma_renormalize(n: NormPath)
    requires
        normal_form(n.0, n.1),
    ensures
        norm_fold((false, seq![]), path_components(norm_text(n))) == n,
        path_components(norm_text(n)) == (if n.0 {
            seq![(1u8, Seq::<char>::empty())]
        } else {
            Seq::<PathComponent>::empty()
        }) + n.1.map_values(|p: Seq<char>| part_component(p)),
{
    let parts = n.1;
    let cs = parts.map_values(|p: Seq<char>| part_component(p));
    let s = norm_text(n);
    assert forall|i: int| 0 <= i < parts.len() implies lacks(#[trigger] parts[i], '/') by {
        assert(plain_name(parts[i]) || parts[i] == seq!['.', '.']);
    }
    lemma_later_parts(parts);
    lemma_fold_parts(n.0, parts);
    if n.0 {
        assert(s == seq!['/'] + join_with(parts, seq!['/']));
        assert(lacks(Seq::<char>::empty(), '/'));
        lemma_split_concat(Seq::<char>::empty(), join_with(parts, seq!['/']), '/');
        assert(Seq::<char>::empty() + seq!['/'] + join_with(parts, seq!['/']) =~= s);
        let sp = split_on(s, '/');
        if parts.len() == 0 {
            lemma_split_single(Seq::<char>::empty(), '/');
            assert(sp.drop_first() =~= seq![Seq::<char>::empty()]);
            assert(seq![Seq::<char>::empty()].drop_last() =~= Seq::<Seq<char>>::empty());
            assert(component_of(Seq::<char>::empty()) =~= seq![]);
            assert(later_components(seq![Seq::<char>::empty()]) =~= seq![]);
            assert(path_components(s) =~= seq![(1u8, Seq::<char>::empty())]);
            assert(path_components(s) =~= seq![(1u8, Seq::<char>::empty())] + cs);
        } else {
            lemma_split_join(parts, '/');
            assert(sp.drop_first() =~= parts);
            assert(path_components(s) =~= seq![(1u8, Seq::<char>::empty())] + cs);
            lemma_fold_append((false, seq![]), seq![(1u8, Seq::<char>::empty())], cs);
            assert(seq![(1u8, Seq::<char>::empty())].drop_last() =~= seq![]);
        }
    } else {
        assert(s =~= join_with(parts, seq!['/']));
        if parts.len() == 0 {
            assert(split_on(s, '/') == seq![s]);
            assert(path_components(s) =~= seq![]);
            assert(path_components(s) =~= Seq::<PathComponent>::empty() + cs);
        } else {
            lemma_split_join(parts, '/');
            assert(plain_name(parts[0]) || parts[0] == seq!['.', '.']);
            assert(s[0] == parts[0][0]);
            assert(parts[0][0] != '/');
            assert(component_of(parts[0]) == seq![part_component(parts[0])]);
            lemma_later_parts(parts.drop_first());
            assert(parts.drop_first().map_values(|p: Seq<char>| part_component(p)) =~= cs.drop_first());
            assert(path_components(s) =~= cs);
            assert(path_components(s) =~= Seq::<PathComponent>::empty() + cs);
        }
    }
}

/// Whether components have no current-directory part, and no parent part
/// after a root or a name.
pub open spec fn settled_components(cs: Seq<PathComponent>) -> bool {
    &&& forall|i: int| 0 <= i < cs.len() ==> (#[trigger] cs[i]).0 != 2
    &&& forall|i: int, j: int| 0 <= j < i < cs.len() && (#[trigger] cs[i]).0 == 3 ==> (#[trigger] cs[j]).0 == 3
}

/// A normalized path has no `.` component, and no `..` component after a
/// root or a name.
pub proof fn law_normalized_path_is_settled(p: Seq<char>)
    ensures
        settled_components(path_components(normalized_path(p))),
{
    let n = norm_fold((false, seq![]), path_components(p));
    lemma_components_good(p);
    assert(normal_form(false, Seq::<Seq<char>>::empty()));
    lemma_fold_normal((false, seq![]), path_components(p));
    lemma_renormalize(n);
    let pre = if n.0 {
        seq![(1u8, Seq::<char>::empty())]
    } else {
        Seq::<PathComponent>::empty()
    };
    let cs = path_components(normalized_path(p));
    let m = n.1.map_values(|q: Seq<char>| part_component(q));
    assert(cs == pre + m);
    assert forall|i: int| 0 <= i < cs.len() implies (#[trigger] cs[i]).0 != 2 by {
        if i >= pre.len() {
            assert(cs[i] == m[i - pre.len()]);
        }
    }
    assert forall|i: int, j: int| 0 <= j < i < cs.len() && (#[trigger] cs[i]).0 == 3 implies (#[trigger] cs[j]).0 == 3 by {
        if i < pre.len() {
        } else {
            let k = i - pre.len();
            assert(cs[i] == m[k]);
            assert(plain_name(n.1[k]) || n.1[k] == seq!['.', '.']);
            assert(n.1[k] == seq!['.', '.']);
            assert(!n.0);
            assert(cs[j] == m[j]);
            assert(n.1[j] == seq!['.', '.']);
        }
    }
}

/// Normalizing a path twice gives what normalizing it once gives.
pub proof fn law_normalize_path_idempotent(p: Seq<char>)
    ensures
        normalized_path(normalized_path(p)) == normalized_path(p),
{
    let n = norm_fold((false, seq![]), path_components(p));
    lemma_components_good(p);
    assert(normal_form(false, Seq::<Seq<char>>::empty()));
    lemma_fold_normal((false, seq![]), path_components(p));
    lemma_renormalize(n);
}

} // verus!
