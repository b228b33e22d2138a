//! Which preprocessors run for a book, and in what order.
//!
//! The preprocessors are the default ones (`links` and `index`, unless the
//! configuration turns them off) and those of the `preprocessor` tables.
//! A table's `before` and `after` lists order it against the others; names
//! that are not preprocessors of the book are ignored there. The
//! preprocessors run in rounds: each round takes every remaining one that
//! no remaining one must precede, in order of name; when none can be taken
//! while some remain, the order is cyclic.

use vstd::prelude::*;
use topological_sort::TopologicalSort;
use crate::dependency_graph::{
    graph_add_dependency, graph_edges, graph_insert, graph_is_empty, graph_new, graph_nodes,
    graph_pop_all, ready_nodes,
};
use crate::ids::string_views;
use crate::path_order::{chars_less, chars_lt, lemma_chars_order};
use crate::renderers::{index_name, links_name, CmdPreprocessor};
use crate::text::{append_chars, chars_eq, chars_of, string_from_chars};

verus! {

/// A `preprocessor` table of the configuration.
pub struct PreprocessorConfig {
    /// The command to run; `mdbook-` and the name when there is none.
    pub command: Option<String>,
    /// Preprocessors this one runs before.
    pub before: Vec<String>,
    /// Preprocessors this one runs after.
    pub after: Vec<String>,
    /// Whether a missing command is ignored.
    pub optional: bool,
}

/// A preprocessor chosen to run.
pub enum PreprocessorChoice {
    /// The built-in `links` preprocessor.
    Links,
    /// The built-in `index` preprocessor.
    Index,
    /// A preprocessor that runs a command.
    Command(CmdPreprocessor),
}

impl PreprocessorChoice {
    /// The name of the chosen preprocessor.
    pub fn name(&self) -> (r: String)
        ensures
            r@ == match self {
                PreprocessorChoice::Links => links_name(),
                PreprocessorChoice::Index => index_name(),
                PreprocessorChoice::Command(p) => p.name_spec(),
            },
    {
        match self {
            PreprocessorChoice::Links => string_from_chars(&['l', 'i', 'n', 'k', 's']),
            PreprocessorChoice::Index => string_from_chars(&['i', 'n', 'd', 'e', 'x']),
            PreprocessorChoice::Command(p) => p.name().to_owned(),
        }
    }
}

/// The names of the preprocessor tables.
pub open spec fn table_names(t: Seq<(String, PreprocessorConfig)>) -> Seq<Seq<char>> {
    t.map_values(|e: (String, PreprocessorConfig)| e.0@)
}

/// The default preprocessors, when they are in use.
pub open spec fn default_names(use_default: bool) -> Seq<Seq<char>> {
    if use_default {
        seq![links_name(), index_name()]
    } else {
        seq![]
    }
}

/// The names of the preprocessors of a book.
pub open spec fn pre_names(use_default: bool, t: Seq<(String, PreprocessorConfig)>) -> Set<
    Seq<char>,
> {
    (default_names(use_default) + table_names(t)).to_set()
}

/// The orderings that the `i`-th table asks for among the preprocessors
/// `names`: `(a, b)` says that `a` runs before `b`.
pub open spec fn entry_edges(
    t: Seq<(String, PreprocessorConfig)>,
    i: int,
    names: Set<Seq<char>>,
) -> Set<(Seq<char>, Seq<char>)> {
    Set::new(
        |e: (Seq<char>, Seq<char>)|
            (e.0 == t[i].0@ && string_views(t[i].1.before@).contains(e.1) && names.contains(e.1))
                || (e.1 == t[i].0@ && string_views(t[i].1.after@).contains(e.0) && names.contains(
                e.0,
            )),
    )
}

/// The orderings that the tables ask for.
pub open spec fn pre_edges(use_default: bool, t: Seq<(String, PreprocessorConfig)>) -> Set<
    (Seq<char>, Seq<char>),
> {
    Set::new(
        |e: (Seq<char>, Seq<char>)|
            exists|i: int|
                0 <= i < t.len() && #[trigger] entry_edges(t, i, pre_names(use_default, t)).contains(
                    e,
                ),
    )
}

/// The preprocessors of `n` that none of `n` must precede.
pub open spec fn ready_names(n: Set<Seq<char>>, e: Set<(Seq<char>, Seq<char>)>) -> Set<Seq<char>> {
    n.filter(|v: Seq<char>| forall|u: Seq<char>| n.contains(u) ==> !e.contains((u, v)))
}

/// Names in increasing order, each once.
pub open spec fn names_sorted(q: Seq<Seq<char>>) -> bool {
    forall|i: int, j: int| 0 <= i < j < q.len() ==> chars_lt(#[trigger] q[i], #[trigger] q[j])
}

/// The names of a finite set in increasing order.
pub open spec fn sorted_names(s: Set<Seq<char>>) -> Seq<Seq<char>> {
    choose|q: Seq<Seq<char>>| q.to_set() == s && names_sorted(q)
}

/// The nodes that are taken in a round are some of those that remain.
pub proof fn lemma_ready_shrinks(n: Set<Seq<char>>, e: Set<(Seq<char>, Seq<char>)>)
    requires
        n.finite(),
        !ready_names(n, e).is_empty(),
    ensures
        n.difference(ready_names(n, e)).len() < n.len(),
        n.difference(ready_names(n, e)).finite(),
{
    let r = ready_names(n, e);
    let x = r.choose();
    assert(r.contains(x));
    assert(n.difference(r).subset_of(n.remove(x)));
    vstd::set_lib::lemma_len_subset(n.difference(r), n.remove(x));
}

/// The order in which the preprocessors `n` run, given the orderings `e`:
/// round after round, the ones that none of the remaining ones must
/// precede, in order of name. `None` when some remain and none can be
/// taken: the orderings form a cycle.
pub open spec fn run_order(n: Set<Seq<char>>, e: Set<(Seq<char>, Seq<char>)>) -> Option<
    Seq<Seq<char>>,
>
    decreases n.len(),
    when n.finite()
{
    if n.is_empty() {
        Some(seq![])
    } else {
        let r = ready_names(n, e);
        if r.is_empty() {
            None
        } else {
            proof {
                lemma_ready_shrinks(n, e);
            }
            match run_order(n.difference(r), e) {
                Some(rest) => Some(sorted_names(r) + rest),
                None => None,
            }
        }
    }
}

/// Two increasing sequences of the same names are the same.
pub proof fn lemma_sorted_unique(a: Seq<Seq<char>>, b: Seq<Seq<char>>)
    requires
        names_sorted(a),
        names_sorted(b),
        a.to_set() == b.to_set(),
    ensures
        a == b,
    decreases a.len(),
{
    if a.len() == 0 {
        if b.len() > 0 {
            assert(b.to_set().contains(b[0]));
        }
    } else if b.len() == 0 {
        assert(a.to_set().contains(a[0]));
    } else {
        // The first name of each is the least of the set.
        assert(a.to_set().contains(a[0]));
        assert(b.to_set().contains(b[0]));
        let ia = choose|i: int| 0 <= i < a.len() && a[i] == b[0];
        let ib = choose|i: int| 0 <= i < b.len() && b[i] == a[0];
        lemma_chars_order(a[0], b[0], a[0]);
        if ia > 0 {
            assert(chars_lt(a[0], a[ia]));
        }
        if ib > 0 {
            assert(chars_lt(b[0], b[ib]));
        }
        assert(a[0] == b[0]);
        let a1 = a.drop_first();
        let b1 = b.drop_first();
        assert forall|x: Seq<char>| a1.to_set().contains(x) implies b1.to_set().contains(x) by {
            let i = choose|i: int| 0 <= i < a1.len() && a1[i] == x;
            assert(a.to_set().contains(x)) by {
                assert(a[i + 1] == x);
            }
            let j = choose|j: int| 0 <= j < b.len() && b[j] == x;
            lemma_chars_order(a[0], x, a[0]);
            assert(chars_lt(a[0], a[i + 1]));
            if j == 0 {
                assert(false);
            }
            assert(b1[j - 1] == x);
        }
        assert forall|x: Seq<char>| b1.to_set().contains(x) implies a1.to_set().contains(x) by {
            let i = choose|i: int| 0 <= i < b1.len() && b1[i] == x;
            assert(b.to_set().contains(x)) by {
                assert(b[i + 1] == x);
            }
            let j = choose|j: int| 0 <= j < a.len() && a[j] == x;
            lemma_chars_order(b[0], x, b[0]);
            assert(chars_lt(b[0], b[i + 1]));
            if j == 0 {
                assert(false);
            }
            assert(a1[j - 1] == x);
        }
        assert(a1.to_set() =~= b1.to_set());
        lemma_sorted_unique(a1, b1);
        assert(a =~= seq![a[0]] + a1);
        assert(b =~= seq![b[0]] + b1);
    }
}

/// The ids of the names of `n`, where id `i` stands for `nv[i]`.
pub open spec fn id_set(nv: Seq<Seq<char>>, n: Set<Seq<char>>) -> Set<u64> {
    Set::new(|i: u64| i < nv.len() && n.contains(nv[i as int]))
}

/// The orderings `e` between ids, from the names of `n`.
pub open spec fn id_edges(
    nv: Seq<Seq<char>>,
    e: Set<(Seq<char>, Seq<char>)>,
    n: Set<Seq<char>>,
) -> Set<(u64, u64)> {
    Set::new(
        |p: (u64, u64)|
            p.0 < nv.len() && p.1 < nv.len() && n.contains(nv[p.0 as int]) && e.contains(
                (nv[p.0 as int], nv[p.1 as int]),
            ),
    )
}

/// The orderings asked for by the first `k` tables.
pub open spec fn edges_upto(t: Seq<(String, PreprocessorConfig)>, k: int, names: Set<Seq<char>>) -> Set<
    (Seq<char>, Seq<char>),
> {
    Set::new(
        |e: (Seq<char>, Seq<char>)|
            exists|i: int| 0 <= i < k && #[trigger] entry_edges(t, i, names).contains(e),
    )
}

/// The orderings asked for by the first `m` names of the `before` list of
/// table `k`.
pub open spec fn before_part(
    t: Seq<(String, PreprocessorConfig)>,
    k: int,
    m: int,
    names: Set<Seq<char>>,
) -> Set<(Seq<char>, Seq<char>)> {
    Set::new(
        |e: (Seq<char>, Seq<char>)|
            e.0 == t[k].0@ && string_views(t[k].1.before@).take(m).contains(e.1) && names.contains(
                e.1,
            ),
    )
}

/// The orderings asked for by the first `m` names of the `after` list of
/// table `k`.
pub open spec fn after_part(
    t: Seq<(String, PreprocessorConfig)>,
    k: int,
    m: int,
    names: Set<Seq<char>>,
) -> Set<(Seq<char>, Seq<char>)> {
    Set::new(
        |e: (Seq<char>, Seq<char>)|
            e.1 == t[k].0@ && string_views(t[k].1.after@).take(m).contains(e.0) && names.contains(
                e.0,
            ),
    )
}

/// The position of a name in a list of distinct names.
pub(crate) fn find_name(names: &Vec<String>, x: &str) -> (r: Option<usize>)
    ensures
        r matches Some(i) ==> i < names@.len() && names@[i as int]@ == x@,
        r is None ==> !string_views(names@).contains(x@),
{
    let xv = chars_of(x);
    let mut i: usize = 0;
    while i < names.len()
        invariant
            i <= names@.len(),
            xv@ == x@,
            forall|j: int| 0 <= j < i ==> names@[j]@ != x@,
        decreases names@.len() - i,
    {
        let nv = chars_of(names[i].as_str());
        if chars_eq(&nv, &xv) {
            return Some(i);
        }
        i = i + 1;
    }
    proof {
        if string_views(names@).contains(x@) {
            let j = choose|j: int| 0 <= j < string_views(names@).len() && string_views(names@)[j] == x@;
            assert(names@[j]@ == x@);
        }
    }
    None
}

/// The names of the preprocessors, each once: the defaults, then the
/// tables' names.
fn collect_names(use_default: bool, table: &Vec<(String, PreprocessorConfig)>) -> (r: Vec<String>)
    ensures
        string_views(r@).no_duplicates(),
        string_views(r@).to_set() == pre_names(use_default, table@),
{
    let mut names: Vec<String> = Vec::new();
    if use_default {
        let links = string_from_chars(&['l', 'i', 'n', 'k', 's']);
        let index = string_from_chars(&['i', 'n', 'd', 'e', 'x']);
        names.push(links);
        names.push(index);
        assert(string_views(names@) =~= seq![links_name(), index_name()]);
    }
    assert(string_views(names@) =~= default_names(use_default));
    let ghost defaults = default_names(use_default);
    let mut k: usize = 0;
    while k < table.len()
        invariant
            k <= table@.len(),
            defaults == default_names(use_default),
            string_views(names@).no_duplicates(),
            string_views(names@).to_set() == (defaults + table_names(table@).take(k as int)).to_set(),
        decreases table@.len() - k,
    {
        let ghost before = string_views(names@);
        let key = &table[k].0;
        match find_name(&names, key.as_str()) {
            Some(i) => {
                assert(before[i as int] == key@);
                assert(before.contains(key@));
            },
            None => {
                names.push(key.clone());
                assert(string_views(names@) =~= before.push(key@));
            },
        }
        proof {
            let tn = table_names(table@);
            assert(tn.take(k + 1) =~= tn.take(k as int).push(key@));
            assert(defaults + tn.take(k + 1) =~= (defaults + tn.take(k as int)).push(key@));
            (defaults + tn.take(k as int)).lemma_push_to_set_commute(key@);
            before.lemma_push_to_set_commute(key@);
            assert(string_views(names@).to_set() =~= (defaults + tn.take(k + 1)).to_set());
        }
        k = k + 1;
    }
    assert(table_names(table@).take(table@.len() as int) =~= table_names(table@));
    names
}

proof fn lemma_id_edges_insert(
    nv: Seq<Seq<char>>,
    e: Set<(Seq<char>, Seq<char>)>,
    all: Set<Seq<char>>,
    a: u64,
    b: u64,
)
    requires
        nv.no_duplicates(),
        a < nv.len(),
        b < nv.len(),
        all.contains(nv[a as int]),
    ensures
        id_edges(nv, e.insert((nv[a as int], nv[b as int])), all) == id_edges(nv, e, all).insert(
            (a, b),
        ),
{
    let lhs = id_edges(nv, e.insert((nv[a as int], nv[b as int])), all);
    let rhs = id_edges(nv, e, all).insert((a, b));
    assert forall|p: (u64, u64)| lhs.contains(p) <==> rhs.contains(p) by {
        if lhs.contains(p) && p != (a, b) {
            if (nv[p.0 as int], nv[p.1 as int]) == (nv[a as int], nv[b as int]) {
                assert(p.0 == a && p.1 == b);
            }
        }
    }
    assert(lhs =~= rhs);
}

/// Builds the dependency graph of the preprocessors, with the position of
/// each name in `names` as its id: every preprocessor, and every ordering
/// the tables ask for.
fn build_graph(
    table: &Vec<(String, PreprocessorConfig)>,
    names: &Vec<String>,
    Ghost(all): Ghost<Set<Seq<char>>>,
) -> (g: TopologicalSort<u64>)
    requires
        string_views(names@).no_duplicates(),
        string_views(names@).to_set() == all,
        table_names(table@).to_set().subset_of(all),
    ensures
        graph_nodes(g) == id_set(string_views(names@), all),
        graph_edges(g) == id_edges(string_views(names@), edges_upto(table@, table@.len() as int, all), all),
{
    let ghost nv = string_views(names@);
    let mut g = graph_new();
    let mut i: usize = 0;
    while i < names.len()
        invariant
            i <= names@.len(),
            graph_nodes(g) == Set::new(|x: u64| x < i),
            graph_edges(g) == Set::<(u64, u64)>::empty(),
        decreases names@.len() - i,
    {
        graph_insert(&mut g, i as u64);
        assert(graph_nodes(g) =~= Set::new(|x: u64| x < i + 1));
        i = i + 1;
    }
    assert forall|x: u64| #![auto] x < names@.len() implies all.contains(nv[x as int]) by {
        assert(nv.contains(nv[x as int]));
    }
    assert(graph_nodes(g) =~= id_set(nv, all));
    assert(id_edges(nv, edges_upto(table@, 0, all), all) =~= Set::<(u64, u64)>::empty());
    let mut k: usize = 0;
    while k < table.len()
        invariant
            k <= table@.len(),
            nv == string_views(names@),
            nv.no_duplicates(),
            nv.to_set() == all,
            table_names(table@).to_set().subset_of(all),
            graph_nodes(g) == id_set(nv, all),
            graph_edges(g) == id_edges(nv, edges_upto(table@, k as int, all), all),
        decreases table@.len() - k,
    {
        let key = &table[k].0;
        assert(table_names(table@)[k as int] == key@);
        assert(all.contains(key@)) by {
            assert(table_names(table@).contains(key@));
        }
        assert(nv.contains(key@));
        let ki = match find_name(names, key.as_str()) {
            Some(ki) => ki,
            None => {
                assert(false);
                0
            },
        };
        assert(nv[ki as int] == key@);
        let ghost base = edges_upto(table@, k as int, all);
        let cfg = &table[k].1;
        let mut m: usize = 0;
        assert(before_part(table@, k as int, 0, all) =~= Set::<(Seq<char>, Seq<char>)>::empty());
        assert(base.union(before_part(table@, k as int, 0, all)) =~= base);
        while m < cfg.before.len()
            invariant
                m <= cfg.before@.len(),
                cfg == table@[k as int].1,
                key == table@[k as int].0,
                k < table@.len(),
                ki < names@.len(),
                nv == string_views(names@),
                nv.no_duplicates(),
                nv.to_set() == all,
                nv[ki as int] == key@,
                all.contains(key@),
                base == edges_upto(table@, k as int, all),
                graph_nodes(g) == id_set(nv, all),
                graph_edges(g) == id_edges(nv, base.union(before_part(table@, k as int, m as int, all)), all),
            decreases cfg.before@.len() - m,
        {
            let ghost old_part = before_part(table@, k as int, m as int, all);
            let ghost b = cfg.before@[m as int]@;
            let ghost new_part = before_part(table@, k as int, m + 1, all);
            proof {
                let bv = string_views(cfg.before@);
                assert(bv.take(m + 1) =~= bv.take(m as int).push(b));
                assert(bv.take(m as int).push(b)[m as int] == b);
            }
            match find_name(names, cfg.before[m].as_str()) {
                Some(j) => {
                    proof {
                        assert(all.contains(b)) by {
                            assert(nv.contains(nv[j as int]));
                        }
                        assert(new_part =~= old_part.insert((key@, b)));
                        lemma_id_edges_insert(nv, base.union(old_part), all, ki as u64, j as u64);
                        assert(base.union(old_part).insert((key@, b)) =~= base.union(new_part));
                        assert(id_set(nv, all).contains(ki as u64));
                        assert(id_set(nv, all).contains(j as u64));
                    }
                    graph_add_dependency(&mut g, ki as u64, j as u64);
                    assert(graph_nodes(g) =~= id_set(nv, all));
                },
                None => {
                    proof {
                        assert(!all.contains(b)) by {
                            if all.contains(b) {
                                assert(nv.to_set().contains(b));
                            }
                        }
                        assert(new_part =~= old_part);
                    }
                },
            }
            m = m + 1;
        }
        let ghost base2 = base.union(before_part(table@, k as int, cfg.before@.len() as int, all));
        let mut m: usize = 0;
        assert(after_part(table@, k as int, 0, all) =~= Set::<(Seq<char>, Seq<char>)>::empty());
        assert(base2.union(after_part(table@, k as int, 0, all)) =~= base2);
        while m < cfg.after.len()
            invariant
                m <= cfg.after@.len(),
                cfg == table@[k as int].1,
                key == table@[k as int].0,
                k < table@.len(),
                ki < names@.len(),
                nv == string_views(names@),
                nv.no_duplicates(),
                nv.to_set() == all,
                nv[ki as int] == key@,
                all.contains(key@),
                base2 == base.union(before_part(table@, k as int, cfg.before@.len() as int, all)),
                graph_nodes(g) == id_set(nv, all),
                graph_edges(g) == id_edges(nv, base2.union(after_part(table@, k as int, m as int, all)), all),
            decreases cfg.after@.len() - m,
        {
            let ghost old_part = after_part(table@, k as int, m as int, all);
            let ghost a = cfg.after@[m as int]@;
            let ghost new_part = after_part(table@, k as int, m + 1, all);
            proof {
                let av = string_views(cfg.after@);
                assert(av.take(m + 1) =~= av.take(m as int).push(a));
                assert(av.take(m as int).push(a)[m as int] == a);
            }
            match find_name(names, cfg.after[m].as_str()) {
                Some(j) => {
                    proof {
                        assert(all.contains(a)) by {
                            assert(nv.contains(nv[j as int]));
                        }
                        assert(new_part =~= old_part.insert((a, key@)));
                        lemma_id_edges_insert(nv, base2.union(old_part), all, j as u64, ki as u64);
                        assert(base2.union(old_part).insert((a, key@)) =~= base2.union(new_part));
                        assert(id_set(nv, all).contains(ki as u64));
                        assert(id_set(nv, all).contains(j as u64));
                    }
                    graph_add_dependency(&mut g, j as u64, ki as u64);
                    assert(graph_nodes(g) =~= id_set(nv, all));
                },
                None => {
                    proof {
                        assert(!all.contains(a)) by {
                            if all.contains(a) {
                                assert(nv.to_set().contains(a));
                            }
                        }
                        assert(new_part =~= old_part);
                    }
                },
            }
            m = m + 1;
        }
        proof {
            let t = table@;
            let bf = string_views(cfg.before@);
            let af = string_views(cfg.after@);
            assert(bf.take(bf.len() as int) =~= bf);
            assert(af.take(af.len() as int) =~= af);
            let whole = base2.union(after_part(t, k as int, cfg.after@.len() as int, all));
            assert forall|e: (Seq<char>, Seq<char>)| #![auto] whole.contains(e) <==> edges_upto(t, k + 1, all).contains(e) by {
                if entry_edges(t, k as int, all).contains(e) {
                    assert(edges_upto(t, k + 1, all).contains(e));
                }
                if edges_upto(t, k + 1, all).contains(e) {
                    let i = choose|i: int| 0 <= i < k + 1 && #[trigger] entry_edges(t, i, all).contains(e);
                    if i < k {
                        assert(base.contains(e));
                    }
                }
                if base.contains(e) {
                    let i = choose|i: int| 0 <= i < k && #[trigger] entry_edges(t, i, all).contains(e);
                    assert(edges_upto(t, k + 1, all).contains(e));
                }
            }
            assert(whole =~= edges_upto(t, k + 1, all));
        }
        k = k + 1;
    }
    g
}

/// The names of ids.
pub open spec fn name_seq(nv: Seq<Seq<char>>, ids: Seq<u64>) -> Seq<Seq<char>> {
    ids.map_values(|x: u64| nv[x as int])
}

/// Sorts distinct ids by their names.
pub(crate) fn sort_by_name(ids: &Vec<u64>, names: &Vec<String>) -> (r: Vec<u64>)
    requires
        forall|i: int| 0 <= i < ids@.len() ==> #[trigger] ids@[i] < names@.len(),
        ids@.no_duplicates(),
        string_views(names@).no_duplicates(),
    ensures
        r@.to_set() == ids@.to_set(),
        r@.len() == ids@.len(),
        forall|i: int| 0 <= i < r@.len() ==> #[trigger] r@[i] < names@.len(),
        names_sorted(name_seq(string_views(names@), r@)),
{
    let ghost nv = string_views(names@);
    let mut out: Vec<u64> = Vec::new();
    let mut k: usize = 0;
    assert(out@.to_set() =~= ids@.take(0).to_set());
    while k < ids.len()
        invariant
            k <= ids@.len(),
            nv == string_views(names@),
            nv.no_duplicates(),
            ids@.no_duplicates(),
            forall|i: int| 0 <= i < ids@.len() ==> #[trigger] ids@[i] < names@.len(),
            out@.len() == k,
            out@.to_set() == ids@.take(k as int).to_set(),
            forall|i: int| 0 <= i < out@.len() ==> #[trigger] out@[i] < names@.len(),
            names_sorted(name_seq(nv, out@)),
        decreases ids@.len() - k,
    {
        let x = ids[k];
        assert(x < names.len());
        let xi = x as usize;
        assert(xi as int == x as int);
        assert(nv[x as int] == names@[x as int]@);
        let xn = chars_of(names[xi].as_str());
        let ghost s = out@;
        let mut p: usize = 0;
        loop
            invariant_except_break
                p <= out@.len(),
                out@ == s,
                xn@ == nv[x as int],
                x < names@.len(),
                nv == string_views(names@),
                forall|i: int| 0 <= i < out@.len() ==> #[trigger] out@[i] < names@.len(),
                forall|j: int| 0 <= j < p ==> !chars_lt(nv[x as int], #[trigger] nv[s[j] as int]),
            ensures
                p <= out@.len(),
                out@ == s,
                forall|j: int| 0 <= j < p ==> !chars_lt(nv[x as int], #[trigger] nv[s[j] as int]),
                p < out@.len() ==> chars_lt(nv[x as int], nv[s[p as int] as int]),
            decreases out@.len() - p,
        {
            if p == out.len() {
                break;
            }
            let y = out[p];
            assert(y < names.len());
            let yi = y as usize;
            assert(yi as int == y as int);
            assert(nv[y as int] == names@[y as int]@);
            let yn = chars_of(names[yi].as_str());
            if chars_less(&xn, &yn) {
                break;
            }
            p = p + 1;
        }
        proof {
            assert(!s.contains(x)) by {
                if s.contains(x) {
                    assert(s.to_set().contains(x));
                    let j = choose|j: int| 0 <= j < k && ids@.take(k as int)[j] == x;
                    assert(ids@[j] == ids@[k as int]);
                }
            }
        }
        out.insert(p, x);
        proof {
            let t = out@;
            assert(t == s.insert(p as int, x));
            let ns = name_seq(nv, s);
            let nt = name_seq(nv, t);
            assert forall|i: int, j: int| 0 <= i < j < nt.len() implies chars_lt(
                #[trigger] nt[i],
                #[trigger] nt[j],
            ) by {
                assert(nt[i] == nv[t[i] as int] && nt[j] == nv[t[j] as int]);
                if i < p && j < p {
                    assert(ns[i] == nt[i] && ns[j] == nt[j]);
                } else if i < p && j == p {
                    assert(t[j] == x && t[i] == s[i]);
                    assert(s[i] != x);
                    assert(nv[s[i] as int] != nv[x as int]);
                    lemma_chars_order(nv[s[i] as int], nv[x as int], nv[s[i] as int]);
                } else if i < p {
                    assert(t[i] == s[i] && t[j] == s[j - 1]);
                    assert(ns[i] == nt[i] && ns[j - 1] == nt[j]);
                } else if i == p {
                    assert(t[i] == x && t[j] == s[j - 1]);
                    assert(p < s.len());
                    assert(chars_lt(nv[x as int], nv[s[p as int] as int]));
                    if j - 1 > p {
                        assert(ns[p as int] == nv[s[p as int] as int] && ns[j - 1] == nv[s[j - 1] as int]);
                        lemma_chars_order(nv[x as int], nv[s[p as int] as int], nv[s[j - 1] as int]);
                    }
                } else {
                    assert(t[i] == s[i - 1] && t[j] == s[j - 1]);
                    assert(ns[i - 1] == nt[i] && ns[j - 1] == nt[j]);
                }
            }
            vstd::seq_lib::to_multiset_insert(s, p as int, x);
            assert(ids@.take(k + 1) =~= ids@.take(k as int).push(x));
            ids@.take(k as int).lemma_push_to_set_commute(x);
            assert forall|y: u64| t.to_set().contains(y) <==> s.to_set().insert(x).contains(y) by {
                if y == x {
                    assert(t[p as int] == x);
                } else if s.contains(y) {
                    let i = choose|i: int| 0 <= i < s.len() && s[i] == y;
                    if i < p {
                        assert(t[i] == y);
                    } else {
                        assert(t[i + 1] == y);
                    }
                } else if t.contains(y) {
                    let i = choose|i: int| 0 <= i < t.len() && t[i] == y;
                    if i < p {
                        assert(s[i] == y);
                    } else if i > p {
                        assert(s[i - 1] == y);
                    }
                }
            }
            assert(t.to_set() =~= ids@.take(k + 1).to_set());
        }
        k = k + 1;
    }
    assert(ids@.take(ids@.len() as int) =~= ids@);
    out
}

/// The command a preprocessor table runs: its own, or `mdbook-` and the
/// name.
pub open spec fn command_for(command: Option<String>, name: Seq<char>) -> Seq<char> {
    match command {
        Some(c) => c@,
        None => "mdbook-"@ + name,
    }
}

/// Whether `c` is the preprocessor that runs under `name`: the built-in
/// `links` and `index`, or a command preprocessor made from the table of
/// that name, run in `root`.
pub open spec fn choice_is(
    c: PreprocessorChoice,
    name: Seq<char>,
    t: Seq<(String, PreprocessorConfig)>,
    root: Seq<char>,
) -> bool {
    if name == links_name() {
        c is Links
    } else if name == index_name() {
        c is Index
    } else {
        c matches PreprocessorChoice::Command(p) && p.name_spec() == name && p.root_spec() == root
            && exists|i: int|
            0 <= i < t.len() && t[i].0@ == name && p.cmd_spec() == command_for(t[i].1.command, name)
                && p.is_optional() == t[i].1.optional
    }
}

/// The preprocessor that runs under a name of the book.
fn choice_for(name: &String, table: &Vec<(String, PreprocessorConfig)>, root: &str) -> (c:
    PreprocessorChoice)
    requires
        name@ == links_name() || name@ == index_name() || table_names(table@).contains(name@),
    ensures
        choice_is(c, name@, table@, root@),
{
    let nv = chars_of(name.as_str());
    let links: [char; 5] = ['l', 'i', 'n', 'k', 's'];
    let index: [char; 5] = ['i', 'n', 'd', 'e', 'x'];
    assert(links@ == links_name() && index@ == index_name());
    if chars_eq(&nv, &links) {
        return PreprocessorChoice::Links;
    }
    if chars_eq(&nv, &index) {
        return PreprocessorChoice::Index;
    }
    let mut i: usize = 0;
    while i < table.len()
        invariant
            i <= table@.len(),
            nv@ == name@,
            name@ != links_name() && name@ != index_name(),
            table_names(table@).contains(name@),
            forall|j: int| 0 <= j < i ==> table@[j].0@ != name@,
        decreases table@.len() - i,
    {
        let key = chars_of(table[i].0.as_str());
        if chars_eq(&key, &nv) {
            let cfg = &table[i].1;
            let command = match &cfg.command {
                Some(c) => c.clone(),
                None => {
                    let mut v = chars_of("mdbook-");
                    append_chars(&mut v, &nv);
                    string_from_chars(&v)
                },
            };
            assert(command@ == command_for(table@[i as int].1.command, name@));
            let p = CmdPreprocessor::new(name.clone(), command, root.to_owned(), cfg.optional);
            assert(table@[i as int].0@ == name@);
            assert(name@ != links_name() && name@ != index_name());
            assert(0 <= i < table@.len() && table@[i as int].0@ == name@ && p.cmd_spec()
                == command_for(table@[i as int].1.command, name@) && p.is_optional()
                == table@[i as int].1.optional);
            return PreprocessorChoice::Command(p);
        }
        i = i + 1;
    }
    proof {
        let j = choose|j: int| 0 <= j < table_names(table@).len() && table_names(table@)[j] == name@;
        assert(table@[j].0@ == name@);
    }
    PreprocessorChoice::Links
}

proof fn lemma_ready_ids(
    nv: Seq<Seq<char>>,
    e: Set<(Seq<char>, Seq<char>)>,
    n: Set<Seq<char>>,
)
    requires
        n.subset_of(nv.to_set()),
        nv.len() <= u64::MAX,
    ensures
        ready_nodes(id_set(nv, n), id_edges(nv, e, n)) == id_set(nv, ready_names(n, e)),
{
    let lhs = ready_nodes(id_set(nv, n), id_edges(nv, e, n));
    let rhs = id_set(nv, ready_names(n, e));
    assert forall|v: u64| lhs.contains(v) <==> rhs.contains(v) by {
        if lhs.contains(v) {
            assert forall|w: Seq<char>| n.contains(w) implies !e.contains((w, nv[v as int])) by {
                assert(nv.to_set().contains(w));
                let u = choose|u: int| 0 <= u < nv.len() && nv[u] == w;
                let uu = u as u64;
                assert(uu as int == u);
                assert(id_set(nv, n).contains(uu));
                assert(!id_edges(nv, e, n).contains((uu, v)));
            }
        }
        if rhs.contains(v) {
            assert forall|u: u64| id_set(nv, n).contains(u) implies !id_edges(nv, e, n).contains((u, v)) by {
                assert(n.contains(nv[u as int]));
            }
        }
    }
    assert(lhs =~= rhs);
}

/// The error of preprocessors whose orderings form a cycle.
#[derive(Debug, Clone, Copy, PartialEq, Eq, Structural)]
pub enum PreprocessorOrderError {
    /// Some preprocessors must each run after another of them.
    CyclicDependency,
}

/// Chooses the preprocessors of a book and orders them; see
/// [`run_order`] and [`choice_is`]. The command preprocessors run in
/// `root`.
pub fn determine_preprocessors(
    use_default_preprocessors: bool,
    table: &Vec<(String, PreprocessorConfig)>,
    root: &str,
) -> (r: Result<Vec<PreprocessorChoice>, PreprocessorOrderError>)
    requires
        table_names(table@).no_duplicates(),
    ensures
        match run_order(
            pre_names(use_default_preprocessors, table@),
            pre_edges(use_default_preprocessors, table@),
        ) {
            Some(order) => r matches Ok(v) && v@.len() == order.len() && forall|i: int|
                0 <= i < order.len() ==> choice_is(#[trigger] v@[i], order[i], table@, root@),
            None => r is Err,
        },
{
    let names = collect_names(use_default_preprocessors, table);
    let ghost nv = string_views(names@);
    let ghost all = pre_names(use_default_preprocessors, table@);
    let ghost e = pre_edges(use_default_preprocessors, table@);
    proof {
        assert forall|x: Seq<char>| table_names(table@).to_set().contains(x) implies all.contains(x) by {
            let d = default_names(use_default_preprocessors);
            let j = choose|j: int| 0 <= j < table_names(table@).len() && table_names(table@)[j] == x;
            assert((d + table_names(table@))[d.len() + j] == x);
        }
        assert(edges_upto(table@, table@.len() as int, all) =~= e);
    }
    let mut g = build_graph(table, &names, Ghost(all));
    let nlen = names.len();
    assert(nlen as int == nv.len());
    let ghost mut n = all;
    let ghost mut done: Seq<Seq<char>> = seq![];
    let mut out: Vec<PreprocessorChoice> = Vec::new();
    proof {
        assert(id_set(nv, all).subset_of(id_set(nv, all)));
        vstd::seq_lib::seq_to_set_is_finite(nv);
        if run_order(all, e) is Some {
            assert(done + run_order(all, e)->0 =~= run_order(all, e)->0);
        }
    }
    loop
        invariant
            nv == string_views(names@),
            nv.len() <= u64::MAX,
            nv.no_duplicates(),
            nv.to_set() == all,
            all == pre_names(use_default_preprocessors, table@),
            e == pre_edges(use_default_preprocessors, table@),
            n.subset_of(all),
            n.finite(),
            graph_nodes(g) == id_set(nv, n),
            graph_edges(g) == id_edges(nv, e, n),
            out@.len() == done.len(),
            forall|i: int| 0 <= i < done.len() ==> choice_is(#[trigger] out@[i], done[i], table@, root@),
            match run_order(n, e) {
                Some(rest) => run_order(all, e) == Some(done + rest),
                None => run_order(all, e) is None,
            },
        ensures
            ready_names(n, e).is_empty(),
        decreases n.len(),
    {
        let ghost rn = ready_names(n, e);
        proof {
            assert(nv.len() == names@.len());
            lemma_ready_ids(nv, e, n);
        }
        let ready = graph_pop_all(&mut g);
        if ready.len() == 0 {
            proof {
                assert(rn.is_empty()) by {
                    if !rn.is_empty() {
                        let w = rn.choose();
                        assert(all.contains(w));
                        let u = choose|u: int| 0 <= u < nv.len() && nv[u] == w;
                        let uu = u as u64;
                        assert(uu as int == u);
                        assert(id_set(nv, rn).contains(uu));
                        assert(ready@.to_set().contains(uu));
                    }
                }
            }
            break;
        }
        proof {
            assert forall|i: int| 0 <= i < ready@.len() implies #[trigger] ready@[i] < names@.len() by {
                assert(ready@.to_set().contains(ready@[i]));
            }
        }
        let sorted = sort_by_name(&ready, &names);
        let ghost q = name_seq(nv, sorted@);
        proof {
            assert(q.to_set() =~= rn) by {
                assert forall|w: Seq<char>| q.to_set().contains(w) <==> rn.contains(w) by {
                    if q.to_set().contains(w) {
                        let i = choose|i: int| 0 <= i < q.len() && q[i] == w;
                        assert(sorted@.to_set().contains(sorted@[i]));
                        assert(id_set(nv, rn).contains(sorted@[i]));
                    }
                    if rn.contains(w) {
                        assert(all.contains(w));
                        let u = choose|u: int| 0 <= u < nv.len() && nv[u] == w;
                        let uu = u as u64;
                        assert(uu as int == u);
                        assert(id_set(nv, rn).contains(uu));
                        assert(sorted@.to_set().contains(uu));
                        let i = choose|i: int| 0 <= i < sorted@.len() && sorted@[i] == uu;
                        assert(q[i] == w);
                    }
                }
            }
            assert(q.to_set() == rn && names_sorted(q));
            let c = sorted_names(rn);
            lemma_sorted_unique(c, q);
            assert(!rn.is_empty()) by {
                assert(ready@.to_set().contains(ready@[0]));
            }
        }
        let ghost out_before = out@;
        let mut j: usize = 0;
        while j < sorted.len()
            invariant
                j <= sorted@.len(),
                forall|i: int| 0 <= i < sorted@.len() ==> #[trigger] sorted@[i] < names@.len(),
                nv == string_views(names@),
                q == name_seq(nv, sorted@),
                q.to_set() == rn,
                rn.subset_of(all),
                all == pre_names(use_default_preprocessors, table@),
                out@.len() == out_before.len() + j,
                forall|i: int| 0 <= i < out_before.len() ==> out@[i] == out_before[i],
                forall|i: int| 0 <= i < j ==> choice_is(#[trigger] out@[out_before.len() + i], q[i], table@, root@),
            decreases sorted@.len() - j,
        {
            let id = sorted[j];
            assert(id < names.len());
            let idx = id as usize;
            assert(idx as int == id as int);
            assert(q[j as int] == names@[idx as int]@);
            proof {
                assert(q.to_set().contains(q[j as int]));
                let d = default_names(use_default_preprocessors);
                let w = q[j as int];
                assert((d + table_names(table@)).contains(w));
                let k = choose|k: int| 0 <= k < (d + table_names(table@)).len() && (d + table_names(table@))[k] == w;
                if k >= d.len() {
                    assert(table_names(table@)[k - d.len()] == w);
                }
            }
            let c = choice_for(&names[idx], table, root);
            out.push(c);
            j = j + 1;
        }
        proof {
            let old_n = n;
            let old_done = done;
            lemma_ready_shrinks(n, e);
            n = n.difference(rn);
            done = done + q;
            assert forall|i: int| 0 <= i < done.len() implies choice_is(#[trigger] out@[i], done[i], table@, root@) by {
                if i >= old_done.len() {
                    let k = i - old_done.len();
                    assert(done[i] == q[k]);
                    assert(choice_is(out@[out_before.len() + k], q[k], table@, root@));
                } else {
                    assert(done[i] == old_done[i]);
                    assert(choice_is(out_before[i], old_done[i], table@, root@));
                    assert(out@[i] == out_before[i]);
                }
            }
            assert(graph_nodes(g) =~= id_set(nv, n));
            assert(graph_edges(g) =~= id_edges(nv, e, n));
            if run_order(n, e) is Some {
                assert(old_done + (q + run_order(n, e)->0) =~= done + run_order(n, e)->0);
            }
        }
    }
    proof {
        if !n.is_empty() {
            let w = n.choose();
            let u = choose|u: int| 0 <= u < nv.len() && nv[u] == w;
            let uu = u as u64;
            assert(uu as int == u);
            assert(id_set(nv, n).contains(uu));
        } else {
            assert(id_set(nv, n) =~= Set::<u64>::empty());
            assert(done + seq![] =~= done);
        }
    }
    if graph_is_empty(&g) {
        Ok(out)
    } else {
        Err(PreprocessorOrderError::CyclicDependency)
    }
}

proof fn lemma_least_name(s: Set<Seq<char>>) -> (m: Seq<char>)
    requires
        s.finite(),
        !s.is_empty(),
    ensures
        s.contains(m),
        forall|x: Seq<char>| s.contains(x) && x != m ==> chars_lt(m, x),
    decreases s.len(),
{
    let x = s.choose();
    let rest = s.remove(x);
    if rest.is_empty() {
        assert forall|y: Seq<char>| s.contains(y) implies y == x by {
            if y != x {
                assert(rest.contains(y));
            }
        }
        x
    } else {
        let m2 = lemma_least_name(rest);
        lemma_chars_order(x, m2, x);
        if chars_lt(x, m2) {
            assert forall|y: Seq<char>| s.contains(y) && y != x implies chars_lt(x, y) by {
                assert(rest.contains(y));
                if y != m2 {
                    lemma_chars_order(x, m2, y);
                }
            }
            x
        } else {
            assert(x != m2 ==> chars_lt(m2, x));
            m2
        }
    }
}

proof fn lemma_sorted_names(s: Set<Seq<char>>)
    requires
        s.finite(),
    ensures
        sorted_names(s).to_set() == s,
        names_sorted(sorted_names(s)),
        sorted_names(s).no_duplicates(),
    decreases s.len(),
{
    let q = lemma_sorted_exists(s);
    let c = sorted_names(s);
    assert forall|i: int, j: int| 0 <= i < c.len() && 0 <= j < c.len() && i != j implies c[i]
        != c[j] by {
        if i < j {
            lemma_chars_order(c[i], c[j], c[i]);
        } else {
            lemma_chars_order(c[j], c[i], c[j]);
        }
    }
}

proof fn lemma_sorted_exists(s: Set<Seq<char>>) -> (q: Seq<Seq<char>>)
    requires
        s.finite(),
    ensures
        q.to_set() == s,
        names_sorted(q),
    decreases s.len(),
{
    if s.is_empty() {
        let q = Seq::<Seq<char>>::empty();
        assert(q.to_set() =~= s);
        q
    } else {
        let m = lemma_least_name(s);
        let rest = lemma_sorted_exists(s.remove(m));
        let q = seq![m] + rest;
        assert forall|x: Seq<char>| q.to_set().contains(x) <==> s.contains(x) by {
            if q.to_set().contains(x) {
                let i = choose|i: int| 0 <= i < q.len() && q[i] == x;
                if i > 0 {
                    assert(rest[i - 1] == x);
                    assert(rest.to_set().contains(x));
                }
            }
            if s.contains(x) {
                if x == m {
                    assert(q[0] == x);
                } else {
                    assert(s.remove(m).contains(x));
                    let i = choose|i: int| 0 <= i < rest.len() && rest[i] == x;
                    assert(q[i + 1] == x);
                }
            }
        }
        assert(q.to_set() =~= s);
        assert forall|i: int, j: int| 0 <= i < j < q.len() implies chars_lt(#[trigger] q[i], #[trigger] q[j]) by {
            if i == 0 {
                assert(rest.to_set().contains(rest[j - 1]));
                assert(q[j] == rest[j - 1]);
            } else {
                assert(q[i] == rest[i - 1] && q[j] == rest[j - 1]);
            }
        }
        q
    }
}

/// Every preprocessor of the book runs once: the order holds each of them
/// exactly once.
pub proof fn law_each_preprocessor_runs_once(
    n: Set<Seq<char>>,
    e: Set<(Seq<char>, Seq<char>)>,
    order: Seq<Seq<char>>,
)
    requires
        n.finite(),
        run_order(n, e) == Some(order),
    ensures
        order.no_duplicates(),
        order.to_set() == n,
    decreases n.len(),
{
    if n.is_empty() {
        assert(order.to_set() =~= n);
    } else {
        let r = ready_names(n, e);
        lemma_ready_shrinks(n, e);
        let rest = run_order(n.difference(r), e)->0;
        law_each_preprocessor_runs_once(n.difference(r), e, rest);
        assert(r.subset_of(n));
        vstd::set_lib::lemma_len_subset(r, n);
        lemma_sorted_names(r);
        let c = sorted_names(r);
        assert(order == c + rest);
        assert forall|i: int, j: int| 0 <= i < order.len() && 0 <= j < order.len() && i != j implies order[i]
            != order[j] by {
            if i < c.len() && j >= c.len() {
                assert(c.to_set().contains(c[i]));
                assert(rest.to_set().contains(rest[j - c.len()]));
            } else if j < c.len() && i >= c.len() {
                assert(c.to_set().contains(c[j]));
                assert(rest.to_set().contains(rest[i - c.len()]));
            } else if i >= c.len() {
                assert(order[i] == rest[i - c.len()] && order[j] == rest[j - c.len()]);
            }
        }
        assert forall|x: Seq<char>| order.to_set().contains(x) <==> n.contains(x) by {
            if order.to_set().contains(x) {
                let i = choose|i: int| 0 <= i < order.len() && order[i] == x;
                if i < c.len() {
                    assert(c.to_set().contains(x));
                } else {
                    assert(rest[i - c.len()] == x);
                    assert(rest.to_set().contains(x));
                }
            }
            if n.contains(x) {
                if r.contains(x) {
                    let i = choose|i: int| 0 <= i < c.len() && c[i] == x;
                    assert(order[i] == x);
                } else {
                    assert(rest.to_set().contains(x));
                    let i = choose|i: int| 0 <= i < rest.len() && rest[i] == x;
                    assert(order[c.len() + i] == x);
                }
            }
        }
        assert(order.to_set() =~= n);
    }
}

/// The order honours every ordering between preprocessors of the book: a
/// preprocessor that must run before another comes earlier.
pub proof fn law_orderings_are_honoured(
    n: Set<Seq<char>>,
    e: Set<(Seq<char>, Seq<char>)>,
    order: Seq<Seq<char>>,
    i: int,
    j: int,
)
    requires
        n.finite(),
        run_order(n, e) == Some(order),
        0 <= i < order.len(),
        0 <= j < order.len(),
        e.contains((order[i], order[j])),
    ensures
        i < j,
    decreases n.len(),
{
    let r = ready_names(n, e);
    lemma_ready_shrinks(n, e);
    let rest = run_order(n.difference(r), e)->0;
    law_each_preprocessor_runs_once(n, e, order);
    law_each_preprocessor_runs_once(n.difference(r), e, rest);
    lemma_sorted_names(r);
    let c = sorted_names(r);
    assert(order == c + rest);
    let a = order[i];
    let b = order[j];
    assert(order.to_set().contains(a));
    if j < c.len() {
        // `b` is ready, so no preprocessor of the book must precede it.
        assert(c.to_set().contains(b));
        assert(false);
    } else if i >= c.len() {
        assert(rest[i - c.len()] == a && rest[j - c.len()] == b);
        law_orderings_are_honoured(n.difference(r), e, rest, i - c.len(), j - c.len());
    }
}

/// When no order can be found, the orderings are cyclic: some preprocessors
/// each have to run after another one of them.
pub proof fn law_refused_orders_are_cyclic(n: Set<Seq<char>>, e: Set<(Seq<char>, Seq<char>)>) -> (s:
    Set<Seq<char>>)
    requires
        n.finite(),
        run_order(n, e) is None,
    ensures
        s.subset_of(n),
        !s.is_empty(),
        forall|v: Seq<char>| #[trigger] s.contains(v) ==> exists|u: Seq<char>| s.contains(u) && e.contains((u, v)),
    decreases n.len(),
{
    let r = ready_names(n, e);
    if r.is_empty() {
        assert forall|v: Seq<char>| #[trigger] n.contains(v) implies exists|u: Seq<char>| n.contains(u) && e.contains((u, v)) by {
            assert(!r.contains(v));
        }
        n
    } else {
        lemma_ready_shrinks(n, e);
        law_refused_orders_are_cyclic(n.difference(r), e)
    }
}

/// Cyclic orderings are refused: when some preprocessors each have to run
/// after another one of them, no order is found.
pub proof fn law_cyclic_orders_are_refused(
    n: Set<Seq<char>>,
    e: Set<(Seq<char>, Seq<char>)>,
    s: Set<Seq<char>>,
)
    requires
        n.finite(),
        s.subset_of(n),
        !s.is_empty(),
        forall|v: Seq<char>| #[trigger] s.contains(v) ==> exists|u: Seq<char>| s.contains(u) && e.contains((u, v)),
    ensures
        run_order(n, e) is None,
{
    if run_order(n, e) is Some {
        let order = run_order(n, e)->0;
        law_each_preprocessor_runs_once(n, e, order);
        // The member of `s` that comes first has a predecessor in `s`.
        let idx = Set::new(|k: int| 0 <= k < order.len() && s.contains(order[k]));
        let w = s.choose();
        assert(order.to_set().contains(w));
        let k0 = choose|k: int| 0 <= k < order.len() && order[k] == w;
        assert(idx.contains(k0));
        let k = lemma_first_index(idx, order.len() as int, k0);
        let v = order[k];
        assert(s.contains(v));
        let u = choose|u: Seq<char>| s.contains(u) && e.contains((u, v));
        assert(order.to_set().contains(u));
        let ku = choose|ku: int| 0 <= ku < order.len() && order[ku] == u;
        law_orderings_are_honoured(n, e, order, ku, k);
        assert(idx.contains(ku));
    }
}

proof fn lemma_first_index(idx: Set<int>, len: int, k0: int) -> (k: int)
    requires
        idx.contains(k0),
        0 <= k0 < len,
        forall|k: int| idx.contains(k) ==> 0 <= k < len,
    ensures
        idx.contains(k),
        forall|j: int| idx.contains(j) ==> k <= j,
    decreases k0,
{
    if exists|j: int| idx.contains(j) && j < k0 {
        let j = choose|j: int| idx.contains(j) && j < k0;
        lemma_first_index(idx, len, j)
    } else {
        k0
    }
}

} // verus!
