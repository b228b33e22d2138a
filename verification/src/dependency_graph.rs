//! The `topological-sort` crate's dependency graph, seen as a set of nodes
//! and a set of edges. The library makes and changes its graphs through the
//! functions below only, so every edge starts and ends at a node the graph
//! holds, and an edge is held once however often it is added.

use vstd::prelude::*;
use topological_sort::TopologicalSort;

verus! {

/// The crate's graph type.
#[verifier::external_type_specification]
#[verifier::external_body]
#[verifier::reject_recursive_types(T)]
pub struct ExTopologicalSort<T>(TopologicalSort<T>);

/// The nodes that a graph holds.
pub uninterp spec fn graph_nodes(g: TopologicalSort<u64>) -> Set<u64>;

/// The edges of a graph that start at a node it holds: `(p, s)` says that
/// `p` comes before `s`.
pub uninterp spec fn graph_edges(g: TopologicalSort<u64>) -> Set<(u64, u64)>;

/// The nodes of `nodes` that no node of `nodes` has an edge to.
pub open spec fn ready_nodes(nodes: Set<u64>, edges: Set<(u64, u64)>) -> Set<u64> {
    nodes.filter(|v: u64| forall|u: u64| nodes.contains(u) ==> !edges.contains((u, v)))
}

/// An empty graph (`TopologicalSort::new`).
#[verifier::external_body]
pub(crate) fn graph_new() -> (r: TopologicalSort<u64>)
    ensures
        graph_nodes(r) == Set::<u64>::empty(),
        graph_edges(r) == Set::<(u64, u64)>::empty(),
{
    TopologicalSort::new()
}

/// Adds a node (`TopologicalSort::insert`); a node already there is left
/// as it is.
#[verifier::external_body]
pub(crate) fn graph_insert(g: &mut TopologicalSort<u64>, x: u64)
    ensures
        graph_nodes(*final(g)) == graph_nodes(*old(g)).insert(x),
        graph_edges(*final(g)) == graph_edges(*old(g)),
{
    let _ = g.insert(x);
}

/// Records that `prec` comes before `succ`
/// (`TopologicalSort::add_dependency`), adding either node that is
/// missing.
#[verifier::external_body]
pub(crate) fn graph_add_dependency(g: &mut TopologicalSort<u64>, prec: u64, succ: u64)
    ensures
        graph_nodes(*final(g)) == graph_nodes(*old(g)).insert(prec).insert(succ),
        graph_edges(*final(g)) == graph_edges(*old(g)).insert((prec, succ)),
{
    g.add_dependency(prec, succ);
}

/// Removes and returns the nodes that no remaining node comes before
/// (`TopologicalSort::pop_all`), each once, in the order the crate's hash
/// map is walked (not stated); their edges go with them.
#[verifier::external_body]
pub(crate) fn graph_pop_all(g: &mut TopologicalSort<u64>) -> (r: Vec<u64>)
    ensures
        r@.no_duplicates(),
        r@.to_set() == ready_nodes(graph_nodes(*old(g)), graph_edges(*old(g))),
        graph_nodes(*final(g)) == graph_nodes(*old(g)).difference(
            ready_nodes(graph_nodes(*old(g)), graph_edges(*old(g))),
        ),
        graph_edges(*final(g)) == graph_edges(*old(g)).filter(
            |e: (u64, u64)| !ready_nodes(graph_nodes(*old(g)), graph_edges(*old(g))).contains(e.0),
        ),
{
    g.pop_all()
}

/// Whether the graph holds no node (`TopologicalSort::is_empty`).
#[verifier::external_body]
pub(crate) fn graph_is_empty(g: &TopologicalSort<u64>) -> (r: bool)
    ensures
        r == (graph_nodes(*g) == Set::<u64>::empty()),
{
    g.is_empty()
}

} // verus!
