//! The topology of the dependency graph and the index of its identifiers.
//!
//! Nodes and edges are numbered in the order in which they are added. The
//! arena is a `petgraph::Graph` without weights, the index an
//! `indexmap::IndexMap` from identifier to node number. What the two hold
//! is named by specification functions; the contracts of the functions in
//! this file are taken from the sources of the two crates and are not
//! proved.

use vstd::prelude::*;
use indexmap::IndexMap;
use petgraph::algo::tarjan_scc;
use petgraph::graph::{EdgeIndex, Graph, NodeIndex};
use petgraph::{Directed, Direction};
use std::collections::hash_map::RandomState;

verus! {

/// The graph type of `petgraph`, opaque to the verifier.
#[verifier::external_type_specification]
#[verifier::external_body]
#[verifier::reject_recursive_types(N)]
#[verifier::reject_recursive_types(E)]
#[verifier::reject_recursive_types(Ty)]
#[verifier::reject_recursive_types(Ix)]
pub struct ExGraph<N, E, Ty, Ix>(Graph<N, E, Ty, Ix>);

/// The marker of directed graphs of `petgraph`.
#[verifier::external_type_specification]
#[verifier::external_body]
pub struct ExDirected(Directed);

/// The insertion-ordered map of `indexmap`, opaque to the verifier.
#[verifier::external_type_specification]
#[verifier::external_body]
#[verifier::reject_recursive_types(K)]
#[verifier::reject_recursive_types(V)]
#[verifier::reject_recursive_types(S)]
pub struct ExIndexMap<K, V, S>(IndexMap<K, V, S>);

/// The number of nodes of the arena.
pub uninterp spec fn topology_nodes(g: Graph<(), (), Directed, usize>) -> nat;

/// The edges of the arena, as pairs of source and target, in the order in
/// which they were added.
pub uninterp spec fn topology_edges(g: Graph<(), (), Directed, usize>) -> Seq<(usize, usize)>;

/// The entries of the index, as pairs of key and value, in the order in
/// which they were added.
pub uninterp spec fn index_entries(m: IndexMap<String, usize, RandomState>) -> Seq<
    (Seq<char>, usize),
>;

/// The strongly connected components that `petgraph` computes for a graph
/// with the given number of nodes and the given edges, in its order.
pub uninterp spec fn tarjan_components(nodes: nat, edges: Seq<(usize, usize)>) -> Seq<Seq<usize>>;

/// Whether an edge leads from place `i` of `p` to the next place.
pub open spec fn walk_step(edges: Seq<(usize, usize)>, p: Seq<usize>, i: int) -> bool {
    edges.contains((p[i], p[i + 1]))
}

/// Whether `p` is a walk: a non-empty list of nodes with an edge from
/// each node to the next.
pub open spec fn is_walk(edges: Seq<(usize, usize)>, p: Seq<usize>) -> bool {
    p.len() > 0 && forall|i: int| 0 <= i < p.len() - 1 ==> #[trigger] walk_step(edges, p, i)
}

/// Whether `p` is a walk of `k` edges from `u` to `v`.
pub open spec fn walk_between(
    edges: Seq<(usize, usize)>,
    p: Seq<usize>,
    u: usize,
    v: usize,
    k: nat,
) -> bool {
    is_walk(edges, p) && p.len() == k + 1 && p[0] == u && p[k as int] == v
}

/// Whether `k` edges lead from `u` to `v`.
pub open spec fn reaches_in(edges: Seq<(usize, usize)>, u: usize, v: usize, k: nat) -> bool {
    exists|p: Seq<usize>| walk_between(edges, p, u, v, k)
}

/// Whether edges lead from `u` to `v`; every node reaches itself.
pub open spec fn reaches(edges: Seq<(usize, usize)>, u: usize, v: usize) -> bool {
    exists|k: nat| reaches_in(edges, u, v, k)
}

/// No edge leads from a node to itself, and only to itself.
pub proof fn lemma_reach_zero(edges: Seq<(usize, usize)>, u: usize, v: usize)
    ensures
        reaches_in(edges, u, v, 0) == (u == v),
{
    if u == v {
        assert(walk_between(edges, seq![u], u, v, 0));
    }
    if reaches_in(edges, u, v, 0) {
        let p = choose|p: Seq<usize>| walk_between(edges, p, u, v, 0);
    }
}

/// An edge extends a walk by one.
pub proof fn lemma_reach_edge(edges: Seq<(usize, usize)>, u: usize, w: usize, v: usize, k: nat)
    requires
        reaches_in(edges, u, w, k),
        edges.contains((w, v)),
    ensures
        reaches_in(edges, u, v, k + 1),
{
    let p = choose|p: Seq<usize>| walk_between(edges, p, u, w, k);
    let q = p.push(v);
    assert forall|i: int| 0 <= i < q.len() - 1 implies #[trigger] walk_step(edges, q, i) by {
        if i < p.len() - 1 {
            assert(walk_step(edges, p, i));
        }
    }
    assert(walk_between(edges, q, u, v, k + 1));
}

/// A walk of at least one edge ends with an edge from a node that the
/// walk reaches with one edge less.
pub proof fn lemma_reach_last(edges: Seq<(usize, usize)>, u: usize, v: usize, k: nat) -> (w: usize)
    requires
        reaches_in(edges, u, v, k),
        k > 0,
    ensures
        reaches_in(edges, u, w, (k - 1) as nat),
        edges.contains((w, v)),
{
    let p = choose|p: Seq<usize>| walk_between(edges, p, u, v, k);
    let q = p.drop_last();
    assert forall|i: int| 0 <= i < q.len() - 1 implies #[trigger] walk_step(edges, q, i) by {
        assert(walk_step(edges, p, i));
    }
    assert(walk_between(edges, q, u, p[k - 1], (k - 1) as nat));
    assert(walk_step(edges, p, k - 1));
    p[k - 1]
}

/// The nodes at the other end of the edges that leave `a` (`outgoing`) or
/// enter it, the most recently added edge first.
pub open spec fn neighbors_of(edges: Seq<(usize, usize)>, a: usize, outgoing: bool) -> Seq<usize>
    decreases edges.len(),
{
    if edges.len() == 0 {
        Seq::empty()
    } else {
        let (u, v) = edges.last();
        let rest = neighbors_of(edges.drop_last(), a, outgoing);
        if outgoing && u == a {
            seq![v] + rest
        } else if !outgoing && v == a {
            seq![u] + rest
        } else {
            rest
        }
    }
}

/// Whether node `v` belongs to component `c`.
pub open spec fn in_component(comps: Seq<Seq<usize>>, c: int, v: usize) -> bool {
    0 <= c < comps.len() && comps[c].contains(v)
}

/// Whether some component holds node `v`.
pub open spec fn covered(comps: Seq<Seq<usize>>, v: usize) -> bool {
    exists|c: int| in_component(comps, c, v)
}

/// Whether `comps` are the strongly connected components of the graph:
/// every node is in a component, no component names a node twice, and two
/// nodes are in the same component exactly when each reaches the other.
pub open spec fn is_component_partition(
    nodes: nat,
    edges: Seq<(usize, usize)>,
    comps: Seq<Seq<usize>>,
) -> bool {
    &&& forall|c: int, v: usize| #[trigger] in_component(comps, c, v) ==> v < nodes
    &&& forall|v: usize| v < nodes ==> #[trigger] covered(comps, v)
    &&& forall|c: int| 0 <= c < comps.len() ==> (#[trigger] comps[c]).no_duplicates()
    &&& forall|c1: int, c2: int, u: usize, v: usize|
        #[trigger] in_component(comps, c1, u) && #[trigger] in_component(comps, c2, v) ==> (c1
            == c2 <==> reaches(edges, u, v) && reaches(edges, v, u))
}

/// The sequences of a list of vectors of node numbers.
pub open spec fn component_rows(v: Seq<Vec<usize>>) -> Seq<Seq<usize>> {
    Seq::new(v.len(), |i: int| v[i]@)
}

/// Creates an empty arena.
///
/// Calls `Graph::with_capacity`: the new graph has no nodes and no edges.
#[verifier::external_body]
pub(crate) fn topology_new() -> (g: Graph<(), (), Directed, usize>)
    ensures
        topology_nodes(g) == 0,
        topology_edges(g) == Seq::<(usize, usize)>::empty(),
{
    Graph::with_capacity(0, 0)
}

/// The number of nodes.
///
/// Calls `Graph::node_count`.
#[verifier::external_body]
pub(crate) fn topology_node_count(g: &Graph<(), (), Directed, usize>) -> (n: usize)
    ensures
        n == topology_nodes(*g),
{
    g.node_count()
}

/// The number of edges.
///
/// Calls `Graph::edge_count`.
#[verifier::external_body]
pub(crate) fn topology_edge_count(g: &Graph<(), (), Directed, usize>) -> (n: usize)
    ensures
        n == topology_edges(*g).len(),
{
    g.edge_count()
}

/// Adds a node and returns its number.
///
/// Calls `Graph::add_node`: the new node gets the next number and the
/// edges stay as they are. With `usize` numbers the call has no limit of
/// its own.
#[verifier::external_body]
pub(crate) fn topology_add_node(g: &mut Graph<(), (), Directed, usize>) -> (n: usize)
    ensures
        n == topology_nodes(*old(g)),
        topology_nodes(*final(g)) == topology_nodes(*old(g)) + 1,
        topology_edges(*final(g)) == topology_edges(*old(g)),
{
    g.add_node(()).index()
}

/// Adds an edge from `a` to `b` and returns its number.
///
/// Calls `Graph::add_edge`, which panics unless both nodes exist: the new
/// edge is the last one, the others and the nodes stay as they are.
#[verifier::external_body]
pub(crate) fn topology_add_edge(g: &mut Graph<(), (), Directed, usize>, a: usize, b: usize) -> (e:
    usize)
    requires
        a < topology_nodes(*old(g)),
        b < topology_nodes(*old(g)),
    ensures
        e == topology_edges(*old(g)).len(),
        topology_edges(*final(g)) == topology_edges(*old(g)).push((a, b)),
        topology_nodes(*final(g)) == topology_nodes(*old(g)),
{
    g.add_edge(NodeIndex::new(a), NodeIndex::new(b), ()).index()
}

/// Whether an edge leads from `a` to `b`.
///
/// Calls `Graph::contains_edge`, which walks the edges that leave `a`.
#[verifier::external_body]
pub(crate) fn topology_contains_edge(g: &Graph<(), (), Directed, usize>, a: usize, b: usize) -> (r:
    bool)
    ensures
        r == topology_edges(*g).contains((a, b)),
{
    g.contains_edge(NodeIndex::new(a), NodeIndex::new(b))
}

/// The source and the target of edge `e`.
///
/// Calls `Graph::edge_endpoints`, which yields `None` only for a number
/// that is no edge.
#[verifier::external_body]
pub(crate) fn topology_endpoints(g: &Graph<(), (), Directed, usize>, e: usize) -> (r: (
    usize,
    usize,
))
    requires
        e < topology_edges(*g).len(),
    ensures
        r == topology_edges(*g)[e as int],
{
    let (a, b) = g.edge_endpoints(EdgeIndex::new(e)).unwrap();
    (a.index(), b.index())
}

/// The targets of the edges that leave `a`.
///
/// Calls `Graph::neighbors_directed` with `Outgoing`, which lists the
/// neighbours in reverse order of the addition of their edges.
#[verifier::external_body]
pub(crate) fn topology_successors(g: &Graph<(), (), Directed, usize>, a: usize) -> (r: Vec<usize>)
    ensures
        r@ == neighbors_of(topology_edges(*g), a, true),
{
    let mut out = Vec::new();
    for n in g.neighbors_directed(NodeIndex::new(a), Direction::Outgoing) {
        out.push(n.index());
    }
    out
}

/// The sources of the edges that enter `a`.
///
/// Calls `Graph::neighbors_directed` with `Incoming`, which lists the
/// neighbours in reverse order of the addition of their edges.
#[verifier::external_body]
pub(crate) fn topology_predecessors(g: &Graph<(), (), Directed, usize>, a: usize) -> (r: Vec<
    usize,
>)
    ensures
        r@ == neighbors_of(topology_edges(*g), a, false),
{
    let mut out = Vec::new();
    for n in g.neighbors_directed(NodeIndex::new(a), Direction::Incoming) {
        out.push(n.index());
    }
    out
}

/// The strongly connected components of the arena.
///
/// Calls `petgraph::algo::tarjan_scc`. Its result depends on the nodes
/// and edges alone and is named [`tarjan_components`]; as documented, its
/// elements are the strongly connected components of the graph.
#[verifier::external_body]
pub(crate) fn topology_components(g: &Graph<(), (), Directed, usize>) -> (r: Vec<Vec<usize>>)
    ensures
        component_rows(r@) == tarjan_components(topology_nodes(*g), topology_edges(*g)),
        is_component_partition(topology_nodes(*g), topology_edges(*g), component_rows(r@)),
{
    let mut out = Vec::new();
    for scc in tarjan_scc(g) {
        let mut members = Vec::new();
        for n in scc {
            members.push(n.index());
        }
        out.push(members);
    }
    out
}

/// Creates an empty index.
///
/// Calls `IndexMap::new`.
#[verifier::external_body]
pub(crate) fn index_new() -> (m: IndexMap<String, usize, RandomState>)
    ensures
        index_entries(m) == Seq::<(Seq<char>, usize)>::empty(),
{
    IndexMap::new()
}

/// The value stored for a key.
///
/// Calls `IndexMap::get`: the value of an entry with this key where there
/// is one, else `None`.
#[verifier::external_body]
pub(crate) fn index_get(m: &IndexMap<String, usize, RandomState>, key: &str) -> (r: Option<usize>)
    ensures
        r matches Some(v) ==> index_entries(*m).contains((key@, v)),
        r is None ==> forall|i: int|
            0 <= i < index_entries(*m).len() ==> (#[trigger] index_entries(*m)[i]).0 != key@,
{
    m.get(key).copied()
}

/// Stores a value for a key that the index does not hold yet.
///
/// Calls `IndexMap::insert`: a new key is inserted last in order.
#[verifier::external_body]
pub(crate) fn index_insert(m: &mut IndexMap<String, usize, RandomState>, key: String, value: usize)
    requires
        forall|i: int|
            0 <= i < index_entries(*old(m)).len() ==> (#[trigger] index_entries(*old(m))[i]).0
                != key@,
    ensures
        index_entries(*final(m)) == index_entries(*old(m)).push((key@, value)),
{
    m.insert(key, value);
}

} // verus!
