//! Metrics of the nodes: fan-in and fan-out, depth below the entry points
//! and number of transitive dependencies.

use vstd::prelude::*;
use crate::graph::builder::{DependencyGraph, GraphView};
use crate::graph::node::NodeMetrics;
use crate::graph::topology::{
    lemma_reach_edge, lemma_reach_last, lemma_reach_zero, neighbors_of, reaches, reaches_in,
};

verus! {

/// The number of edges that leave node `a`.
pub open spec fn edges_from(links: Seq<(usize, usize)>, a: usize) -> nat
    decreases links.len(),
{
    if links.len() == 0 {
        0
    } else {
        edges_from(links.drop_last(), a) + if links.last().0 == a {
            1nat
        } else {
            0nat
        }
    }
}

/// The number of edges that enter node `a`.
pub open spec fn edges_to(links: Seq<(usize, usize)>, a: usize) -> nat
    decreases links.len(),
{
    if links.len() == 0 {
        0
    } else {
        edges_to(links.drop_last(), a) + if links.last().1 == a {
            1nat
        } else {
            0nat
        }
    }
}

/// The graph with fan-in and fan-out of every node set to the numbers of
/// its incoming and outgoing edges.
pub open spec fn with_fan(g: GraphView) -> GraphView {
    GraphView {
        nodes: Seq::new(
            g.nodes.len(),
            |i: int|
                g.nodes[i].with_metrics(
                    NodeMetrics {
                        fan_in: edges_to(g.links(), i as usize) as usize,
                        fan_out: edges_from(g.links(), i as usize) as usize,
                        ..g.nodes[i].metrics
                    },
                ),
        ),
        ..g
    }
}

/// Whether `k` edges lead from some entry point to node `v`.
pub open spec fn within(g: GraphView, v: usize, k: nat) -> bool {
    exists|u: usize| g.is_entry(u as int) && #[trigger] reaches_in(g.links(), u, v, k)
}

/// Whether `d` is the least number of edges that lead from an entry point
/// to node `v`.
pub open spec fn is_distance(g: GraphView, v: usize, d: nat) -> bool {
    within(g, v, d) && forall|k: nat| k < d ==> !#[trigger] within(g, v, k)
}

/// The depth of node `v`: the least number of edges from an entry point
/// to it, or `usize::MAX` where no entry point reaches it (or the number
/// is no `usize` below that).
pub open spec fn depth_of(g: GraphView, v: usize) -> usize {
    if exists|d: nat| is_distance(g, v, d) && d < usize::MAX {
        (choose|d: nat| is_distance(g, v, d) && d < usize::MAX) as usize
    } else {
        usize::MAX
    }
}

/// The graph with the depth of every node set.
pub open spec fn with_depths(g: GraphView) -> GraphView {
    GraphView {
        nodes: Seq::new(
            g.nodes.len(),
            |i: int|
                g.nodes[i].with_metrics(
                    NodeMetrics { depth: depth_of(g, i as usize), ..g.nodes[i].metrics },
                ),
        ),
        ..g
    }
}

/// The number of nodes below `n`, other than `v`, that `v` reaches.
pub open spec fn reached_count(links: Seq<(usize, usize)>, v: usize, n: nat) -> nat
    decreases n,
{
    if n == 0 {
        0
    } else {
        reached_count(links, v, (n - 1) as nat) + if (n - 1) != v && reaches(
            links,
            v,
            (n - 1) as usize,
        ) {
            1nat
        } else {
            0nat
        }
    }
}

/// The graph with the number of transitive dependencies of every node
/// set: the number of other nodes that it reaches.
pub open spec fn with_transitive(g: GraphView) -> GraphView {
    GraphView {
        nodes: Seq::new(
            g.nodes.len(),
            |i: int|
                g.nodes[i].with_metrics(
                    NodeMetrics {
                        transitive_deps: reached_count(g.links(), i as usize, g.nodes.len()) as usize,
                        ..g.nodes[i].metrics
                    },
                ),
        ),
        ..g
    }
}

/// The neighbours of a node are as many as its edges in that direction,
/// and they are the nodes at the other end of those edges.
pub proof fn lemma_neighbors(links: Seq<(usize, usize)>, a: usize, outgoing: bool)
    ensures
        neighbors_of(links, a, outgoing).len() == if outgoing {
            edges_from(links, a)
        } else {
            edges_to(links, a)
        },
        forall|b: usize|
            neighbors_of(links, a, outgoing).contains(b) <==> if outgoing {
                links.contains((a, b))
            } else {
                links.contains((b, a))
            },
    decreases links.len(),
{
    let all = neighbors_of(links, a, outgoing);
    if links.len() > 0 {
        let rest = links.drop_last();
        let (u, v) = links.last();
        let before = neighbors_of(rest, a, outgoing);
        lemma_neighbors(rest, a, outgoing);
        let hit = (outgoing && u == a) || (!outgoing && v == a);
        let other = if outgoing {
            v
        } else {
            u
        };
        assert forall|b: usize| all.contains(b) <==> if outgoing {
            links.contains((a, b))
        } else {
            links.contains((b, a))
        } by {
            let pair = if outgoing {
                (a, b)
            } else {
                (b, a)
            };
            if all.contains(b) {
                let k = choose|k: int| 0 <= k < all.len() && all[k] == b;
                if hit && k == 0 {
                    assert(links[links.len() - 1] == pair);
                } else {
                    if hit {
                        assert(before[k - 1] == b);
                    } else {
                        assert(before[k] == b);
                    }
                    assert(before.contains(b));
                    let e = choose|e: int| 0 <= e < rest.len() && rest[e] == pair;
                    assert(links[e] == pair);
                }
            }
            if links.contains(pair) {
                let e = choose|e: int| 0 <= e < links.len() && links[e] == pair;
                if e == links.len() - 1 {
                    assert(all[0] == b);
                } else {
                    assert(rest[e] == pair);
                    assert(before.contains(b));
                    let k = choose|k: int| 0 <= k < before.len() && before[k] == b;
                    if hit {
                        assert(all[k + 1] == b);
                    } else {
                        assert(all[k] == b);
                    }
                }
            }
        }
    } else {
        assert forall|b: usize| all.contains(b) <==> if outgoing {
            links.contains((a, b))
        } else {
            links.contains((b, a))
        } by {
        }
    }
}

/// What an entry point reaches in `k` edges, the next node reaches in
/// `k + 1`.
pub proof fn lemma_within_edge(g: GraphView, w: usize, v: usize, k: nat)
    requires
        within(g, w, k),
        g.links().contains((w, v)),
    ensures
        within(g, v, k + 1),
{
    let u = choose|u: usize| g.is_entry(u as int) && #[trigger] reaches_in(g.links(), u, w, k);
    lemma_reach_edge(g.links(), u, w, v, k);
}

/// A way of at least one edge from an entry point ends with an edge from
/// a node that an entry point reaches with one edge less.
pub proof fn lemma_within_last(g: GraphView, v: usize, k: nat) -> (w: usize)
    requires
        within(g, v, k),
        k > 0,
    ensures
        within(g, w, (k - 1) as nat),
        g.links().contains((w, v)),
{
    let u = choose|u: usize| g.is_entry(u as int) && #[trigger] reaches_in(g.links(), u, v, k);
    lemma_reach_last(g.links(), u, v, k)
}

/// The number of entries that are not `usize::MAX`.
pub open spec fn assigned_count(dist: Seq<usize>) -> nat
    decreases dist.len(),
{
    if dist.len() == 0 {
        0
    } else {
        assigned_count(dist.drop_last()) + if dist.last() != usize::MAX {
            1nat
        } else {
            0nat
        }
    }
}

proof fn lemma_assigned_bound(dist: Seq<usize>)
    ensures
        assigned_count(dist) <= dist.len(),
        (exists|v: int| 0 <= v < dist.len() && dist[v] == usize::MAX) ==> assigned_count(dist)
            < dist.len(),
    decreases dist.len(),
{
    if dist.len() > 0 {
        lemma_assigned_bound(dist.drop_last());
        if exists|v: int| 0 <= v < dist.len() && dist[v] == usize::MAX {
            let v = choose|v: int| 0 <= v < dist.len() && dist[v] == usize::MAX;
            if v < dist.len() - 1 {
                assert(dist.drop_last()[v] == usize::MAX);
            }
        }
    }
}

proof fn lemma_assigned_update(dist: Seq<usize>, v: int, x: usize)
    requires
        0 <= v < dist.len(),
        dist[v] == usize::MAX,
        x != usize::MAX,
    ensures
        assigned_count(dist.update(v, x)) == assigned_count(dist) + 1,
    decreases dist.len(),
{
    if v == dist.len() - 1 {
        assert(dist.update(v, x).drop_last() =~= dist.drop_last());
    } else {
        lemma_assigned_update(dist.drop_last(), v, x);
        assert(dist.update(v, x).drop_last() =~= dist.drop_last().update(v, x));
    }
}

/// Every assigned depth is the distance of its node.
#[verifier::opaque]
pub open spec fn sound(g: GraphView, dist: Seq<usize>) -> bool {
    forall|v: int|
        0 <= v < dist.len() && #[trigger] dist[v] != usize::MAX ==> is_distance(
            g,
            v as usize,
            dist[v] as nat,
        )
}

/// No assigned depth is above `level`.
#[verifier::opaque]
pub open spec fn bounded(dist: Seq<usize>, level: nat) -> bool {
    forall|v: int| 0 <= v < dist.len() && #[trigger] dist[v] != usize::MAX ==> dist[v] <= level
}

/// Every node within `level` edges of an entry point has a depth.
#[verifier::opaque]
pub open spec fn complete(g: GraphView, dist: Seq<usize>, level: nat) -> bool {
    forall|v: usize, k: nat|
        v < dist.len() && k <= level && #[trigger] within(g, v, k) ==> dist[v as int]
            != usize::MAX
}

/// During a round the depths that were assigned before stay, and the
/// new ones are `level + 1`.
#[verifier::opaque]
pub open spec fn carried(start: Seq<usize>, dist: Seq<usize>, level: nat) -> bool {
    &&& dist.len() == start.len()
    &&& forall|v: int|
        0 <= v < start.len() && #[trigger] start[v] != usize::MAX ==> dist[v] == start[v]
    &&& forall|v: int|
        0 <= v < start.len() && start[v] == usize::MAX && #[trigger] dist[v] != usize::MAX
            ==> dist[v] == level + 1
}

/// The first `e` edges that leave a node of depth `level` lead to nodes
/// with a depth.
#[verifier::opaque]
pub open spec fn processed(
    links: Seq<(usize, usize)>,
    start: Seq<usize>,
    dist: Seq<usize>,
    level: nat,
    e: int,
) -> bool {
    forall|j: int|
        0 <= j < e && j < links.len() && start[(#[trigger] links[j]).0 as int] == level
            ==> dist[links[j].1 as int] != usize::MAX
}

/// Whether the edges connect nodes below `n`.
pub open spec fn links_in_range(links: Seq<(usize, usize)>, n: nat) -> bool {
    forall|j: int| 0 <= j < links.len() ==> (#[trigger] links[j]).0 < n && links[j].1 < n
}

proof fn lemma_links_in_range(g: GraphView)
    requires
        g.well_formed(),
    ensures
        links_in_range(g.links(), g.nodes.len()),
{
    assert forall|j: int| 0 <= j < g.links().len() implies (#[trigger] g.links()[j]).0
        < g.nodes.len() && g.links()[j].1 < g.nodes.len() by {
        assert(g.edges[j].from < g.nodes.len());
    }
}

/// The depths before the search: 0 for the entry points, none for the
/// other nodes.
proof fn lemma_seeded(g: GraphView, dist: Seq<usize>)
    requires
        dist.len() == g.nodes.len(),
        dist.len() <= usize::MAX,
        forall|v: int|
            0 <= v < dist.len() ==> #[trigger] dist[v] == if g.is_entry(v) {
                0usize
            } else {
                usize::MAX
            },
    ensures
        sound(g, dist),
        bounded(dist, 0),
        complete(g, dist, 0),
{
    reveal(sound);
    reveal(bounded);
    reveal(complete);
    assert forall|v: int|
        0 <= v < dist.len() && #[trigger] dist[v] != usize::MAX implies is_distance(
        g,
        v as usize,
        dist[v] as nat,
    ) by {
        assert(g.is_entry(v));
        lemma_reach_zero(g.links(), v as usize, v as usize);
        assert(within(g, v as usize, 0));
    }
    assert forall|v: usize, k: nat|
        v < dist.len() && k <= 0 && #[trigger] within(g, v, k) implies dist[v as int]
        != usize::MAX by {
        let u = choose|u: usize| g.is_entry(u as int) && #[trigger] reaches_in(g.links(), u, v, k);
        lemma_reach_zero(g.links(), u, v);
    }
}

/// At the start of a round nothing has changed and no edge is processed.
proof fn lemma_round_start(links: Seq<(usize, usize)>, start: Seq<usize>, level: nat)
    ensures
        carried(start, start, level),
        processed(links, start, start, level, 0),
{
    reveal(carried);
    reveal(processed);
}

/// An edge from a node of depth `level` to a node without depth gives
/// that node the depth `level + 1`.
proof fn lemma_assign(
    g: GraphView,
    start: Seq<usize>,
    dist: Seq<usize>,
    level: usize,
    e: int,
    u: usize,
    v: usize,
)
    requires
        links_in_range(g.links(), g.nodes.len()),
        start.len() == g.nodes.len(),
        sound(g, start),
        complete(g, start, level as nat),
        sound(g, dist),
        carried(start, dist, level as nat),
        processed(g.links(), start, dist, level as nat, e),
        0 <= e < g.links().len(),
        g.links()[e] == (u, v),
        dist[u as int] == level,
        dist[v as int] == usize::MAX,
        level + 1 < usize::MAX,
    ensures
        start[u as int] == level,
        sound(g, dist.update(v as int, (level + 1) as usize)),
        carried(start, dist.update(v as int, (level + 1) as usize), level as nat),
        processed(g.links(), start, dist.update(v as int, (level + 1) as usize), level as nat, e + 1),
{
    reveal(sound);
    reveal(complete);
    reveal(carried);
    reveal(processed);
    let after = dist.update(v as int, (level + 1) as usize);
    assert(u < g.nodes.len() && v < g.nodes.len());
    if start[u as int] == usize::MAX {
        assert(dist[u as int] == level + 1);
    }
    assert(start[u as int] == level);
    assert(start[v as int] == usize::MAX) by {
        if start[v as int] != usize::MAX {
            assert(dist[v as int] == start[v as int]);
        }
    }
    assert(is_distance(g, u, level as nat));
    lemma_within_edge(g, u, v, level as nat);
    assert forall|k: nat| k < level + 1 implies !#[trigger] within(g, v, k) by {
        if within(g, v, k) {
            assert(start[v as int] != usize::MAX);
        }
    }
    assert(is_distance(g, v, (level + 1) as nat));
    assert forall|x: int|
        0 <= x < after.len() && #[trigger] after[x] != usize::MAX implies is_distance(
        g,
        x as usize,
        after[x] as nat,
    ) by {
        if x != v {
            assert(dist[x] != usize::MAX);
        }
    }
    assert forall|j: int|
        0 <= j < e + 1 && j < g.links().len() && start[(#[trigger] g.links()[j]).0 as int]
            == level implies after[g.links()[j].1 as int] != usize::MAX by {
        if j < e {
            assert(dist[g.links()[j].1 as int] != usize::MAX);
        }
    }
}

/// An edge that gives no node a depth is processed as it is.
proof fn lemma_skip(
    g: GraphView,
    start: Seq<usize>,
    dist: Seq<usize>,
    level: usize,
    e: int,
    u: usize,
    v: usize,
)
    requires
        links_in_range(g.links(), g.nodes.len()),
        start.len() == g.nodes.len(),
        carried(start, dist, level as nat),
        processed(g.links(), start, dist, level as nat, e),
        0 <= e < g.links().len(),
        g.links()[e] == (u, v),
        !(dist[u as int] == level && dist[v as int] == usize::MAX),
        level < usize::MAX,
    ensures
        processed(g.links(), start, dist, level as nat, e + 1),
{
    reveal(carried);
    reveal(processed);
    assert forall|j: int|
        0 <= j < e + 1 && j < g.links().len() && start[(#[trigger] g.links()[j]).0 as int]
            == level implies dist[g.links()[j].1 as int] != usize::MAX by {
        if j == e {
            assert(start[u as int] != usize::MAX);
            assert(dist[u as int] == start[u as int]);
        }
    }
}

/// After a round every assigned depth is at most `level + 1`, and every
/// node within `level + 1` edges of an entry point has a depth.
proof fn lemma_round_done(g: GraphView, start: Seq<usize>, dist: Seq<usize>, level: usize)
    requires
        links_in_range(g.links(), g.nodes.len()),
        start.len() == g.nodes.len(),
        sound(g, start),
        bounded(start, level as nat),
        complete(g, start, level as nat),
        carried(start, dist, level as nat),
        processed(g.links(), start, dist, level as nat, g.links().len() as int),
    ensures
        bounded(dist, level as nat + 1),
        complete(g, dist, level as nat + 1),
{
    reveal(sound);
    reveal(bounded);
    reveal(complete);
    reveal(carried);
    reveal(processed);
    let links = g.links();
    assert forall|x: int| 0 <= x < dist.len() && #[trigger] dist[x] != usize::MAX implies dist[x]
        <= level as nat + 1 by {
        if start[x] != usize::MAX {
            assert(dist[x] == start[x]);
        }
    }
    assert forall|x: usize, k: nat|
        x < dist.len() && k <= level as nat + 1 && #[trigger] within(g, x, k) implies dist[x as int]
        != usize::MAX by {
        if k <= level {
            assert(start[x as int] != usize::MAX);
        } else {
            let w = lemma_within_last(g, x, k);
            let j = choose|j: int| 0 <= j < links.len() && links[j] == (w, x);
            assert(links[j].0 == w);
            assert(within(g, w, level as nat));
            assert(start[w as int] != usize::MAX);
            assert(is_distance(g, w, start[w as int] as nat));
            if start[w as int] == level {
                assert(start[links[j].0 as int] == level);
            } else {
                lemma_within_edge(g, w, x, start[w as int] as nat);
                assert(start[x as int] != usize::MAX);
            }
        }
    }
}

/// Once a round assigns nothing, every node that an entry point reaches
/// has a depth.
proof fn lemma_complete_all(g: GraphView, dist: Seq<usize>, level: nat, v: usize, k: nat)
    requires
        links_in_range(g.links(), g.nodes.len()),
        dist.len() == g.nodes.len(),
        sound(g, dist),
        bounded(dist, level),
        complete(g, dist, level + 1),
        v < dist.len(),
        within(g, v, k),
    ensures
        dist[v as int] != usize::MAX,
    decreases k,
{
    reveal(sound);
    reveal(bounded);
    reveal(complete);
    if k > level + 1 {
        let w = lemma_within_last(g, v, k);
        let e = choose|e: int| 0 <= e < g.links().len() && g.links()[e] == (w, v);
        assert(g.links()[e].0 == w);
        lemma_complete_all(g, dist, level, w, (k - 1) as nat);
        let d = dist[w as int];
        assert(is_distance(g, w, d as nat));
        lemma_within_edge(g, w, v, d as nat);
    }
}

/// A depth that is the distance of its node is the depth of the node; a
/// node that no entry point reaches has the depth `usize::MAX`.
pub proof fn lemma_depth_of(g: GraphView, v: usize, d: usize)
    requires
        d != usize::MAX ==> is_distance(g, v, d as nat),
        d == usize::MAX ==> forall|k: nat| !#[trigger] within(g, v, k),
    ensures
        depth_of(g, v) == d,
{
    if d != usize::MAX {
        assert(is_distance(g, v, d as nat) && (d as nat) < usize::MAX);
        let c = choose|c: nat| is_distance(g, v, c) && c < usize::MAX;
        if c < d {
            assert(!within(g, v, c));
        }
        if (d as nat) < c {
            assert(!within(g, v, d as nat));
        }
    } else {
        if exists|c: nat| is_distance(g, v, c) && c < usize::MAX {
            let c = choose|c: nat| is_distance(g, v, c) && c < usize::MAX;
            assert(within(g, v, c));
        }
    }
}

/// Among the numbers of edges in which an entry point reaches a node
/// there is a least one.
pub proof fn lemma_least_distance(g: GraphView, v: usize, k: nat) -> (d: nat)
    requires
        within(g, v, k),
    ensures
        d <= k,
        is_distance(g, v, d),
    decreases k,
{
    if exists|j: nat| j < k && #[trigger] within(g, v, j) {
        let j = choose|j: nat| j < k && #[trigger] within(g, v, j);
        lemma_least_distance(g, v, j)
    } else {
        k
    }
}

/// When the search has ended, every node has its depth.
proof fn lemma_search_done(g: GraphView, dist: Seq<usize>, level: nat, v: int)
    requires
        links_in_range(g.links(), g.nodes.len()),
        dist.len() == g.nodes.len(),
        sound(g, dist),
        bounded(dist, level),
        complete(g, dist, level + 1),
        0 <= v < dist.len(),
        dist.len() <= usize::MAX,
    ensures
        dist[v] == depth_of(g, v as usize),
{
    let node = v as usize;
    if dist[v] == usize::MAX {
        assert forall|k: nat| !#[trigger] within(g, node, k) by {
            if within(g, node, k) {
                lemma_complete_all(g, dist, level, node, k);
            }
        }
    } else {
        reveal(sound);
    }
    lemma_depth_of(g, node, dist[v]);
}

/// Whether node `i` is an entry point.
pub fn is_entry_node(graph: &DependencyGraph, i: usize) -> (r: bool)
    requires
        graph.wf(),
        i < graph@.nodes.len(),
    ensures
        r == graph@.is_entry(i as int),
{
    let entries = graph.entry_points();
    let id = &graph.node(i).id;
    let mut k: usize = 0;
    while k < entries.len()
        invariant
            k <= entries@.len(),
            crate::parser::directive::strings_view(entries@) == graph@.entry_points,
            i < graph@.nodes.len(),
            id@ == graph@.nodes[i as int].id,
            forall|j: int| 0 <= j < k ==> graph@.entry_points[j] != id@,
        decreases entries@.len() - k,
    {
        assert(graph@.entry_points[k as int] == entries@[k as int]@);
        if entries[k] == *id {
            return true;
        }
        k += 1;
    }
    false
}

/// One round of the breadth-first search: every node without a depth
/// that an edge reaches from a node of depth `level` gets the depth
/// `level + 1`. Returns whether a node got a depth.
fn relax(graph: &DependencyGraph, dist: &mut Vec<usize>, level: usize) -> (changed: bool)
    requires
        graph.wf(),
        old(dist)@.len() == graph@.nodes.len(),
        sound(graph@, old(dist)@),
        bounded(old(dist)@, level as nat),
        complete(graph@, old(dist)@, level as nat),
        assigned_count(old(dist)@) == 0 || level < assigned_count(old(dist)@),
        level < usize::MAX,
    ensures
        final(dist)@.len() == graph@.nodes.len(),
        sound(graph@, final(dist)@),
        bounded(final(dist)@, level as nat + 1),
        complete(graph@, final(dist)@, level as nat + 1),
        !changed ==> final(dist)@ == old(dist)@,
        changed ==> assigned_count(final(dist)@) > assigned_count(old(dist)@) && level + 1
            < assigned_count(final(dist)@),
{
    let ghost g = graph@;
    let ghost start = dist@;
    let ghost links = g.links();
    let m = graph.edge_count();
    let n = graph.node_count();
    let mut changed = false;
    let mut e: usize = 0;
    proof {
        graph.lemma_wf();
        lemma_links_in_range(g);
        lemma_round_start(links, start, level as nat);
    }
    while e < m
        invariant
            e <= m,
            m == links.len(),
            n == g.nodes.len(),
            g == graph@,
            links == g.links(),
            graph.wf(),
            links_in_range(links, g.nodes.len()),
            dist@.len() == g.nodes.len(),
            start.len() == g.nodes.len(),
            sound(g, start),
            complete(g, start, level as nat),
            assigned_count(start) == 0 || level < assigned_count(start),
            level < usize::MAX,
            sound(g, dist@),
            carried(start, dist@, level as nat),
            processed(links, start, dist@, level as nat, e as int),
            !changed ==> dist@ == start,
            changed ==> assigned_count(dist@) > assigned_count(start) && level + 1
                < assigned_count(dist@),
            assigned_count(dist@) >= assigned_count(start),
        decreases m - e,
    {
        let (u, v) = graph.endpoints(e);
        if dist[u] == level && dist[v] == usize::MAX {
            proof {
                lemma_assigned_bound(dist@);
                lemma_assigned_bound(start);
                reveal(carried);
                if start[u as int] == usize::MAX {
                    assert(dist@[u as int] == level + 1);
                }
                lemma_assigned_positive(start, u as int);
                assert(level + 1 < dist@.len());
                lemma_assigned_update(dist@, v as int, (level + 1) as usize);
                lemma_assign(g, start, dist@, level, e as int, u, v);
            }
            dist.set(v, level + 1);
            changed = true;
        } else {
            proof {
                lemma_skip(g, start, dist@, level, e as int, u, v);
            }
        }
        e += 1;
    }
    proof {
        lemma_round_done(g, start, dist@, level);
    }
    changed
}

proof fn lemma_assigned_positive(dist: Seq<usize>, v: int)
    requires
        0 <= v < dist.len(),
        dist[v] != usize::MAX,
    ensures
        assigned_count(dist) > 0,
    decreases dist.len(),
{
    if v < dist.len() - 1 {
        lemma_assigned_positive(dist.drop_last(), v);
    }
}

/// The depth of every node, by breadth-first search from all entry
/// points at once.
pub fn depths(graph: &DependencyGraph) -> (dist: Vec<usize>)
    requires
        graph.wf(),
    ensures
        dist@.len() == graph@.nodes.len(),
        forall|v: int| 0 <= v < dist@.len() ==> #[trigger] dist@[v] == depth_of(graph@, v as usize),
{
    let ghost g = graph@;
    let n = graph.node_count();
    let mut dist: Vec<usize> = Vec::new();
    let mut i: usize = 0;
    while i < n
        invariant
            i <= n,
            n == g.nodes.len(),
            g == graph@,
            graph.wf(),
            dist@.len() == i,
            forall|v: int|
                0 <= v < i ==> #[trigger] dist@[v] == if g.is_entry(v) {
                    0usize
                } else {
                    usize::MAX
                },
        decreases n - i,
    {
        if is_entry_node(graph, i) {
            dist.push(0);
        } else {
            dist.push(usize::MAX);
        }
        i += 1;
    }
    proof {
        graph.lemma_wf();
        lemma_links_in_range(g);
        lemma_seeded(g, dist@);
        lemma_assigned_bound(dist@);
    }
    let mut level: usize = 0;
    loop
        invariant
            g == graph@,
            graph.wf(),
            links_in_range(g.links(), g.nodes.len()),
            n == g.nodes.len(),
            dist@.len() == n,
            sound(g, dist@),
            bounded(dist@, level as nat),
            complete(g, dist@, level as nat),
            assigned_count(dist@) == 0 || level < assigned_count(dist@),
            assigned_count(dist@) <= n,
            level < usize::MAX,
        ensures
            dist@.len() == n,
            sound(g, dist@),
            bounded(dist@, level as nat),
            complete(g, dist@, level as nat + 1),
        decreases n - assigned_count(dist@),
    {
        let changed = relax(graph, &mut dist, level);
        proof {
            lemma_assigned_bound(dist@);
        }
        if !changed {
            break ;
        }
        level = level + 1;
    }
    proof {
        assert forall|v: int| 0 <= v < dist@.len() implies #[trigger] dist@[v] == depth_of(
            g,
            v as usize,
        ) by {
            lemma_search_done(g, dist@, level as nat, v);
        }
    }
    dist
}

/// The number of marks that are set.
pub open spec fn marked_count(mark: Seq<bool>) -> nat
    decreases mark.len(),
{
    if mark.len() == 0 {
        0
    } else {
        marked_count(mark.drop_last()) + if mark.last() {
            1nat
        } else {
            0nat
        }
    }
}

proof fn lemma_marked_bound(mark: Seq<bool>)
    ensures
        marked_count(mark) <= mark.len(),
        (exists|v: int| 0 <= v < mark.len() && !mark[v]) ==> marked_count(mark) < mark.len(),
    decreases mark.len(),
{
    if mark.len() > 0 {
        lemma_marked_bound(mark.drop_last());
        if exists|v: int| 0 <= v < mark.len() && !mark[v] {
            let v = choose|v: int| 0 <= v < mark.len() && !mark[v];
            if v < mark.len() - 1 {
                assert(!mark.drop_last()[v]);
            }
        }
    }
}

proof fn lemma_marked_update(mark: Seq<bool>, v: int)
    requires
        0 <= v < mark.len(),
        !mark[v],
    ensures
        marked_count(mark.update(v, true)) == marked_count(mark) + 1,
    decreases mark.len(),
{
    if v == mark.len() - 1 {
        assert(mark.update(v, true).drop_last() =~= mark.drop_last());
    } else {
        lemma_marked_update(mark.drop_last(), v);
        assert(mark.update(v, true).drop_last() =~= mark.drop_last().update(v, true));
    }
}

/// Marks the successors of a node that have no mark yet and puts them on
/// the stack.
fn mark_successors(
    succ: &Vec<usize>,
    mark: &mut Vec<bool>,
    stack: &mut Vec<usize>,
    Ghost(links): Ghost<Seq<(usize, usize)>>,
    Ghost(v): Ghost<usize>,
    Ghost(u): Ghost<usize>,
)
    requires
        forall|j: int| 0 <= j < succ@.len() ==> succ@[j] < old(mark)@.len(),
        forall|j: int| 0 <= j < succ@.len() ==> links.contains((u, #[trigger] succ@[j])),
        reaches(links, v, u),
        forall|x: int| 0 <= x < old(mark)@.len() && old(mark)@[x] ==> reaches(links, v, x as usize),
        forall|j: int|
            0 <= j < old(stack)@.len() ==> old(stack)@[j] < old(mark)@.len() && old(mark)@[old(stack)@[j] as int],
    ensures
        final(mark)@.len() == old(mark)@.len(),
        forall|x: int| 0 <= x < old(mark)@.len() && old(mark)@[x] ==> final(mark)@[x],
        forall|x: int|
            0 <= x < final(mark)@.len() && final(mark)@[x] ==> reaches(links, v, x as usize),
        forall|j: int| 0 <= j < succ@.len() ==> final(mark)@[succ@[j] as int],
        forall|j: int|
            0 <= j < final(stack)@.len() ==> final(stack)@[j] < final(mark)@.len() && final(mark)@[final(stack)@[j] as int],
        forall|x: usize| old(stack)@.contains(x) ==> final(stack)@.contains(x),
        forall|x: usize|
            x < final(mark)@.len() && final(mark)@[x as int] && !old(mark)@[x as int] ==> final(stack)@.contains(x),
        final(stack)@.len() >= old(stack)@.len(),
        marked_count(final(mark)@) == marked_count(old(mark)@) + final(stack)@.len() - old(stack)@.len(),
{
    let mut j: usize = 0;
    while j < succ.len()
        invariant
            j <= succ@.len(),
            mark@.len() == old(mark)@.len(),
            forall|i: int| 0 <= i < succ@.len() ==> succ@[i] < mark@.len(),
            forall|i: int| 0 <= i < succ@.len() ==> links.contains((u, #[trigger] succ@[i])),
            reaches(links, v, u),
            forall|x: int| 0 <= x < old(mark)@.len() && old(mark)@[x] ==> mark@[x],
            forall|x: int| 0 <= x < mark@.len() && mark@[x] ==> reaches(links, v, x as usize),
            forall|i: int| 0 <= i < j ==> mark@[succ@[i] as int],
            forall|i: int|
                0 <= i < stack@.len() ==> stack@[i] < mark@.len() && mark@[stack@[i] as int],
            forall|x: usize| old(stack)@.contains(x) ==> stack@.contains(x),
            forall|x: usize|
                x < mark@.len() && mark@[x as int] && !old(mark)@[x as int] ==> stack@.contains(x),
            stack@.len() >= old(stack)@.len(),
            marked_count(mark@) == marked_count(old(mark)@) + stack@.len() - old(stack)@.len(),
        decreases succ@.len() - j,
    {
        let w = succ[j];
        if !mark[w] {
            proof {
                lemma_marked_update(mark@, w as int);
                let k = choose|k: nat| reaches_in(links, v, u, k);
                lemma_reach_edge(links, v, u, w, k);
            }
            let ghost before = stack@;
            let ghost before_mark = mark@;
            mark.set(w, true);
            stack.push(w);
            proof {
                assert(stack@[before.len() as int] == w);
                assert forall|x: usize| before.contains(x) implies stack@.contains(x) by {
                    let i = choose|i: int| 0 <= i < before.len() && before[i] == x;
                    assert(stack@[i] == x);
                }
                assert forall|x: usize|
                    x < mark@.len() && mark@[x as int] && !old(mark)@[x as int] implies stack@.contains(
                    x,
                ) by {
                    if x != w {
                        assert(before_mark[x as int]);
                        assert(before.contains(x));
                    }
                }
            }
        }
        j += 1;
    }
}

/// Every edge from a marked node that is not on the stack leads to a
/// marked node.
pub open spec fn closed_but(links: Seq<(usize, usize)>, mark: Seq<bool>, stack: Seq<usize>) -> bool {
    forall|e: int|
        0 <= e < links.len() && mark[(#[trigger] links[e]).0 as int] && !stack.contains(links[e].0)
            ==> mark[links[e].1 as int]
}

/// Marks that hold the start and follow every edge hold every node that
/// the start reaches.
proof fn lemma_closed_reaches(
    links: Seq<(usize, usize)>,
    mark: Seq<bool>,
    v: usize,
    x: usize,
    k: nat,
)
    requires
        v < mark.len(),
        mark[v as int],
        forall|e: int|
            0 <= e < links.len() ==> (#[trigger] links[e]).0 < mark.len() && links[e].1
                < mark.len(),
        closed_but(links, mark, Seq::empty()),
        reaches_in(links, v, x, k),
    ensures
        x < mark.len(),
        mark[x as int],
    decreases k,
{
    if k == 0 {
        lemma_reach_zero(links, v, x);
    } else {
        let w = lemma_reach_last(links, v, x, k);
        lemma_closed_reaches(links, mark, v, w, (k - 1) as nat);
        let e = choose|e: int| 0 <= e < links.len() && links[e] == (w, x);
        assert(links[e].0 == w);
        assert(!Seq::<usize>::empty().contains(w));
    }
}

/// The nodes that node `v` reaches, as marks: the mark of a node is set
/// exactly when edges lead from `v` to it.
pub fn reach_marks(graph: &DependencyGraph, v: usize) -> (mark: Vec<bool>)
    requires
        graph.wf(),
        v < graph@.nodes.len(),
    ensures
        mark@.len() == graph@.nodes.len(),
        forall|x: int|
            0 <= x < mark@.len() ==> #[trigger] mark@[x] == reaches(graph@.links(), v, x as usize),
{
    let ghost g = graph@;
    let ghost links = g.links();
    let n = graph.node_count();
    let mut mark: Vec<bool> = Vec::new();
    let mut i: usize = 0;
    while i < n
        invariant
            i <= n,
            mark@.len() == i,
            forall|x: int| 0 <= x < i ==> !mark@[x],
        decreases n - i,
    {
        mark.push(false);
        i += 1;
    }
    proof {
        lemma_marked_update(mark@, v as int);
        graph.lemma_wf();
        lemma_reach_zero(links, v, v);
    }
    mark.set(v, true);
    let mut stack: Vec<usize> = Vec::new();
    stack.push(v);
    proof {
        assert(stack@[0] == v);
        assert forall|e: int|
            0 <= e < links.len() && mark@[(#[trigger] links[e]).0 as int] && !stack@.contains(
                links[e].0,
            ) implies mark@[links[e].1 as int] by {
            assert(g.edges[e].from < n);
            assert(links[e].0 == v);
        }
        assert forall|e: int| 0 <= e < links.len() implies (#[trigger] links[e]).0 < n
            && links[e].1 < n by {
            assert(g.edges[e].from < n);
        }
    }
    while stack.len() > 0
        invariant
            g == graph@,
            links == g.links(),
            graph.wf(),
            n == g.nodes.len(),
            v < n,
            mark@.len() == n,
            mark@[v as int],
            forall|e: int|
                0 <= e < links.len() ==> (#[trigger] links[e]).0 < n && links[e].1 < n,
            forall|x: int| 0 <= x < n && mark@[x] ==> reaches(links, v, x as usize),
            forall|j: int| 0 <= j < stack@.len() ==> stack@[j] < n && mark@[stack@[j] as int],
            closed_but(links, mark@, stack@),
        decreases n - marked_count(mark@), stack@.len(),
    {
        let ghost before_mark = mark@;
        let ghost before_stack = stack@;
        let u = stack.pop().unwrap();
        let ghost popped = stack@;
        let succ = graph.successors(u);
        proof {
            lemma_neighbors(links, u, true);
            lemma_marked_bound(mark@);
            assert(before_stack[before_stack.len() - 1] == u);
            assert forall|j: int| 0 <= j < succ@.len() implies succ@[j] < n && links.contains(
                (u, #[trigger] succ@[j]),
            ) by {
                assert(succ@.contains(succ@[j]));
                let e = choose|e: int| 0 <= e < links.len() && links[e] == (u, succ@[j]);
                assert(links[e].1 < n);
            }
            assert forall|j: int| 0 <= j < popped.len() implies popped[j] < n && mark@[popped[j] as int] by {
                assert(popped[j] == before_stack[j]);
            }
        }
        mark_successors(&succ, &mut mark, &mut stack, Ghost(links), Ghost(v), Ghost(u));
        proof {
            lemma_marked_bound(mark@);
            assert forall|e: int|
                0 <= e < links.len() && mark@[(#[trigger] links[e]).0 as int] && !stack@.contains(
                    links[e].0,
                ) implies mark@[links[e].1 as int] by {
                let a = links[e].0;
                let b = links[e].1;
                if a == u {
                    assert(links.contains((u, b)));
                    assert(succ@.contains(b));
                    let j = choose|j: int| 0 <= j < succ@.len() && succ@[j] == b;
                    assert(mark@[succ@[j] as int]);
                } else if before_mark[a as int] {
                    if before_stack.contains(a) {
                        let j = choose|j: int| 0 <= j < before_stack.len() && before_stack[j] == a;
                        assert(j < before_stack.len() - 1);
                        assert(popped[j] == a);
                        assert(popped.contains(a));
                        assert(stack@.contains(a));
                    }
                    assert(before_mark[b as int]);
                } else {
                    assert(stack@.contains(a));
                }
            }
        }
    }
    proof {
        assert(stack@ =~= Seq::<usize>::empty());
        assert forall|x: int| 0 <= x < mark@.len() implies #[trigger] mark@[x] == reaches(
            links,
            v,
            x as usize,
        ) by {
            let node = x as usize;
            if reaches(links, v, node) {
                let k = choose|k: nat| reaches_in(links, v, node, k);
                lemma_closed_reaches(links, mark@, v, node, k);
            }
        }
    }
    mark
}

/// The number of other nodes that node `v` reaches.
pub fn transitive_count(graph: &DependencyGraph, v: usize) -> (count: usize)
    requires
        graph.wf(),
        v < graph@.nodes.len(),
    ensures
        count == reached_count(graph@.links(), v, graph@.nodes.len()),
{
    let mark = reach_marks(graph, v);
    let n = mark.len();
    let mut count: usize = 0;
    let mut i: usize = 0;
    while i < n
        invariant
            i <= n,
            n == mark@.len(),
            n == graph@.nodes.len(),
            count <= i,
            count == reached_count(graph@.links(), v, i as nat),
            forall|x: int|
                0 <= x < mark@.len() ==> #[trigger] mark@[x] == reaches(
                    graph@.links(),
                    v,
                    x as usize,
                ),
        decreases n - i,
    {
        if i != v && mark[i] {
            count += 1;
        }
        i += 1;
    }
    count
}

/// Calculates fan-in and fan-out for all nodes.
///
/// - Fan-in: the number of edges that enter the node
/// - Fan-out: the number of edges that leave the node
pub fn calculate_fan_in_out(graph: &mut DependencyGraph)
    requires
        old(graph).wf(),
    ensures
        final(graph).wf(),
        final(graph)@ == with_fan(old(graph)@),
{
    let ghost g0 = graph@;
    let n = graph.node_count();
    let mut i: usize = 0;
    while i < n
        invariant
            i <= n,
            n == g0.nodes.len(),
            graph.wf(),
            graph@.nodes.len() == n,
            graph@.edges == g0.edges,
            graph@.entry_points == g0.entry_points,
            graph@.cycles == g0.cycles,
            graph@.warnings == g0.warnings,
            forall|k: int| 0 <= k < i ==> #[trigger] graph@.nodes[k] == with_fan(g0).nodes[k],
            forall|k: int| i <= k < n ==> #[trigger] graph@.nodes[k] == g0.nodes[k],
        decreases n - i,
    {
        let fan_in = graph.predecessors(i).len();
        let fan_out = graph.successors(i).len();
        proof {
            lemma_neighbors(g0.links(), i, true);
            lemma_neighbors(g0.links(), i, false);
            assert(graph@.links() =~= g0.links());
        }
        let old_metrics = graph.node(i).metrics;
        graph.set_metrics(
            i,
            NodeMetrics {
                fan_in,
                fan_out,
                depth: old_metrics.depth,
                transitive_deps: old_metrics.transitive_deps,
            },
        );
        i += 1;
    }
    assert(graph@.nodes =~= with_fan(g0).nodes);
}

/// Calculates the depth of every node: its distance from the nearest
/// entry point, `usize::MAX` where no entry point reaches it. Entry points
/// have depth 0.
pub fn calculate_depths(graph: &mut DependencyGraph)
    requires
        old(graph).wf(),
    ensures
        final(graph).wf(),
        final(graph)@ == with_depths(old(graph)@),
{
    let ghost g0 = graph@;
    let dist = depths(graph);
    let n = graph.node_count();
    let mut i: usize = 0;
    while i < n
        invariant
            i <= n,
            n == g0.nodes.len(),
            dist@.len() == n,
            forall|v: int| 0 <= v < n ==> #[trigger] dist@[v] == depth_of(g0, v as usize),
            graph.wf(),
            graph@.nodes.len() == n,
            graph@.edges == g0.edges,
            graph@.entry_points == g0.entry_points,
            graph@.cycles == g0.cycles,
            graph@.warnings == g0.warnings,
            forall|k: int| 0 <= k < i ==> #[trigger] graph@.nodes[k] == with_depths(g0).nodes[k],
            forall|k: int| i <= k < n ==> #[trigger] graph@.nodes[k] == g0.nodes[k],
        decreases n - i,
    {
        let old_metrics = graph.node(i).metrics;
        graph.set_metrics(
            i,
            NodeMetrics {
                fan_in: old_metrics.fan_in,
                fan_out: old_metrics.fan_out,
                depth: dist[i],
                transitive_deps: old_metrics.transitive_deps,
            },
        );
        i += 1;
    }
    assert(graph@.nodes =~= with_depths(g0).nodes);
}

/// Calculates the number of transitive dependencies of every node: the
/// number of other files that it depends on, directly or indirectly.
pub fn calculate_transitive_deps(graph: &mut DependencyGraph)
    requires
        old(graph).wf(),
    ensures
        final(graph).wf(),
        final(graph)@ == with_transitive(old(graph)@),
{
    let ghost g0 = graph@;
    let n = graph.node_count();
    let mut i: usize = 0;
    while i < n
        invariant
            i <= n,
            n == g0.nodes.len(),
            graph.wf(),
            graph@.nodes.len() == n,
            graph@.edges == g0.edges,
            graph@.entry_points == g0.entry_points,
            graph@.cycles == g0.cycles,
            graph@.warnings == g0.warnings,
            forall|k: int|
                0 <= k < i ==> #[trigger] graph@.nodes[k] == with_transitive(g0).nodes[k],
            forall|k: int| i <= k < n ==> #[trigger] graph@.nodes[k] == g0.nodes[k],
        decreases n - i,
    {
        proof {
            assert(graph@.links() =~= g0.links());
        }
        let count = transitive_count(graph, i);
        let old_metrics = graph.node(i).metrics;
        graph.set_metrics(
            i,
            NodeMetrics {
                fan_in: old_metrics.fan_in,
                fan_out: old_metrics.fan_out,
                depth: old_metrics.depth,
                transitive_deps: count,
            },
        );
        i += 1;
    }
    assert(graph@.nodes =~= with_transitive(g0).nodes);
}

} // verus!
