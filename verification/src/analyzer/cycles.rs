//! Cycle detection.
//!
//! The cycles of the graph are its strongly connected components with
//! more than one node. The components come from `petgraph`.

use vstd::prelude::*;
use crate::graph::builder::{cycles_view, DependencyGraph, GraphView};
use crate::graph::topology::{
    component_rows, in_component, is_component_partition, tarjan_components,
};
use crate::parser::directive::strings_view;

verus! {

/// The identifiers of the nodes of a component, in its order.
pub open spec fn component_ids(g: GraphView, comp: Seq<usize>) -> Seq<Seq<char>> {
    Seq::new(comp.len(), |k: int| g.nodes[comp[k] as int].id)
}

/// The cycles among the given components: those with more than one node,
/// in their order, each as the identifiers of its nodes.
pub open spec fn cycles_among(g: GraphView, comps: Seq<Seq<usize>>) -> Seq<Seq<Seq<char>>>
    decreases comps.len(),
{
    if comps.len() == 0 {
        Seq::empty()
    } else {
        let rest = cycles_among(g, comps.drop_last());
        if comps.last().len() > 1 {
            rest.push(component_ids(g, comps.last()))
        } else {
            rest
        }
    }
}

/// The cycles of the graph: its strongly connected components with more
/// than one node.
pub open spec fn detected_cycles(g: GraphView) -> Seq<Seq<Seq<char>>> {
    cycles_among(g, tarjan_components(g.nodes.len(), g.links()))
}

/// Whether every component names nodes of the graph only.
pub open spec fn components_in_range(g: GraphView, comps: Seq<Seq<usize>>) -> bool {
    forall|c: int, k: int|
        0 <= c < comps.len() && 0 <= k < comps[c].len() ==> (#[trigger] comps[c][k])
            < g.nodes.len()
}

/// Whether the identifier stands at place `k` of cycle `c`.
pub open spec fn member_at(cycles: Seq<Seq<Seq<char>>>, c: int, k: int, id: Seq<char>) -> bool {
    0 <= c < cycles.len() && 0 <= k < cycles[c].len() && cycles[c][k] == id
}

/// Whether the identifier is a member of one of the cycles.
pub open spec fn in_any_cycle(cycles: Seq<Seq<Seq<char>>>, id: Seq<char>) -> bool {
    exists|c: int, k: int| member_at(cycles, c, k, id)
}

/// Whether the node at place `j` of component `d` has the identifier, and
/// the component has more than one node.
pub open spec fn node_at(g: GraphView, comps: Seq<Seq<usize>>, d: int, j: int, id: Seq<char>) -> bool {
    0 <= d < comps.len() && 0 <= j < comps[d].len() && comps[d].len() > 1
        && g.nodes[comps[d][j] as int].id == id
}

/// Whether the identifier is that of a node of a component with more
/// than one node.
pub open spec fn in_large_component(g: GraphView, comps: Seq<Seq<usize>>, id: Seq<char>) -> bool {
    exists|d: int, j: int| node_at(g, comps, d, j, id)
}

/// The members of the cycles among the components are the identifiers of
/// the nodes of the components with more than one node.
pub proof fn lemma_cycle_members(g: GraphView, comps: Seq<Seq<usize>>, id: Seq<char>)
    ensures
        in_any_cycle(cycles_among(g, comps), id) == in_large_component(g, comps, id),
    decreases comps.len(),
{
    let all = cycles_among(g, comps);
    if comps.len() > 0 {
        let rest = comps.drop_last();
        let before = cycles_among(g, rest);
        let last = comps.len() - 1;
        lemma_cycle_members(g, rest, id);
        if in_any_cycle(all, id) {
            let (c, k) = choose|c: int, k: int| member_at(all, c, k, id);
            if c < before.len() {
                assert(member_at(before, c, k, id));
                let (d, j) = choose|d: int, j: int| node_at(g, rest, d, j, id);
                assert(node_at(g, comps, d, j, id));
            } else {
                assert(node_at(g, comps, last, k, id));
            }
        }
        if in_large_component(g, comps, id) {
            let (d, j) = choose|d: int, j: int| node_at(g, comps, d, j, id);
            if d < rest.len() {
                assert(node_at(g, rest, d, j, id));
                let (c, k) = choose|c: int, k: int| member_at(before, c, k, id);
                assert(member_at(all, c, k, id));
            } else {
                assert(member_at(all, all.len() - 1, j, id));
            }
        }
    } else {
        if in_any_cycle(all, id) {
            let (c, k) = choose|c: int, k: int| member_at(all, c, k, id);
        }
        if in_large_component(g, comps, id) {
            let (d, j) = choose|d: int, j: int| node_at(g, comps, d, j, id);
        }
    }
}

/// Turns components into cycles: the components with more than one node,
/// each as the identifiers of its nodes.
pub fn cycles_from_components(graph: &DependencyGraph, comps: &Vec<Vec<usize>>) -> (r: Vec<
    Vec<String>,
>)
    requires
        graph.wf(),
        components_in_range(graph@, component_rows(comps@)),
    ensures
        cycles_view(r@) == cycles_among(graph@, component_rows(comps@)),
{
    let ghost rows = component_rows(comps@);
    let mut cycles: Vec<Vec<String>> = Vec::new();
    let mut c: usize = 0;
    proof {
        assert(rows.subrange(0, 0) =~= Seq::<Seq<usize>>::empty());
        assert(cycles_view(cycles@) =~= Seq::<Seq<Seq<char>>>::empty());
    }
    while c < comps.len()
        invariant
            c <= comps@.len(),
            graph.wf(),
            rows == component_rows(comps@),
            components_in_range(graph@, rows),
            cycles_view(cycles@) == cycles_among(graph@, rows.subrange(0, c as int)),
        decreases comps@.len() - c,
    {
        let comp = &comps[c];
        proof {
            assert(rows.subrange(0, c as int + 1).drop_last() =~= rows.subrange(0, c as int));
            assert(rows.subrange(0, c as int + 1).last() == comp@);
            assert(rows[c as int] == comp@);
        }
        if comp.len() > 1 {
            let mut cycle: Vec<String> = Vec::new();
            let mut k: usize = 0;
            proof {
                assert forall|j: int| 0 <= j < comp@.len() implies comp@[j]
                    < graph@.nodes.len() by {
                    assert(rows[c as int][j] < graph@.nodes.len());
                }
            }
            while k < comp.len()
                invariant
                    k <= comp@.len(),
                    graph.wf(),
                    forall|j: int| 0 <= j < comp@.len() ==> comp@[j] < graph@.nodes.len(),
                    cycle@.len() == k,
                    forall|j: int|
                        0 <= j < k ==> (#[trigger] cycle@[j])@ == graph@.nodes[comp@[j] as int].id,
                decreases comp@.len() - k,
            {
                cycle.push(graph.node(comp[k]).id.clone());
                k += 1;
            }
            let ghost before = cycles_view(cycles@);
            proof {
                assert(strings_view(cycle@) =~= component_ids(graph@, comp@));
            }
            cycles.push(cycle);
            proof {
                assert(cycles_view(cycles@) =~= before.push(component_ids(graph@, comp@)));
            }
        }
        c += 1;
    }
    assert(rows.subrange(0, c as int) =~= rows);
    cycles
}

/// Detects the cycles of the dependency graph: its strongly connected
/// components with more than one node, each as the identifiers of its
/// nodes.
pub fn detect_cycles(graph: &DependencyGraph) -> (r: Vec<Vec<String>>)
    requires
        graph.wf(),
    ensures
        cycles_view(r@) == detected_cycles(graph@),
        is_component_partition(
            graph@.nodes.len(),
            graph@.links(),
            tarjan_components(graph@.nodes.len(), graph@.links()),
        ),
{
    let comps = graph.components();
    proof {
        let rows = component_rows(comps@);
        assert forall|c: int, k: int|
            0 <= c < rows.len() && 0 <= k < rows[c].len() implies (#[trigger] rows[c][k])
            < graph@.nodes.len() by {
            assert(in_component(rows, c, rows[c][k]));
        }
    }
    cycles_from_components(graph, &comps)
}

} // verus!
