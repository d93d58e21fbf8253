//! Flag assignment from the results of the analysis.

use vstd::prelude::*;
use crate::analyzer::cycles::{in_any_cycle, member_at};
use crate::graph::builder::{cycles_view, DependencyGraph, GraphView};
use crate::graph::node::{FileNodeView, NodeFlag};

verus! {

/// Thresholds for flag assignment.
#[derive(Debug, Clone, Copy)]
pub struct FlagThresholds {
    /// Fan-in from which a node is flagged `HighFanIn`.
    pub high_fan_in: usize,
    /// Fan-out from which a node is flagged `HighFanOut`.
    pub high_fan_out: usize,
}

impl Default for FlagThresholds {
    /// Fan-in 5, fan-out 10.
    fn default() -> (t: FlagThresholds)
        ensures
            t.high_fan_in == 5,
            t.high_fan_out == 10,
    {
        FlagThresholds { high_fan_in: 5, high_fan_out: 10 }
    }
}

/// The node with the flag added where the condition holds.
pub open spec fn with_flag_if(node: FileNodeView, cond: bool, flag: NodeFlag) -> FileNodeView {
    if cond {
        node.with_flag(flag)
    } else {
        node
    }
}

/// The node with the flags that its metrics and its membership in a
/// cycle call for: `Leaf` for fan-out 0, `HighFanIn` and `HighFanOut` from
/// the thresholds on, `InCycle` for a member of a cycle. Flags that the
/// node carries stay.
pub open spec fn flagged(node: FileNodeView, t: FlagThresholds, in_cycle: bool) -> FileNodeView {
    let a = with_flag_if(node, node.metrics.fan_out == 0, NodeFlag::Leaf);
    let b = with_flag_if(a, node.metrics.fan_in >= t.high_fan_in, NodeFlag::HighFanIn);
    let c = with_flag_if(b, node.metrics.fan_out >= t.high_fan_out, NodeFlag::HighFanOut);
    with_flag_if(c, in_cycle, NodeFlag::InCycle)
}

/// The graph with the flags of every node assigned.
pub open spec fn with_flags(g: GraphView, t: FlagThresholds) -> GraphView {
    GraphView {
        nodes: Seq::new(
            g.nodes.len(),
            |i: int| flagged(g.nodes[i], t, in_any_cycle(g.cycles, g.nodes[i].id)),
        ),
        ..g
    }
}

/// Which flags a node carries after the assignment: those that it
/// carried, and those that the assignment calls for.
pub proof fn lemma_flagged(node: FileNodeView, t: FlagThresholds, in_cycle: bool)
    ensures
        flagged(node, t, in_cycle).id == node.id,
        flagged(node, t, in_cycle).absolute_path == node.absolute_path,
        flagged(node, t, in_cycle).metrics == node.metrics,
        flagged(node, t, in_cycle).has(NodeFlag::Leaf) == (node.has(NodeFlag::Leaf)
            || node.metrics.fan_out == 0),
        flagged(node, t, in_cycle).has(NodeFlag::HighFanIn) == (node.has(NodeFlag::HighFanIn)
            || node.metrics.fan_in >= t.high_fan_in),
        flagged(node, t, in_cycle).has(NodeFlag::HighFanOut) == (node.has(NodeFlag::HighFanOut)
            || node.metrics.fan_out >= t.high_fan_out),
        flagged(node, t, in_cycle).has(NodeFlag::InCycle) == (node.has(NodeFlag::InCycle)
            || in_cycle),
        flagged(node, t, in_cycle).has(NodeFlag::EntryPoint) == node.has(NodeFlag::EntryPoint),
        flagged(node, t, in_cycle).has(NodeFlag::Orphan) == node.has(NodeFlag::Orphan),
{
    let a = with_flag_if(node, node.metrics.fan_out == 0, NodeFlag::Leaf);
    let b = with_flag_if(a, node.metrics.fan_in >= t.high_fan_in, NodeFlag::HighFanIn);
    let c = with_flag_if(b, node.metrics.fan_out >= t.high_fan_out, NodeFlag::HighFanOut);
    let d = with_flag_if(c, in_cycle, NodeFlag::InCycle);
    lemma_with_flag(node, NodeFlag::Leaf);
    lemma_with_flag(a, NodeFlag::HighFanIn);
    lemma_with_flag(b, NodeFlag::HighFanOut);
    lemma_with_flag(c, NodeFlag::InCycle);
}

/// Adding a flag makes the node carry it and changes no other flag.
pub proof fn lemma_with_flag(node: FileNodeView, flag: NodeFlag)
    ensures
        node.with_flag(flag).has(flag),
        forall|other: NodeFlag| other != flag ==> node.with_flag(flag).has(other) == node.has(other),
        node.with_flag(flag).id == node.id,
        node.with_flag(flag).metrics == node.metrics,
        node.with_flag(flag).absolute_path == node.absolute_path,
{
    if !node.flags.contains(flag) {
        let after = node.flags.push(flag);
        assert(after[node.flags.len() as int] == flag);
        assert forall|other: NodeFlag| other != flag implies after.contains(other)
            == node.flags.contains(other) by {
            if after.contains(other) {
                let k = choose|k: int| 0 <= k < after.len() && after[k] == other;
                assert(node.flags[k] == other);
            }
            if node.flags.contains(other) {
                let k = choose|k: int| 0 <= k < node.flags.len() && node.flags[k] == other;
                assert(after[k] == other);
            }
        }
    }
}

/// Whether the identifier is a member of one of the cycles.
pub fn is_cycle_member(cycles: &Vec<Vec<String>>, id: &String) -> (r: bool)
    ensures
        r == in_any_cycle(cycles_view(cycles@), id@),
{
    let ghost view = cycles_view(cycles@);
    let mut c: usize = 0;
    while c < cycles.len()
        invariant
            c <= cycles@.len(),
            view == cycles_view(cycles@),
            forall|d: int, k: int| 0 <= d < c ==> !#[trigger] member_at(view, d, k, id@),
        decreases cycles@.len() - c,
    {
        let cycle = &cycles[c];
        let mut k: usize = 0;
        while k < cycle.len()
            invariant
                k <= cycle@.len(),
                c < cycles@.len(),
                cycle@ == cycles@[c as int]@,
                view == cycles_view(cycles@),
                forall|d: int, j: int| 0 <= d < c ==> !#[trigger] member_at(view, d, j, id@),
                forall|j: int| 0 <= j < k ==> !#[trigger] member_at(view, c as int, j, id@),
            decreases cycle@.len() - k,
        {
            if cycle[k] == *id {
                assert(member_at(view, c as int, k as int, id@));
                return true;
            }
            k += 1;
        }
        c += 1;
    }
    false
}

/// Assigns flags to all nodes from their metrics and the recorded cycles.
///
/// - `Leaf`: fan-out 0
/// - `HighFanIn`: fan-in at or above the threshold
/// - `HighFanOut`: fan-out at or above the threshold
/// - `InCycle`: member of a recorded cycle
///
/// Flags are added, never removed: `EntryPoint` and `Orphan`, which the
/// builder assigns, stay, and so does every other flag of a node.
pub fn assign_flags(graph: &mut DependencyGraph, thresholds: &FlagThresholds)
    requires
        old(graph).wf(),
    ensures
        final(graph).wf(),
        final(graph)@ == with_flags(old(graph)@, *thresholds),
{
    let ghost g0 = graph@;
    let n = graph.node_count();
    let mut i: usize = 0;
    while i < n
        invariant
            i <= n,
            n == g0.nodes.len(),
            graph.wf(),
            graph@.nodes.len() == n,
            graph@.edges == g0.edges,
            graph@.entry_points == g0.entry_points,
            graph@.cycles == g0.cycles,
            graph@.warnings == g0.warnings,
            forall|k: int|
                0 <= k < i ==> #[trigger] graph@.nodes[k] == flagged(
                    g0.nodes[k],
                    *thresholds,
                    in_any_cycle(g0.cycles, g0.nodes[k].id),
                ),
            forall|k: int| i <= k < n ==> #[trigger] graph@.nodes[k] == g0.nodes[k],
        decreases n - i,
    {
        let node = graph.node(i);
        let fan_in = node.metrics.fan_in;
        let fan_out = node.metrics.fan_out;
        let in_cycle = is_cycle_member(graph.get_cycles(), &node.id);
        let ghost a = with_flag_if(g0.nodes[i as int], fan_out == 0, NodeFlag::Leaf);
        let ghost b = with_flag_if(a, fan_in >= thresholds.high_fan_in, NodeFlag::HighFanIn);
        let ghost c = with_flag_if(b, fan_out >= thresholds.high_fan_out, NodeFlag::HighFanOut);
        if fan_out == 0 {
            graph.add_node_flag(i, NodeFlag::Leaf);
        }
        assert(graph@.nodes[i as int] == a);
        if fan_in >= thresholds.high_fan_in {
            graph.add_node_flag(i, NodeFlag::HighFanIn);
        }
        assert(graph@.nodes[i as int] == b);
        if fan_out >= thresholds.high_fan_out {
            graph.add_node_flag(i, NodeFlag::HighFanOut);
        }
        assert(graph@.nodes[i as int] == c);
        if in_cycle {
            graph.add_node_flag(i, NodeFlag::InCycle);
        }
        i += 1;
    }
    assert(graph@.nodes =~= with_flags(g0, *thresholds).nodes);
}

} // verus!
