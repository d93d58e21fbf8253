//! Analysis of a built dependency graph: cycles, fan-in and fan-out,
//! depth below the entry points, transitive dependencies and flags.

use vstd::prelude::*;
use crate::analyzer::cycles::{
    component_ids, components_in_range, cycles_among, detected_cycles, in_any_cycle,
};
use crate::analyzer::flags::{flagged, lemma_flagged, with_flag_if, with_flags};
use crate::analyzer::metrics::{
    depth_of, edges_from, edges_to, is_distance, lemma_depth_of, lemma_least_distance,
    lemma_within_edge, reached_count, with_depths, with_fan, with_transitive, within,
};
use crate::graph::builder::{DependencyGraph, GraphView};
use crate::graph::node::{FileNodeView, NodeFlag};
use crate::graph::topology::{
    lemma_reach_zero, reaches_in, tarjan_components, walk_between, walk_step,
};

pub mod cycles;
pub mod flags;
pub mod metrics;

pub use cycles::detect_cycles;
pub use flags::{assign_flags, FlagThresholds};
pub use metrics::{calculate_depths, calculate_fan_in_out, calculate_transitive_deps};

verus! {

/// Configuration for the analyzer.
#[derive(Debug, Clone, Copy)]
pub struct AnalyzerConfig {
    /// Thresholds for flag assignment.
    pub thresholds: FlagThresholds,
}

impl Default for AnalyzerConfig {
    /// The default thresholds.
    fn default() -> (config: AnalyzerConfig)
        ensures
            config.thresholds.high_fan_in == 5,
            config.thresholds.high_fan_out == 10,
    {
        AnalyzerConfig { thresholds: FlagThresholds::default() }
    }
}

/// Analyzer for dependency graphs.
pub struct Analyzer {
    config: AnalyzerConfig,
}

/// The graph after the analysis: the cycles are recorded, then fan-in and
/// fan-out, depth and transitive dependencies of every node are set, then
/// the flags are assigned.
pub open spec fn analyzed(g: GraphView, t: FlagThresholds) -> GraphView {
    with_flags(
        with_transitive(with_depths(with_fan(g.with_cycles(detected_cycles(g))))),
        t,
    )
}

impl Analyzer {
    /// The configuration that the analyzer was made with.
    pub closed spec fn settings(&self) -> AnalyzerConfig {
        self.config
    }

    /// Creates a new analyzer with the given configuration.
    pub fn new(config: AnalyzerConfig) -> (analyzer: Analyzer)
        ensures
            analyzer.settings() == config,
    {
        Analyzer { config }
    }

    /// Returns the configuration.
    pub fn config(&self) -> (config: &AnalyzerConfig)
        ensures
            *config == self.settings(),
    {
        &self.config
    }

    /// Performs the full analysis on the dependency graph:
    ///
    /// 1. detects the cycles,
    /// 2. calculates fan-in and fan-out of all nodes,
    /// 3. calculates their depth below the entry points,
    /// 4. calculates their transitive dependencies,
    /// 5. assigns flags from the thresholds.
    pub fn analyze(&self, graph: &mut DependencyGraph)
        requires
            old(graph).wf(),
        ensures
            final(graph).wf(),
            final(graph)@ == analyzed(old(graph)@, self.settings().thresholds),
    {
        let cycles = detect_cycles(graph);
        graph.set_cycles(cycles);
        calculate_fan_in_out(graph);
        calculate_depths(graph);
        calculate_transitive_deps(graph);
        assign_flags(graph, &self.config.thresholds);
    }
}

impl Default for Analyzer {
    /// An analyzer with the default thresholds.
    fn default() -> (analyzer: Analyzer)
        ensures
            analyzer.settings().thresholds.high_fan_in == 5,
            analyzer.settings().thresholds.high_fan_out == 10,
    {
        Analyzer::new(AnalyzerConfig::default())
    }
}

/// What the analysis leaves as it is and what it sets: nodes keep their
/// identifiers and paths, edges, entry points and warnings stay, the
/// cycles are the detected ones, and every metric has its value.
pub proof fn lemma_analyzed(g: GraphView, t: FlagThresholds)
    ensures
        analyzed(g, t).nodes.len() == g.nodes.len(),
        analyzed(g, t).edges == g.edges,
        analyzed(g, t).entry_points == g.entry_points,
        analyzed(g, t).warnings == g.warnings,
        analyzed(g, t).cycles == detected_cycles(g),
        forall|i: int|
            0 <= i < g.nodes.len() ==> {
                let node = #[trigger] analyzed(g, t).nodes[i];
                &&& node.id == g.nodes[i].id
                &&& node.absolute_path == g.nodes[i].absolute_path
                &&& node.metrics.fan_in == edges_to(g.links(), i as usize) as usize
                &&& node.metrics.fan_out == edges_from(g.links(), i as usize) as usize
                &&& node.metrics.depth == depth_of(g, i as usize)
                &&& node.metrics.transitive_deps == reached_count(
                    g.links(),
                    i as usize,
                    g.nodes.len(),
                ) as usize
                &&& node == flagged(
                    with_transitive(
                        with_depths(with_fan(g.with_cycles(detected_cycles(g)))),
                    ).nodes[i],
                    t,
                    in_any_cycle(detected_cycles(g), g.nodes[i].id),
                )
            },
{
    let a = g.with_cycles(detected_cycles(g));
    let b = with_fan(a);
    let c = with_depths(b);
    let d = with_transitive(c);
    assert(a.links() =~= g.links());
    assert(b.links() =~= g.links());
    assert(c.links() =~= g.links());
    assert forall|i: int| 0 <= i < g.nodes.len() implies {
        let node = #[trigger] analyzed(g, t).nodes[i];
        &&& node.id == g.nodes[i].id
        &&& node.absolute_path == g.nodes[i].absolute_path
        &&& node.metrics.fan_in == edges_to(g.links(), i as usize) as usize
        &&& node.metrics.fan_out == edges_from(g.links(), i as usize) as usize
        &&& node.metrics.depth == depth_of(g, i as usize)
        &&& node.metrics.transitive_deps == reached_count(g.links(), i as usize, g.nodes.len()) as usize
        &&& node == flagged(d.nodes[i], t, in_any_cycle(detected_cycles(g), g.nodes[i].id))
    } by {
        lemma_flagged(d.nodes[i], t, in_any_cycle(d.cycles, d.nodes[i].id));
        lemma_same_depth(b, g, i as usize);
    }
}

/// The depth of a node depends on the entry points and on which pairs of
/// nodes an edge connects, and on nothing else: not on the order of the
/// edges, nor on the metrics and flags of the nodes.
pub proof fn lemma_same_depth(g1: GraphView, g2: GraphView, v: usize)
    requires
        forall|u: int| g1.is_entry(u) == g2.is_entry(u),
        forall|pair: (usize, usize)| g1.links().contains(pair) == g2.links().contains(pair),
    ensures
        depth_of(g1, v) == depth_of(g2, v),
{
    assert forall|k: nat|
        #![trigger within(g1, v, k)]
        #![trigger within(g2, v, k)]
        within(g1, v, k) == within(g2, v, k) by {
        if within(g1, v, k) {
            lemma_same_within(g1, g2, v, k);
        }
        if within(g2, v, k) {
            lemma_same_within(g2, g1, v, k);
        }
    }
    assert forall|d: nat| #[trigger] is_distance(g1, v, d) == is_distance(g2, v, d) by {
    }
    if exists|d: nat| is_distance(g1, v, d) && d < usize::MAX {
        let d = choose|d: nat| is_distance(g1, v, d) && d < usize::MAX;
        assert(is_distance(g2, v, d));
        lemma_depth_of(g1, v, d as usize);
        lemma_depth_of(g2, v, d as usize);
    } else {
        if exists|d: nat| is_distance(g2, v, d) && d < usize::MAX {
            let d = choose|d: nat| is_distance(g2, v, d) && d < usize::MAX;
            assert(is_distance(g1, v, d));
        }
    }
}

proof fn lemma_same_within(g1: GraphView, g2: GraphView, v: usize, k: nat)
    requires
        forall|u: int| g1.is_entry(u) == g2.is_entry(u),
        forall|pair: (usize, usize)| g1.links().contains(pair) == g2.links().contains(pair),
        within(g1, v, k),
    ensures
        within(g2, v, k),
{
    let u = choose|u: usize| g1.is_entry(u as int) && #[trigger] reaches_in(g1.links(), u, v, k);
    let p = choose|p: Seq<usize>| walk_between(g1.links(), p, u, v, k);
    assert forall|i: int| 0 <= i < p.len() - 1 implies #[trigger] walk_step(g2.links(), p, i) by {
        assert(walk_step(g1.links(), p, i));
    }
    assert(walk_between(g2.links(), p, u, v, k));
    assert(g2.is_entry(u as int));
    assert(reaches_in(g2.links(), u, v, k));
}

/// The cycles among components depend on the identifiers of the nodes
/// alone.
proof fn lemma_same_cycles(g1: GraphView, g2: GraphView, comps: Seq<Seq<usize>>)
    requires
        g1.nodes.len() == g2.nodes.len(),
        forall|i: int| 0 <= i < g1.nodes.len() ==> (#[trigger] g1.nodes[i]).id == g2.nodes[i].id,
        components_in_range(g1, comps),
    ensures
        cycles_among(g1, comps) == cycles_among(g2, comps),
    decreases comps.len(),
{
    if comps.len() > 0 {
        let rest = comps.drop_last();
        assert forall|c: int, k: int|
            0 <= c < rest.len() && 0 <= k < rest[c].len() implies (#[trigger] rest[c][k])
            < g1.nodes.len() by {
            assert(comps[c][k] < g1.nodes.len());
        }
        lemma_same_cycles(g1, g2, rest);
        let last = comps.last();
        assert forall|k: int| 0 <= k < last.len() implies g1.nodes[last[k] as int].id
            == g2.nodes[last[k] as int].id by {
            assert(comps[comps.len() - 1][k] < g1.nodes.len());
        }
        assert(component_ids(g1, last) =~= component_ids(g2, last));
    }
}

/// Assigning the flags a second time changes nothing.
proof fn lemma_flagged_twice(node: FileNodeView, t: FlagThresholds, in_cycle: bool)
    ensures
        flagged(flagged(node, t, in_cycle), t, in_cycle) == flagged(node, t, in_cycle),
{
    let once = flagged(node, t, in_cycle);
    lemma_flagged(node, t, in_cycle);
    let a = with_flag_if(once, once.metrics.fan_out == 0, NodeFlag::Leaf);
    assert(a == once);
    let b = with_flag_if(a, once.metrics.fan_in >= t.high_fan_in, NodeFlag::HighFanIn);
    assert(b == once);
    let c = with_flag_if(b, once.metrics.fan_out >= t.high_fan_out, NodeFlag::HighFanOut);
    assert(c == once);
}

/// The analysis is idempotent: analysing an analysed graph again leaves
/// it as it is.
pub proof fn lemma_analysis_idempotent(g: GraphView, t: FlagThresholds)
    requires
        g.nodes.len() <= usize::MAX,
        components_in_range(g, tarjan_components(g.nodes.len(), g.links())),
    ensures
        analyzed(analyzed(g, t), t) == analyzed(g, t),
{
    let once = analyzed(g, t);
    let twice = analyzed(once, t);
    lemma_analyzed(g, t);
    lemma_analyzed(once, t);
    assert(once.links() =~= g.links());
    lemma_same_cycles(g, once, tarjan_components(g.nodes.len(), g.links()));
    assert(twice.cycles == once.cycles);
    // metrics and flags of every node
    let d1 = with_transitive(with_depths(with_fan(g.with_cycles(detected_cycles(g)))));
    let d2 = with_transitive(with_depths(with_fan(once.with_cycles(detected_cycles(once)))));
    assert forall|i: int| 0 <= i < g.nodes.len() implies twice.nodes[i] == once.nodes[i] by {
        lemma_same_depth(once, g, i as usize);
        lemma_flagged(d1.nodes[i], t, in_any_cycle(detected_cycles(g), g.nodes[i].id));
        lemma_flagged(d2.nodes[i], t, in_any_cycle(detected_cycles(once), once.nodes[i].id));
        assert(once.nodes[i].metrics == d1.nodes[i].metrics);
        assert(twice.nodes[i].metrics == d2.nodes[i].metrics);
        assert(d2.nodes[i].metrics == once.nodes[i].metrics);
        assert(d2.nodes[i] == once.nodes[i]);
        lemma_flagged_twice(d1.nodes[i], t, in_any_cycle(detected_cycles(g), g.nodes[i].id));
    }
    assert(twice.nodes =~= once.nodes);
}

/// After the analysis a node carries `InCycle` exactly when its
/// identifier is a member of a recorded cycle, provided that no node
/// carried the flag before: the analysis adds flags and removes none.
pub proof fn lemma_cycle_flags(g: GraphView, t: FlagThresholds, i: int)
    requires
        0 <= i < g.nodes.len(),
        !g.nodes[i].has(NodeFlag::InCycle),
    ensures
        analyzed(g, t).nodes[i].has(NodeFlag::InCycle) == in_any_cycle(
            analyzed(g, t).cycles,
            analyzed(g, t).nodes[i].id,
        ),
{
    let d = with_transitive(with_depths(with_fan(g.with_cycles(detected_cycles(g)))));
    lemma_analyzed(g, t);
    lemma_flagged(d.nodes[i], t, in_any_cycle(d.cycles, d.nodes[i].id));
}

/// After the analysis a node carries `Leaf` exactly when its fan-out is
/// 0, provided that it did not carry the flag before.
pub proof fn lemma_leaf_flags(g: GraphView, t: FlagThresholds, i: int)
    requires
        0 <= i < g.nodes.len(),
        !g.nodes[i].has(NodeFlag::Leaf),
    ensures
        analyzed(g, t).nodes[i].has(NodeFlag::Leaf) == (analyzed(g, t).nodes[i].metrics.fan_out
            == 0),
{
    let d = with_transitive(with_depths(with_fan(g.with_cycles(detected_cycles(g)))));
    lemma_analyzed(g, t);
    lemma_flagged(d.nodes[i], t, in_any_cycle(d.cycles, d.nodes[i].id));
}

/// After the analysis every entry point has depth 0.
pub proof fn lemma_entry_depth(g: GraphView, t: FlagThresholds, i: int)
    requires
        g.is_entry(i),
        g.nodes.len() <= usize::MAX,
    ensures
        analyzed(g, t).nodes[i].metrics.depth == 0,
{
    lemma_analyzed(g, t);
    let v = i as usize;
    lemma_reach_zero(g.links(), v, v);
    assert(within(g, v, 0));
    lemma_depth_of(g, v, 0);
}

/// After the analysis the depth of the target of an edge is at most one
/// more than the depth of its source.
pub proof fn lemma_edge_depth(g: GraphView, t: FlagThresholds, e: int)
    requires
        g.well_formed(),
        g.nodes.len() <= usize::MAX,
        0 <= e < g.edges.len(),
    ensures
        analyzed(g, t).nodes[g.edges[e].to as int].metrics.depth <= analyzed(g, t).nodes[g.edges[e].from as int].metrics.depth
            + 1,
{
    lemma_analyzed(g, t);
    let u = g.edges[e].from;
    let v = g.edges[e].to;
    assert(analyzed(g, t).nodes[u as int].metrics.depth == depth_of(g, u));
    assert(analyzed(g, t).nodes[v as int].metrics.depth == depth_of(g, v));
    if depth_of(g, u) != usize::MAX {
        let du = choose|d: nat| is_distance(g, u, d) && d < usize::MAX;
        assert(g.links()[e] == (u, v));
        lemma_within_edge(g, u, v, du);
        let dv = lemma_least_distance(g, v, du + 1);
        if dv < usize::MAX {
            lemma_depth_of(g, v, dv as usize);
        }
    }
}

} // verus!
