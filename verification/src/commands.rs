//! The analyses that the command line offers, on a snapshot of the source
//! tree: building and analysing the graph of a project, and checking it
//! against limits.

use vstd::prelude::*;
use vstd::string::StringExecFns;
use crate::analyzer::flags::FlagThresholds;
use crate::analyzer::cycles::in_any_cycle;
use crate::analyzer::{analyzed, lemma_analyzed, lemma_cycle_flags, lemma_leaf_flags, Analyzer};
use crate::graph::builder::{DependencyGraph, GraphView};
use crate::graph::crawl::{
    built, lemma_built_unanalyzed, lemma_orphans_unanalyzed, only_builder_flags, unanalyzed,
    with_orphans, BuildError, BuildErrorView, Setting,
};
use crate::graph::node::{FileNodeView, NodeFlag};
use crate::parser::directive::strings_view;
use crate::resolver::lexical::{absolute, is_absolute, join, join_paths, normalize, normalized};
use crate::resolver::path::{Resolver, ResolverConfig};
use crate::resolver::tree::SourceTree;
use crate::text::clone_strings;

verus! {

/// Violation found by the check.
#[derive(Debug, Clone)]
pub enum Violation {
    /// Circular dependency detected.
    Cycle { files: Vec<String> },
    /// File exceeds maximum depth.
    MaxDepth { file: String, depth: usize, max: usize },
    /// File exceeds maximum fan-out.
    MaxFanOut { file: String, fan_out: usize, max: usize },
    /// File exceeds maximum fan-in.
    MaxFanIn { file: String, fan_in: usize, max: usize },
}

/// Mathematical model of a [`Violation`].
pub enum ViolationView {
    Cycle { files: Seq<Seq<char>> },
    MaxDepth { file: Seq<char>, depth: usize, max: usize },
    MaxFanOut { file: Seq<char>, fan_out: usize, max: usize },
    MaxFanIn { file: Seq<char>, fan_in: usize, max: usize },
}

impl View for Violation {
    type V = ViolationView;

    open spec fn view(&self) -> ViolationView {
        match *self {
            Violation::Cycle { files } => ViolationView::Cycle { files: strings_view(files@) },
            Violation::MaxDepth { file, depth, max } => ViolationView::MaxDepth {
                file: file@,
                depth,
                max,
            },
            Violation::MaxFanOut { file, fan_out, max } => ViolationView::MaxFanOut {
                file: file@,
                fan_out,
                max,
            },
            Violation::MaxFanIn { file, fan_in, max } => ViolationView::MaxFanIn {
                file: file@,
                fan_in,
                max,
            },
        }
    }
}

/// The views of a list of violations.
pub open spec fn violations_view(v: Seq<Violation>) -> Seq<ViolationView> {
    Seq::new(v.len(), |i: int| v[i]@)
}

/// Options for the analysis of a project.
#[derive(Debug, Clone)]
pub struct AnalyzeOptions {
    /// The project root.
    pub root: String,
    /// Additional load paths.
    pub load_paths: Vec<String>,
    /// The entry files; a relative one is taken from the root.
    pub entry_points: Vec<String>,
    /// Whether the stylesheets that no entry point reaches get nodes too.
    pub include_orphans: bool,
    /// Suppress non-error output.
    pub quiet: bool,
    /// Verbosity level.
    pub verbose: u8,
}

/// A metric that the check can limit.
#[derive(Debug, Clone, Copy, PartialEq, Eq, Structural)]
pub enum Metric {
    Depth,
    FanOut,
    FanIn,
}

/// The value of the metric of a node.
pub open spec fn metric_of(node: FileNodeView, metric: Metric) -> usize {
    match metric {
        Metric::Depth => node.metrics.depth,
        Metric::FanOut => node.metrics.fan_out,
        Metric::FanIn => node.metrics.fan_in,
    }
}

/// The violation of a node whose metric is above the limit.
pub open spec fn violation_of(node: FileNodeView, metric: Metric, max: usize) -> ViolationView {
    match metric {
        Metric::Depth => ViolationView::MaxDepth { file: node.id, depth: node.metrics.depth, max },
        Metric::FanOut => ViolationView::MaxFanOut {
            file: node.id,
            fan_out: node.metrics.fan_out,
            max,
        },
        Metric::FanIn => ViolationView::MaxFanIn { file: node.id, fan_in: node.metrics.fan_in, max },
    }
}

/// The violations of a limit among the first `n` nodes, in node order:
/// one for each node whose metric is above the limit.
pub open spec fn limit_violations(nodes: Seq<FileNodeView>, metric: Metric, max: usize, n: int) -> Seq<
    ViolationView,
>
    decreases n,
{
    if n <= 0 || n > nodes.len() {
        Seq::empty()
    } else {
        let rest = limit_violations(nodes, metric, max, n - 1);
        if metric_of(nodes[n - 1], metric) > max {
            rest.push(violation_of(nodes[n - 1], metric, max))
        } else {
            rest
        }
    }
}

/// The violations of an optional limit.
pub open spec fn optional_violations(nodes: Seq<FileNodeView>, metric: Metric, max: Option<usize>) -> Seq<
    ViolationView,
> {
    match max {
        Some(max) => limit_violations(nodes, metric, max, nodes.len() as int),
        None => Seq::empty(),
    }
}

/// One violation for each recorded cycle.
pub open spec fn cycle_violations(cycles: Seq<Seq<Seq<char>>>) -> Seq<ViolationView> {
    Seq::new(cycles.len(), |c: int| ViolationView::Cycle { files: cycles[c] })
}

/// The violations of an analysed graph: the cycles, where cycles are
/// forbidden, then the nodes above the depth limit, then those above the
/// fan-out limit, then those above the fan-in limit.
pub open spec fn violations_of(
    g: GraphView,
    no_cycles: bool,
    max_depth: Option<usize>,
    max_fan_out: Option<usize>,
    max_fan_in: Option<usize>,
) -> Seq<ViolationView> {
    (if no_cycles {
        cycle_violations(g.cycles)
    } else {
        Seq::empty()
    }) + optional_violations(g.nodes, Metric::Depth, max_depth) + optional_violations(
        g.nodes,
        Metric::FanOut,
        max_fan_out,
    ) + optional_violations(g.nodes, Metric::FanIn, max_fan_in)
}

fn push_limit_violations(
    graph: &DependencyGraph,
    metric: Metric,
    max: Option<usize>,
    out: &mut Vec<Violation>,
)
    requires
        graph.wf(),
    ensures
        violations_view(final(out)@) == violations_view(old(out)@) + optional_violations(
            graph@.nodes,
            metric,
            max,
        ),
{
    let ghost before = violations_view(out@);
    let max = match max {
        Some(max) => max,
        None => {
            assert(before + Seq::<ViolationView>::empty() =~= before);
            return ;
        },
    };
    let nodes = graph.nodes();
    let mut i: usize = 0;
    assert(before + limit_violations(graph@.nodes, metric, max, 0) =~= before);
    while i < nodes.len()
        invariant
            i <= nodes@.len(),
            nodes@.len() == graph@.nodes.len(),
            forall|k: int| 0 <= k < nodes@.len() ==> (#[trigger] nodes@[k])@ == graph@.nodes[k],
            violations_view(out@) == before + limit_violations(
                graph@.nodes,
                metric,
                max,
                i as int,
            ),
        decreases nodes@.len() - i,
    {
        let node = &nodes[i];
        assert(node@ == graph@.nodes[i as int]);
        let value = match metric {
            Metric::Depth => node.metrics.depth,
            Metric::FanOut => node.metrics.fan_out,
            Metric::FanIn => node.metrics.fan_in,
        };
        if value > max {
            let file = node.id.clone();
            let violation = match metric {
                Metric::Depth => Violation::MaxDepth { file, depth: value, max },
                Metric::FanOut => Violation::MaxFanOut { file, fan_out: value, max },
                Metric::FanIn => Violation::MaxFanIn { file, fan_in: value, max },
            };
            let ghost so_far = violations_view(out@);
            let ghost rest = limit_violations(graph@.nodes, metric, max, i as int);
            out.push(violation);
            proof {
                assert(violations_view(out@) =~= so_far.push(violation@));
                assert((before + rest).push(violation@) =~= before + rest.push(violation@));
            }
        }
        i += 1;
    }
}

/// Finds the violations of the limits in an analysed graph.
pub fn find_violations(
    graph: &DependencyGraph,
    no_cycles: bool,
    max_depth: Option<usize>,
    max_fan_out: Option<usize>,
    max_fan_in: Option<usize>,
) -> (r: Vec<Violation>)
    requires
        graph.wf(),
    ensures
        violations_view(r@) == violations_of(graph@, no_cycles, max_depth, max_fan_out, max_fan_in),
{
    let mut out: Vec<Violation> = Vec::new();
    if no_cycles {
        let cycles = graph.get_cycles();
        let mut c: usize = 0;
        while c < cycles.len()
            invariant
                c <= cycles@.len(),
                crate::graph::builder::cycles_view(cycles@) == graph@.cycles,
                out@.len() == c,
                forall|k: int|
                    0 <= k < c ==> (#[trigger] out@[k])@ == (ViolationView::Cycle {
                        files: graph@.cycles[k],
                    }),
            decreases cycles@.len() - c,
        {
            let files = clone_strings(&cycles[c]);
            proof {
                assert(strings_view(files@) =~= strings_view(cycles@[c as int]@));
                assert(graph@.cycles[c as int] == strings_view(cycles@[c as int]@));
            }
            out.push(Violation::Cycle { files });
            c += 1;
        }
        assert(violations_view(out@) =~= cycle_violations(graph@.cycles));
    } else {
        assert(violations_view(out@) =~= Seq::<ViolationView>::empty());
    }
    push_limit_violations(graph, Metric::Depth, max_depth, &mut out);
    push_limit_violations(graph, Metric::FanOut, max_fan_out, &mut out);
    push_limit_violations(graph, Metric::FanIn, max_fan_in, &mut out);
    out
}

/// The path of an entry file: itself where it is absolute, else taken
/// from the root.
pub open spec fn entry_path_of(root: Seq<char>, entry: Seq<char>) -> Seq<char> {
    if is_absolute(entry) {
        entry
    } else {
        join(root, entry)
    }
}

/// The setting in which a project is analysed: its tree, its load paths,
/// the extensions `scss` and `sass`, and its root in normal form.
pub open spec fn project_setting(tree: SourceTree, root: Seq<char>, load_paths: Seq<Seq<char>>) -> Setting {
    Setting { tree, load_paths, exts: seq!["scss"@, "sass"@], root: normalized(root) }
}

/// The graph built from the first `k` entries, one after the other on
/// the same graph; the error of the first build that fails.
pub open spec fn project_graph(s: Setting, entries: Seq<Seq<char>>, k: int) -> Result<
    GraphView,
    BuildErrorView,
>
    decreases k,
{
    if k <= 0 || k > entries.len() {
        Ok(GraphView::empty())
    } else {
        match project_graph(s, entries, k - 1) {
            Err(e) => Err(e),
            Ok(g) => {
                let (after, result) = built(s, g, entry_path_of(s.root, entries[k - 1]));
                match result {
                    Err(e) => Err(e),
                    Ok(_) => Ok(after),
                }
            },
        }
    }
}

/// A build that failed stays failed: the later entries are not built.
pub proof fn lemma_project_error(s: Setting, entries: Seq<Seq<char>>, k: int, n: int)
    requires
        0 <= k <= n <= entries.len(),
        project_graph(s, entries, k) is Err,
    ensures
        project_graph(s, entries, n) == project_graph(s, entries, k),
    decreases n - k,
{
    if k < n {
        lemma_project_error(s, entries, k, n - 1);
    }
}

/// The analysed graph of a project: built from all entries, with the
/// orphans where they are asked for, and analysed with the given
/// thresholds.
pub open spec fn project_analysis(
    s: Setting,
    entries: Seq<Seq<char>>,
    include_orphans: bool,
    thresholds: FlagThresholds,
) -> Result<GraphView, BuildErrorView> {
    match project_graph(s, entries, entries.len() as int) {
        Err(e) => Err(e),
        Ok(g) => {
            let all = if include_orphans {
                with_orphans(g, s.tree.file_paths(), s.root, s.tree.file_paths().len() as int)
            } else {
                g
            };
            Ok(analyzed(all, thresholds))
        },
    }
}

/// The graph of a project carries no flag of the analysis before it is
/// analysed.
pub proof fn lemma_project_unanalyzed(s: Setting, entries: Seq<Seq<char>>, k: int)
    ensures
        project_graph(s, entries, k) matches Ok(g) ==> unanalyzed(g),
    decreases k,
{
    if 0 < k <= entries.len() {
        lemma_project_unanalyzed(s, entries, k - 1);
        match project_graph(s, entries, k - 1) {
            Ok(g) => {
                lemma_built_unanalyzed(s, g, entry_path_of(s.root, entries[k - 1]));
            },
            Err(e) => {},
        }
    }
}

/// In the analysed graph of a project a node carries `InCycle` exactly
/// when its identifier is a member of a recorded cycle, and `Leaf`
/// exactly when its fan-out is 0.
pub proof fn lemma_project_flags(
    s: Setting,
    entries: Seq<Seq<char>>,
    include_orphans: bool,
    thresholds: FlagThresholds,
    i: int,
)
    requires
        project_analysis(s, entries, include_orphans, thresholds) is Ok,
        0 <= i < project_analysis(s, entries, include_orphans, thresholds)->Ok_0.nodes.len(),
    ensures
        ({
            let a = project_analysis(s, entries, include_orphans, thresholds)->Ok_0;
            &&& a.nodes[i].has(NodeFlag::InCycle) == in_any_cycle(a.cycles, a.nodes[i].id)
            &&& a.nodes[i].has(NodeFlag::Leaf) == (a.nodes[i].metrics.fan_out == 0)
        }),
{
    lemma_project_unanalyzed(s, entries, entries.len() as int);
    let g = project_graph(s, entries, entries.len() as int)->Ok_0;
    let paths = s.tree.file_paths();
    let all = if include_orphans {
        with_orphans(g, paths, s.root, paths.len() as int)
    } else {
        g
    };
    if include_orphans {
        lemma_orphans_unanalyzed(g, paths, s.root, paths.len() as int);
    }
    lemma_analyzed(all, thresholds);
    assert(only_builder_flags(all.nodes[i]));
    if all.nodes[i].has(NodeFlag::InCycle) {
        let k = choose|k: int|
            0 <= k < all.nodes[i].flags.len() && all.nodes[i].flags[k] == NodeFlag::InCycle;
    }
    if all.nodes[i].has(NodeFlag::Leaf) {
        let k = choose|k: int|
            0 <= k < all.nodes[i].flags.len() && all.nodes[i].flags[k] == NodeFlag::Leaf;
    }
    lemma_cycle_flags(all, thresholds, i);
    lemma_leaf_flags(all, thresholds, i);
}

/// Whether the result of an analysis is the given one.
pub open spec fn is_analysis(
    r: Result<DependencyGraph, BuildError>,
    expected: Result<GraphView, BuildErrorView>,
) -> bool {
    match expected {
        Ok(g) => r matches Ok(graph) && graph.wf() && graph@ == g,
        Err(e) => r matches Err(x) && x@ == e,
    }
}

/// The thresholds that the commands analyse with.
pub open spec fn default_thresholds() -> FlagThresholds {
    FlagThresholds { high_fan_in: 5, high_fan_out: 10 }
}

/// Builds and analyses the graph of a project.
fn analyze_project(
    root: &str,
    load_paths: &Vec<String>,
    entry_points: &Vec<String>,
    include_orphans: bool,
    tree: &SourceTree,
) -> (r: Result<DependencyGraph, BuildError>)
    ensures
        is_analysis(
            r,
            project_analysis(
                project_setting(*tree, root@, strings_view(load_paths@)),
                strings_view(entry_points@),
                include_orphans,
                default_thresholds(),
            ),
        ),
{
    let base = normalize(root);
    let mut extensions: Vec<String> = Vec::new();
    extensions.push(String::from_str("scss"));
    extensions.push(String::from_str("sass"));
    let paths = clone_strings(load_paths);
    let resolver = Resolver::new(ResolverConfig { load_paths: paths, extensions });
    let ghost s = project_setting(*tree, root@, strings_view(load_paths@));
    let ghost entries = strings_view(entry_points@);
    proof {
        assert(resolver.extensions_view() =~= seq!["scss"@, "sass"@]);
        assert(resolver.load_paths_view() =~= strings_view(load_paths@));
    }
    let mut graph = DependencyGraph::new();
    let mut k: usize = 0;
    while k < entry_points.len()
        invariant
            k <= entry_points@.len(),
            entries == strings_view(entry_points@),
            graph.wf(),
            crate::graph::crawl::setting_of(*tree, resolver, base@) == s,
            s == project_setting(*tree, root@, strings_view(load_paths@)),
            project_graph(s, entries, k as int) == Ok::<GraphView, BuildErrorView>(graph@),
        decreases entry_points@.len() - k,
    {
        let entry = entry_points[k].as_str();
        let path = if absolute(entry) {
            String::from_str(entry)
        } else {
            join_paths(base.as_str(), entry)
        };
        proof {
            assert(entries[k as int] == entry@);
        }
        match graph.build_from_entry(path.as_str(), &resolver, base.as_str(), tree) {
            Ok(_) => {},
            Err(e) => {
                proof {
                    lemma_project_error(s, entries, k as int + 1, entries.len() as int);
                }
                return Err(e);
            },
        }
        k += 1;
    }
    if include_orphans {
        let _ = graph.discover_orphans(base.as_str(), &resolver, tree);
    }
    let analyzer = Analyzer::default();
    analyzer.analyze(&mut graph);
    Ok(graph)
}

/// Builds the dependency graph of a project from its entry points, adds
/// the orphans where they are asked for, and analyses it.
pub fn analyze(opts: &AnalyzeOptions, tree: &SourceTree) -> (r: Result<DependencyGraph, BuildError>)
    ensures
        is_analysis(
            r,
            project_analysis(
                project_setting(*tree, opts.root@, strings_view(opts.load_paths@)),
                strings_view(opts.entry_points@),
                opts.include_orphans,
                default_thresholds(),
            ),
        ),
{
    analyze_project(
        opts.root.as_str(),
        &opts.load_paths,
        &opts.entry_points,
        opts.include_orphans,
        tree,
    )
}

/// The violations of a project, or the error that ended its build.
pub open spec fn project_violations(
    s: Setting,
    entries: Seq<Seq<char>>,
    no_cycles: bool,
    max_depth: Option<usize>,
    max_fan_out: Option<usize>,
    max_fan_in: Option<usize>,
) -> Result<Seq<ViolationView>, BuildErrorView> {
    match project_analysis(s, entries, false, default_thresholds()) {
        Err(e) => Err(e),
        Ok(g) => Ok(violations_of(g, no_cycles, max_depth, max_fan_out, max_fan_in)),
    }
}

/// The view of the result of a check.
pub open spec fn check_view(r: Result<Vec<Violation>, BuildError>) -> Result<
    Seq<ViolationView>,
    BuildErrorView,
> {
    match r {
        Ok(v) => Ok(violations_view(v@)),
        Err(e) => Err(e@),
    }
}

/// Analyses the graph of a project and returns the violations of the
/// given limits; none where all limits hold.
pub fn check(
    root: &str,
    load_paths: &Vec<String>,
    entry_points: &Vec<String>,
    no_cycles: bool,
    max_depth: Option<usize>,
    max_fan_out: Option<usize>,
    max_fan_in: Option<usize>,
    tree: &SourceTree,
) -> (r: Result<Vec<Violation>, BuildError>)
    ensures
        check_view(r) == project_violations(
            project_setting(*tree, root@, strings_view(load_paths@)),
            strings_view(entry_points@),
            no_cycles,
            max_depth,
            max_fan_out,
            max_fan_in,
        ),
{
    match analyze_project(root, load_paths, entry_points, false, tree) {
        Err(e) => Err(e),
        Ok(graph) => Ok(find_violations(&graph, no_cycles, max_depth, max_fan_out, max_fan_in)),
    }
}

} // verus!
