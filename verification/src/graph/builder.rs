//! The dependency graph and the operations that change it.

use vstd::prelude::*;
use indexmap::IndexMap;
use petgraph::graph::Graph;
use petgraph::Directed;
use std::collections::hash_map::RandomState;
use crate::graph::node::{
    DependencyEdge, DependencyEdgeView, FileNode, FileNodeView, NodeFlag, NodeMetrics,
};
use crate::graph::topology::{
    component_rows, index_entries, index_get, index_insert, index_new, is_component_partition,
    neighbors_of, tarjan_components, topology_add_edge, topology_add_node, topology_components,
    topology_contains_edge, topology_edge_count, topology_edges, topology_endpoints,
    topology_new, topology_node_count, topology_nodes, topology_predecessors,
    topology_successors,
};
use crate::parser::directive::strings_view;
use crate::text::{first_index, lemma_first_index};

verus! {

/// An edge of the graph with the numbers of the nodes that it connects.
pub struct EdgeView {
    /// The node of the file that holds the directive.
    pub from: usize,
    /// The node of the file that the directive references.
    pub to: usize,
    /// What the edge carries.
    pub data: DependencyEdgeView,
}

/// A reference that could not be resolved.
#[derive(Debug, Clone)]
pub struct Warning {
    /// The text of the reference.
    pub target: String,
    /// The path of the file that holds the reference.
    pub from: String,
    /// Why the reference could not be resolved.
    pub reason: String,
}

/// Mathematical model of a [`Warning`].
pub struct WarningView {
    pub target: Seq<char>,
    pub from: Seq<char>,
    pub reason: Seq<char>,
}

impl View for Warning {
    type V = WarningView;

    open spec fn view(&self) -> WarningView {
        WarningView { target: self.target@, from: self.from@, reason: self.reason@ }
    }
}

/// Mathematical model of a [`DependencyGraph`]: nodes and edges in the
/// order of their discovery, the identifiers of the entry points, the
/// cycles found by the last analysis and the warnings of the builds.
pub struct GraphView {
    pub nodes: Seq<FileNodeView>,
    pub edges: Seq<EdgeView>,
    pub entry_points: Seq<Seq<char>>,
    pub cycles: Seq<Seq<Seq<char>>>,
    pub warnings: Seq<WarningView>,
}

impl GraphView {
    /// The graph without nodes.
    pub open spec fn empty() -> GraphView {
        GraphView {
            nodes: Seq::empty(),
            edges: Seq::empty(),
            entry_points: Seq::empty(),
            cycles: Seq::empty(),
            warnings: Seq::empty(),
        }
    }

    /// The identifiers of the nodes, in order.
    pub open spec fn ids(self) -> Seq<Seq<char>> {
        Seq::new(self.nodes.len(), |i: int| self.nodes[i].id)
    }

    /// The number of the node with the identifier, or -1.
    pub open spec fn index_of(self, id: Seq<char>) -> int {
        first_index(self.ids(), id)
    }

    /// The edges as pairs of source and target, in order.
    pub open spec fn links(self) -> Seq<(usize, usize)> {
        Seq::new(self.edges.len(), |e: int| (self.edges[e].from, self.edges[e].to))
    }

    /// Whether the node is an entry point.
    pub open spec fn is_entry(self, i: int) -> bool {
        0 <= i < self.nodes.len() && self.entry_points.contains(self.nodes[i].id)
    }

    /// Whether the model is consistent: identifiers are unique, edges
    /// connect nodes of the graph, no two edges connect the same ordered
    /// pair, and no node or list of entry points names anything twice.
    pub open spec fn well_formed(self) -> bool {
        &&& self.ids().no_duplicates()
        &&& forall|e: int|
            0 <= e < self.edges.len() ==> (#[trigger] self.edges[e]).from < self.nodes.len()
                && self.edges[e].to < self.nodes.len()
        &&& self.links().no_duplicates()
        &&& forall|i: int| 0 <= i < self.nodes.len() ==> (#[trigger] self.nodes[i]).flags.no_duplicates()
        &&& self.entry_points.no_duplicates()
    }

    /// The graph with one more node at the end.
    pub open spec fn with_node(self, node: FileNodeView) -> GraphView {
        GraphView { nodes: self.nodes.push(node), ..self }
    }

    /// The graph with node `i` replaced.
    pub open spec fn with_node_at(self, i: int, node: FileNodeView) -> GraphView {
        GraphView { nodes: self.nodes.update(i, node), ..self }
    }

    /// The graph with one more edge at the end.
    pub open spec fn with_edge(self, from: usize, to: usize, data: DependencyEdgeView) -> GraphView {
        GraphView { edges: self.edges.push(EdgeView { from, to, data }), ..self }
    }

    /// The graph with the identifier among its entry points.
    pub open spec fn with_entry(self, id: Seq<char>) -> GraphView {
        if self.entry_points.contains(id) {
            self
        } else {
            GraphView { entry_points: self.entry_points.push(id), ..self }
        }
    }

    /// The graph with one more warning.
    pub open spec fn with_warning(self, warning: WarningView) -> GraphView {
        GraphView { warnings: self.warnings.push(warning), ..self }
    }

    /// The graph with other cycles.
    pub open spec fn with_cycles(self, cycles: Seq<Seq<Seq<char>>>) -> GraphView {
        GraphView { cycles, ..self }
    }
}

/// The views of a list of cycles.
pub open spec fn cycles_view(v: Seq<Vec<String>>) -> Seq<Seq<Seq<char>>> {
    Seq::new(v.len(), |c: int| strings_view(v[c]@))
}

/// A dependency graph of stylesheet files.
pub struct DependencyGraph {
    /// The topology: nodes and edges by number.
    graph: Graph<(), (), Directed, usize>,
    /// Map from file identifier to node number.
    node_index: IndexMap<String, usize, RandomState>,
    /// The data of the nodes, by number.
    nodes: Vec<FileNode>,
    /// The data of the edges, by number.
    edges: Vec<DependencyEdge>,
    /// The identifiers of the entry points.
    entry_points: Vec<String>,
    /// Detected cycles (populated by the analysis).
    cycles: Vec<Vec<String>>,
    /// References that could not be resolved.
    warnings: Vec<Warning>,
}

impl View for DependencyGraph {
    type V = GraphView;

    closed spec fn view(&self) -> GraphView {
        GraphView {
            nodes: Seq::new(self.nodes@.len(), |i: int| self.nodes@[i]@),
            edges: Seq::new(
                self.edges@.len(),
                |e: int|
                    EdgeView {
                        from: topology_edges(self.graph)[e].0,
                        to: topology_edges(self.graph)[e].1,
                        data: self.edges@[e]@,
                    },
            ),
            entry_points: strings_view(self.entry_points@),
            cycles: cycles_view(self.cycles@),
            warnings: Seq::new(self.warnings@.len(), |i: int| self.warnings@[i]@),
        }
    }
}

impl DependencyGraph {
    /// Whether the graph is consistent: its model is well formed, and the
    /// arena and the index agree with the data of the nodes and edges.
    pub closed spec fn wf(&self) -> bool {
        &&& topology_nodes(self.graph) == self.nodes@.len()
        &&& topology_edges(self.graph).len() == self.edges@.len()
        &&& index_entries(self.node_index) == Seq::new(
            self.nodes@.len(),
            |i: int| (self.nodes@[i].id@, i as usize),
        )
        &&& self@.well_formed()
    }

    /// A consistent graph has a well-formed model.
    pub proof fn lemma_wf(&self)
        requires
            self.wf(),
        ensures
            self@.well_formed(),
    {
    }

    proof fn lemma_links(&self)
        requires
            self.wf(),
        ensures
            self@.links() == topology_edges(self.graph),
            self@.nodes.len() == self.nodes@.len(),
            self@.edges.len() == self.edges@.len(),
    {
        assert(self@.links() =~= topology_edges(self.graph));
    }

    /// Creates a new empty dependency graph.
    pub fn new() -> (g: DependencyGraph)
        ensures
            g.wf(),
            g@ == GraphView::empty(),
    {
        let g = DependencyGraph {
            graph: topology_new(),
            node_index: index_new(),
            nodes: Vec::new(),
            edges: Vec::new(),
            entry_points: Vec::new(),
            cycles: Vec::new(),
            warnings: Vec::new(),
        };
        proof {
            assert(g@.nodes =~= Seq::empty());
            assert(g@.edges =~= Seq::empty());
            assert(g@.entry_points =~= Seq::empty());
            assert(g@.cycles =~= Seq::empty());
            assert(g@.warnings =~= Seq::empty());
            assert(g@.ids() =~= Seq::empty());
            assert(g@.links() =~= Seq::empty());
            assert(index_entries(g.node_index) =~= Seq::new(
                g.nodes@.len(),
                |i: int| (g.nodes@[i].id@, i as usize),
            ));
        }
        g
    }

    /// Returns the number of nodes in the graph.
    pub fn node_count(&self) -> (n: usize)
        requires
            self.wf(),
        ensures
            n == self@.nodes.len(),
    {
        topology_node_count(&self.graph)
    }

    /// Returns the number of edges in the graph.
    pub fn edge_count(&self) -> (n: usize)
        requires
            self.wf(),
        ensures
            n == self@.edges.len(),
    {
        topology_edge_count(&self.graph)
    }

    /// The number of the node with the identifier.
    pub fn find_node(&self, id: &str) -> (r: Option<usize>)
        requires
            self.wf(),
        ensures
            r is Some == (self@.index_of(id@) >= 0),
            r matches Some(i) ==> i == self@.index_of(id@) && i < self@.nodes.len(),
    {
        let r = index_get(&self.node_index, id);
        proof {
            let entries = index_entries(self.node_index);
            let ids = self@.ids();
            lemma_first_index(ids, id@);
            match r {
                Some(v) => {
                    let k = choose|k: int| 0 <= k < entries.len() && entries[k] == (id@, v);
                    assert(ids[k] == id@);
                    assert(self.nodes.len() == self.nodes@.len());
                    assert(v == k);
                    let f = first_index(ids, id@);
                    assert(0 <= f <= k);
                    assert(ids[f] == id@);
                    if f != k {
                        assert(ids[f] != ids[k]);
                    }
                },
                None => {
                    if first_index(ids, id@) >= 0 {
                        let f = first_index(ids, id@);
                        assert(entries[f].0 == id@);
                    }
                },
            }
        }
        r
    }

    /// Node number `i`.
    pub fn node(&self, i: usize) -> (r: &FileNode)
        requires
            self.wf(),
            i < self@.nodes.len(),
        ensures
            r@ == self@.nodes[i as int],
    {
        &self.nodes[i]
    }

    /// Returns a reference to a node by identifier.
    pub fn get_node(&self, id: &str) -> (r: Option<&FileNode>)
        requires
            self.wf(),
        ensures
            r is Some == (self@.index_of(id@) >= 0),
            r matches Some(node) ==> node@ == self@.nodes[self@.index_of(id@)],
    {
        match self.find_node(id) {
            Some(i) => Some(&self.nodes[i]),
            None => None,
        }
    }

    /// Returns all nodes, in the order of their discovery.
    pub fn nodes(&self) -> (r: &Vec<FileNode>)
        requires
            self.wf(),
        ensures
            r@.len() == self@.nodes.len(),
            forall|i: int| 0 <= i < r@.len() ==> (#[trigger] r@[i])@ == self@.nodes[i],
    {
        &self.nodes
    }

    /// Adds a node for a file that the graph does not hold yet, and
    /// returns its number.
    pub(crate) fn insert_node(&mut self, node: FileNode) -> (n: usize)
        requires
            old(self).wf(),
            old(self)@.index_of(node@.id) < 0,
            node@.flags.no_duplicates(),
        ensures
            final(self).wf(),
            final(self)@ == old(self)@.with_node(node@),
            n == old(self)@.nodes.len(),
    {
        let ghost before = self@;
        let ghost entries = index_entries(self.node_index);
        proof {
            lemma_first_index(before.ids(), node@.id);
            assert forall|i: int| 0 <= i < entries.len() implies (#[trigger] entries[i]).0
                != node@.id by {
                assert(before.ids()[i] == entries[i].0);
            }
        }
        let n = topology_add_node(&mut self.graph);
        index_insert(&mut self.node_index, node.id.clone(), n);
        self.nodes.push(node);
        proof {
            assert(self@.nodes =~= before.nodes.push(node@));
            assert(self@.edges =~= before.edges);
            assert(index_entries(self.node_index) =~= Seq::new(
                self.nodes@.len(),
                |i: int| (self.nodes@[i].id@, i as usize),
            ));
            assert(self@.ids() =~= before.ids().push(node@.id));
            assert(self@.links() =~= before.links());
        }
        n
    }

    /// Gives node `i` other metrics.
    pub(crate) fn set_metrics(&mut self, i: usize, metrics: NodeMetrics)
        requires
            old(self).wf(),
            i < old(self)@.nodes.len(),
        ensures
            final(self).wf(),
            final(self)@ == old(self)@.with_node_at(
                i as int,
                old(self)@.nodes[i as int].with_metrics(metrics),
            ),
    {
        let ghost before = self@;
        let mut node = self.nodes[i].clone_node();
        node.metrics = metrics;
        self.nodes.set(i, node);
        proof {
            assert(self@.nodes =~= before.nodes.update(i as int, before.nodes[i as int].with_metrics(metrics)));
            assert(self@.edges =~= before.edges);
            assert(self@.ids() =~= before.ids());
            assert(self@.links() =~= before.links());
            assert(index_entries(self.node_index) =~= Seq::new(
                self.nodes@.len(),
                |k: int| (self.nodes@[k].id@, k as usize),
            ));
        }
    }

    /// Adds a flag to node `i`, where it does not carry it yet.
    pub(crate) fn add_node_flag(&mut self, i: usize, flag: NodeFlag)
        requires
            old(self).wf(),
            i < old(self)@.nodes.len(),
        ensures
            final(self).wf(),
            final(self)@ == old(self)@.with_node_at(
                i as int,
                old(self)@.nodes[i as int].with_flag(flag),
            ),
    {
        let ghost before = self@;
        let mut node = self.nodes[i].clone_node();
        node.add_flag(flag);
        self.nodes.set(i, node);
        proof {
            assert(self@.nodes =~= before.nodes.update(i as int, before.nodes[i as int].with_flag(flag)));
            assert(self@.edges =~= before.edges);
            assert(self@.ids() =~= before.ids());
            assert(self@.links() =~= before.links());
            assert(index_entries(self.node_index) =~= Seq::new(
                self.nodes@.len(),
                |k: int| (self.nodes@[k].id@, k as usize),
            ));
        }
    }

    /// Whether an edge leads from node `a` to node `b`.
    pub fn has_edge(&self, a: usize, b: usize) -> (r: bool)
        requires
            self.wf(),
        ensures
            r == self@.links().contains((a, b)),
    {
        proof {
            self.lemma_links();
        }
        topology_contains_edge(&self.graph, a, b)
    }

    /// Adds an edge between two nodes that no edge connects yet in this
    /// direction.
    pub(crate) fn insert_edge(&mut self, a: usize, b: usize, edge: DependencyEdge)
        requires
            old(self).wf(),
            a < old(self)@.nodes.len(),
            b < old(self)@.nodes.len(),
            !old(self)@.links().contains((a, b)),
        ensures
            final(self).wf(),
            final(self)@ == old(self)@.with_edge(a, b, edge@),
    {
        let ghost before = self@;
        proof {
            self.lemma_links();
        }
        let _ = topology_add_edge(&mut self.graph, a, b);
        self.edges.push(edge);
        proof {
            assert(self@.nodes =~= before.nodes);
            assert(self@.edges =~= before.edges.push(EdgeView { from: a, to: b, data: edge@ }));
            assert(self@.ids() =~= before.ids());
            assert(self@.links() =~= before.links().push((a, b)));
            assert(index_entries(self.node_index) =~= Seq::new(
                self.nodes@.len(),
                |k: int| (self.nodes@[k].id@, k as usize),
            ));
        }
    }

    /// The source and the target of edge `e`.
    pub fn endpoints(&self, e: usize) -> (r: (usize, usize))
        requires
            self.wf(),
            e < self@.edges.len(),
        ensures
            r == self@.links()[e as int],
            r.0 < self@.nodes.len(),
            r.1 < self@.nodes.len(),
    {
        proof {
            self.lemma_links();
            assert(self@.edges[e as int].from < self@.nodes.len());
        }
        topology_endpoints(&self.graph, e)
    }

    /// The data of edge `e`.
    pub fn edge(&self, e: usize) -> (r: &DependencyEdge)
        requires
            self.wf(),
            e < self@.edges.len(),
        ensures
            r@ == self@.edges[e as int].data,
    {
        &self.edges[e]
    }

    /// Returns all edges, in the order in which they were added, each
    /// with the identifiers of its source and its target.
    pub fn edges(&self) -> (r: Vec<(String, String, DependencyEdge)>)
        requires
            self.wf(),
        ensures
            r@.len() == self@.edges.len(),
            forall|e: int|
                0 <= e < r@.len() ==> {
                    let item = #[trigger] r@[e];
                    &&& item.0@ == self@.nodes[self@.edges[e].from as int].id
                    &&& item.1@ == self@.nodes[self@.edges[e].to as int].id
                    &&& item.2@ == self@.edges[e].data
                },
    {
        let mut r: Vec<(String, String, DependencyEdge)> = Vec::new();
        let m = self.edge_count();
        let mut e: usize = 0;
        while e < m
            invariant
                e <= m,
                m == self@.edges.len(),
                self.wf(),
                r@.len() == e,
                forall|j: int|
                    0 <= j < e ==> {
                        let item = #[trigger] r@[j];
                        &&& item.0@ == self@.nodes[self@.edges[j].from as int].id
                        &&& item.1@ == self@.nodes[self@.edges[j].to as int].id
                        &&& item.2@ == self@.edges[j].data
                    },
            decreases m - e,
        {
            let (a, b) = self.endpoints(e);
            let from = self.node(a).id.clone();
            let to = self.node(b).id.clone();
            let data = self.edge(e).clone_edge();
            r.push((from, to, data));
            e += 1;
        }
        r
    }

    /// The nodes that node `a` references directly, the most recently
    /// added edge first.
    pub fn successors(&self, a: usize) -> (r: Vec<usize>)
        requires
            self.wf(),
        ensures
            r@ == neighbors_of(self@.links(), a, true),
    {
        proof {
            self.lemma_links();
        }
        topology_successors(&self.graph, a)
    }

    /// The nodes that reference node `a` directly, the most recently added
    /// edge first.
    pub fn predecessors(&self, a: usize) -> (r: Vec<usize>)
        requires
            self.wf(),
        ensures
            r@ == neighbors_of(self@.links(), a, false),
    {
        proof {
            self.lemma_links();
        }
        topology_predecessors(&self.graph, a)
    }

    /// The strongly connected components of the graph, as lists of node
    /// numbers.
    pub fn components(&self) -> (r: Vec<Vec<usize>>)
        requires
            self.wf(),
        ensures
            component_rows(r@) == tarjan_components(self@.nodes.len(), self@.links()),
            is_component_partition(self@.nodes.len(), self@.links(), component_rows(r@)),
    {
        proof {
            self.lemma_links();
        }
        topology_components(&self.graph)
    }

    /// Returns the identifiers of the entry points, in the order in which
    /// they were named.
    pub fn entry_points(&self) -> (r: &Vec<String>)
        ensures
            strings_view(r@) == self@.entry_points,
    {
        &self.entry_points
    }

    /// Records the identifier as an entry point.
    pub(crate) fn mark_entry(&mut self, id: &str)
        requires
            old(self).wf(),
        ensures
            final(self).wf(),
            final(self)@ == old(self)@.with_entry(id@),
    {
        let ghost before = self@;
        let wanted = id.to_owned();
        let mut k: usize = 0;
        while k < self.entry_points.len()
            invariant
                k <= self.entry_points@.len(),
                wanted@ == id@,
                self@ == before,
                self.wf(),
                forall|j: int| 0 <= j < k ==> self.entry_points@[j]@ != id@,
            decreases self.entry_points@.len() - k,
        {
            if self.entry_points[k] == wanted {
                proof {
                    assert(before.entry_points[k as int] == id@);
                }
                return ;
            }
            k += 1;
        }
        proof {
            if before.entry_points.contains(id@) {
                let j = choose|j: int|
                    0 <= j < before.entry_points.len() && before.entry_points[j] == id@;
                assert(self.entry_points@[j]@ == id@);
            }
        }
        self.entry_points.push(wanted);
        proof {
            assert(self@.nodes =~= before.nodes);
            assert(self@.edges =~= before.edges);
            assert(self@.entry_points =~= before.entry_points.push(id@));
            assert(self@.ids() =~= before.ids());
            assert(self@.links() =~= before.links());
        }
    }

    /// Sets the detected cycles.
    pub fn set_cycles(&mut self, cycles: Vec<Vec<String>>)
        requires
            old(self).wf(),
        ensures
            final(self).wf(),
            final(self)@ == old(self)@.with_cycles(cycles_view(cycles@)),
    {
        let ghost before = self@;
        self.cycles = cycles;
        proof {
            assert(self@.nodes =~= before.nodes);
            assert(self@.edges =~= before.edges);
            assert(self@.ids() =~= before.ids());
            assert(self@.links() =~= before.links());
        }
    }

    /// Returns the detected cycles.
    pub fn get_cycles(&self) -> (r: &Vec<Vec<String>>)
        ensures
            cycles_view(r@) == self@.cycles,
    {
        &self.cycles
    }

    /// Returns the references that could not be resolved, in the order in
    /// which they were met.
    pub fn warnings(&self) -> (r: &Vec<Warning>)
        ensures
            r@.len() == self@.warnings.len(),
            forall|i: int| 0 <= i < r@.len() ==> (#[trigger] r@[i])@ == self@.warnings[i],
    {
        &self.warnings
    }

    /// Records a reference that could not be resolved.
    pub(crate) fn push_warning(&mut self, warning: Warning)
        requires
            old(self).wf(),
        ensures
            final(self).wf(),
            final(self)@ == old(self)@.with_warning(warning@),
    {
        let ghost before = self@;
        self.warnings.push(warning);
        proof {
            assert(self@.nodes =~= before.nodes);
            assert(self@.edges =~= before.edges);
            assert(self@.warnings =~= before.warnings.push(warning@));
            assert(self@.ids() =~= before.ids());
            assert(self@.links() =~= before.links());
        }
    }

    /// Returns a reference to the underlying arena.
    pub fn inner(&self) -> (r: &Graph<(), (), Directed, usize>)
        requires
            self.wf(),
        ensures
            topology_nodes(*r) == self@.nodes.len(),
            topology_edges(*r) == self@.links(),
    {
        proof {
            self.lemma_links();
        }
        &self.graph
    }

    /// Returns the map from identifier to node number.
    pub fn node_index(&self) -> (r: &IndexMap<String, usize, RandomState>)
        requires
            self.wf(),
        ensures
            index_entries(*r) == Seq::new(
                self@.nodes.len(),
                |i: int| (self@.nodes[i].id, i as usize),
            ),
    {
        assert(index_entries(self.node_index) =~= Seq::new(
            self@.nodes.len(),
            |i: int| (self@.nodes[i].id, i as usize),
        ));
        &self.node_index
    }
}

impl Default for DependencyGraph {
    /// The empty graph.
    fn default() -> (g: DependencyGraph)
        ensures
            g.wf(),
            g@ == GraphView::empty(),
    {
        DependencyGraph::new()
    }
}

} // verus!
