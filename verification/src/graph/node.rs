//! Node and edge data of the dependency graph.

use vstd::prelude::*;
use vstd::string::StringExecFns;
use crate::parser::directive::{string_option_view, Location};

verus! {

/// Computed metrics for a file node.
#[derive(Debug, Clone, Copy, PartialEq, Eq, Structural)]
pub struct NodeMetrics {
    /// Number of files that depend on this file (in-degree).
    pub fan_in: usize,
    /// Number of files this file depends on (out-degree).
    pub fan_out: usize,
    /// Distance from the nearest entry point; `usize::MAX` where no entry
    /// point reaches the file.
    pub depth: usize,
    /// Number of files that this file depends on, directly or indirectly.
    pub transitive_deps: usize,
}

impl Default for NodeMetrics {
    /// All metrics zero.
    fn default() -> (m: NodeMetrics)
        ensures
            m == (NodeMetrics { fan_in: 0, fan_out: 0, depth: 0, transitive_deps: 0 }),
    {
        NodeMetrics { fan_in: 0, fan_out: 0, depth: 0, transitive_deps: 0 }
    }
}

/// Flags that can be assigned to nodes.
#[derive(Debug, Clone, Copy, PartialEq, Eq, Hash, Structural)]
pub enum NodeFlag {
    /// This file is an entry point (explicitly specified).
    EntryPoint,
    /// This file has no dependencies (leaf node).
    Leaf,
    /// This file is not reachable from any entry point.
    Orphan,
    /// This file has unusually high fan-in.
    HighFanIn,
    /// This file has unusually high fan-out.
    HighFanOut,
    /// This file is part of a dependency cycle.
    InCycle,
}

impl NodeFlag {
    /// The name of the flag in snake case.
    pub open spec fn name(self) -> Seq<char> {
        match self {
            NodeFlag::EntryPoint => "entry_point"@,
            NodeFlag::Leaf => "leaf"@,
            NodeFlag::Orphan => "orphan"@,
            NodeFlag::HighFanIn => "high_fan_in"@,
            NodeFlag::HighFanOut => "high_fan_out"@,
            NodeFlag::InCycle => "in_cycle"@,
        }
    }

    /// Renders the flag as its name.
    pub fn to_string(&self) -> (r: String)
        ensures
            r@ == self.name(),
    {
        match self {
            NodeFlag::EntryPoint => String::from_str("entry_point"),
            NodeFlag::Leaf => String::from_str("leaf"),
            NodeFlag::Orphan => String::from_str("orphan"),
            NodeFlag::HighFanIn => String::from_str("high_fan_in"),
            NodeFlag::HighFanOut => String::from_str("high_fan_out"),
            NodeFlag::InCycle => String::from_str("in_cycle"),
        }
    }
}

/// A node in the dependency graph representing a stylesheet file.
#[derive(Debug, Clone)]
pub struct FileNode {
    /// Path relative to the project root, with forward slashes; the
    /// identifier of the file.
    pub id: String,
    /// Absolute path of the file.
    pub absolute_path: String,
    /// Computed metrics for this node.
    pub metrics: NodeMetrics,
    /// Flags assigned to this node.
    pub flags: Vec<NodeFlag>,
}

/// Mathematical model of a [`FileNode`].
pub struct FileNodeView {
    pub id: Seq<char>,
    pub absolute_path: Seq<char>,
    pub metrics: NodeMetrics,
    pub flags: Seq<NodeFlag>,
}

impl View for FileNode {
    type V = FileNodeView;

    open spec fn view(&self) -> FileNodeView {
        FileNodeView {
            id: self.id@,
            absolute_path: self.absolute_path@,
            metrics: self.metrics,
            flags: self.flags@,
        }
    }
}

impl FileNodeView {
    /// Whether the node carries the flag.
    pub open spec fn has(self, flag: NodeFlag) -> bool {
        self.flags.contains(flag)
    }

    /// The node as it is when first created.
    pub open spec fn fresh(id: Seq<char>, absolute_path: Seq<char>) -> FileNodeView {
        FileNodeView {
            id,
            absolute_path,
            metrics: NodeMetrics { fan_in: 0, fan_out: 0, depth: 0, transitive_deps: 0 },
            flags: Seq::empty(),
        }
    }

    /// The node with a flag added, where it does not carry it yet.
    pub open spec fn with_flag(self, flag: NodeFlag) -> FileNodeView {
        if self.flags.contains(flag) {
            self
        } else {
            FileNodeView { flags: self.flags.push(flag), ..self }
        }
    }

    /// The node with other metrics.
    pub open spec fn with_metrics(self, metrics: NodeMetrics) -> FileNodeView {
        FileNodeView { metrics, ..self }
    }
}

impl FileNode {
    /// Creates a new file node without flags and with all metrics zero.
    pub fn new(id: String, absolute_path: String) -> (node: FileNode)
        ensures
            node@ == FileNodeView::fresh(id@, absolute_path@),
    {
        FileNode { id, absolute_path, metrics: NodeMetrics::default(), flags: Vec::new() }
    }

    /// A copy of the node.
    pub fn clone_node(&self) -> (node: FileNode)
        ensures
            node@ == self@,
    {
        let mut flags: Vec<NodeFlag> = Vec::new();
        let mut i: usize = 0;
        while i < self.flags.len()
            invariant
                i <= self.flags@.len(),
                flags@ == self.flags@.subrange(0, i as int),
            decreases self.flags@.len() - i,
        {
            flags.push(self.flags[i]);
            i += 1;
        }
        assert(flags@ =~= self.flags@);
        FileNode {
            id: self.id.clone(),
            absolute_path: self.absolute_path.clone(),
            metrics: self.metrics,
            flags,
        }
    }

    /// Adds a flag to this node if not already present.
    pub fn add_flag(&mut self, flag: NodeFlag)
        ensures
            final(self)@ == old(self)@.with_flag(flag),
            final(self)@.has(flag),
            forall|other: NodeFlag| other != flag ==> final(self)@.has(other) == old(self)@.has(other),
            old(self)@.flags.no_duplicates() ==> final(self)@.flags.no_duplicates(),
    {
        if !self.has_flag(&flag) {
            self.flags.push(flag);
            proof {
                let before = old(self)@.flags;
                assert(self.flags@ == before.push(flag));
                assert(self.flags@[before.len() as int] == flag);
                assert forall|other: NodeFlag| other != flag implies self@.has(other) == old(
                    self,
                )@.has(other) by {
                    if self@.has(other) {
                        let k = choose|k: int| 0 <= k < self.flags@.len() && self.flags@[k] == other;
                        assert(before[k] == other);
                    }
                    if old(self)@.has(other) {
                        let k = choose|k: int| 0 <= k < before.len() && before[k] == other;
                        assert(self.flags@[k] == other);
                    }
                }
            }
        }
    }

    /// Removes a flag from this node.
    pub fn remove_flag(&mut self, flag: &NodeFlag)
        ensures
            final(self)@.flags == old(self)@.flags.filter(|f: NodeFlag| f != *flag),
            !final(self)@.has(*flag),
            final(self)@.id == old(self)@.id,
            final(self)@.absolute_path == old(self)@.absolute_path,
            final(self)@.metrics == old(self)@.metrics,
    {
        let ghost keep = |f: NodeFlag| f != *flag;
        let ghost before = self.flags@;
        let mut kept: Vec<NodeFlag> = Vec::new();
        let mut i: usize = 0;
        proof {
            assert(before.subrange(0, 0) =~= Seq::<NodeFlag>::empty());
            reveal(Seq::filter);
        }
        while i < self.flags.len()
            invariant
                i <= self.flags@.len(),
                self.flags@ == before,
                keep == |f: NodeFlag| f != *flag,
                kept@ == before.subrange(0, i as int).filter(keep),
            decreases self.flags@.len() - i,
        {
            proof {
                reveal(Seq::filter);
                assert(before.subrange(0, i as int + 1).drop_last() =~= before.subrange(
                    0,
                    i as int,
                ));
            }
            if self.flags[i] != *flag {
                kept.push(self.flags[i]);
            }
            i += 1;
        }
        proof {
            assert(before.subrange(0, i as int) =~= before);
            if kept@.contains(*flag) {
                let k = choose|k: int| 0 <= k < kept@.len() && kept@[k] == *flag;
                before.lemma_filter_pred(keep, k);
            }
        }
        self.flags = kept;
    }

    /// Checks if this node has a specific flag.
    pub fn has_flag(&self, flag: &NodeFlag) -> (r: bool)
        ensures
            r == self@.has(*flag),
    {
        let mut i: usize = 0;
        while i < self.flags.len()
            invariant
                i <= self.flags@.len(),
                forall|k: int| 0 <= k < i ==> self.flags@[k] != *flag,
            decreases self.flags@.len() - i,
        {
            if self.flags[i] == *flag {
                return true;
            }
            i += 1;
        }
        false
    }
}

/// Type of directive that created a dependency.
#[derive(Debug, Clone, Copy, PartialEq, Eq, Structural)]
pub enum DirectiveType {
    /// `@use` directive.
    Use,
    /// `@forward` directive.
    Forward,
    /// `@import` directive (legacy).
    Import,
}

impl DirectiveType {
    /// The name of the directive, without the `@`.
    pub open spec fn name(self) -> Seq<char> {
        match self {
            DirectiveType::Use => "use"@,
            DirectiveType::Forward => "forward"@,
            DirectiveType::Import => "import"@,
        }
    }

    /// Renders the directive type as its name.
    pub fn to_string(&self) -> (r: String)
        ensures
            r@ == self.name(),
    {
        match self {
            DirectiveType::Use => String::from_str("use"),
            DirectiveType::Forward => String::from_str("forward"),
            DirectiveType::Import => String::from_str("import"),
        }
    }
}

/// Additional metadata for a dependency edge.
#[derive(Debug, Clone)]
pub struct EdgeMeta {
    /// Namespace of the import (for `@use`): a name, `*` for the global
    /// namespace, nothing for the default one.
    pub namespace: Option<String>,
    /// Whether the module is configured (for `@use ... with`).
    pub configured: bool,
}

/// Mathematical model of an [`EdgeMeta`].
pub struct EdgeMetaView {
    pub namespace: Option<Seq<char>>,
    pub configured: bool,
}

impl EdgeMetaView {
    /// No namespace, not configured.
    pub open spec fn plain() -> EdgeMetaView {
        EdgeMetaView { namespace: None, configured: false }
    }
}

impl View for EdgeMeta {
    type V = EdgeMetaView;

    open spec fn view(&self) -> EdgeMetaView {
        EdgeMetaView {
            namespace: string_option_view(self.namespace),
            configured: self.configured,
        }
    }
}

impl Default for EdgeMeta {
    /// No namespace, not configured.
    fn default() -> (meta: EdgeMeta)
        ensures
            meta@ == EdgeMetaView::plain(),
    {
        EdgeMeta { namespace: None, configured: false }
    }
}

/// An edge in the dependency graph representing a dependency.
#[derive(Debug, Clone)]
pub struct DependencyEdge {
    /// Type of directive that created this dependency.
    pub directive_type: DirectiveType,
    /// Source location of the directive.
    pub location: Location,
    /// Additional metadata about the edge.
    pub meta: EdgeMeta,
}

/// Mathematical model of a [`DependencyEdge`].
pub struct DependencyEdgeView {
    pub directive_type: DirectiveType,
    pub location: Location,
    pub meta: EdgeMetaView,
}

impl View for DependencyEdge {
    type V = DependencyEdgeView;

    open spec fn view(&self) -> DependencyEdgeView {
        DependencyEdgeView {
            directive_type: self.directive_type,
            location: self.location,
            meta: self.meta@,
        }
    }
}

impl DependencyEdge {
    /// A copy of the edge.
    pub fn clone_edge(&self) -> (edge: DependencyEdge)
        ensures
            edge@ == self@,
    {
        let namespace = match &self.meta.namespace {
            Some(name) => Some(name.clone()),
            None => None,
        };
        DependencyEdge {
            directive_type: self.directive_type,
            location: self.location,
            meta: EdgeMeta { namespace, configured: self.meta.configured },
        }
    }

    /// Creates a new dependency edge with default metadata.
    pub fn new(directive_type: DirectiveType, location: Location) -> (edge: DependencyEdge)
        ensures
            edge@ == (DependencyEdgeView { directive_type, location, meta: EdgeMetaView::plain() }),
    {
        DependencyEdge { directive_type, location, meta: EdgeMeta::default() }
    }

    /// Creates a new edge with metadata.
    pub fn with_meta(directive_type: DirectiveType, location: Location, meta: EdgeMeta) -> (edge:
        DependencyEdge)
        ensures
            edge@ == (DependencyEdgeView { directive_type, location, meta: meta@ }),
    {
        DependencyEdge { directive_type, location, meta }
    }
}

} // verus!
