//! The dependency graph: its nodes and edges, and its construction from
//! entry files.
//!
//! Nodes are files, edges are the references between them. The topology is
//! kept in a `petgraph` graph and the identifiers in an `IndexMap`, so that
//! nodes keep the order in which they were first discovered.

pub mod builder;
pub mod crawl;
pub mod node;
pub mod topology;

pub use builder::{DependencyGraph, EdgeView, GraphView, Warning, WarningView};

pub use node::{
    DependencyEdge, DependencyEdgeView, DirectiveType, EdgeMeta, EdgeMetaView, FileNode,
    FileNodeView, NodeFlag, NodeMetrics,
};
