//! Dependency analysis for Sass stylesheets.
//!
//! The crate scans stylesheet sources for `@use`, `@forward` and `@import`
//! directives, resolves every referenced module against a snapshot of the
//! source tree, builds the directed dependency graph of the files reachable
//! from a set of entry points and computes structural metrics on it.
//!
//! Every function is verified: contracts are stated over sequences of
//! characters, over the view of the graph and over a small model of the
//! source tree.

pub mod analyzer;
pub mod commands;
pub mod graph;
pub mod parser;
pub mod resolver;
pub mod text;

pub use analyzer::Analyzer;
pub use graph::DependencyGraph;
pub use parser::Directive;
pub use resolver::Resolver;
