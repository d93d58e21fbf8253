use sass_dep::graph::{DependencyEdge, DirectiveType, EdgeMeta, FileNode, NodeFlag, NodeMetrics};
use sass_dep::parser::Location;

#[test]
fn file_node_new() {
    let node = FileNode::new("src/main.scss".to_string(), "/project/src/main.scss".to_string());

    assert_eq!(node.id, "src/main.scss");
    assert_eq!(node.absolute_path, "/project/src/main.scss".to_string());
    assert!(node.flags.is_empty());
}

#[test]
fn file_node_flags() {
    let mut node = FileNode::new("test.scss".to_string(), "/test.scss".to_string());

    node.add_flag(NodeFlag::EntryPoint);
    assert!(node.has_flag(&NodeFlag::EntryPoint));

    node.add_flag(NodeFlag::EntryPoint); // Duplicate
    assert_eq!(node.flags.len(), 1);

    node.remove_flag(&NodeFlag::EntryPoint);
    assert!(!node.has_flag(&NodeFlag::EntryPoint));
}

#[test]
fn dependency_edge_new() {
    let edge = DependencyEdge::new(DirectiveType::Use, Location::new(1, 1));

    assert_eq!(edge.directive_type, DirectiveType::Use);
    assert_eq!(edge.location.line, 1);
    assert!(!edge.meta.configured);
}

#[test]
fn directive_type_display() {
    assert_eq!(DirectiveType::Use.to_string(), "use");
    assert_eq!(DirectiveType::Forward.to_string(), "forward");
    assert_eq!(DirectiveType::Import.to_string(), "import");
}

#[test]
fn node_flag_display() {
    assert_eq!(NodeFlag::EntryPoint.to_string(), "entry_point");
    assert_eq!(NodeFlag::InCycle.to_string(), "in_cycle");
}

#[test]
fn node_flag_names() {
    assert_eq!(NodeFlag::Leaf.to_string(), "leaf");
    assert_eq!(NodeFlag::Orphan.to_string(), "orphan");
    assert_eq!(NodeFlag::HighFanIn.to_string(), "high_fan_in");
    assert_eq!(NodeFlag::HighFanOut.to_string(), "high_fan_out");
}

#[test]
fn file_node_metrics_start_at_zero() {
    let node = FileNode::new("a.scss".to_string(), "/a.scss".to_string());
    assert_eq!(
        node.metrics,
        NodeMetrics { fan_in: 0, fan_out: 0, depth: 0, transitive_deps: 0 }
    );
    assert_eq!(NodeMetrics::default(), node.metrics);
}

#[test]
fn remove_flag_keeps_other_flags_in_order() {
    let mut node = FileNode::new("a.scss".to_string(), "/a.scss".to_string());
    node.add_flag(NodeFlag::EntryPoint);
    node.add_flag(NodeFlag::Leaf);
    node.add_flag(NodeFlag::InCycle);
    node.remove_flag(&NodeFlag::Leaf);
    assert_eq!(node.flags, vec![NodeFlag::EntryPoint, NodeFlag::InCycle]);
    node.remove_flag(&NodeFlag::Orphan);
    assert_eq!(node.flags, vec![NodeFlag::EntryPoint, NodeFlag::InCycle]);
}

#[test]
fn clone_node_and_edge_copy_every_field() {
    let mut node = FileNode::new("a.scss".to_string(), "/p/a.scss".to_string());
    node.add_flag(NodeFlag::Orphan);
    node.metrics.depth = 7;
    let copy = node.clone_node();
    assert_eq!(copy.id, "a.scss");
    assert_eq!(copy.absolute_path, "/p/a.scss");
    assert_eq!(copy.metrics.depth, 7);
    assert_eq!(copy.flags, vec![NodeFlag::Orphan]);

    let edge = DependencyEdge::with_meta(
        DirectiveType::Use,
        Location::new(3, 9),
        EdgeMeta { namespace: Some("vars".to_string()), configured: true },
    );
    let copy = edge.clone_edge();
    assert_eq!(copy.directive_type, DirectiveType::Use);
    assert_eq!(copy.location, Location::new(3, 9));
    assert_eq!(copy.meta.namespace, Some("vars".to_string()));
    assert!(copy.meta.configured);
}

#[test]
fn edge_meta_default_is_plain() {
    let meta = EdgeMeta::default();
    assert!(meta.namespace.is_none());
    assert!(!meta.configured);
}
