use sass_dep::graph::crawl::{is_builtin_module, BuildError};
use sass_dep::graph::{DependencyGraph, DirectiveType, NodeFlag};
use sass_dep::parser::Location;
use sass_dep::resolver::{Resolver, SourceTree};

const ROOT: &str = "/home/dev/site";

fn at(rel: &str) -> String {
    format!("{}/{}", ROOT, rel)
}

fn create_simple_project() -> SourceTree {
    let mut tree = SourceTree::new();
    tree.add_dir(ROOT);
    tree.add_file(
        &at("main.scss"),
        r#"@use "variables" as vars;
@use "mixins";

.container { color: vars.$primary; }
"#,
    );

    tree.add_file(&at("_variables.scss"), "$primary: blue;\n");

    tree.add_file(
        &at("_mixins.scss"),
        r#"@use "variables" as vars;

@mixin center { display: flex; }
"#,
    );
    tree
}

fn create_cycle_project() -> SourceTree {
    let mut tree = SourceTree::new();
    tree.add_dir(ROOT);
    tree.add_file(&at("_a.scss"), "@use \"b\";\n$a: 1;\n");
    tree.add_file(&at("_b.scss"), "@use \"c\";\n$b: 2;\n");
    tree.add_file(&at("_c.scss"), "@use \"a\";\n$c: 3;\n");
    tree
}

fn create_legacy_project() -> SourceTree {
    let mut tree = SourceTree::new();
    tree.add_dir(ROOT);
    tree.add_file(
        &at("main.scss"),
        "@import \"imported\";\n.legacy { color: $old-var; }\n",
    );
    tree.add_file(&at("_imported.scss"), "$old-var: red;\n");
    tree
}

#[test]
fn graph_tests_build_simple_graph() {
    let tree = create_simple_project();

    let resolver = Resolver::default();
    let mut graph = DependencyGraph::new();

    let result = graph.build_from_entry(&at("main.scss"), &resolver, ROOT, &tree);

    assert!(result.is_ok());
    assert_eq!(graph.node_count(), 3); // main, variables, mixins
    assert_eq!(graph.edge_count(), 3); // main->vars, main->mixins, mixins->vars
}

#[test]
fn graph_tests_entry_point_flagged() {
    let tree = create_simple_project();

    let resolver = Resolver::default();
    let mut graph = DependencyGraph::new();

    graph
        .build_from_entry(&at("main.scss"), &resolver, ROOT, &tree)
        .unwrap();

    let main = graph.get_node("main.scss").unwrap();
    assert!(main.has_flag(&NodeFlag::EntryPoint));

    let vars = graph.get_node("_variables.scss").unwrap();
    assert!(!vars.has_flag(&NodeFlag::EntryPoint));
}

#[test]
fn multiple_entry_points() {
    let mut tree = SourceTree::new();
    tree.add_dir(ROOT);

    // Create two separate entry points
    tree.add_file(&at("app.scss"), "@use \"shared\";\n");
    tree.add_file(&at("admin.scss"), "@use \"shared\";\n");
    tree.add_file(&at("_shared.scss"), "$color: red;\n");

    let resolver = Resolver::default();
    let mut graph = DependencyGraph::new();

    graph
        .build_from_entry(&at("app.scss"), &resolver, ROOT, &tree)
        .unwrap();
    graph
        .build_from_entry(&at("admin.scss"), &resolver, ROOT, &tree)
        .unwrap();

    assert_eq!(graph.node_count(), 3);
    assert_eq!(graph.entry_points().len(), 2);

    let app = graph.get_node("app.scss").unwrap();
    let admin = graph.get_node("admin.scss").unwrap();
    assert!(app.has_flag(&NodeFlag::EntryPoint));
    assert!(admin.has_flag(&NodeFlag::EntryPoint));
}

#[test]
fn graph_with_cycle() {
    let tree = create_cycle_project();

    let resolver = Resolver::default();
    let mut graph = DependencyGraph::new();

    // This should still work - cycles are detected but don't cause infinite loops
    let result = graph.build_from_entry(&at("_a.scss"), &resolver, ROOT, &tree);

    assert!(result.is_ok());
    assert_eq!(graph.node_count(), 3);
    assert_eq!(graph.edge_count(), 3);
}

#[test]
fn graph_with_legacy_import() {
    let tree = create_legacy_project();

    let resolver = Resolver::default();
    let mut graph = DependencyGraph::new();

    graph
        .build_from_entry(&at("main.scss"), &resolver, ROOT, &tree)
        .unwrap();

    assert_eq!(graph.node_count(), 2);
    assert_eq!(graph.edge_count(), 1);
}

#[test]
fn relative_file_ids() {
    let mut tree = SourceTree::new();
    tree.add_dir(ROOT);
    tree.add_dir(&at("src"));
    tree.add_dir(&at("src/components"));
    tree.add_file(&at("src/main.scss"), "@use \"components/button\";\n");
    tree.add_file(&at("src/components/_button.scss"), "");

    let resolver = Resolver::default();
    let mut graph = DependencyGraph::new();

    graph
        .build_from_entry(&at("src/main.scss"), &resolver, ROOT, &tree)
        .unwrap();

    // IDs should be relative paths from root
    assert!(graph.get_node("src/main.scss").is_some());
    assert!(graph.get_node("src/components/_button.scss").is_some());
}

#[test]
fn graph_edges() {
    let tree = create_simple_project();

    let resolver = Resolver::default();
    let mut graph = DependencyGraph::new();

    graph
        .build_from_entry(&at("main.scss"), &resolver, ROOT, &tree)
        .unwrap();

    let edges: Vec<_> = graph.edges();
    assert_eq!(edges.len(), 3);

    // Check that all edges have valid from/to
    for (from, to, _edge) in edges {
        assert!(graph.get_node(&from).is_some());
        assert!(graph.get_node(&to).is_some());
    }
}

#[test]
fn discover_orphans() {
    let mut tree = create_simple_project();

    // Add an orphan file
    tree.add_file(&at("_orphan.scss"), "$orphan: true;\n");

    let resolver = Resolver::default();
    let mut graph = DependencyGraph::new();

    graph
        .build_from_entry(&at("main.scss"), &resolver, ROOT, &tree)
        .unwrap();

    // Before discovering orphans
    assert_eq!(graph.node_count(), 3);
    assert!(graph.get_node("_orphan.scss").is_none());

    // Discover orphans
    graph.discover_orphans(ROOT, &resolver, &tree).unwrap();

    // After discovering orphans
    assert_eq!(graph.node_count(), 4);

    let orphan = graph.get_node("_orphan.scss").unwrap();
    assert!(orphan.has_flag(&NodeFlag::Orphan));
}

#[test]
fn graph_with_forward_directives() {
    let mut tree = SourceTree::new();
    tree.add_dir(ROOT);
    tree.add_dir(&at("base"));
    tree.add_file(&at("main.scss"), "@use \"base\";\n");
    tree.add_file(
        &at("base/_index.scss"),
        "@forward \"reset\";\n@forward \"typography\";\n",
    );
    tree.add_file(&at("base/_reset.scss"), "@mixin reset {}\n");
    tree.add_file(&at("base/_typography.scss"), "@mixin type {}\n");

    let resolver = Resolver::default();
    let mut graph = DependencyGraph::new();

    graph
        .build_from_entry(&at("main.scss"), &resolver, ROOT, &tree)
        .unwrap();

    // main -> base/_index.scss -> reset, typography
    assert_eq!(graph.node_count(), 4);
    assert_eq!(graph.edge_count(), 3);
}

#[test]
fn graph_node_iteration_order() {
    let tree = create_simple_project();

    let resolver = Resolver::default();
    let mut graph = DependencyGraph::new();

    graph
        .build_from_entry(&at("main.scss"), &resolver, ROOT, &tree)
        .unwrap();

    // Collect node IDs
    let ids1: Vec<_> = graph.nodes().iter().map(|node| node.id.clone()).collect();

    // Rebuild graph
    let mut graph2 = DependencyGraph::new();
    graph2
        .build_from_entry(&at("main.scss"), &resolver, ROOT, &tree)
        .unwrap();

    let ids2: Vec<_> = graph2.nodes().iter().map(|node| node.id.clone()).collect();

    // Order should be deterministic
    assert_eq!(ids1, ids2);
}

#[test]
fn nodes_come_in_order_of_discovery() {
    let mut tree = SourceTree::new();
    tree.add_dir(ROOT);
    tree.add_file(&at("a.scss"), "@use \"b\";\n@use \"d\";\n");
    tree.add_file(&at("_b.scss"), "@use \"c\";\n@use \"d\";\n");
    tree.add_file(&at("_c.scss"), "");
    tree.add_file(&at("_d.scss"), "@use \"c\";\n");
    let resolver = Resolver::default();
    let mut graph = DependencyGraph::new();
    let entry = graph.build_from_entry(&at("a.scss"), &resolver, ROOT, &tree).unwrap();
    assert_eq!(entry, 0);
    let ids: Vec<&str> = graph.nodes().iter().map(|n| n.id.as_str()).collect();
    assert_eq!(ids, vec!["a.scss", "_b.scss", "_c.scss", "_d.scss"]);
    let edges: Vec<(String, String)> =
        graph.edges().into_iter().map(|(from, to, _)| (from, to)).collect();
    let expected: Vec<(String, String)> = [
        ("a.scss", "_b.scss"),
        ("_b.scss", "_c.scss"),
        ("_b.scss", "_d.scss"),
        ("_d.scss", "_c.scss"),
        ("a.scss", "_d.scss"),
    ]
    .iter()
    .map(|(a, b)| (a.to_string(), b.to_string()))
    .collect();
    assert_eq!(edges, expected);
    assert_eq!(graph.successors(0), vec![3, 1]);
    assert_eq!(graph.predecessors(2), vec![3, 1]);
    assert_eq!(graph.endpoints(4), (0, 3));
    assert!(graph.has_edge(1, 3));
    assert!(!graph.has_edge(3, 1));
    assert_eq!(graph.find_node("_d.scss"), Some(3));
    assert_eq!(graph.find_node("d.scss"), None);
    assert_eq!(graph.inner().node_count(), 4);
    assert_eq!(graph.node_index().get("_c.scss"), Some(&2));
}

#[test]
fn unresolved_reference_is_a_warning() {
    let mut tree = SourceTree::new();
    tree.add_dir(ROOT);
    tree.add_file(&at("main.scss"), "@use \"missing\";\n@use \"here\";\n");
    tree.add_file(&at("_here.scss"), "");
    let resolver = Resolver::default();
    let mut graph = DependencyGraph::new();
    let result = graph.build_from_entry(&at("main.scss"), &resolver, ROOT, &tree);
    assert!(result.is_ok());
    assert_eq!(graph.node_count(), 2);
    assert_eq!(graph.edge_count(), 1);
    assert_eq!(graph.warnings().len(), 1);
    let warning = &graph.warnings()[0];
    assert_eq!(warning.target, "missing");
    assert_eq!(warning.from, at("main.scss"));
    assert_eq!(
        warning.reason,
        format!("Could not resolve 'missing' from '{}'", ROOT)
    );
}

#[test]
fn builtin_modules_are_skipped() {
    let mut tree = SourceTree::new();
    tree.add_dir(ROOT);
    tree.add_file(&at("main.scss"), "@use \"sass:math\";\n@use \"sass:map\" as m;\n");
    let resolver = Resolver::default();
    let mut graph = DependencyGraph::new();
    graph.build_from_entry(&at("main.scss"), &resolver, ROOT, &tree).unwrap();
    assert_eq!(graph.node_count(), 1);
    assert_eq!(graph.edge_count(), 0);
    assert!(graph.warnings().is_empty());
    assert!(is_builtin_module("sass:color"));
    assert!(!is_builtin_module("sass"));
    assert!(!is_builtin_module("Sass:math"));
    assert!(!is_builtin_module("xsass:math"));
}

#[test]
fn missing_entry_and_unreadable_file_fail_the_build() {
    let mut tree = SourceTree::new();
    tree.add_dir(ROOT);
    tree.add_file(&at("main.scss"), "@use \"locked\";\n@use \"later\";\n");
    tree.add_unreadable_file(&at("_locked.scss"));
    tree.add_file(&at("_later.scss"), "");
    let resolver = Resolver::default();
    let mut graph = DependencyGraph::new();
    match graph.build_from_entry(&at("nothing.scss"), &resolver, ROOT, &tree) {
        Err(BuildError::EntryNotFound(path)) => assert_eq!(path, at("nothing.scss")),
        other => panic!("expected EntryNotFound, got {:?}", other),
    }
    assert_eq!(graph.node_count(), 0);
    match graph.build_from_entry(&at("main.scss"), &resolver, ROOT, &tree) {
        Err(BuildError::Unreadable(path)) => assert_eq!(path, at("_locked.scss")),
        other => panic!("expected Unreadable, got {:?}", other),
    }
    // what was added before the failure stays
    assert_eq!(graph.node_count(), 2);
    assert_eq!(graph.edge_count(), 1);
    assert_eq!(
        BuildError::Unreadable("/x".to_string()).to_string(),
        "Failed to parse: /x"
    );
    assert_eq!(
        BuildError::EntryNotFound("/y".to_string()).to_string(),
        "Failed to canonicalize entry path: /y"
    );
}

#[test]
fn first_directive_decides_the_edge() {
    let mut tree = SourceTree::new();
    tree.add_dir(ROOT);
    tree.add_file(
        &at("main.scss"),
        "@use \"theme\" as t with ($x: 1);\n  @forward \"theme\";\n@use \"theme\" as *;\n",
    );
    tree.add_file(&at("_theme.scss"), "");
    let resolver = Resolver::default();
    let mut graph = DependencyGraph::new();
    graph.build_from_entry(&at("main.scss"), &resolver, ROOT, &tree).unwrap();
    assert_eq!(graph.edge_count(), 1);
    let edge = graph.edge(0);
    assert_eq!(edge.directive_type, DirectiveType::Use);
    assert_eq!(edge.location, Location::new(1, 1));
    assert_eq!(edge.meta.namespace, Some("t".to_string()));
    assert!(edge.meta.configured);
}

#[test]
fn star_namespace_and_import_edges() {
    let mut tree = SourceTree::new();
    tree.add_dir(ROOT);
    tree.add_file(
        &at("main.scss"),
        "@use \"a\" as *;\n@import \"b\", \"c\";\n@forward \"d\";\n@use \"e\";",
    );
    for name in ["a", "b", "c", "d", "e"] {
        tree.add_file(&at(&format!("_{}.scss", name)), "");
    }
    let resolver = Resolver::default();
    let mut graph = DependencyGraph::new();
    graph.build_from_entry(&at("main.scss"), &resolver, ROOT, &tree).unwrap();
    let edges = graph.edges();
    assert_eq!(edges.len(), 5);
    assert_eq!(edges[0].2.meta.namespace, Some("*".to_string()));
    assert_eq!(edges[1].2.directive_type, DirectiveType::Import);
    assert_eq!(edges[2].2.directive_type, DirectiveType::Import);
    assert_eq!(edges[2].2.location, Location::new(2, 1));
    assert_eq!(edges[2].1, "_c.scss");
    assert_eq!(edges[3].2.directive_type, DirectiveType::Forward);
    assert_eq!(edges[4].2.meta.namespace, None);
    assert_eq!(edges[4].2.location, Location::new(4, 1));
}

#[test]
fn cycle_outside_the_entry_terminates() {
    let mut tree = SourceTree::new();
    tree.add_dir(ROOT);
    tree.add_file(&at("main.scss"), "@use \"x\";\n");
    tree.add_file(&at("_x.scss"), "@use \"y\";\n");
    tree.add_file(&at("_y.scss"), "@use \"x\";\n@use \"y\";\n");
    let resolver = Resolver::default();
    let mut graph = DependencyGraph::new();
    graph.build_from_entry(&at("main.scss"), &resolver, ROOT, &tree).unwrap();
    assert_eq!(graph.node_count(), 3);
    // main->x, x->y, y->x, y->y
    assert_eq!(graph.edge_count(), 4);
    // a second build of the same entry changes nothing
    graph.build_from_entry(&at("main.scss"), &resolver, ROOT, &tree).unwrap();
    assert_eq!(graph.node_count(), 3);
    assert_eq!(graph.edge_count(), 4);
    assert_eq!(graph.entry_points().len(), 1);
    assert_eq!(graph.get_node("main.scss").unwrap().flags, vec![NodeFlag::EntryPoint]);
}

#[test]
fn orphans_only_under_the_root_and_only_stylesheets() {
    let mut tree = SourceTree::new();
    tree.add_dir(ROOT);
    tree.add_file(&at("main.scss"), "");
    tree.add_file(&at("notes.txt"), "");
    tree.add_file(&at("sub/_part.sass"), "@use \"../main\";");
    tree.add_file("/elsewhere/_x.scss", "");
    let resolver = Resolver::default();
    let mut graph = DependencyGraph::new();
    graph.discover_orphans(ROOT, &resolver, &tree).unwrap();
    let ids: Vec<&str> = graph.nodes().iter().map(|n| n.id.as_str()).collect();
    assert_eq!(ids, vec!["main.scss", "sub/_part.sass"]);
    assert_eq!(graph.edge_count(), 0);
    assert!(graph.nodes().iter().all(|n| n.flags == vec![NodeFlag::Orphan]));
    graph.discover_orphans(ROOT, &resolver, &tree).unwrap();
    assert_eq!(graph.node_count(), 2);
}
