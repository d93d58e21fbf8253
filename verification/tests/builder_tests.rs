use sass_dep::graph::{DependencyGraph, NodeFlag};
use sass_dep::resolver::{Resolver, SourceTree};

const ROOT: &str = "/srv/styles";

fn at(rel: &str) -> String {
    format!("{}/{}", ROOT, rel)
}

fn setup_simple_project() -> SourceTree {
    let mut tree = SourceTree::new();
    tree.add_dir(ROOT);
    tree.add_file(
        &at("main.scss"),
        r#"@use "variables" as vars;
@use "mixins";
"#,
    );

    tree.add_file(&at("_variables.scss"), "$primary: blue;\n");

    tree.add_file(
        &at("_mixins.scss"),
        r#"@use "variables" as vars;
@mixin test { color: vars.$primary; }
"#,
    );
    tree
}

#[test]
fn builder_build_simple_graph() {
    let tree = setup_simple_project();

    let resolver = Resolver::default();
    let mut graph = DependencyGraph::new();

    graph
        .build_from_entry(&at("main.scss"), &resolver, ROOT, &tree)
        .unwrap();

    assert_eq!(graph.node_count(), 3);
    // main -> variables, main -> mixins, mixins -> variables
    assert_eq!(graph.edge_count(), 3);
}

#[test]
fn builder_entry_point_flagged() {
    let tree = setup_simple_project();

    let resolver = Resolver::default();
    let mut graph = DependencyGraph::new();

    graph
        .build_from_entry(&at("main.scss"), &resolver, ROOT, &tree)
        .unwrap();

    let main_node = graph.get_node("main.scss").unwrap();
    assert!(main_node.has_flag(&NodeFlag::EntryPoint));

    let vars_node = graph.get_node("_variables.scss").unwrap();
    assert!(!vars_node.has_flag(&NodeFlag::EntryPoint));
}

#[test]
fn relative_ids() {
    let mut tree = SourceTree::new();
    tree.add_dir(ROOT);
    tree.add_dir(&at("src"));
    tree.add_dir(&at("src/components"));
    tree.add_file(&at("src/main.scss"), r#"@use "components/button";"#);
    tree.add_file(&at("src/components/_button.scss"), "");

    let resolver = Resolver::default();
    let mut graph = DependencyGraph::new();

    graph
        .build_from_entry(&at("src/main.scss"), &resolver, ROOT, &tree)
        .unwrap();

    assert!(graph.get_node("src/main.scss").is_some());
    assert!(graph.get_node("src/components/_button.scss").is_some());
}
