use sass_dep::resolver::{ResolveError, Resolver, ResolverConfig, SourceTree};
use std::path::Path;

const ROOT: &str = "/project";

fn at(rel: &str) -> String {
    format!("{}/{}", ROOT, rel)
}

fn setup_test_files() -> SourceTree {
    let mut tree = SourceTree::new();
    tree.add_dir(ROOT);
    tree.add_file(&at("main.scss"), "");
    tree.add_file(&at("_variables.scss"), "");
    tree.add_file(&at("mixins.scss"), "");

    tree.add_dir(&at("components"));
    tree.add_file(&at("components/_index.scss"), "");
    tree.add_file(&at("components/_button.scss"), "");

    tree.add_dir(&at("utils"));
    tree.add_file(&at("utils/index.scss"), "");
    tree
}

#[test]
fn resolve_simple_file() {
    let tree = setup_test_files();

    let resolver = Resolver::default();
    let result = resolver.resolve(&at("main.scss"), "mixins", &tree);

    assert!(result.is_ok());
    assert!(Path::new(&result.unwrap()).ends_with("mixins.scss"));
}

#[test]
fn resolve_partial_file() {
    let tree = setup_test_files();

    let resolver = Resolver::default();
    let result = resolver.resolve(&at("main.scss"), "variables", &tree);

    assert!(result.is_ok());
    assert!(Path::new(&result.unwrap()).ends_with("_variables.scss"));
}

#[test]
fn path_resolve_directory_with_underscore_index() {
    let tree = setup_test_files();

    let resolver = Resolver::default();
    let result = resolver.resolve(&at("main.scss"), "components", &tree);

    assert!(result.is_ok());
    let resolved = result.unwrap();
    assert!(Path::new(&resolved).ends_with("_index.scss"));
    assert!(resolved.contains("components"));
}

#[test]
fn path_resolve_directory_with_index() {
    let tree = setup_test_files();

    let resolver = Resolver::default();
    let result = resolver.resolve(&at("main.scss"), "utils", &tree);

    assert!(result.is_ok());
    let resolved = result.unwrap();
    assert!(Path::new(&resolved).ends_with("index.scss"));
    assert!(resolved.contains("utils"));
}

#[test]
fn path_resolve_nested_path() {
    let tree = setup_test_files();

    let resolver = Resolver::default();
    let result = resolver.resolve(&at("main.scss"), "components/button", &tree);

    assert!(result.is_ok());
    assert!(Path::new(&result.unwrap()).ends_with("_button.scss"));
}

#[test]
fn path_resolve_not_found() {
    let tree = setup_test_files();

    let resolver = Resolver::default();
    let result = resolver.resolve(&at("main.scss"), "nonexistent", &tree);

    assert!(result.is_err());
    assert!(matches!(result.unwrap_err(), ResolveError::NotFound { .. }));
}

#[test]
fn path_resolve_with_load_path() {
    let mut tree = SourceTree::new();
    tree.add_dir(ROOT);

    // Create files in a vendor directory
    tree.add_dir(&at("vendor"));
    tree.add_file(&at("vendor/_library.scss"), "");

    // Create main file
    tree.add_file(&at("main.scss"), "");

    let config = ResolverConfig {
        load_paths: vec!["vendor".to_string()],
        extensions: vec!["scss".to_string()],
    };
    let resolver = Resolver::new(config);

    let result = resolver.resolve(&at("main.scss"), "library", &tree);

    assert!(result.is_ok());
    assert!(Path::new(&result.unwrap()).ends_with("_library.scss"));
}

#[test]
fn path_resolve_prefers_relative_over_load_path() {
    let mut tree = SourceTree::new();
    tree.add_dir(ROOT);

    // Create files in both relative and vendor
    tree.add_file(&at("_library.scss"), "relative");

    tree.add_dir(&at("vendor"));
    tree.add_file(&at("vendor/_library.scss"), "vendor");

    tree.add_file(&at("main.scss"), "");

    let config = ResolverConfig {
        load_paths: vec!["vendor".to_string()],
        extensions: vec!["scss".to_string()],
    };
    let resolver = Resolver::new(config);

    let result = resolver.resolve(&at("main.scss"), "library", &tree);

    assert!(result.is_ok());
    // Should resolve to the relative path, not vendor
    let resolved = result.unwrap();
    assert!(!resolved.contains("vendor"));
}

#[test]
fn path_resolve_prefers_scss_over_sass() {
    let mut tree = SourceTree::new();
    tree.add_dir(ROOT);
    tree.add_file(&at("styles.scss"), "");
    tree.add_file(&at("styles.sass"), "");
    tree.add_file(&at("main.scss"), "");

    let resolver = Resolver::default();
    let result = resolver.resolve(&at("main.scss"), "styles", &tree);

    assert!(result.is_ok());
    assert!(Path::new(&result.unwrap()).ends_with("styles.scss"));
}

#[test]
fn resolve_from_directory_base() {
    let tree = setup_test_files();

    let resolver = Resolver::default();
    let result = resolver.resolve(ROOT, "variables", &tree);

    assert!(result.is_ok());
}
