use sass_dep::resolver::lexical::{
    absolute, join_paths, get_file_id, normalize, parent, split, stylesheet, under,
};
use sass_dep::resolver::{ResolveError, Resolver, ResolverConfig, SourceTree};
use std::path::Path;

const ROOT: &str = "/work/site";

fn at(rel: &str) -> String {
    format!("{}/{}", ROOT, rel)
}

fn create_test_structure() -> SourceTree {
    let mut tree = SourceTree::new();
    tree.add_dir(ROOT);
    // Simple files
    tree.add_file(&at("main.scss"), "");
    tree.add_file(&at("_variables.scss"), "");
    tree.add_file(&at("mixins.scss"), "");

    // Nested structure
    tree.add_dir(&at("components"));
    tree.add_file(&at("components/_index.scss"), "");
    tree.add_file(&at("components/_button.scss"), "");
    tree.add_file(&at("components/_card.scss"), "");

    // Index without underscore
    tree.add_dir(&at("utils"));
    tree.add_file(&at("utils/index.scss"), "");

    // Sass extension
    tree.add_file(&at("indented.sass"), "");

    // Vendor directory for load paths
    tree.add_dir(&at("vendor"));
    tree.add_dir(&at("vendor/library"));
    tree.add_file(&at("vendor/library/_core.scss"), "");
    tree
}

#[test]
fn resolve_simple_file_without_underscore() {
    let tree = create_test_structure();

    let resolver = Resolver::default();
    let result = resolver.resolve(&at("main.scss"), "mixins", &tree);

    assert!(result.is_ok());
    let resolved = result.unwrap();
    assert!(Path::new(&resolved).ends_with("mixins.scss"));
}

#[test]
fn resolve_partial_with_underscore() {
    let tree = create_test_structure();

    let resolver = Resolver::default();
    let result = resolver.resolve(&at("main.scss"), "variables", &tree);

    assert!(result.is_ok());
    let resolved = result.unwrap();
    assert!(Path::new(&resolved).ends_with("_variables.scss"));
}

#[test]
fn resolver_tests_resolve_directory_with_underscore_index() {
    let tree = create_test_structure();

    let resolver = Resolver::default();
    let result = resolver.resolve(&at("main.scss"), "components", &tree);

    assert!(result.is_ok());
    let resolved = result.unwrap();
    assert!(Path::new(&resolved).ends_with("_index.scss"));
    assert!(resolved.contains("components"));
}

#[test]
fn resolver_tests_resolve_directory_with_index() {
    let tree = create_test_structure();

    let resolver = Resolver::default();
    let result = resolver.resolve(&at("main.scss"), "utils", &tree);

    assert!(result.is_ok());
    let resolved = result.unwrap();
    assert!(Path::new(&resolved).ends_with("index.scss"));
    assert!(resolved.contains("utils"));
}

#[test]
fn resolver_tests_resolve_nested_path() {
    let tree = create_test_structure();

    let resolver = Resolver::default();
    let result = resolver.resolve(&at("main.scss"), "components/button", &tree);

    assert!(result.is_ok());
    let resolved = result.unwrap();
    assert!(Path::new(&resolved).ends_with("_button.scss"));
}

#[test]
fn resolve_with_sass_extension() {
    let tree = create_test_structure();

    let resolver = Resolver::default();
    let result = resolver.resolve(&at("main.scss"), "indented", &tree);

    assert!(result.is_ok());
    let resolved = result.unwrap();
    assert!(Path::new(&resolved).ends_with("indented.sass"));
}

#[test]
fn resolver_tests_resolve_not_found() {
    let tree = create_test_structure();

    let resolver = Resolver::default();
    let result = resolver.resolve(&at("main.scss"), "nonexistent", &tree);

    assert!(result.is_err());
    match result.unwrap_err() {
        ResolveError::NotFound { target, .. } => {
            assert_eq!(target, "nonexistent");
        }
        _ => panic!("Expected NotFound error"),
    }
}

#[test]
fn resolver_tests_resolve_with_load_path() {
    let tree = create_test_structure();

    let config = ResolverConfig {
        load_paths: vec!["vendor/library".to_string()],
        extensions: vec!["scss".to_string(), "sass".to_string()],
    };
    let resolver = Resolver::new(config);

    let result = resolver.resolve(&at("main.scss"), "core", &tree);

    assert!(result.is_ok());
    let resolved = result.unwrap();
    assert!(resolved.contains("vendor"));
    assert!(Path::new(&resolved).ends_with("_core.scss"));
}

#[test]
fn resolver_tests_resolve_prefers_relative_over_load_path() {
    let mut tree = SourceTree::new();
    tree.add_dir(ROOT);

    // Create both relative and vendor versions
    tree.add_file(&at("_shared.scss"), "// relative");
    tree.add_dir(&at("vendor"));
    tree.add_file(&at("vendor/_shared.scss"), "// vendor");
    tree.add_file(&at("main.scss"), "");

    let config = ResolverConfig {
        load_paths: vec!["vendor".to_string()],
        extensions: vec!["scss".to_string()],
    };
    let resolver = Resolver::new(config);

    let result = resolver.resolve(&at("main.scss"), "shared", &tree);

    assert!(result.is_ok());
    let resolved = result.unwrap();
    // Should resolve to relative, not vendor
    assert!(!resolved.contains("vendor"));
}

#[test]
fn resolver_tests_resolve_prefers_scss_over_sass() {
    let mut tree = SourceTree::new();
    tree.add_dir(ROOT);
    tree.add_file(&at("styles.scss"), "");
    tree.add_file(&at("styles.sass"), "");
    tree.add_file(&at("main.scss"), "");

    let resolver = Resolver::default();
    let result = resolver.resolve(&at("main.scss"), "styles", &tree);

    assert!(result.is_ok());
    let resolved = result.unwrap();
    assert!(Path::new(&resolved).ends_with("styles.scss"));
}

#[test]
fn resolve_prefers_non_partial_over_partial() {
    let mut tree = SourceTree::new();
    tree.add_dir(ROOT);
    tree.add_file(&at("styles.scss"), "");
    tree.add_file(&at("_styles.scss"), "");
    tree.add_file(&at("main.scss"), "");

    let resolver = Resolver::default();
    let result = resolver.resolve(&at("main.scss"), "styles", &tree);

    assert!(result.is_ok());
    let resolved = result.unwrap();
    // Should prefer non-partial
    assert!(Path::new(&resolved).ends_with("styles.scss"));
    assert!(!resolved.contains("_styles"));
}

#[test]
fn resolve_from_directory() {
    let tree = create_test_structure();

    let resolver = Resolver::default();
    // Pass directory instead of file
    let result = resolver.resolve(ROOT, "variables", &tree);

    assert!(result.is_ok());
}

#[test]
fn resolve_relative_path_from_nested() {
    let tree = create_test_structure();

    let resolver = Resolver::default();
    // Resolve from nested file going up
    let result = resolver.resolve(&at("components/_button.scss"), "../variables", &tree);

    assert!(result.is_ok());
    let resolved = result.unwrap();
    assert!(Path::new(&resolved).ends_with("_variables.scss"));
}

#[test]
fn resolver_config_accessors() {
    let config = ResolverConfig {
        load_paths: vec!["vendor".to_string(), "node_modules".to_string()],
        extensions: vec!["scss".to_string()],
    };
    let resolver = Resolver::new(config);

    assert_eq!(resolver.load_paths().len(), 2);
    assert_eq!(resolver.extensions(), &["scss"]);
}

#[test]
fn resolved_paths_are_exact() {
    let tree = create_test_structure();
    let resolver = Resolver::default();
    assert_eq!(
        resolver.resolve(&at("main.scss"), "mixins", &tree).unwrap(),
        at("mixins.scss")
    );
    assert_eq!(
        resolver.resolve(&at("components/_button.scss"), "../variables", &tree).unwrap(),
        at("_variables.scss")
    );
    assert_eq!(
        resolver.resolve(&at("main.scss"), "components", &tree).unwrap(),
        at("components/_index.scss")
    );
    assert_eq!(
        resolver.resolve(&at("main.scss"), "./components/card", &tree).unwrap(),
        at("components/_card.scss")
    );
}

#[test]
fn invalid_base_path_is_reported() {
    let tree = create_test_structure();
    let resolver = Resolver::default();
    match resolver.resolve(&at("missing.scss"), "mixins", &tree) {
        Err(ResolveError::InvalidBasePath(base)) => assert_eq!(base, at("missing.scss")),
        other => panic!("expected InvalidBasePath, got {:?}", other),
    }
}

#[test]
fn not_found_names_the_base_directory() {
    let tree = create_test_structure();
    let resolver = Resolver::default();
    match resolver.resolve(&at("components/_card.scss"), "nope", &tree) {
        Err(ResolveError::NotFound { base, target }) => {
            assert_eq!(base, at("components"));
            assert_eq!(target, "nope");
        }
        other => panic!("expected NotFound, got {:?}", other),
    }
}

#[test]
fn resolve_error_messages() {
    let e = ResolveError::NotFound { base: "/a".to_string(), target: "x".to_string() };
    assert_eq!(e.to_string(), "Could not resolve 'x' from '/a'");
    let e = ResolveError::InvalidBasePath("/nowhere".to_string());
    assert_eq!(e.to_string(), "Invalid base path: /nowhere");
    let e = ResolveError::Io("broken".to_string());
    assert_eq!(e.to_string(), "IO error: broken");
}

#[test]
fn earlier_extension_beats_plain_form_of_later_extension() {
    let mut tree = SourceTree::new();
    tree.add_dir(ROOT);
    tree.add_file(&at("main.scss"), "");
    tree.add_file(&at("_theme.scss"), "");
    tree.add_file(&at("theme.sass"), "");
    let resolver = Resolver::default();
    assert_eq!(
        resolver.resolve(&at("main.scss"), "theme", &tree).unwrap(),
        at("_theme.scss")
    );
    let sass_first = Resolver::new(ResolverConfig {
        load_paths: vec![],
        extensions: vec!["sass".to_string(), "scss".to_string()],
    });
    assert_eq!(
        sass_first.resolve(&at("main.scss"), "theme", &tree).unwrap(),
        at("theme.sass")
    );
}

#[test]
fn file_wins_over_directory_index_and_index_order() {
    let mut tree = SourceTree::new();
    tree.add_dir(ROOT);
    tree.add_file(&at("main.scss"), "");
    tree.add_dir(&at("grid"));
    tree.add_file(&at("grid/_index.scss"), "");
    tree.add_file(&at("grid/index.sass"), "");
    let resolver = Resolver::default();
    assert_eq!(
        resolver.resolve(&at("main.scss"), "grid", &tree).unwrap(),
        at("grid/_index.scss")
    );
    tree.add_file(&at("_grid.sass"), "");
    assert_eq!(
        resolver.resolve(&at("main.scss"), "grid", &tree).unwrap(),
        at("_grid.sass")
    );
    assert_eq!(
        resolver.try_resolve_in_dir(&at("grid"), "index", &tree),
        Some(at("grid/_index.scss"))
    );
    assert_eq!(resolver.try_resolve_in_dir(&at("grid"), "none", &tree), None);
}

#[test]
fn load_paths_in_configured_order_and_absolute() {
    let mut tree = SourceTree::new();
    tree.add_dir(ROOT);
    tree.add_file(&at("main.scss"), "");
    tree.add_dir(&at("one"));
    tree.add_dir("/opt/lib");
    tree.add_file(&at("one/_kit.scss"), "");
    tree.add_file("/opt/lib/_kit.scss", "");
    tree.add_file("/opt/lib/_only.scss", "");
    let resolver = Resolver::new(ResolverConfig {
        load_paths: vec!["/opt/lib".to_string(), "one".to_string()],
        extensions: vec!["scss".to_string()],
    });
    assert_eq!(resolver.resolve(&at("main.scss"), "kit", &tree).unwrap(), "/opt/lib/_kit.scss");
    assert_eq!(resolver.resolve(&at("main.scss"), "only", &tree).unwrap(), "/opt/lib/_only.scss");
    let other = Resolver::new(ResolverConfig {
        load_paths: vec!["one".to_string(), "/opt/lib".to_string()],
        extensions: vec!["scss".to_string()],
    });
    assert_eq!(other.resolve(&at("main.scss"), "kit", &tree).unwrap(), at("one/_kit.scss"));
}

#[test]
fn default_resolver_settings() {
    let resolver = Resolver::default();
    assert!(resolver.load_paths().is_empty());
    assert_eq!(resolver.extensions(), &["scss", "sass"]);
    let config = ResolverConfig::default();
    assert!(config.load_paths.is_empty());
    assert_eq!(config.extensions, vec!["scss".to_string(), "sass".to_string()]);
}

#[test]
fn lexical_path_functions() {
    assert_eq!(normalize("/a/b/../c/./d//e"), "/a/c/d/e");
    assert_eq!(normalize("/../a"), "/a");
    assert_eq!(normalize("../a/b/.."), "../a");
    assert_eq!(normalize("a/../.."), "..");
    assert_eq!(normalize("/"), "/");
    assert_eq!(normalize(""), "");
    assert_eq!(normalize("a/"), "a");
    assert_eq!(parent("/a/b.scss"), "/a");
    assert_eq!(parent("/b.scss"), "/");
    assert_eq!(parent("b.scss"), "");
    assert_eq!(split("x/y/z"), ("x/y".to_string(), "z".to_string()));
    assert_eq!(split("z"), ("".to_string(), "z".to_string()));
    assert_eq!(join_paths("/a", "b"), "/a/b");
    assert_eq!(join_paths("/a/", "b"), "/a/b");
    assert_eq!(join_paths("/a", "/b"), "/b");
    assert_eq!(join_paths("", "b"), "b");
    assert!(absolute("/x"));
    assert!(!absolute("x"));
    assert!(!absolute(""));
}

#[test]
fn file_ids_are_relative_with_forward_slashes() {
    assert_eq!(get_file_id("/p/src/main.scss", "/p"), "src/main.scss");
    assert_eq!(get_file_id("/p/src/main.scss", "/p/"), "src/main.scss");
    assert_eq!(get_file_id("/px/main.scss", "/p"), "/px/main.scss");
    assert_eq!(get_file_id("/p", "/p"), "");
    assert_eq!(get_file_id("/p/a\\b.scss", "/p"), "a/b.scss");
    assert_eq!(get_file_id("/q/a.scss", ""), "/q/a.scss");
    assert!(under("/p/a.scss", "/p"));
    assert!(under("/p", "/p/"));
    assert!(!under("/pa.scss", "/p"));
    assert!(!under("/p/a.scss", ""));
}

#[test]
fn stylesheet_extensions() {
    assert!(stylesheet("/p/a.scss"));
    assert!(stylesheet("b.sass"));
    assert!(!stylesheet("/p/.scss"));
    assert!(!stylesheet("/p/a.css"));
    assert!(!stylesheet("/p/a.scss/b"));
    assert!(!stylesheet("scss"));
    assert!(stylesheet("/p/a.b.scss"));
}

#[test]
fn source_tree_lookup() {
    let mut tree = SourceTree::new();
    assert!(!tree.is_file("/a.scss"));
    tree.add_file("/a.scss", "one");
    tree.add_unreadable_file("/b.scss");
    tree.add_dir("/d");
    assert!(tree.is_file("/a.scss"));
    assert!(tree.is_file("/b.scss"));
    assert!(!tree.is_file("/d"));
    assert!(tree.is_dir("/d"));
    assert!(!tree.is_dir("/a.scss"));
    assert_eq!(tree.read("/a.scss"), Some(&"one".to_string()));
    assert_eq!(tree.read("/b.scss"), None);
    assert_eq!(tree.read("/c.scss"), None);
    tree.add_file("/a.scss", "two");
    assert_eq!(tree.read("/a.scss"), Some(&"two".to_string()));
    assert_eq!(tree.files.len(), 2);
    assert_eq!(tree.find_file("/b.scss"), Some(1));
}
