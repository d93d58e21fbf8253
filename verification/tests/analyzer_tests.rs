use sass_dep::analyzer::cycles::cycles_from_components;
use sass_dep::analyzer::{detect_cycles, Analyzer, AnalyzerConfig, FlagThresholds};
use sass_dep::graph::DependencyGraph;

#[test]
fn detect_no_cycles_empty_graph() {
    let graph = DependencyGraph::new();
    let cycles = detect_cycles(&graph);
    assert!(cycles.is_empty());
}

#[test]
fn default_thresholds() {
    let thresholds = FlagThresholds::default();
    assert_eq!(thresholds.high_fan_in, 5);
    assert_eq!(thresholds.high_fan_out, 10);
}

#[test]
fn custom_thresholds() {
    let thresholds = FlagThresholds {
        high_fan_in: 3,
        high_fan_out: 5,
    };
    assert_eq!(thresholds.high_fan_in, 3);
    assert_eq!(thresholds.high_fan_out, 5);
}

#[test]
fn fan_in_out_calculation() {
    let graph = DependencyGraph::new();
    assert_eq!(graph.node_count(), 0);
}

#[test]
fn analyzer_default_config() {
    let analyzer = Analyzer::default();
    assert_eq!(analyzer.config().thresholds.high_fan_in, 5);
    assert_eq!(analyzer.config().thresholds.high_fan_out, 10);
}

#[test]
fn analyzer_keeps_its_config() {
    let analyzer = Analyzer::new(AnalyzerConfig {
        thresholds: FlagThresholds { high_fan_in: 2, high_fan_out: 3 },
    });
    assert_eq!(analyzer.config().thresholds.high_fan_in, 2);
    assert_eq!(analyzer.config().thresholds.high_fan_out, 3);
    assert_eq!(AnalyzerConfig::default().thresholds.high_fan_in, 5);
}

#[test]
fn analyze_empty_graph() {
    let mut graph = DependencyGraph::new();
    Analyzer::default().analyze(&mut graph);
    assert_eq!(graph.node_count(), 0);
    assert!(graph.get_cycles().is_empty());
}

#[test]
fn components_of_one_node_are_no_cycles() {
    let graph = DependencyGraph::new();
    let cycles = cycles_from_components(&graph, &vec![vec![], vec![]]);
    assert!(cycles.is_empty());
}
