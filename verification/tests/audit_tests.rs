use arbor::audit::{is_test_file, run_audit, AuditConfig, AuditError, Severity};
use arbor::graph::{CallGraph, NodeInfo};
use arbor::symbols::NodeKind;

fn node(name: &str, file: &str) -> NodeInfo {
    NodeInfo {
        id: format!("{}:{}", file, name),
        name: name.to_string(),
        file: file.to_string(),
        kind: NodeKind::Function,
        line_start: 1,
        line_end: 2,
    }
}

#[test]
fn test_severity_boundaries() {
    assert_eq!(Severity::from_depth(0), Severity::Critical);
    assert_eq!(Severity::from_depth(1), Severity::Critical);
    assert_eq!(Severity::from_depth(2), Severity::Critical);
    assert_eq!(Severity::from_depth(3), Severity::High);
    assert_eq!(Severity::from_depth(4), Severity::High);
    assert_eq!(Severity::from_depth(5), Severity::Medium);
    assert_eq!(Severity::from_depth(6), Severity::Medium);
    assert_eq!(Severity::from_depth(7), Severity::Low);
    assert_eq!(Severity::from_depth(100), Severity::Low);
}

#[test]
fn test_severity_labels_and_emoji() {
    assert_eq!(Severity::Critical.label(), "CRITICAL");
    assert_eq!(Severity::High.label(), "HIGH");
    assert_eq!(Severity::Medium.label(), "MEDIUM");
    assert_eq!(Severity::Low.label(), "LOW");
    assert_eq!(Severity::Critical.emoji(), "🔴");
    assert_eq!(Severity::High.emoji(), "🟠");
    assert_eq!(Severity::Medium.emoji(), "🟡");
    assert_eq!(Severity::Low.emoji(), "🟢");
}

#[test]
fn test_is_test_file_heuristic() {
    assert!(is_test_file("src/foo_test.rs"));
    assert!(is_test_file("SRC/FOO_TEST.RS"));
    assert!(is_test_file("web/__tests__/app.js"));
    assert!(is_test_file("web/app.spec.ts"));
    assert!(is_test_file("pkg/thing_test.go"));
    assert!(!is_test_file("src/main.rs"));
    assert!(!is_test_file("lib/core.py"));
}

#[test]
fn test_sink_not_found_is_hard_failure() {
    let mut g = CallGraph::new();
    g.add_node(node("main", "src/main.rs"));
    let config = AuditConfig { max_depth: 5, ignore_tests: false };
    match run_audit(&g, "db_query", &config) {
        Err(AuditError::SinkNotFound(n)) => {
            assert_eq!(n, "db_query");
        },
        other => panic!("expected SinkNotFound, got {:?}", other),
    }
}

#[test]
fn test_single_caller_path() {
    let mut g = CallGraph::new();
    let sink = g.add_node(node("exec", "src/db.rs"));
    let caller = g.add_node(node("handler", "src/api.rs"));
    assert!(g.add_edge(caller, sink));

    let config = AuditConfig { max_depth: 10, ignore_tests: false };
    let res = run_audit(&g, "exec", &config).unwrap();

    assert_eq!(res.path_count, 1);
    assert_eq!(res.paths.len(), 1);
    let p = &res.paths[0];
    assert_eq!(p.source.name, "handler");
    assert_eq!(p.trace.len(), 2);
    assert_eq!(p.trace[0].name, "handler");
    assert_eq!(p.trace[1].name, "exec");
    assert_eq!(p.severity, Severity::Critical);
    assert!(p.uncertainty.is_empty());
    assert_eq!(res.summary.critical_count, 1);
    assert_eq!(res.summary.unique_entry_points, 1);
    assert_eq!(res.summary.unique_files, 2);
}

#[test]
fn test_callerless_sink_yields_no_paths() {
    let mut g = CallGraph::new();
    g.add_node(node("exec", "src/db.rs"));

    let config = AuditConfig { max_depth: 10, ignore_tests: false };
    let res = run_audit(&g, "exec", &config).unwrap();

    assert_eq!(res.path_count, 0);
    assert!(res.paths.is_empty());
    assert_eq!(res.summary.critical_count, 0);
    assert_eq!(res.summary.unique_entry_points, 0);
}

#[test]
fn test_ignore_tests_filters_all_paths() {
    let mut g = CallGraph::new();
    let sink = g.add_node(node("exec", "src/db.rs"));
    let t = g.add_node(node("exercise_exec", "tests/db_test.rs"));
    assert!(g.add_edge(t, sink));

    let with_filter = AuditConfig { max_depth: 10, ignore_tests: true };
    let res = run_audit(&g, "exec", &with_filter).unwrap();
    assert_eq!(res.path_count, 0);

    let without_filter = AuditConfig { max_depth: 10, ignore_tests: false };
    let res2 = run_audit(&g, "exec", &without_filter).unwrap();
    assert_eq!(res2.path_count, 1);
}

#[test]
fn test_cycle_terminates_without_repeats() {
    let mut g = CallGraph::new();
    let sink = g.add_node(node("exec", "src/db.rs"));
    let a = g.add_node(node("alpha", "src/a.rs"));
    let b = g.add_node(node("beta", "src/b.rs"));
    let c = g.add_node(node("gamma", "src/c.rs"));
    assert!(g.add_edge(a, sink));
    assert!(g.add_edge(b, a));
    assert!(g.add_edge(a, b));
    assert!(g.add_edge(c, b));

    let config = AuditConfig { max_depth: 50, ignore_tests: false };
    let res = run_audit(&g, "exec", &config).unwrap();

    assert_eq!(res.path_count, 1);
    let p = &res.paths[0];
    assert_eq!(p.source.name, "gamma");
    let names: Vec<&str> = p.trace.iter().map(|n| n.name.as_str()).collect();
    assert_eq!(names, vec!["gamma", "beta", "alpha", "exec"]);
    for i in 0..p.trace.len() {
        for j in 0..p.trace.len() {
            if i != j {
                assert_ne!(p.trace[i].id, p.trace[j].id);
            }
        }
    }
}

#[test]
fn test_depth_monotonicity_of_entry_points() {
    let mut g = CallGraph::new();
    let sink = g.add_node(node("exec", "src/db.rs"));
    let a = g.add_node(node("alpha", "src/a.rs"));
    let b = g.add_node(node("beta", "src/b.rs"));
    let c = g.add_node(node("gamma", "src/c.rs"));
    assert!(g.add_edge(a, sink));
    assert!(g.add_edge(b, sink));
    assert!(g.add_edge(c, b));

    let entries_at = |d: usize| -> Vec<String> {
        let config = AuditConfig { max_depth: d, ignore_tests: false };
        let res = run_audit(&g, "exec", &config).unwrap();
        res.paths.iter().map(|p| p.source.name.clone()).collect()
    };

    let shallow = entries_at(2);
    let deep = entries_at(3);
    assert_eq!(shallow, vec!["alpha".to_string()]);
    for e in &shallow {
        assert!(deep.contains(e));
    }
    assert!(deep.contains(&"gamma".to_string()));
}

#[test]
fn test_sort_order_severity_then_length() {
    let mut g = CallGraph::new();
    let sink = g.add_node(node("exec", "src/db.rs"));

    // Low severity: a chain of 7 nodes.
    let mut prev = sink;
    for i in 0..6 {
        let n = g.add_node(node(&format!("low{}", i), "src/low.rs"));
        assert!(g.add_edge(n, prev));
        prev = n;
    }

    // High severity, length 4.
    let h1 = g.add_node(node("high4_a", "src/h.rs"));
    let h2 = g.add_node(node("high4_b", "src/h.rs"));
    let h3 = g.add_node(node("high4_c", "src/h.rs"));
    assert!(g.add_edge(h1, sink));
    assert!(g.add_edge(h2, h1));
    assert!(g.add_edge(h3, h2));

    // High severity, length 3.
    let m1 = g.add_node(node("high3_a", "src/m.rs"));
    let m2 = g.add_node(node("high3_b", "src/m.rs"));
    assert!(g.add_edge(m1, sink));
    assert!(g.add_edge(m2, m1));

    // Critical: a direct caller.
    let crit = g.add_node(node("direct", "src/api.rs"));
    assert!(g.add_edge(crit, sink));

    let config = AuditConfig { max_depth: 20, ignore_tests: false };
    let res = run_audit(&g, "exec", &config).unwrap();

    assert_eq!(res.path_count, 4);
    let got: Vec<(Severity, usize)> =
        res.paths.iter().map(|p| (p.severity, p.trace.len())).collect();
    assert_eq!(
        got,
        vec![
            (Severity::Critical, 2),
            (Severity::High, 3),
            (Severity::High, 4),
            (Severity::Low, 7),
        ]
    );
    assert_eq!(res.summary.critical_count, 1);
    assert_eq!(res.summary.high_count, 2);
    assert_eq!(res.summary.medium_count, 0);
    assert_eq!(res.summary.low_count, 1);
    assert_eq!(res.summary.unique_entry_points, 4);
    // Files: db.rs, low.rs, h.rs, m.rs, api.rs.
    assert_eq!(res.summary.unique_files, 5);
}

#[test]
fn test_summary_deduplicates_entry_names() {
    let mut g = CallGraph::new();
    let sink = g.add_node(node("exec", "src/db.rs"));
    let a = g.add_node(node("handler", "src/a.rs"));
    let b = g.add_node(node("handler", "src/b.rs"));
    assert!(g.add_edge(a, sink));
    assert!(g.add_edge(b, sink));

    let config = AuditConfig { max_depth: 5, ignore_tests: false };
    let res = run_audit(&g, "exec", &config).unwrap();

    assert_eq!(res.path_count, 2);
    // Same entry-point name in two files counts once.
    assert_eq!(res.summary.unique_entry_points, 1);
    assert_eq!(res.summary.unique_files, 3);
}

#[test]
fn test_name_collision_takes_first_match() {
    let mut g = CallGraph::new();
    let first = g.add_node(node("exec", "src/db.rs"));
    let _second = g.add_node(node("exec", "src/other.rs"));
    let a = g.add_node(node("caller", "src/a.rs"));
    assert!(g.add_edge(a, first));

    let config = AuditConfig { max_depth: 5, ignore_tests: false };
    let res = run_audit(&g, "exec", &config).unwrap();

    assert_eq!(res.sink.file, "src/db.rs");
    assert_eq!(res.path_count, 1);
}

#[test]
fn test_graph_lookup() {
    let mut g = CallGraph::new();
    let a = g.add_node(node("f", "x.rs"));
    let b = g.add_node(node("g", "y.rs"));
    assert_eq!(g.len(), 2);
    assert_eq!(g.get_index("x.rs:f"), Some(a));
    assert_eq!(g.get_index("nope"), None);
    let found = g.find_by_name("g");
    assert_eq!(found.len(), 1);
    assert_eq!(found[0].file, "y.rs");
    assert!(!g.add_edge(5, 0));
    assert!(g.add_edge(b, a));
    assert_eq!(g.callers_of(a), &vec![b]);
}

#[test]
fn test_audit_error_message() {
    let e = AuditError::SinkNotFound("missing".to_string());
    assert_eq!(e.message(), "sink symbol not found in graph: missing");
}

#[test]
fn test_depth_budget_discards_partial_paths() {
    let mut g = CallGraph::new();
    let sink = g.add_node(node("exec", "src/db.rs"));
    let a = g.add_node(node("alpha", "src/a.rs"));
    let b = g.add_node(node("beta", "src/b.rs"));
    assert!(g.add_edge(a, sink));
    assert!(g.add_edge(b, a));

    // The only entry point is beta at trace length 3; with max_depth = 2
    // the truncated path is silently discarded.
    let config = AuditConfig { max_depth: 2, ignore_tests: false };
    let res = run_audit(&g, "exec", &config).unwrap();
    assert_eq!(res.path_count, 0);
}
