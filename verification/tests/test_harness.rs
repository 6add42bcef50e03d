use architecture_graph::assoc::StrMap;
use architecture_graph::test_harness::{test_harness_plan, TestArtefactRow, TestEdgeRow};

fn text(s: &str) -> Option<String> {
    Some(s.to_string())
}

fn test_row(artefact_id: Option<String>, symbol_id: Option<String>, path: Option<String>, name: Option<String>) -> TestArtefactRow {
    TestArtefactRow { artefact_id, symbol_id, path, name }
}

fn edge_row(
    from_artefact_id: Option<String>,
    from_symbol_id: Option<String>,
    to_artefact_id: Option<String>,
    to_symbol_id: Option<String>,
) -> TestEdgeRow {
    TestEdgeRow { from_artefact_id, from_symbol_id, to_artefact_id, to_symbol_id }
}

#[test]
fn test_harness_plan_adds_test_nodes_and_links_known_ends() {
    let rows = vec![
        test_row(text(" t1 "), text("s1"), text("tests/a.rs"), text("test_a")),
        test_row(text("  "), text("s2"), text("tests/b.rs"), text("test_b")),
        test_row(text("t3"), text("s1"), None, None),
        test_row(text("t4"), None, text("tests/d.rs"), text("test_d")),
    ];
    let edges = vec![
        edge_row(text("t1"), None, text("p1"), None),
        edge_row(text("unknown"), text("s1"), None, text("sym-x")),
        edge_row(text("t1"), None, text("missing"), None),
        edge_row(None, text("s9"), text("p1"), None),
        edge_row(text("t3"), None, text("missing"), text("sym-x")),
    ];
    let mut artefact_nodes = StrMap::new();
    artefact_nodes.set("p1", "node-p1".to_string());
    let mut symbol_nodes = StrMap::new();
    symbol_nodes.set("sym-x", "node-x".to_string());

    let (nodes, links) = test_harness_plan(&rows, &edges, &artefact_nodes, &symbol_nodes);

    assert_eq!(nodes.len(), 2);
    assert_eq!(nodes[0].row, 0);
    assert_eq!(nodes[0].artefact_id, "t1");
    assert_eq!(nodes[0].symbol_id, "s1");
    assert_eq!(nodes[0].path.as_deref(), Some("tests/a.rs"));
    assert_eq!(nodes[0].label, "test_a");
    assert_eq!(nodes[1].row, 2);
    assert_eq!(nodes[1].label, "t3");
    assert_eq!(nodes[1].path, None);

    let found: Vec<(usize, String, String)> = links
        .iter()
        .map(|l| (l.row, l.production_node_id.clone(), l.test_artefact_id.clone()))
        .collect();
    assert_eq!(
        found,
        vec![
            (0, "node-p1".to_string(), "t1".to_string()),
            (1, "node-x".to_string(), "t3".to_string()),
            (4, "node-x".to_string(), "t3".to_string()),
        ]
    );
}

#[test]
fn test_harness_plan_without_rows_adds_nothing() {
    let (nodes, links) = test_harness_plan(&[], &[edge_row(text("t1"), None, text("p1"), None)], &StrMap::new(), &StrMap::new());
    assert!(nodes.is_empty());
    assert!(links.is_empty());
}
