use architecture_graph::adjacency::dependency_adjacency;
use architecture_graph::model::CurrentCanonicalEdgeRecord;

#[test]
fn dependency_adjacency_keeps_resolved_edges_only() {
    let edges = vec![
        CurrentCanonicalEdgeRecord {
            repo_id: "repo".to_string(),
            edge_id: "edge-1".to_string(),
            path: "src/lib.rs".to_string(),
            content_id: "content".to_string(),
            from_symbol_id: "a".to_string(),
            from_artefact_id: "a-art".to_string(),
            to_symbol_id: Some("b".to_string()),
            to_artefact_id: Some("b-art".to_string()),
            to_symbol_ref: None,
            edge_kind: "call".to_string(),
            language: "rust".to_string(),
            start_line: None,
            end_line: None,
            metadata: "{}".to_string(),
        },
        CurrentCanonicalEdgeRecord {
            repo_id: "repo".to_string(),
            edge_id: "edge-2".to_string(),
            path: "src/lib.rs".to_string(),
            content_id: "content".to_string(),
            from_symbol_id: "b".to_string(),
            from_artefact_id: "b-art".to_string(),
            to_symbol_id: None,
            to_artefact_id: None,
            to_symbol_ref: Some("external".to_string()),
            edge_kind: "call".to_string(),
            language: "rust".to_string(),
            start_line: None,
            end_line: None,
            metadata: "{}".to_string(),
        },
    ];

    let adjacency = dependency_adjacency(&edges);

    assert_eq!(
        adjacency
            .get("a-art")
            .and_then(|targets| targets.first().cloned()),
        Some("b-art".to_string())
    );
    assert!(!adjacency.contains_key("b-art"));
}
