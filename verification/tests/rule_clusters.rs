use architecture_graph::contracts::AdjudicationReason;
use architecture_graph::model::{ArchitectureArtefactFact, RoleTarget};
use architecture_graph::rule_clusters::build_rule_mining_clusters;
use architecture_graph::rule_mining::RoleRuleMiningClusterInput;

fn fact(target: &RoleTarget, kind: &str, key: &str, value: &str) -> ArchitectureArtefactFact {
    ArchitectureArtefactFact {
        repo_id: "repo-1".to_string(),
        fact_id: format!("{kind}:{key}:{value}"),
        target: target.clone(),
        language: Some("rust".to_string()),
        fact_kind: kind.to_string(),
        fact_key: key.to_string(),
        fact_value: value.to_string(),
        source: "test".to_string(),
        confidence_permille: 1000,
        generation_seq: 1,
    }
}

fn input(path: &str, suffix: &str) -> RoleRuleMiningClusterInput {
    let target = RoleTarget::artefact(format!("artefact-{path}"), format!("symbol-{path}"), path.to_string());
    RoleRuleMiningClusterInput {
        reason: AdjudicationReason::Unknown,
        facts: vec![fact(&target, "language", "resolved", "rust"), fact(&target, "symbol", "name_suffix", suffix)],
        target,
        candidate_role_ids: Vec::new(),
        deterministic_confidence_permille: None,
        high_impact: false,
    }
}

#[test]
fn unknown_targets_cluster_by_path_kind_language_and_symbol_suffix() {
    let clusters = build_rule_mining_clusters(
        "repo-1",
        vec![input("src/cli/run_command.rs", "Command"), input("src/cli/init_command.rs", "Command")],
        3,
    );

    assert_eq!(clusters.len(), 1);
    assert_eq!(clusters[0].reason_family, "unknown");
    assert_eq!(clusters[0].stable_path_prefix.as_deref(), Some("src/cli"));
    assert_eq!(clusters[0].language.as_deref(), Some("rust"));
    assert_eq!(clusters[0].symbol_suffix.as_deref(), Some("Command"));
    assert_eq!(clusters[0].member_count, 2);
}

#[test]
fn cluster_representatives_are_bounded_and_stable() {
    let clusters = build_rule_mining_clusters(
        "repo-1",
        vec![input("src/cli/z_command.rs", "Command"), input("src/cli/a_command.rs", "Command")],
        1,
    );

    assert_eq!(clusters[0].representative_target_ids.len(), 1);
    assert!(clusters[0].representative_target_ids[0].contains("a_command"));
}

#[test]
fn clusters_come_in_signature_order_with_their_own_keys() {
    let clusters = build_rule_mining_clusters(
        "repo-1",
        vec![
            input("src/web/handler.rs", "Handler"),
            input("src/cli/run_command.rs", "Command"),
            input("src/web/other.rs", "Handler"),
        ],
        5,
    );

    assert_eq!(clusters.len(), 2);
    assert_eq!(clusters[0].stable_path_prefix.as_deref(), Some("src/cli"));
    assert_eq!(clusters[1].stable_path_prefix.as_deref(), Some("src/web"));
    assert_eq!(clusters[1].member_count, 2);
    assert_eq!(
        clusters[1].representative_target_ids,
        vec!["symbol-src/web/handler.rs".to_string(), "symbol-src/web/other.rs".to_string()]
    );
    assert!(clusters[0].cluster_key.starts_with("role-rule-cluster:"));
    assert_ne!(clusters[0].cluster_key, clusters[1].cluster_key);
    let again = build_rule_mining_clusters("repo-1", vec![input("src/cli/run_command.rs", "Command")], 5);
    assert_eq!(again[0].cluster_key, clusters[0].cluster_key);
}
