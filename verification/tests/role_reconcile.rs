use architecture_graph::aggregation::{ArchitectureRoleAssignment, AssignmentPriority, AssignmentSource, AssignmentStatus};
use architecture_graph::assignment_merge::{assignment_meaningfully_changed, authoritative_current_assignment, merge_assignments};
use architecture_graph::contracts::AdjudicationReason;
use architecture_graph::json_doc::JsonValue;
use architecture_graph::model::{ArchitectureArtefactFact, RoleTarget, TargetKind};
use architecture_graph::order::StrSet;
use architecture_graph::role_reconcile::{adjudicated_targets, decide_role_classification};
use architecture_graph::rule_preview::RoleRuleLifecycle;
use architecture_graph::rules::{
    ArchitectureRoleDetectionRule, CompiledArchitectureRoleRule, RoleCandidateSelector, RoleFactCondition, RoleFactConditionOp,
    RoleSignalPolarity,
};

fn assignment(
    id: &str,
    role_id: &str,
    path: &str,
    status: AssignmentStatus,
    source: AssignmentSource,
    confidence_permille: u32,
    generation_seq: u64,
) -> ArchitectureRoleAssignment {
    ArchitectureRoleAssignment {
        repo_id: "repo-1".to_string(),
        assignment_id: id.to_string(),
        role_id: role_id.to_string(),
        target: RoleTarget::file(path.to_string()),
        priority: AssignmentPriority::Primary,
        status,
        source,
        confidence_permille,
        evidence: JsonValue::Array(vec![]),
        provenance: JsonValue::Null,
        classifier_version: "v1".to_string(),
        rule_version: Some(1),
        generation_seq,
    }
}

fn fact(id: &str, path: &str, kind: &str, key: &str, value: &str) -> ArchitectureArtefactFact {
    ArchitectureArtefactFact {
        repo_id: "repo-1".to_string(),
        fact_id: id.to_string(),
        target: RoleTarget::file(path.to_string()),
        language: Some("rust".to_string()),
        fact_kind: kind.to_string(),
        fact_key: key.to_string(),
        fact_value: value.to_string(),
        source: "test".to_string(),
        confidence_permille: 1000,
        generation_seq: 3,
    }
}

fn cli_rule() -> CompiledArchitectureRoleRule {
    CompiledArchitectureRoleRule {
        rule: ArchitectureRoleDetectionRule {
            repo_id: "repo-1".to_string(),
            rule_id: "rule-cli".to_string(),
            role_id: "role-cli".to_string(),
            version: 1,
            lifecycle: RoleRuleLifecycle::Active,
            priority: 10,
            score_permille: 1000,
            min_positive_ratio_permille: 1000,
            candidate_selector: JsonValue::Null,
            positive_conditions: JsonValue::Null,
            negative_conditions: JsonValue::Null,
            provenance: JsonValue::Null,
        },
        selector: RoleCandidateSelector {
            target_kinds: vec![TargetKind::File],
            path_prefixes: vec![],
            path_suffixes: vec![],
            required_facts: vec![],
            required_fact_any_groups: vec![],
        },
        positive_conditions: vec![RoleFactCondition {
            kind: "path".to_string(),
            key: "segment".to_string(),
            op: RoleFactConditionOp::Eq,
            value: "cli".to_string(),
            score_permille: 700,
        }],
        negative_conditions: vec![],
    }
}

#[test]
fn adjudicated_assignment_is_authoritative_only_while_active() {
    let llm = assignment("a-1", "role-1", "src/a.rs", AssignmentStatus::Active, AssignmentSource::Llm, 900, 1);
    let rule = assignment("a-2", "role-1", "src/a.rs", AssignmentStatus::Active, AssignmentSource::Rule, 900, 1);
    let stale = assignment("a-3", "role-1", "src/a.rs", AssignmentStatus::Stale, AssignmentSource::Llm, 900, 1);
    assert!(authoritative_current_assignment(&llm));
    assert!(!authoritative_current_assignment(&rule));
    assert!(!authoritative_current_assignment(&stale));
}

#[test]
fn confidence_change_counts_from_fifty_thousandths() {
    let before = assignment("a-1", "role-1", "src/a.rs", AssignmentStatus::Active, AssignmentSource::Rule, 800, 1);
    let small = assignment("a-1", "role-1", "src/a.rs", AssignmentStatus::Active, AssignmentSource::Rule, 849, 2);
    let large = assignment("a-1", "role-1", "src/a.rs", AssignmentStatus::Active, AssignmentSource::Rule, 850, 2);
    let other_role = assignment("a-1", "role-2", "src/a.rs", AssignmentStatus::Active, AssignmentSource::Rule, 800, 2);
    assert!(!assignment_meaningfully_changed(&before, &small));
    assert!(assignment_meaningfully_changed(&before, &large));
    assert!(assignment_meaningfully_changed(&before, &other_role));
}

#[test]
fn merge_keeps_adjudicated_assignment_over_new_rule_assignment() {
    let previous = vec![assignment("a-1", "role-llm", "src/a.rs", AssignmentStatus::Active, AssignmentSource::Llm, 950, 1)];
    let next = vec![assignment("a-1", "role-rule", "src/a.rs", AssignmentStatus::Active, AssignmentSource::Rule, 900, 2)];

    let merged = merge_assignments(&next, &previous, 2);

    assert_eq!(merged.current.len(), 1);
    assert_eq!(merged.current[0].role_id, "role-llm");
    assert_eq!(merged.current[0].source, AssignmentSource::Llm);
    assert!(merged.history.is_empty());
}

#[test]
fn merge_records_new_and_changed_assignments_and_stales_missing_rule_assignments() {
    let previous = vec![
        assignment("a-1", "role-1", "src/a.rs", AssignmentStatus::Active, AssignmentSource::Rule, 800, 1),
        assignment("a-2", "role-1", "src/b.rs", AssignmentStatus::Active, AssignmentSource::Rule, 800, 1),
        assignment("a-3", "role-1", "src/c.rs", AssignmentStatus::Active, AssignmentSource::Rule, 900, 1),
        assignment("a-4", "role-1", "src/d.rs", AssignmentStatus::NeedsReview, AssignmentSource::Rule, 600, 1),
        assignment("a-4", "role-1", "src/d.rs", AssignmentStatus::NeedsReview, AssignmentSource::Rule, 600, 1),
    ];
    let next = vec![
        assignment("a-1", "role-1", "src/a.rs", AssignmentStatus::Active, AssignmentSource::Rule, 810, 5),
        assignment("a-2", "role-1", "src/b.rs", AssignmentStatus::NeedsReview, AssignmentSource::Rule, 700, 5),
        assignment("a-9", "role-2", "src/e.rs", AssignmentStatus::Active, AssignmentSource::Rule, 900, 5),
    ];

    let merged = merge_assignments(&next, &previous, 5);

    let ids: Vec<&str> = merged.current.iter().map(|a| a.assignment_id.as_str()).collect();
    assert_eq!(ids, vec!["a-1", "a-2", "a-9", "a-3", "a-4"]);
    assert_eq!(merged.current[3].status, AssignmentStatus::Stale);
    assert_eq!(merged.current[3].generation_seq, 5);
    assert_eq!(merged.current[3].confidence_permille, 900);
    assert_eq!(merged.current[4].status, AssignmentStatus::NeedsReview);
    assert_eq!(merged.current[4].generation_seq, 1);

    let history: Vec<(Option<&str>, &str)> = merged
        .history
        .iter()
        .map(|h| (h.previous.as_ref().map(|p| p.assignment_id.as_str()), h.next.assignment_id.as_str()))
        .collect();
    assert_eq!(history, vec![(Some("a-2"), "a-2"), (None, "a-9"), (Some("a-3"), "a-3")]);
    assert!(merged.history.iter().all(|h| h.change_kind == "deterministic_reclassified"));
    assert_eq!(merged.history[2].next.status, AssignmentStatus::Stale);
}

#[test]
fn adjudicated_targets_lists_targets_of_authoritative_assignments() {
    let previous = vec![
        assignment("a-1", "role-1", "src/a.rs", AssignmentStatus::Active, AssignmentSource::Llm, 900, 1),
        assignment("a-2", "role-1", "src/b.rs", AssignmentStatus::Active, AssignmentSource::Rule, 900, 1),
        assignment("a-3", "role-1", "src/c.rs", AssignmentStatus::NeedsReview, AssignmentSource::Llm, 900, 1),
    ];
    let targets = adjudicated_targets(&previous);
    assert_eq!(targets, vec![RoleTarget::file("src/a.rs".to_string())]);
}

#[test]
fn classification_decision_merges_rule_assignments_with_stored_ones() {
    let facts = vec![fact("fact-1", "src/cli/main.rs", "path", "segment", "cli")];
    let rules = vec![cli_rule()];
    let previous = vec![
        assignment("prev-llm", "role-api", "src/api.rs", AssignmentStatus::Active, AssignmentSource::Llm, 950, 1),
        assignment("prev-rule", "role-old", "src/old.rs", AssignmentStatus::Active, AssignmentSource::Rule, 900, 1),
    ];

    let decision = decide_role_classification("repo-1", 3, true, &StrSet::new(), &facts, &rules, &previous)
        .expect("rules evaluate");

    assert_eq!(decision.signals.len(), 1);
    assert_eq!(decision.signals[0].polarity, RoleSignalPolarity::Positive);
    assert_eq!(decision.signals[0].score_permille, 700);

    assert_eq!(decision.assignments.len(), 1);
    let next = &decision.assignments[0];
    assert_eq!(next.role_id, "role-cli");
    assert_eq!(next.confidence_permille, 700);
    assert_eq!(next.status, AssignmentStatus::NeedsReview);
    assert_eq!(next.target, RoleTarget::file("src/cli/main.rs".to_string()));

    let ids: Vec<&str> = decision.current_assignments.iter().map(|a| a.assignment_id.as_str()).collect();
    assert_eq!(ids, vec![next.assignment_id.as_str(), "prev-llm", "prev-rule"]);
    assert_eq!(decision.current_assignments[2].status, AssignmentStatus::Stale);
    assert_eq!(decision.current_assignments[2].generation_seq, 3);
    assert_eq!(decision.history_writes.len(), 2);
    assert!(decision.history_writes[0].previous.is_none());
    assert_eq!(decision.history_writes[1].next.assignment_id, "prev-rule");

    assert_eq!(decision.adjudicated_targets, vec![RoleTarget::file("src/api.rs".to_string())]);
    assert_eq!(decision.adjudication_candidates.len(), 1);
    assert!(!decision.adjudication_requests.is_empty());
    assert_eq!(decision.adjudication_requests[0].reason, AdjudicationReason::LowConfidence);
    assert_eq!(decision.adjudication_requests[0].path.as_deref(), Some("src/cli/main.rs"));
    assert_eq!(decision.metrics.target_count, 1);
}

#[test]
fn classification_decision_reports_rule_evaluation_errors() {
    let facts = vec![fact("fact-1", "src/cli/main.rs", "metric", "loc", "many")];
    let mut rule = cli_rule();
    rule.positive_conditions = vec![RoleFactCondition {
        kind: "metric".to_string(),
        key: "loc".to_string(),
        op: RoleFactConditionOp::Gte,
        value: "10".to_string(),
        score_permille: 700,
    }];

    let result = decide_role_classification("repo-1", 3, true, &StrSet::new(), &facts, &[rule], &[]);

    assert!(result.is_err());
}
