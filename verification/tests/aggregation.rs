use architecture_graph::aggregation::{
    adjudication_requests_from_assignments, aggregate_role_assignments, ArchitectureRoleAssignment, AssignmentAggregationConfig, AssignmentPriority,
    AssignmentSource, AssignmentStatus,
};
use architecture_graph::contracts::{placeholder_request_hash, AdjudicationReason, RoleAdjudicationRequest};
use architecture_graph::order::StrSet;
use architecture_graph::reconcile_metrics::expanded_reconcile_metrics;
use architecture_graph::unknown_policy::RoleTargetSummary;
use architecture_graph::json_doc::{JsonMember, JsonValue};
use architecture_graph::model::RoleTarget;
use architecture_graph::rules::{ArchitectureRoleRuleSignal, RoleSignalPolarity};
use sha2::{Digest, Sha256};

fn signal(
    signal_id: &str,
    rule_id: &str,
    role_id: &str,
    target: &RoleTarget,
    polarity: RoleSignalPolarity,
    score_permille: u32,
    generation_seq: u64,
) -> ArchitectureRoleRuleSignal {
    ArchitectureRoleRuleSignal {
        repo_id: "repo-1".to_string(),
        signal_id: signal_id.to_string(),
        rule_id: rule_id.to_string(),
        rule_version: 1,
        role_id: role_id.to_string(),
        target: target.clone(),
        polarity,
        score_permille,
        evidence: JsonValue::Array(vec![]),
        generation_seq,
    }
}

fn positive_signal(role_id: &str, rule_id: &str, score_permille: u32) -> ArchitectureRoleRuleSignal {
    signal(
        &format!("signal-{role_id}-{rule_id}"),
        rule_id,
        role_id,
        &RoleTarget::file("src/main.rs".to_string()),
        RoleSignalPolarity::Positive,
        score_permille,
        1,
    )
}

fn member<'a>(value: &'a JsonValue, key: &str) -> Option<&'a JsonValue> {
    match value {
        JsonValue::Object(members) => members.iter().find(|m| m.key == key).map(|m: &JsonMember| &m.value),
        _ => None,
    }
}

fn item(value: &JsonValue, index: usize) -> Option<&JsonValue> {
    match value {
        JsonValue::Array(items) => items.get(index),
        _ => None,
    }
}

fn text(value: Option<&JsonValue>) -> Option<String> {
    match value {
        Some(JsonValue::Text(t)) => Some(t.clone()),
        Some(JsonValue::Number(n)) => Some(n.clone()),
        _ => None,
    }
}

fn config(active: u32, review: u32, margin: u32) -> AssignmentAggregationConfig {
    AssignmentAggregationConfig {
        active_threshold_permille: active,
        review_threshold_permille: review,
        conflict_margin_permille: margin,
    }
}

#[test]
fn aggregate_role_assignments_combines_multiple_positive_rules_with_noisy_or() {
    let signals = vec![positive_signal("role-1", "rule-a", 600), positive_signal("role-1", "rule-b", 600)];

    let assignments = aggregate_role_assignments("repo-1", &signals, &AssignmentAggregationConfig::default());

    assert_eq!(assignments.len(), 1);
    assert_eq!(assignments[0].confidence_permille, 840);
    assert_eq!(assignments[0].status, AssignmentStatus::Active);
}

#[test]
fn aggregate_role_assignments_marks_low_confidence_needs_review() {
    let target = RoleTarget::file("src/main.rs".to_string());
    let signals = vec![signal("signal-1", "rule-1", "role-1", &target, RoleSignalPolarity::Positive, 500, 10)];

    let assignments = aggregate_role_assignments("repo-1", &signals, &config(650, 350, 50));

    assert_eq!(assignments.len(), 1);
    assert_eq!(assignments[0].status, AssignmentStatus::NeedsReview);
    assert_eq!(assignments[0].priority, AssignmentPriority::Primary);
    assert_eq!(assignments[0].confidence_permille, 500);
    assert_eq!(assignments[0].generation_seq, 10);
}

#[test]
fn aggregate_role_assignments_uses_generation_seq_from_contributing_signals() {
    let signals = vec![
        signal(
            "signal-1",
            "rule-1",
            "role-1",
            &RoleTarget::file("src/main.rs".to_string()),
            RoleSignalPolarity::Positive,
            700,
            2,
        ),
        signal(
            "signal-2",
            "rule-2",
            "role-2",
            &RoleTarget::file("src/lib.rs".to_string()),
            RoleSignalPolarity::Positive,
            900,
            99,
        ),
    ];

    let assignments = aggregate_role_assignments("repo-1", &signals, &AssignmentAggregationConfig::default());
    let assignment: &ArchitectureRoleAssignment = assignments
        .iter()
        .find(|assignment| assignment.role_id == "role-1")
        .expect("role-1 assignment should be produced");

    assert_eq!(assignment.generation_seq, 2);
    assert_eq!(text(member(item(&assignment.evidence, 0).unwrap(), "source")).as_deref(), Some("rule_signal_aggregation"));
    let first = item(&assignment.evidence, 1).unwrap();
    assert_eq!(text(member(first, "signalId")).as_deref(), Some("signal-1"));
    assert_eq!(text(member(first, "ruleId")).as_deref(), Some("rule-1"));
    assert_eq!(text(member(first, "ruleVersion")).as_deref(), Some("1"));
    assert_eq!(text(member(first, "polarity")).as_deref(), Some("positive"));
    assert_eq!(text(member(first, "score")).as_deref(), Some("700"));
    assert!(item(&assignment.evidence, 2).is_none());
}

#[test]
fn aggregate_role_assignments_marks_top_role_conflicts_needs_review() {
    let target = RoleTarget::file("src/main.rs".to_string());
    let signals = vec![
        signal("signal-1", "rule-1", "role-b", &target, RoleSignalPolarity::Positive, 860, 1),
        signal("signal-2", "rule-2", "role-a", &target, RoleSignalPolarity::Positive, 840, 1),
    ];

    let assignments = aggregate_role_assignments("repo-1", &signals, &AssignmentAggregationConfig::default());

    assert_eq!(assignments.len(), 2);
    assert_eq!(assignments[0].role_id, "role-b");
    assert_eq!(assignments[0].status, AssignmentStatus::NeedsReview);
    assert_eq!(assignments[1].role_id, "role-a");
    assert_eq!(assignments[1].status, AssignmentStatus::NeedsReview);
    assert_eq!(assignments[1].priority, AssignmentPriority::Secondary);
}

#[test]
fn aggregate_role_assignments_sorts_equal_confidence_by_role_id() {
    let target = RoleTarget::file("src/main.rs".to_string());
    let signals = vec![
        signal("signal-1", "rule-1", "role-b", &target, RoleSignalPolarity::Positive, 700, 1),
        signal("signal-2", "rule-2", "role-a", &target, RoleSignalPolarity::Positive, 700, 1),
    ];

    let assignments = aggregate_role_assignments("repo-1", &signals, &AssignmentAggregationConfig::default());

    assert_eq!(assignments.len(), 2);
    assert_eq!(assignments[0].role_id, "role-a");
    assert_eq!(assignments[1].role_id, "role-b");
}

#[test]
fn aggregate_role_assignments_carries_signal_evidence_payload() {
    let mut only = positive_signal("role-1", "rule-1", 900);
    only.evidence = JsonValue::Array(vec![JsonValue::Object(vec![JsonMember {
        key: "factId".to_string(),
        value: JsonValue::Text("fact-1".to_string()),
    }])]);

    let assignments = aggregate_role_assignments("repo-1", &[only], &AssignmentAggregationConfig::default());

    assert_eq!(assignments.len(), 1);
    let carried = member(item(&assignments[0].evidence, 1).unwrap(), "evidence").unwrap();
    assert_eq!(text(member(item(carried, 0).unwrap(), "factId")).as_deref(), Some("fact-1"));
}

#[test]
fn negative_signals_lower_confidence_and_weak_roles_are_dropped() {
    let main = RoleTarget::file("src/main.rs".to_string());
    let lib = RoleTarget::file("src/lib.rs".to_string());
    let signals = vec![
        signal("s1", "r1", "entrypoint", &main, RoleSignalPolarity::Positive, 900, 3),
        signal("s2", "r2", "library", &lib, RoleSignalPolarity::Positive, 950, 4),
        signal("s3", "r3", "entrypoint", &main, RoleSignalPolarity::Negative, 400, 8),
        signal("s4", "r4", "helper", &main, RoleSignalPolarity::Positive, 400, 1),
    ];

    let assignments = aggregate_role_assignments("repo-1", &signals, &AssignmentAggregationConfig::default());

    assert_eq!(assignments.len(), 2);
    assert_eq!(assignments[1].target, main);
    assert_eq!(assignments[1].role_id, "entrypoint");
    assert_eq!(assignments[1].confidence_permille, 540);
    assert_eq!(assignments[1].status, AssignmentStatus::NeedsReview);
    assert_eq!(assignments[1].generation_seq, 8);
    assert_eq!(assignments[1].source, AssignmentSource::Rule);
    assert_eq!(assignments[1].rule_version, None);
    assert_eq!(assignments[1].classifier_version, "architecture_roles.deterministic.contract.v1");
    assert_eq!(text(member(&assignments[1].provenance, "source")).as_deref(), Some("deterministic_rules"));
    assert_eq!(
        assignments[1].assignment_id,
        hex::encode(Sha256::digest("architecture_graph|role_assignment|repo-1|entrypoint|file:src/main.rs".as_bytes()))
    );
    assert_eq!(assignments[0].target, lib);
    assert_eq!(assignments[0].confidence_permille, 950);
    assert_eq!(assignments[0].status, AssignmentStatus::Active);
    assert_eq!(assignments[0].priority, AssignmentPriority::Primary);
}

fn assignment(target: &RoleTarget, role_id: &str, status: AssignmentStatus, confidence_permille: u32) -> ArchitectureRoleAssignment {
    ArchitectureRoleAssignment {
        repo_id: "repo-1".to_string(),
        assignment_id: format!("assignment-{role_id}"),
        role_id: role_id.to_string(),
        target: target.clone(),
        priority: AssignmentPriority::Primary,
        status,
        source: AssignmentSource::Rule,
        confidence_permille,
        evidence: JsonValue::Array(vec![]),
        provenance: JsonValue::Null,
        classifier_version: "test".to_string(),
        rule_version: Some(1),
        generation_seq: 7,
    }
}

#[test]
fn adjudication_requests_encode_artefact_targets_without_symbol_target_promotion() {
    let target = RoleTarget::artefact("artefact-1".to_string(), "symbol-1".to_string(), "src/main.rs".to_string());
    let assignments = vec![assignment(&target, "role-1", AssignmentStatus::NeedsReview, 600)];

    let requests = adjudication_requests_from_assignments(&assignments);

    assert_eq!(requests.len(), 1);
    assert_eq!(requests[0].target_kind.as_deref(), Some("artefact"));
    assert_eq!(requests[0].artefact_id.as_deref(), Some("artefact-1"));
    assert_eq!(requests[0].symbol_id.as_deref(), Some("symbol-1"));
}

#[test]
fn review_requests_rank_candidates_and_tell_conflicts_from_low_confidence() {
    let main = RoleTarget::file("src/main.rs".to_string());
    let lib = RoleTarget::file("src/lib.rs".to_string());
    let assignments = vec![
        assignment(&main, "worker", AssignmentStatus::NeedsReview, 700),
        assignment(&lib, "library", AssignmentStatus::Active, 950),
        assignment(&main, "entrypoint", AssignmentStatus::NeedsReview, 740),
        assignment(&lib, "helper", AssignmentStatus::NeedsReview, 600),
        assignment(&lib, "adapter", AssignmentStatus::NeedsReview, 500),
    ];

    let requests = adjudication_requests_from_assignments(&assignments);

    assert_eq!(requests.len(), 2);
    assert_eq!(requests[1].path.as_deref(), Some("src/main.rs"));
    assert_eq!(requests[1].reason, AdjudicationReason::Conflict);
    assert_eq!(requests[1].candidate_role_ids, vec!["entrypoint".to_string(), "worker".to_string()]);
    assert_eq!(requests[1].deterministic_confidence_permille, Some(740));
    let current = requests[1].current_assignment.as_ref().expect("current assignment");
    assert_eq!(current.role_id, "entrypoint");
    assert_eq!(current.confidence_permille, Some(740));
    assert_eq!(current.source.as_deref(), Some("rule"));
    assert_eq!(requests[1].generation, 7);
    assert_eq!(requests[1].language, None);

    assert_eq!(requests[0].path.as_deref(), Some("src/lib.rs"));
    assert_eq!(requests[0].reason, AdjudicationReason::LowConfidence);
    assert_eq!(requests[0].candidate_role_ids, vec!["helper".to_string(), "adapter".to_string()]);
    assert_eq!(requests[0].stable_request_key, "file:src/lib.rs");
    assert_eq!(requests[0].facts_hash, placeholder_request_hash());
    assert_eq!(requests[0].scope_key(), "repo-1:file:src/lib.rs:low_confidence:pending:pending");
}

fn summary_of(target: &RoleTarget) -> RoleTargetSummary {
    RoleTargetSummary {
        target: target.clone(),
        language: Some("rust".to_string()),
        canonical_kind: None,
        language_kind: None,
        file_role: None,
        analysis_mode: None,
        symbol_name: None,
        symbol_suffix: None,
        dependency_kinds: StrSet::new(),
        high_impact: false,
    }
}

fn request_with_reason(reason: AdjudicationReason) -> RoleAdjudicationRequest {
    RoleAdjudicationRequest {
        repo_id: "repo-1".to_string(),
        generation: 1,
        stable_request_key: "target:file".to_string(),
        facts_hash: "facts".to_string(),
        rules_hash: "rules".to_string(),
        cluster_key: None,
        target_kind: Some("file".to_string()),
        artefact_id: None,
        symbol_id: None,
        path: Some(format!("src/{}.rs", reason.as_str())),
        language: Some("rust".to_string()),
        canonical_kind: None,
        reason,
        deterministic_confidence_permille: None,
        candidate_role_ids: Vec::new(),
        current_assignment: None,
    }
}

#[test]
fn classification_reports_deterministic_coverage_and_review_rates() {
    let active_target = RoleTarget::file("src/active.rs".to_string());
    let review_target = RoleTarget::file("src/review.rs".to_string());
    let unknown_target = RoleTarget::file("src/unknown.rs".to_string());
    let summaries = vec![summary_of(&active_target), summary_of(&review_target), summary_of(&unknown_target)];
    let assignments = vec![
        assignment(&active_target, "role-1", AssignmentStatus::Active, 900),
        assignment(&review_target, "role-1", AssignmentStatus::NeedsReview, 600),
    ];

    let metrics = expanded_reconcile_metrics(&summaries, &assignments, &[], 0, 0);

    assert_eq!(metrics.target_count, 3);
    assert_eq!(metrics.deterministic_active_targets, 1);
    assert_eq!(metrics.deterministic_needs_review_targets, 1);
    assert_eq!(metrics.deterministic_unassigned_targets, 1);
    assert_eq!(metrics.deterministic_coverage_ratio_permille, 333);
    assert_eq!(metrics.needs_review_ratio_permille, 333);
    assert_eq!(metrics.unknown_ratio_permille, 333);
}

#[test]
fn classification_reports_adjudication_requests_by_reason() {
    let requests = vec![
        request_with_reason(AdjudicationReason::Unknown),
        request_with_reason(AdjudicationReason::HighImpact),
        request_with_reason(AdjudicationReason::LowConfidence),
        request_with_reason(AdjudicationReason::Conflict),
    ];

    let metrics = expanded_reconcile_metrics(&[], &[], &requests, 2, 1);

    assert_eq!(metrics.unknown_adjudication_candidates, 1);
    assert_eq!(metrics.high_impact_adjudication_candidates, 1);
    assert_eq!(metrics.low_confidence_adjudication_candidates, 1);
    assert_eq!(metrics.conflict_adjudication_candidates, 1);
    assert_eq!(metrics.repeated_adjudication_suppressed, 2);
    assert_eq!(metrics.deterministic_guard_skipped, 1);
    assert_eq!(metrics.deterministic_coverage_ratio_permille, 0);
}

#[test]
fn reconcile_metrics_count_distinct_targets_and_conflicts() {
    let a = RoleTarget::file("src/conflict.rs".to_string());
    let b = RoleTarget::file("src/stale.rs".to_string());
    let assignments = vec![
        assignment(&a, "role-1", AssignmentStatus::NeedsReview, 700),
        assignment(&a, "role-2", AssignmentStatus::NeedsReview, 690),
        assignment(&b, "role-1", AssignmentStatus::Stale, 900),
    ];
    let mut conflict = request_with_reason(AdjudicationReason::Conflict);
    conflict.path = Some("src/conflict.rs".to_string());
    let summaries = vec![summary_of(&a), summary_of(&b)];

    let metrics = expanded_reconcile_metrics(&summaries, &assignments, &[conflict], 0, 0);

    assert_eq!(metrics.deterministic_needs_review_targets, 1);
    assert_eq!(metrics.deterministic_conflict_targets, 1);
    assert_eq!(metrics.deterministic_active_targets, 0);
    assert_eq!(metrics.deterministic_unassigned_targets, 1);
    assert_eq!(metrics.needs_review_ratio_permille, 500);
}

#[test]
fn adjudication_scope_key_ignores_generation_when_facts_and_rules_unchanged() {
    let mut first = request_with_reason(AdjudicationReason::Unknown);
    first.stable_request_key = "file:src/main.rs".to_string();
    first.facts_hash = "facts-a".to_string();
    first.rules_hash = "rules-a".to_string();
    let mut second = first.clone();
    second.generation = 99;

    assert_eq!(first.scope_key(), second.scope_key());
}

#[test]
fn scope_key_changes_with_facts_or_rules_hash() {
    let first = request_with_reason(AdjudicationReason::Unknown);
    let mut facts_changed = first.clone();
    facts_changed.facts_hash = "facts-b".to_string();
    let mut rules_changed = first.clone();
    rules_changed.rules_hash = "rules-b".to_string();
    assert_ne!(first.scope_key(), facts_changed.scope_key());
    assert_ne!(first.scope_key(), rules_changed.scope_key());
    assert_eq!(first.scope_key(), "repo-1:target:file:unknown:facts:rules");
}

#[test]
fn adjudication_requests_come_in_target_order() {
    let b = RoleTarget::file("src/b.rs".to_string());
    let a = RoleTarget::file("src/a.rs".to_string());
    let assignments = vec![
        assignment(&b, "role-1", AssignmentStatus::NeedsReview, 600),
        assignment(&a, "role-1", AssignmentStatus::NeedsReview, 600),
    ];
    let requests = adjudication_requests_from_assignments(&assignments);
    assert_eq!(requests.len(), 2);
    assert_eq!(requests[0].path.as_deref(), Some("src/a.rs"));
    assert_eq!(requests[1].path.as_deref(), Some("src/b.rs"));
}

#[test]
fn aggregated_assignments_come_in_target_order() {
    let b = RoleTarget::file("src/b.rs".to_string());
    let a = RoleTarget::file("src/a.rs".to_string());
    let symbol = RoleTarget::symbol("art".to_string(), "sym".to_string(), "src/a.rs".to_string());
    let signals = vec![
        signal("s-1", "rule-1", "role-1", &symbol, RoleSignalPolarity::Positive, 900, 1),
        signal("s-2", "rule-1", "role-1", &b, RoleSignalPolarity::Positive, 900, 1),
        signal("s-3", "rule-1", "role-1", &a, RoleSignalPolarity::Positive, 900, 1),
    ];
    let assignments = aggregate_role_assignments("repo-1", &signals, &AssignmentAggregationConfig::default());
    let targets: Vec<RoleTarget> = assignments.iter().map(|x| x.target.clone()).collect();
    assert_eq!(targets, vec![a, b, symbol]);
}

#[test]
fn aggregate_role_assignments_rounds_the_combined_confidence_once() {
    // 1 - 0.5 * 0.401 = 0.7995: below the default active threshold of 0.8.
    let signals = vec![positive_signal("role-1", "rule-a", 500), positive_signal("role-1", "rule-b", 599)];

    let assignments = aggregate_role_assignments("repo-1", &signals, &AssignmentAggregationConfig::default());

    assert_eq!(assignments.len(), 1);
    assert_eq!(assignments[0].confidence_permille, 799);
    assert_eq!(assignments[0].status, AssignmentStatus::NeedsReview);
}

#[test]
fn aggregate_role_assignments_confidence_ignores_signal_order() {
    let forward = vec![
        positive_signal("role-1", "rule-a", 333),
        positive_signal("role-1", "rule-b", 333),
        positive_signal("role-1", "rule-c", 333),
    ];
    let assignments = aggregate_role_assignments("repo-1", &forward, &config(800, 300, 50));
    // 1 - 0.667^3 = 0.703259...
    assert_eq!(assignments[0].confidence_permille, 703);

    let a = vec![positive_signal("role-1", "rule-a", 599), positive_signal("role-1", "rule-b", 500)];
    let b = vec![positive_signal("role-1", "rule-b", 500), positive_signal("role-1", "rule-a", 599)];
    let from_a = aggregate_role_assignments("repo-1", &a, &AssignmentAggregationConfig::default());
    let from_b = aggregate_role_assignments("repo-1", &b, &AssignmentAggregationConfig::default());
    assert_eq!(from_a[0].confidence_permille, 799);
    assert_eq!(from_b[0].confidence_permille, 799);
}

#[test]
fn aggregate_role_assignments_negative_signals_lower_the_confidence() {
    let target = RoleTarget::file("src/main.rs".to_string());
    let signals = vec![
        signal("signal-1", "rule-1", "role-1", &target, RoleSignalPolarity::Positive, 900, 1),
        signal("signal-2", "rule-2", "role-1", &target, RoleSignalPolarity::Negative, 500, 1),
        signal("signal-3", "rule-3", "role-1", &target, RoleSignalPolarity::Negative, 1500, 1),
    ];
    let assignments = aggregate_role_assignments("repo-1", &signals, &config(800, 0, 50));
    // A negative score above 1000 counts as 1000: nothing is left.
    assert_eq!(assignments.len(), 1);
    assert_eq!(assignments[0].confidence_permille, 0);

    let signals = vec![
        signal("signal-1", "rule-1", "role-1", &target, RoleSignalPolarity::Positive, 900, 1),
        signal("signal-2", "rule-2", "role-1", &target, RoleSignalPolarity::Negative, 500, 1),
    ];
    let assignments = aggregate_role_assignments("repo-1", &signals, &config(800, 400, 50));
    assert_eq!(assignments[0].confidence_permille, 450);
    assert_eq!(assignments[0].status, AssignmentStatus::NeedsReview);
}
