use architecture_graph::decimal::{decimal_le, parse_decimal};
use architecture_graph::json_doc::JsonValue;
use architecture_graph::model::{ArchitectureArtefactFact, RoleTarget, TargetKind};
use architecture_graph::rule_preview::RoleRuleLifecycle;
use architecture_graph::rules::{
    condition_matches, evaluate_detection_rule_targets, evaluate_rules_over_facts, rule_signal_id, selector_matches, ArchitectureRoleDetectionRule,
    CompiledArchitectureRoleRule, RoleCandidateSelector, RoleFactCondition, RoleFactConditionOp, RoleSignalPolarity,
    RuleEvaluationError,
};
use sha2::{Digest, Sha256};

fn fact(id: &str, target: &RoleTarget, kind: &str, key: &str, value: &str, generation_seq: u64) -> ArchitectureArtefactFact {
    ArchitectureArtefactFact {
        repo_id: "repo-1".to_string(),
        fact_id: id.to_string(),
        target: target.clone(),
        language: Some("rust".to_string()),
        fact_kind: kind.to_string(),
        fact_key: key.to_string(),
        fact_value: value.to_string(),
        source: "test".to_string(),
        confidence_permille: 1000,
        generation_seq,
    }
}

fn condition(kind: &str, key: &str, op: RoleFactConditionOp, value: &str, score_permille: u32) -> RoleFactCondition {
    RoleFactCondition {
        kind: kind.to_string(),
        key: key.to_string(),
        op,
        value: value.to_string(),
        score_permille,
    }
}

fn selector(kinds: Vec<TargetKind>) -> RoleCandidateSelector {
    RoleCandidateSelector {
        target_kinds: kinds,
        path_prefixes: vec![],
        path_suffixes: vec![],
        required_facts: vec![],
        required_fact_any_groups: vec![],
    }
}

fn compiled(
    selector: RoleCandidateSelector,
    positive: Vec<RoleFactCondition>,
    negative: Vec<RoleFactCondition>,
) -> CompiledArchitectureRoleRule {
    CompiledArchitectureRoleRule {
        rule: ArchitectureRoleDetectionRule {
            repo_id: "repo-1".to_string(),
            rule_id: "rule-1".to_string(),
            role_id: "role-1".to_string(),
            version: 1,
            lifecycle: RoleRuleLifecycle::Active,
            priority: 10,
            score_permille: 1000,
            min_positive_ratio_permille: 1000,
            candidate_selector: JsonValue::Null,
            positive_conditions: JsonValue::Null,
            negative_conditions: JsonValue::Null,
            provenance: JsonValue::Null,
        },
        selector,
        positive_conditions: positive,
        negative_conditions: negative,
    }
}

fn evidence_ids(evidence: &JsonValue) -> Vec<String> {
    let mut ids = Vec::new();
    if let JsonValue::Array(items) = evidence {
        for item in items {
            if let JsonValue::Object(members) = item {
                for member in members {
                    if member.key == "factId" {
                        if let JsonValue::Text(id) = &member.value {
                            ids.push(id.clone());
                        }
                    }
                }
            }
        }
    }
    ids
}

#[test]
fn rule_evaluation_emits_positive_and_negative_signals() {
    let target = RoleTarget::file("bitloops/src/cli/main.rs".to_string());
    let facts = vec![
        fact("fact-1", &target, "path", "segment", "cli", 1),
        fact("fact-2", &target, "path", "segment", "tests", 1),
    ];
    let rules = vec![compiled(
        selector(vec![TargetKind::File]),
        vec![condition("path", "segment", RoleFactConditionOp::Eq, "cli", 700)],
        vec![condition("path", "segment", RoleFactConditionOp::Eq, "tests", 400)],
    )];

    let result = evaluate_rules_over_facts(&rules, &facts).expect("evaluation");
    assert_eq!(result.signals.len(), 2);
    assert!(result.signals.iter().any(|signal| signal.polarity == RoleSignalPolarity::Positive));
    assert!(result.signals.iter().any(|signal| signal.polarity == RoleSignalPolarity::Negative));
    assert_eq!(result.signals[0].score_permille, 700);
    assert_eq!(result.signals[1].score_permille, 400);
}

#[test]
fn rule_signal_evidence_contains_only_matched_facts() {
    let target = RoleTarget::file("bitloops/src/cli/main.rs".to_string());
    let facts = vec![
        fact("fact-1", &target, "path", "segment", "cli", 1),
        fact("fact-2", &target, "path", "segment", "tests", 9),
    ];
    let rules = vec![compiled(
        selector(vec![TargetKind::File]),
        vec![condition("path", "segment", RoleFactConditionOp::Eq, "cli", 700)],
        vec![],
    )];

    let result = evaluate_rules_over_facts(&rules, &facts).expect("evaluation");
    assert_eq!(result.signals.len(), 1);
    let signal = &result.signals[0];
    assert_eq!(signal.polarity, RoleSignalPolarity::Positive);
    assert_eq!(signal.generation_seq, 1);
    assert_eq!(evidence_ids(&signal.evidence), vec!["fact-1".to_string()]);
    assert_eq!(signal.rule_id, "rule-1");
    assert_eq!(signal.rule_version, 1);
    assert_eq!(signal.role_id, "role-1");
    assert_eq!(signal.target, target);
}

#[test]
fn fact_backed_selectors_only_take_matching_targets() {
    let file_target = RoleTarget::file("src/cli/main.rs".to_string());
    let symbol_target =
        RoleTarget::symbol("artefact-1".to_string(), "symbol-1".to_string(), "src/cli/main.rs".to_string());
    let facts = vec![
        fact("fact-1", &file_target, "path", "segment", "cli", 1),
        fact("fact-2", &symbol_target, "path", "segment", "cli", 1),
    ];
    let mut with_required = selector(vec![TargetKind::File]);
    with_required.required_facts = vec![condition("path", "segment", RoleFactConditionOp::Eq, "cli", 1000)];
    let rules = vec![compiled(
        with_required,
        vec![condition("path", "segment", RoleFactConditionOp::Eq, "cli", 800)],
        vec![],
    )];

    let result = evaluate_rules_over_facts(&rules, &facts).expect("evaluation");
    assert_eq!(result.signals.len(), 1);
    assert_eq!(result.signals[0].target.target_kind.as_db(), "file");
    assert_eq!(result.signals[0].score_permille, 800);
}

#[test]
fn numeric_conditions_compare_decimal_values() {
    let target = RoleTarget::file("src/cli/main.rs".to_string());
    let facts = vec![fact("fact-1", &target, "metrics", "fan_in", "12", 1)];
    let rules = vec![compiled(
        selector(vec![TargetKind::File]),
        vec![condition("metrics", "fan_in", RoleFactConditionOp::Gte, "10", 500)],
        vec![condition("metrics", "fan_in", RoleFactConditionOp::Lte, "11.5", 300)],
    )];

    let result = evaluate_rules_over_facts(&rules, &facts).expect("evaluation");
    assert_eq!(rules[0].positive_conditions[0].score_permille, 500);
    assert_eq!(result.signals.len(), 1);
    assert_eq!(result.signals[0].score_permille, 500);

    let bad = vec![fact("fact-2", &target, "metrics", "fan_in", "many", 1)];
    let err = evaluate_rules_over_facts(&rules, &bad).err().expect("error");
    assert_eq!(err, RuleEvaluationError::FactValueNotNumeric("many".to_string()));
    assert_eq!(err.message(), "parsing numeric fact value `many`");

    let odd_rule = vec![compiled(
        selector(vec![]),
        vec![condition("metrics", "fan_in", RoleFactConditionOp::Lte, "1e3", 500)],
        vec![],
    )];
    assert_eq!(
        evaluate_rules_over_facts(&odd_rule, &facts).err(),
        Some(RuleEvaluationError::RuleValueNotNumeric("1e3".to_string()))
    );
}

#[test]
fn signal_scores_multiply_and_saturate() {
    let target = RoleTarget::file("src/lib.rs".to_string());
    let facts = vec![
        fact("a", &target, "path", "full", "src/lib.rs", 3),
        fact("b", &target, "language", "resolved", "rust", 5),
    ];
    let mut rule = compiled(
        selector(vec![]),
        vec![
            condition("path", "full", RoleFactConditionOp::Suffix, "lib.rs", 600),
            condition("language", "resolved", RoleFactConditionOp::Prefix, "ru", 700),
            condition("language", "resolved", RoleFactConditionOp::Contains, "go", 900),
        ],
        vec![condition("path", "full", RoleFactConditionOp::Eq, "other", 0)],
    );
    rule.rule.score_permille = 500;
    let result = evaluate_rules_over_facts(&[rule], &facts).expect("evaluation");
    assert_eq!(result.signals.len(), 1);
    assert_eq!(result.signals[0].score_permille, 650);
    assert_eq!(result.signals[0].generation_seq, 5);
    assert_eq!(evidence_ids(&result.signals[0].evidence), vec!["a".to_string(), "b".to_string()]);

    let mut strong = compiled(
        selector(vec![]),
        vec![
            condition("path", "full", RoleFactConditionOp::Suffix, "lib.rs", 900),
            condition("language", "resolved", RoleFactConditionOp::Eq, "rust", 900),
        ],
        vec![],
    );
    strong.rule.score_permille = 900;
    let result = evaluate_rules_over_facts(&[strong], &facts).expect("evaluation");
    assert_eq!(result.signals[0].score_permille, 1000);
}

#[test]
fn selectors_check_kinds_paths_and_groups() {
    let target = RoleTarget::artefact("a1".to_string(), "s1".to_string(), "src/api/users.rs".to_string());
    let facts = vec![
        fact("f1", &target, "symbol", "name", "create_user", 1),
        fact("f2", &target, "artefact", "canonical_kind", "function", 1),
    ];
    let mut sel = selector(vec![TargetKind::Artefact, TargetKind::Symbol]);
    assert_eq!(selector_matches(&sel, &target, &facts), Ok(true));
    sel.path_prefixes = vec!["src/cli".to_string(), "src/api/".to_string()];
    sel.path_suffixes = vec![".rs".to_string()];
    assert_eq!(selector_matches(&sel, &target, &facts), Ok(true));
    sel.required_fact_any_groups = vec![
        vec![],
        vec![
            condition("symbol", "name", RoleFactConditionOp::Prefix, "delete_", 1000),
            condition("artefact", "canonical_kind", RoleFactConditionOp::Eq, "function", 1000),
        ],
    ];
    assert_eq!(selector_matches(&sel, &target, &facts), Ok(true));
    sel.required_fact_any_groups.push(vec![condition("symbol", "name", RoleFactConditionOp::Eq, "main", 1000)]);
    assert_eq!(selector_matches(&sel, &target, &facts), Ok(false));

    let mut other_paths = selector(vec![]);
    other_paths.path_prefixes = vec!["tests/".to_string()];
    assert_eq!(selector_matches(&other_paths, &target, &facts), Ok(false));
    assert_eq!(selector_matches(&selector(vec![TargetKind::File]), &target, &facts), Ok(false));

    let numeric = condition("symbol", "name", RoleFactConditionOp::Gte, "3", 1000);
    assert_eq!(
        condition_matches(&numeric, &facts[0]),
        Err(RuleEvaluationError::FactValueNotNumeric("create_user".to_string()))
    );
    assert_eq!(condition_matches(&numeric, &facts[1]), Ok(false));
}

#[test]
fn decimals_are_read_and_compared_exactly() {
    let read = |text: &str| parse_decimal(text).expect(text);
    assert!(parse_decimal("").is_none());
    assert!(parse_decimal("-").is_none());
    assert!(parse_decimal(".").is_none());
    assert!(parse_decimal("1.2.3").is_none());
    assert!(parse_decimal(" 1").is_none());
    assert!(parse_decimal("1e3").is_none());
    assert!(decimal_le(&read("10"), &read("12")));
    assert!(!decimal_le(&read("12"), &read("10")));
    assert!(decimal_le(&read("9.99"), &read("10")));
    assert!(decimal_le(&read("010.50"), &read("10.5")));
    assert!(decimal_le(&read("10.5"), &read("010.50")));
    assert!(decimal_le(&read("-3"), &read("-2.5")));
    assert!(!decimal_le(&read("-2.5"), &read("-3")));
    assert!(decimal_le(&read("-0"), &read("0")));
    assert!(decimal_le(&read("0"), &read("-0.000")));
    assert!(decimal_le(&read("-1"), &read(".5")));
    assert!(decimal_le(&read("+4."), &read("4")));
    assert!(!decimal_le(&read("100000000000000000000001"), &read("100000000000000000000000")));
}

#[test]
fn signal_identities_hash_rule_target_and_polarity() {
    let target = RoleTarget::file("src/main.rs".to_string());
    let expected = hex::encode(Sha256::digest(
        "architecture_graph|role_signal|repo-1|rule-1|-7|role-1|file:src/main.rs|negative".as_bytes(),
    ));
    assert_eq!(
        rule_signal_id("repo-1", "rule-1", -7, "role-1", &target, RoleSignalPolarity::Negative),
        expected
    );
}

#[test]
fn rule_targets_are_positive_without_negative_signals() {
    let cli = RoleTarget::file("src/cli/main.rs".to_string());
    let tests = RoleTarget::file("src/cli/tests.rs".to_string());
    let lib = RoleTarget::file("src/lib.rs".to_string());
    let facts = vec![
        fact("1", &cli, "path", "segment", "cli", 1),
        fact("2", &tests, "path", "segment", "cli", 1),
        fact("3", &tests, "path", "segment", "tests", 1),
        fact("4", &lib, "path", "segment", "src", 1),
        fact("5", &cli, "path", "segment", "src", 1),
    ];
    let rule = compiled(
        selector(vec![TargetKind::File]),
        vec![condition("path", "segment", RoleFactConditionOp::Eq, "cli", 700)],
        vec![condition("path", "segment", RoleFactConditionOp::Eq, "tests", 400)],
    );
    let targets = evaluate_detection_rule_targets(&facts, rule).expect("evaluation");
    assert_eq!(targets, vec![cli]);
}

#[test]
fn rule_signals_follow_target_order_whatever_the_fact_order() {
    let a = RoleTarget::file("src/a/cli.rs".to_string());
    let b = RoleTarget::file("src/b/cli.rs".to_string());
    let rules = vec![compiled(
        selector(vec![TargetKind::File]),
        vec![condition("path", "segment", RoleFactConditionOp::Eq, "cli", 700)],
        vec![],
    )];
    let facts = vec![fact("fact-b", &b, "path", "segment", "cli", 1), fact("fact-a", &a, "path", "segment", "cli", 1)];
    let reversed = vec![fact("fact-a", &a, "path", "segment", "cli", 1), fact("fact-b", &b, "path", "segment", "cli", 1)];

    let first = evaluate_rules_over_facts(&rules, &facts).expect("evaluation");
    let second = evaluate_rules_over_facts(&rules, &reversed).expect("evaluation");

    let targets: Vec<RoleTarget> = first.signals.iter().map(|s| s.target.clone()).collect();
    assert_eq!(targets, vec![a.clone(), b.clone()]);
    let again: Vec<RoleTarget> = second.signals.iter().map(|s| s.target.clone()).collect();
    assert_eq!(targets, again);
}
