use architecture_graph::contracts::AdjudicationReason;
use architecture_graph::model::{ArchitectureArtefactFact, RoleTarget, TargetKind};
use architecture_graph::order::{Order, StrSet};
use architecture_graph::rule_mining::{
    cluster_signature_from_input, compare_members, reason_family, stable_path_prefix, target_id,
    RoleRuleMiningClusterInput,
};
use architecture_graph::unknown_policy::{
    facts_by_target, select_unknown_target_policy, target_summaries_from_facts, RoleTargetSummary,
};

fn fact(target: &RoleTarget, kind: &str, key: &str, value: &str) -> ArchitectureArtefactFact {
    ArchitectureArtefactFact {
        repo_id: "repo-1".to_string(),
        fact_id: format!("{kind}:{key}:{value}"),
        target: target.clone(),
        language: Some("rust".to_string()),
        fact_kind: kind.to_string(),
        fact_key: key.to_string(),
        fact_value: value.to_string(),
        source: "test".to_string(),
        confidence_permille: 1000,
        generation_seq: 1,
    }
}

fn sample_facts() -> (Vec<ArchitectureArtefactFact>, RoleTarget, RoleTarget, RoleTarget, RoleTarget) {
    let main_file = RoleTarget::file("src/main.rs".to_string());
    let function = RoleTarget::artefact("art-parse".to_string(), "sym-parse".to_string(), "src/lib.rs".to_string());
    let readme = RoleTarget::file("README.md".to_string());
    let import = RoleTarget::artefact("art-use".to_string(), "sym-use".to_string(), "src/lib.rs".to_string());
    let facts = vec![
        fact(&main_file, "path", "full", "src/main.rs"),
        fact(&function, "artefact", "canonical_kind", "function"),
        fact(&main_file, "file", "analysis_mode", "code"),
        fact(&readme, "file", "analysis_mode", "text"),
        fact(&function, "symbol", "name", "parse"),
        fact(&import, "artefact", "canonical_kind", "import"),
        fact(&function, "dependency", "incoming_kind", "call"),
        fact(&main_file, "file", "role", "source_code"),
        fact(&function, "dependency", "outgoing_kind", "call"),
        fact(&function, "symbol", "name_suffix", "Parser"),
    ];
    (facts, main_file, function, readme, import)
}

#[test]
fn target_summaries_capture_role_bearing_facts_once_per_target() {
    let (facts, main_file, function, readme, import) = sample_facts();
    let summaries = target_summaries_from_facts(&facts);

    let targets: Vec<RoleTarget> = summaries.iter().map(|summary| summary.target.clone()).collect();
    assert_eq!(targets, vec![readme, main_file, function.clone(), import]);

    let main_summary = &summaries[1];
    assert!(main_summary.high_impact);
    assert_eq!(main_summary.analysis_mode.as_deref(), Some("code"));
    assert_eq!(main_summary.file_role.as_deref(), Some("source_code"));
    assert_eq!(main_summary.language.as_deref(), Some("rust"));

    let function_summary = &summaries[2];
    assert!(!function_summary.high_impact);
    assert_eq!(function_summary.canonical_kind.as_deref(), Some("function"));
    assert_eq!(function_summary.symbol_name.as_deref(), Some("parse"));
    assert_eq!(function_summary.symbol_suffix.as_deref(), Some("Parser"));
    assert_eq!(function_summary.dependency_kinds.to_vec(), vec!["call".to_string()]);

    let main_symbol = RoleTarget::symbol("art-main".to_string(), "sym-main".to_string(), "src/app.rs".to_string());
    let summaries = target_summaries_from_facts(&[fact(&main_symbol, "symbol", "name", "main")]);
    assert!(summaries[0].high_impact);
    let other_main = RoleTarget::artefact("a".to_string(), "s".to_string(), "src/main.rs".to_string());
    let summaries = target_summaries_from_facts(&[fact(&other_main, "path", "full", "src/main.rs")]);
    assert!(!summaries[0].high_impact, "only file targets become high-impact by path");
}

#[test]
fn facts_are_grouped_by_target_in_target_order() {
    let (facts, main_file, function, readme, import) = sample_facts();
    let groups = facts_by_target(&facts);
    let targets: Vec<RoleTarget> = groups.iter().map(|g| g.target.clone()).collect();
    assert_eq!(targets, vec![readme, main_file.clone(), function.clone(), import]);
    assert_eq!(groups[1].target, main_file);
    assert_eq!(
        groups[1].facts.iter().map(|f| f.fact_key.clone()).collect::<Vec<_>>(),
        vec!["full".to_string(), "analysis_mode".to_string(), "role".to_string()]
    );
    assert_eq!(groups[2].target, function);
    assert_eq!(groups[2].facts.len(), 5);
}

#[test]
fn unknown_policy_sorts_unassigned_targets_into_dispositions() {
    let (facts, main_file, function, _, _) = sample_facts();
    let summaries = target_summaries_from_facts(&facts);
    let groups = facts_by_target(&facts);

    let outcome = select_unknown_target_policy("repo-1", 7, &summaries, &groups, &[], &[], None);

    assert_eq!(outcome.unknown_targets_total, 4);
    assert_eq!(outcome.adjudication_escalated, 1);
    assert_eq!(outcome.rule_mining_eligible, 1);
    assert_eq!(outcome.suppressed_non_role, 2);
    assert_eq!(
        outcome.unknown_targets_total,
        outcome.adjudication_escalated + outcome.rule_mining_eligible + outcome.suppressed_non_role
    );

    let request = &outcome.adjudication_requests[0];
    assert_eq!(request.repo_id, "repo-1");
    assert_eq!(request.generation, 7);
    assert_eq!(request.target_kind.as_deref(), Some("file"));
    assert_eq!(request.path.as_deref(), Some("src/main.rs"));
    assert_eq!(request.language.as_deref(), Some("rust"));
    assert_eq!(request.reason, AdjudicationReason::HighImpact);
    assert!(request.candidate_role_ids.is_empty());
    assert_eq!(request.stable_request_key, "file:src/main.rs");
    assert_eq!(request.scope_key(), "repo-1:file:src/main.rs:high_impact:pending:pending");

    let input = &outcome.rule_mining_inputs[0];
    assert_eq!(input.target, function);
    assert_eq!(input.reason, AdjudicationReason::Unknown);
    assert_eq!(input.facts.len(), 5);
    assert!(!input.high_impact);

    let assigned = select_unknown_target_policy("repo-1", 7, &summaries, &groups, &[main_file.clone()], &[], None);
    assert_eq!(assigned.unknown_targets_total, 3);
    assert!(assigned.adjudication_requests.is_empty());

    let eligible = StrSet::from_strings(&["src/lib.rs".to_string()]);
    let narrowed = select_unknown_target_policy("repo-1", 7, &summaries, &groups, &[], &[function], Some(&eligible));
    assert_eq!(narrowed.unknown_targets_total, 1);
    assert_eq!(narrowed.suppressed_non_role, 1);
    assert!(narrowed.rule_mining_inputs.is_empty());
}

fn mining_input(path: &str, suffix: &str) -> RoleRuleMiningClusterInput {
    let target = RoleTarget::artefact(format!("artefact-{path}"), format!("symbol-{path}"), path.to_string());
    RoleRuleMiningClusterInput {
        reason: AdjudicationReason::Unknown,
        facts: vec![
            fact(&target, "language", "resolved", "rust"),
            fact(&target, "symbol", "name_suffix", suffix),
            fact(&target, "dependency", "incoming_kind", "call"),
            fact(&target, "dependency", "outgoing_kind", "import"),
        ],
        target,
        candidate_role_ids: vec!["b".to_string(), "a".to_string(), "b".to_string()],
        deterministic_confidence_permille: None,
        high_impact: false,
    }
}

#[test]
fn rule_mining_signature_reads_path_prefix_facts_and_roles() {
    assert_eq!(stable_path_prefix("src/cli/run_command.rs").as_deref(), Some("src/cli"));
    assert_eq!(stable_path_prefix("/src//cli/x.rs").as_deref(), Some("src/cli"));
    assert_eq!(stable_path_prefix("main.rs"), None);
    assert_eq!(reason_family(AdjudicationReason::HighImpact), "unknown");
    assert_eq!(reason_family(AdjudicationReason::NovelPattern), "unknown");
    assert_eq!(reason_family(AdjudicationReason::LowConfidence), "low_confidence");

    let signature = cluster_signature_from_input(&mining_input("src/cli/run_command.rs", "Command"));
    assert_eq!(signature.reason_family, "unknown");
    assert_eq!(signature.target_kind, TargetKind::Artefact);
    assert_eq!(signature.stable_path_prefix.as_deref(), Some("src/cli"));
    assert_eq!(signature.language.as_deref(), Some("rust"));
    assert_eq!(signature.symbol_suffix.as_deref(), Some("Command"));
    assert_eq!(signature.dependency_kinds.to_vec(), vec!["call".to_string(), "import".to_string()]);
    assert_eq!(signature.candidate_role_ids.to_vec(), vec!["a".to_string(), "b".to_string()]);
}

#[test]
fn rule_mining_members_rank_by_impact_facts_confidence_and_path() {
    let a = mining_input("src/cli/a_command.rs", "Command");
    let z = mining_input("src/cli/z_command.rs", "Command");
    assert_eq!(compare_members(&a, &z), Order::Less);
    assert_eq!(compare_members(&z, &a), Order::Greater);
    assert_eq!(compare_members(&a, &a), Order::Equal);

    let mut impactful = mining_input("src/cli/z_command.rs", "Command");
    impactful.high_impact = true;
    assert_eq!(compare_members(&impactful, &a), Order::Less);

    let mut confident = mining_input("src/cli/z_command.rs", "Command");
    confident.deterministic_confidence_permille = Some(10);
    assert_eq!(compare_members(&confident, &a), Order::Less);

    let mut fewer = mining_input("src/cli/a_command.rs", "Command");
    fewer.facts.pop();
    assert_eq!(compare_members(&z, &fewer), Order::Less);

    assert_eq!(target_id(&a), "symbol-src/cli/a_command.rs");
}

fn named_fact(id: &str, target: &RoleTarget, kind: &str, key: &str, value: &str) -> ArchitectureArtefactFact {
    let mut fact = fact(target, kind, key, value);
    fact.fact_id = id.to_string();
    fact
}

#[test]
fn target_summary_captures_role_bearing_facts() {
    let target = RoleTarget::artefact("artefact-1".to_string(), "symbol-1".to_string(), "src/main.rs".to_string());
    let facts = vec![
        named_fact("canonical-kind", &target, "artefact", "canonical_kind", "function"),
        named_fact("symbol-name", &target, "symbol", "name", "main"),
    ];

    let summaries = target_summaries_from_facts(&facts);
    let summary = summaries.iter().find(|summary| summary.target == target).expect("summary");

    assert_eq!(summary.language.as_deref(), Some("rust"));
    assert_eq!(summary.canonical_kind.as_deref(), Some("function"));
    assert_eq!(summary.symbol_name.as_deref(), Some("main"));
    assert!(summary.high_impact);
}

#[test]
fn unknown_policy_does_not_escalate_helper_artefact_on_main_path() {
    let file_target = RoleTarget::file("src/main.rs".to_string());
    let helper_target =
        RoleTarget::artefact("artefact-helper".to_string(), "symbol-helper".to_string(), "src/main.rs".to_string());
    let facts = vec![
        named_fact("file-path", &file_target, "path", "full", "src/main.rs"),
        named_fact("helper-path", &helper_target, "path", "full", "src/main.rs"),
        named_fact("helper-kind", &helper_target, "artefact", "canonical_kind", "function"),
        named_fact("helper-name", &helper_target, "symbol", "name", "helper"),
    ];
    let summaries = target_summaries_from_facts(&facts);
    let grouped_facts = facts_by_target(&facts);

    let outcome = select_unknown_target_policy("repo-1", 1, &summaries, &grouped_facts, &[], &[], None);

    assert_eq!(outcome.unknown_targets_total, 2);
    assert_eq!(outcome.adjudication_escalated, 1);
    assert_eq!(outcome.rule_mining_eligible, 1);
    assert_eq!(outcome.adjudication_requests.len(), 1);
    assert_eq!(outcome.adjudication_requests[0].target_kind.as_deref(), Some("file"));
}

fn summary(target: &RoleTarget, canonical_kind: Option<&str>, file_role: Option<&str>, name: Option<&str>) -> RoleTargetSummary {
    RoleTargetSummary {
        target: target.clone(),
        language: Some("rust".to_string()),
        canonical_kind: canonical_kind.map(str::to_string),
        language_kind: canonical_kind.map(|_| "function_item".to_string()),
        file_role: file_role.map(str::to_string),
        analysis_mode: file_role.map(|_| "code".to_string()),
        symbol_name: name.map(str::to_string),
        symbol_suffix: None,
        dependency_kinds: StrSet::new(),
        high_impact: false,
    }
}

#[test]
fn unknown_policy_counts_artefact_on_deterministically_assigned_file_path() {
    let file_target = RoleTarget::file("src/assigned.rs".to_string());
    let artefact_target = RoleTarget::artefact(
        "artefact-assigned".to_string(),
        "symbol-assigned".to_string(),
        "src/assigned.rs".to_string(),
    );
    let summaries = vec![
        summary(&file_target, None, Some("source"), None),
        summary(&artefact_target, Some("function"), None, Some("assigned_helper")),
    ];
    let assigned = vec![file_target];

    let outcome = select_unknown_target_policy("repo-1", 1, &summaries, &[], &assigned, &[], None);

    assert_eq!(outcome.unknown_targets_total, 1);
    assert_eq!(outcome.rule_mining_eligible, 1);
    assert_eq!(outcome.suppressed_non_role, 0);
    assert_eq!(outcome.adjudication_escalated, 0);
    assert!(outcome.rule_mining_inputs[0].facts.is_empty());
}
