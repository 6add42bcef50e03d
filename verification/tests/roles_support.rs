use architecture_graph::assignment_applier::build_provenance;
use architecture_graph::contracts::{
    AdjudicationOutcome, AdjudicationReason, RoleAdjudicationAttemptOutcome, RoleCandidateDescriptor,
    RoleQueueEnqueueResult,
};
use architecture_graph::evidence_packet::{assemble_evidence_packet, trim_snippets, EvidencePacketLimits, RoleFactsBundle};
use architecture_graph::graph_kinds::{
    edge_kind_names, node_kind_names, node_kind_names_with_null, parse_edge_kind, parse_node_kind,
    ArchitectureGraphEdgeKind, ArchitectureGraphNodeKind,
};
use architecture_graph::json_doc::JsonValue;
use architecture_graph::model::RoleTarget;
use architecture_graph::orchestrator::{
    attempt_outcome_from_result, enqueue_adjudication_jobs_for_delta, enqueue_adjudication_requests, enqueue_outcome,
    infer_deterministic_outcome, role_requests_from_delta, RoleAdjudicationJob,
};
use architecture_graph::queue_store::InMemoryRoleAdjudicationQueueStore;
use architecture_graph::request::ChangedArtefact;
use architecture_graph::rule_preview::{
    path_has_test_generated_or_vendor_segment, preview_target_key, role_rule_lifecycle_from_management,
    RoleRuleLifecycle,
};

#[test]
fn graph_kinds_parse_their_own_names_and_refuse_others() {
    assert_eq!(parse_node_kind(" SYSTEM "), Ok(ArchitectureGraphNodeKind::System));
    assert_eq!(parse_node_kind("RISK_SIGNAL"), Ok(ArchitectureGraphNodeKind::RiskSignal));
    assert_eq!(parse_node_kind("system"), Err("unsupported node kind `system`".to_string()));
    assert_eq!(parse_edge_kind("SCORES"), Ok(ArchitectureGraphEdgeKind::Scores));
    assert_eq!(parse_edge_kind(" STORES\n"), Ok(ArchitectureGraphEdgeKind::Stores));
    assert_eq!(parse_edge_kind("  LINKS "), Err("unsupported edge kind `LINKS`".to_string()));

    let nodes = node_kind_names();
    assert_eq!(nodes.len(), 17);
    assert_eq!(nodes[0], "SYSTEM");
    assert_eq!(nodes[16], "RISK_SIGNAL");
    for name in &nodes {
        assert_eq!(parse_node_kind(name).map(|kind| kind.as_str()), Ok(*name));
    }
    let edges = edge_kind_names();
    assert_eq!(edges.len(), 18);
    for name in &edges {
        assert_eq!(parse_edge_kind(name).map(|kind| kind.as_str()), Ok(*name));
    }

    let with_null = node_kind_names_with_null();
    assert_eq!(with_null.len(), 18);
    assert!(matches!(&with_null[0], JsonValue::Text(text) if text == "SYSTEM"));
    assert!(matches!(with_null[17], JsonValue::Null));
}

fn changed(path: &str, name: &str, kind: Option<&str>) -> ChangedArtefact {
    ChangedArtefact {
        artefact_id: format!("artefact:{path}:{name}"),
        symbol_id: format!("symbol:{path}:{name}"),
        path: path.to_string(),
        canonical_kind: kind.map(str::to_string),
        name: name.to_string(),
    }
}

#[test]
fn delta_requests_select_entry_points_and_unknown_artefacts() {
    let entry = infer_deterministic_outcome(&changed("src/lib.rs", "MAIN", Some("function")));
    assert!(entry.high_impact);
    assert_eq!(entry.best_confidence_permille, Some(720));
    let plain = infer_deterministic_outcome(&changed("src/lib.rs", "run", Some("function")));
    assert!(!plain.high_impact);
    assert_eq!(plain.best_confidence_permille, Some(950));
    let unknown = infer_deterministic_outcome(&changed("src/lib.rs", "run", None));
    assert!(!unknown.classification_known);
    assert_eq!(unknown.best_confidence_permille, None);

    let upserts = vec![
        changed("crates/cli/src/main.rs", "start", Some("function")),
        changed("src/lib.rs", "run", Some("function")),
        changed("src/lib.rs", "mystery", None),
        changed("main.rs", "boot", Some("function")),
    ];
    let requests = role_requests_from_delta("repo", 3, &upserts);
    let summary: Vec<(String, AdjudicationReason, Option<u32>)> = requests
        .iter()
        .map(|request| (request.path.clone().unwrap(), request.reason, request.deterministic_confidence_permille))
        .collect();
    assert_eq!(
        summary,
        vec![
            ("crates/cli/src/main.rs".to_string(), AdjudicationReason::HighImpact, Some(720)),
            ("src/lib.rs".to_string(), AdjudicationReason::Unknown, None),
            ("main.rs".to_string(), AdjudicationReason::HighImpact, Some(720)),
        ]
    );
    assert_eq!(requests[0].target_kind.as_deref(), Some("artefact"));
    assert_eq!(requests[0].symbol_id.as_deref(), Some("symbol:crates/cli/src/main.rs:start"));
    assert_eq!(requests[1].canonical_kind, None);
}

#[test]
fn enqueueing_requests_twice_only_creates_jobs_once() {
    let upserts = vec![
        changed("src/main.rs", "main", Some("function")),
        changed("src/lib.rs", "mystery", None),
    ];
    let requests = role_requests_from_delta("repo", 3, &upserts);
    let mut queue = InMemoryRoleAdjudicationQueueStore::new();

    let (first, jobs) = enqueue_adjudication_requests(&requests, &mut queue);
    assert_eq!((first.selected, first.enqueued, first.deduped), (2, 2, 0));
    assert_eq!(job_keys(&jobs), Some(vec![requests[0].scope_key(), requests[1].scope_key()]));

    let (second, jobs) = enqueue_adjudication_requests(&requests, &mut queue);
    assert_eq!((second.selected, second.enqueued, second.deduped), (2, 0, 2));
    assert!(jobs.is_none());

    let mut duplicated = requests.clone();
    duplicated.push(requests[0].clone());
    let mut fresh = InMemoryRoleAdjudicationQueueStore::new();
    let (metrics, jobs) = enqueue_adjudication_requests(&duplicated, &mut fresh);
    assert_eq!((metrics.selected, metrics.enqueued, metrics.deduped), (3, 2, 1));
    assert_eq!(job_keys(&jobs), Some(vec![requests[0].scope_key(), requests[1].scope_key()]));

    let mut delta_queue = InMemoryRoleAdjudicationQueueStore::new();
    let (delta_requests, metrics, jobs) = enqueue_adjudication_jobs_for_delta("repo", 3, &upserts, &mut delta_queue);
    assert_eq!(delta_requests.len(), 2);
    assert_eq!((metrics.selected, metrics.enqueued, metrics.deduped), (2, 2, 0));
    let jobs = jobs.expect("two new jobs");
    assert_eq!(jobs.len(), 2);
    assert_eq!(jobs[0].capability_id, "architecture_graph");
    assert_eq!(jobs[0].mailbox_name, "architecture_graph.roles.adjudication");
    assert_eq!(jobs[0].payload.request, delta_requests[0]);
    assert_eq!(jobs[1].payload.request, delta_requests[1]);
}

fn job_keys(jobs: &Option<Vec<RoleAdjudicationJob>>) -> Option<Vec<String>> {
    jobs.as_ref().map(|jobs| jobs.iter().map(|job| job.dedupe_key.clone()).collect())
}

#[test]
fn enqueue_outcome_follows_the_queue_answers() {
    let upserts = vec![
        changed("src/main.rs", "main", Some("function")),
        changed("src/lib.rs", "mystery", None),
    ];
    let requests = role_requests_from_delta("repo", 3, &upserts);
    let (metrics, jobs) = enqueue_outcome(
        &requests,
        &[RoleQueueEnqueueResult::AlreadyCompleted, RoleQueueEnqueueResult::Enqueued],
    );
    assert_eq!((metrics.selected, metrics.enqueued, metrics.deduped), (2, 1, 1));
    assert_eq!(job_keys(&jobs), Some(vec![requests[1].scope_key()]));

    let (metrics, jobs) = enqueue_outcome(
        &requests,
        &[RoleQueueEnqueueResult::AlreadyQueued, RoleQueueEnqueueResult::AlreadyCompleted],
    );
    assert_eq!((metrics.selected, metrics.enqueued, metrics.deduped), (2, 0, 2));
    assert!(jobs.is_none());
}

#[test]
fn attempt_outcomes_follow_adjudication_outcomes() {
    assert_eq!(attempt_outcome_from_result(AdjudicationOutcome::Assigned), RoleAdjudicationAttemptOutcome::Assigned);
    assert_eq!(attempt_outcome_from_result(AdjudicationOutcome::Unknown), RoleAdjudicationAttemptOutcome::Unknown);
    assert_eq!(
        attempt_outcome_from_result(AdjudicationOutcome::NeedsReview),
        RoleAdjudicationAttemptOutcome::NeedsReview
    );
}

#[test]
fn rule_preview_keys_paths_and_lifecycles() {
    assert_eq!(preview_target_key(&RoleTarget::file("src/a.rs".to_string())), "file:src/a.rs");
    assert_eq!(
        preview_target_key(&RoleTarget::artefact("art".to_string(), "sym".to_string(), "src/a.rs".to_string())),
        "artefact:art"
    );
    assert_eq!(
        preview_target_key(&RoleTarget::symbol("art".to_string(), "sym".to_string(), "src/a.rs".to_string())),
        "symbol:sym"
    );
    let bare = RoleTarget {
        target_kind: architecture_graph::model::TargetKind::Symbol,
        artefact_id: None,
        symbol_id: None,
        path: "src/b.rs".to_string(),
    };
    assert_eq!(preview_target_key(&bare), "symbol:src/b.rs");

    assert!(path_has_test_generated_or_vendor_segment("crate/tests/it.rs"));
    assert!(path_has_test_generated_or_vendor_segment("web/__tests__/a.ts"));
    assert!(path_has_test_generated_or_vendor_segment("vendor/lib.rs"));
    assert!(!path_has_test_generated_or_vendor_segment("src/testing/helpers.rs"));
    assert!(!path_has_test_generated_or_vendor_segment("src/Tests/a.rs"));

    assert_eq!(role_rule_lifecycle_from_management("active"), Ok(RoleRuleLifecycle::Active));
    assert_eq!(role_rule_lifecycle_from_management("deprecated"), Ok(RoleRuleLifecycle::Deprecated));
    assert_eq!(
        role_rule_lifecycle_from_management("Active"),
        Err("unsupported rule lifecycle status `Active`".to_string())
    );
}

fn strings(values: &[&str]) -> Vec<String> {
    values.iter().map(|value| value.to_string()).collect()
}

#[test]
fn snippets_are_trimmed_to_a_byte_budget() {
    assert_eq!(trim_snippets(strings(&["abc", "defg", "hi"]), 5), strings(&["abc", "de"]));
    assert_eq!(trim_snippets(strings(&["abc", "defg", "hi"]), 7), strings(&["abc", "defg"]));
    assert_eq!(trim_snippets(strings(&["abc", "defg", "hi"]), 100), strings(&["abc", "defg", "hi"]));
    assert!(trim_snippets(strings(&["abc"]), 0).is_empty());
    assert_eq!(trim_snippets(strings(&["aé", "z"]), 3), strings(&["aé"]));
    assert_eq!(trim_snippets(strings(&["aé", "z"]), 4), strings(&["aé", "z"]));
    assert_eq!(trim_snippets(strings(&["aé"]), 1), strings(&["a"]));

    let limits = EvidencePacketLimits::default();
    assert_eq!(limits.max_snippet_chars, 4096);
    assert_eq!(limits.max_source_snippets, 8);
    assert_eq!(limits.max_candidate_roles, 128);
}

#[test]
fn provenance_hashes_the_serialised_packet() {
    let provenance = build_provenance(AdjudicationReason::Conflict, "model-a", "role_adjudication", b"{}", 1_700_000_000);
    assert_eq!(provenance.source, "llm");
    assert_eq!(provenance.model_descriptor, "model-a");
    assert_eq!(provenance.slot_name, "role_adjudication");
    assert_eq!(provenance.packet_sha256, "44136fa355b3678a1146ad16f7e8649e94fb4fc21fe77e8310c060f61caaff8a");
    assert_eq!(provenance.adjudication_reason, AdjudicationReason::Conflict);
    assert_eq!(provenance.adjudicated_at_unix, 1_700_000_000);
}

fn descriptor(role_id: &str) -> RoleCandidateDescriptor {
    RoleCandidateDescriptor {
        role_id: role_id.to_string(),
        canonical_key: role_id.to_string(),
        family: "family".to_string(),
        display_name: role_id.to_string(),
        description: String::new(),
    }
}

#[test]
fn assemble_evidence_packet_cuts_each_kind_of_evidence_to_its_limit() {
    let requests = role_requests_from_delta("repo", 3, &[changed("src/main.rs", "main", Some("function"))]);
    let roles = vec![descriptor("entrypoint"), descriptor("storage"), descriptor("cli")];
    let bundle = RoleFactsBundle {
        facts: vec![JsonValue::Bool(true), JsonValue::Bool(false), JsonValue::Null],
        rule_signals: vec![JsonValue::Null],
        dependency_context: vec![JsonValue::Null, JsonValue::Null],
        related_artefacts: vec![],
        source_snippets: vec!["abcdef".to_string(), "ghij".to_string(), "klm".to_string()],
        reachability: Some(JsonValue::Bool(true)),
    };
    let limits = EvidencePacketLimits {
        max_facts: 2,
        max_rule_signals: 5,
        max_dependency_items: 1,
        max_related_artefacts: 1,
        max_source_snippets: 2,
        max_snippet_chars: 8,
        max_candidate_roles: 2,
    };

    let packet = assemble_evidence_packet(&requests[0], &roles, bundle, &limits);

    assert_eq!(packet.request, requests[0]);
    let role_ids: Vec<&str> = packet.candidate_roles.iter().map(|r| r.role_id.as_str()).collect();
    assert_eq!(role_ids, vec!["entrypoint", "storage"]);
    assert_eq!(packet.facts.len(), 2);
    assert!(matches!(packet.facts[0], JsonValue::Bool(true)));
    assert!(matches!(packet.facts[1], JsonValue::Bool(false)));
    assert_eq!(packet.rule_signals.len(), 1);
    assert_eq!(packet.dependency_context.len(), 1);
    assert!(packet.related_artefacts.is_empty());
    assert_eq!(packet.source_snippets, vec!["abcdef".to_string(), "gh".to_string()]);
    assert!(matches!(packet.reachability, Some(JsonValue::Bool(true))));
}
