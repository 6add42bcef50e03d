use architecture_graph::contracts::{
    placeholder_request_hash, role_adjudication_stable_request_key, AdjudicationReason, RoleAdjudicationFailure, RoleAdjudicationRequest, RoleQueueEnqueueResult,
    RoleQueueJobStatus,
};
use architecture_graph::orchestrator::role_requests_from_delta;
use architecture_graph::queue_store::{InMemoryRoleAdjudicationQueueStore, InMemoryRoleTaxonomyReader};
use architecture_graph::request::ChangedArtefact;

fn request(generation: u64, symbol_id: Option<&str>, reason: AdjudicationReason) -> RoleAdjudicationRequest {
    RoleAdjudicationRequest {
        repo_id: "repo".to_string(),
        generation,
        stable_request_key: role_adjudication_stable_request_key(
            Some("artefact"),
            Some("artefact-1"),
            symbol_id,
            Some("src/main.rs"),
        ),
        facts_hash: placeholder_request_hash(),
        rules_hash: placeholder_request_hash(),
        cluster_key: None,
        target_kind: Some("artefact".to_string()),
        artefact_id: Some("artefact-1".to_string()),
        symbol_id: symbol_id.map(str::to_string),
        path: Some("src/main.rs".to_string()),
        language: Some("rust".to_string()),
        canonical_kind: Some("function".to_string()),
        reason,
        deterministic_confidence_permille: None,
        candidate_role_ids: vec![],
        current_assignment: None,
    }
}

fn failure(message: &str) -> RoleAdjudicationFailure {
    RoleAdjudicationFailure { message: message.to_string(), retryable: true }
}

#[test]
fn queue_store_dedupes_and_allows_retry_after_failure() {
    let mut store = InMemoryRoleAdjudicationQueueStore::new();
    let request = request(1, None, AdjudicationReason::Unknown);
    let key = request.scope_key();
    assert_eq!(key, "repo:artefact:artefact-1:unknown:pending:pending");

    assert_eq!(store.enqueue(&key), RoleQueueEnqueueResult::Enqueued);
    assert_eq!(store.enqueue(&key), RoleQueueEnqueueResult::AlreadyQueued);

    assert_eq!(store.claim(&key), Some(RoleQueueJobStatus::Running));
    assert_eq!(store.attempts_for(&key), Some(1));

    store.fail(&key, &failure("temporary provider error"));

    assert!(store.retry(&key));
    assert_eq!(store.claim(&key), Some(RoleQueueJobStatus::Running));
    assert_eq!(store.attempts_for(&key), Some(2));

    store.complete(&key);

    assert_eq!(store.enqueue(&key), RoleQueueEnqueueResult::AlreadyCompleted);
}

#[test]
fn queue_retry_only_requeues_failed_items() {
    let mut queue = InMemoryRoleAdjudicationQueueStore::new();
    let mut request = request(1, None, AdjudicationReason::Unknown);
    request.artefact_id = Some("a1".to_string());
    request.path = Some("src/lib.rs".to_string());
    request.language = None;
    request.canonical_kind = None;
    let key = request.scope_key();
    queue.enqueue(&key);

    assert!(!queue.retry(&key));

    queue.claim(&key);
    queue.fail(&key, &failure("temporary"));

    assert!(queue.retry(&key));
}

#[test]
fn queue_jobs_report_status_and_ignore_unknown_keys() {
    let mut queue = InMemoryRoleAdjudicationQueueStore::new();
    assert_eq!(queue.status_for("missing"), None);
    assert_eq!(queue.claim("missing"), None);
    assert!(!queue.retry("missing"));
    queue.complete("missing");
    assert_eq!(queue.attempts_for("missing"), None);

    queue.enqueue("a");
    queue.enqueue("b");
    assert_eq!(queue.status_for("a"), Some(RoleQueueJobStatus::Queued));
    assert_eq!(queue.attempts_for("a"), Some(0));
    queue.claim("a");
    queue.claim("a");
    assert_eq!(queue.attempts_for("a"), Some(2));
    assert_eq!(queue.attempts_for("b"), Some(0));
    queue.fail("a", &failure("boom"));
    assert_eq!(queue.status_for("a"), Some(RoleQueueJobStatus::Failed));
    assert_eq!(queue.enqueue("a"), RoleQueueEnqueueResult::AlreadyQueued);
    queue.complete("b");
    assert_eq!(queue.status_for("b"), Some(RoleQueueJobStatus::Completed));
    assert!(!queue.retry("b"));
}

#[test]
fn scope_keys_prefer_symbol_then_artefact_then_path() {
    assert_eq!(
        request(4, Some("sym"), AdjudicationReason::HighImpact).scope_key(),
        "repo:artefact:sym:high_impact:pending:pending"
    );
    assert_eq!(
        role_adjudication_stable_request_key(None, None, None, Some("src/main.rs")),
        "target:src/main.rs"
    );
    assert_eq!(role_adjudication_stable_request_key(Some("file"), None, None, None), "file:<unknown>");
    assert_eq!(
        role_adjudication_stable_request_key(Some("artefact"), Some("a"), None, Some("src/main.rs")),
        "artefact:a"
    );
    assert_eq!(
        request(4, None, AdjudicationReason::LowConfidence).scope_key(),
        request(9, None, AdjudicationReason::LowConfidence).scope_key()
    );
}

#[test]
fn taxonomy_reader_lists_active_roles_in_order_once() {
    let reader = InMemoryRoleTaxonomyReader::with_roles(&["worker", "entrypoint", "worker"]);
    assert_eq!(
        reader.load_active_role_ids("repo", 3),
        vec!["entrypoint".to_string(), "worker".to_string()]
    );
}

#[test]
fn high_confidence_skip_does_not_select_delta_jobs() {
    let artefacts = vec![ChangedArtefact {
        artefact_id: "a1".to_string(),
        symbol_id: "s1".to_string(),
        path: "src/lib.rs".to_string(),
        canonical_kind: Some("function".to_string()),
        name: "helper".to_string(),
    }];

    let requests = role_requests_from_delta("repo", 10, &artefacts);
    assert!(requests.is_empty());
}

#[test]
fn ambiguous_delta_enqueues_request() {
    let artefacts = vec![ChangedArtefact {
        artefact_id: "a1".to_string(),
        symbol_id: "s1".to_string(),
        path: "src/lib.rs".to_string(),
        canonical_kind: None,
        name: "helper".to_string(),
    }];
    let requests = role_requests_from_delta("repo", 10, &artefacts);
    assert_eq!(requests.len(), 1);
    assert_eq!(requests[0].reason, AdjudicationReason::Unknown);
}
