use architecture_graph::classifier::{
    affected_role_paths_from_request, removed_role_paths_from_request,
    role_classification_scope_from_request,
};
use architecture_graph::order::StrSet;
use architecture_graph::request::{
    ChangedArtefact, ChangedFile, CurrentStateConsumerRequest, ReconcileMode, RemovedArtefact,
    RemovedFile,
};
use architecture_graph::unknown_policy::path_suppressed_for_roles;

fn request(mode: ReconcileMode) -> CurrentStateConsumerRequest {
    CurrentStateConsumerRequest {
        run_id: Some("run".to_string()),
        repo_id: "repo-1".to_string(),
        repo_root: "/tmp/repo".to_string(),
        active_branch: Some("main".to_string()),
        head_commit_sha: Some("abc123".to_string()),
        from_generation_seq_exclusive: 1,
        to_generation_seq_inclusive: 2,
        reconcile_mode: mode,
        file_upserts: Vec::new(),
        file_removals: Vec::new(),
        affected_paths: Vec::new(),
        artefact_upserts: Vec::new(),
        artefact_removals: Vec::new(),
    }
}

fn set_items(set: &StrSet) -> Vec<String> {
    set.to_vec()
}

#[test]
fn unknown_policy_suppresses_mypy_cache_paths() {
    assert!(path_suppressed_for_roles(".mypy_cache/module/data.json"));
    assert!(path_suppressed_for_roles(
        "src/.mypy_cache/module.meta.json"
    ));
}

#[test]
fn artefact_removals_affect_but_do_not_remove_role_paths() {
    let mut request = request(ReconcileMode::MergedDelta);
    request.artefact_removals = vec![RemovedArtefact {
        artefact_id: "artefact-1".to_string(),
        symbol_id: "symbol-1".to_string(),
        path: "src/api.rs".to_string(),
    }];

    assert!(affected_role_paths_from_request(&request).contains("src/api.rs"));
    assert!(!removed_role_paths_from_request(&request).contains("src/api.rs"));
}

#[test]
fn full_reconcile_uses_all_live_role_paths() {
    let mut request = request(ReconcileMode::FullReconcile);
    request.affected_paths = vec!["src/changed.rs".to_string()];

    let scope = role_classification_scope_from_request(&request);

    assert!(scope.full_reconcile);
    assert!(scope.affected_paths.len() == 0);
    assert!(scope.removed_paths.len() == 0);
}

#[test]
fn merged_delta_scope_uses_file_and_artefact_changes() {
    let mut request = request(ReconcileMode::MergedDelta);
    request.file_upserts = vec![ChangedFile {
        path: "src/file.rs".to_string(),
        language: "rust".to_string(),
        content_id: "content:file".to_string(),
    }];
    request.file_removals = vec![RemovedFile {
        path: "src/removed.rs".to_string(),
    }];
    request.affected_paths = vec!["src/affected.rs".to_string()];
    request.artefact_upserts = vec![ChangedArtefact {
        artefact_id: "artefact-1".to_string(),
        symbol_id: "symbol-1".to_string(),
        path: "src/artefact.rs".to_string(),
        canonical_kind: Some("function".to_string()),
        name: "run".to_string(),
    }];
    request.artefact_removals = vec![RemovedArtefact {
        artefact_id: "artefact-2".to_string(),
        symbol_id: "symbol-2".to_string(),
        path: "src/artefact_removed.rs".to_string(),
    }];

    let scope = role_classification_scope_from_request(&request);

    assert!(!scope.full_reconcile);
    assert_eq!(
        set_items(&scope.affected_paths),
        vec![
            "src/affected.rs".to_string(),
            "src/artefact.rs".to_string(),
            "src/artefact_removed.rs".to_string(),
            "src/file.rs".to_string(),
            "src/removed.rs".to_string(),
        ]
    );
    assert_eq!(
        set_items(&scope.removed_paths),
        vec!["src/removed.rs".to_string()]
    );
}
