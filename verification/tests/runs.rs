use architecture_graph::adjudication_run::{
    adjudication_run_step, AdjudicationRunAction, AdjudicationRunEvent, AdjudicationRunStage,
};
use architecture_graph::contracts::{AdjudicationOutcome, RoleAdjudicationAttemptOutcome};
use architecture_graph::proposal_dispatch::{
    proposal_application, role_lifecycle_change, rule_lifecycle_change, ProposalApplication, ProposalChange,
};
use architecture_graph::role_reconcile_run::{
    ReconcileStage, RoleReconcileAction, RoleReconcileEvent, RoleReconcileRun, ROLE_CURRENT_STATE_FILE_BATCH_SIZE,
};

fn step(stage: AdjudicationRunStage, event: AdjudicationRunEvent) -> (AdjudicationRunStage, Option<AdjudicationRunAction>) {
    adjudication_run_step(&stage, &event)
}

#[test]
fn adjudication_run_requeues_an_unqueued_job_then_builds_the_packet() {
    let (stage, action) = step(AdjudicationRunStage::Claim, AdjudicationRunEvent::Claimed(false));
    assert!(matches!(stage, AdjudicationRunStage::Requeue));
    assert!(matches!(action, Some(AdjudicationRunAction::EnqueueAndClaim)));
    let (stage, action) = step(stage, AdjudicationRunEvent::Requeued);
    assert!(matches!(stage, AdjudicationRunStage::Packet));
    assert!(matches!(action, Some(AdjudicationRunAction::BuildPacket)));
}

#[test]
fn adjudication_run_fails_without_candidate_roles() {
    let (stage, action) = step(AdjudicationRunStage::Packet, AdjudicationRunEvent::PacketBuilt(0));
    assert!(matches!(stage, AdjudicationRunStage::Finished));
    match action {
        Some(AdjudicationRunAction::Fail { attempt, model_descriptor, failure }) => {
            assert_eq!(attempt, RoleAdjudicationAttemptOutcome::NoActiveRoles);
            assert_eq!(model_descriptor, "unavailable");
            assert_eq!(failure.message, "no active taxonomy roles available for adjudication");
            assert!(!failure.retryable);
        },
        _ => panic!("expected a failure"),
    }
}

#[test]
fn adjudication_run_retries_model_errors_but_not_invalid_answers() {
    let (stage, action) = step(AdjudicationRunStage::Model, AdjudicationRunEvent::ModelAnswered(Err("timeout".to_string())));
    assert!(matches!(stage, AdjudicationRunStage::Finished));
    match action {
        Some(AdjudicationRunAction::Fail { attempt, model_descriptor, failure }) => {
            assert_eq!(attempt, RoleAdjudicationAttemptOutcome::LlmError);
            assert_eq!(model_descriptor, "unknown");
            assert_eq!(failure.message, "llm adjudication failed: timeout");
            assert!(failure.retryable);
        },
        _ => panic!("expected a failure"),
    }
    let (stage, action) =
        step(AdjudicationRunStage::Model, AdjudicationRunEvent::ModelAnswered(Ok("model-a".to_string())));
    assert!(matches!(action, Some(AdjudicationRunAction::ValidateAnswer)));
    let (_, action) = step(stage, AdjudicationRunEvent::Validated(Err("schema validation failed: x".to_string())));
    match action {
        Some(AdjudicationRunAction::Fail { attempt, model_descriptor, failure }) => {
            assert_eq!(attempt, RoleAdjudicationAttemptOutcome::ValidationError);
            assert_eq!(model_descriptor, "model-a");
            assert!(!failure.retryable);
        },
        _ => panic!("expected a failure"),
    }
}

#[test]
fn adjudication_run_writes_only_assigned_results() {
    for (outcome, attempt_outcome, write) in [
        (AdjudicationOutcome::Assigned, RoleAdjudicationAttemptOutcome::Assigned, true),
        (AdjudicationOutcome::Unknown, RoleAdjudicationAttemptOutcome::Unknown, false),
        (AdjudicationOutcome::NeedsReview, RoleAdjudicationAttemptOutcome::NeedsReview, false),
    ] {
        let (stage, action) = step(
            AdjudicationRunStage::Validate("model-a".to_string()),
            AdjudicationRunEvent::Validated(Ok(outcome)),
        );
        assert!(matches!(stage, AdjudicationRunStage::Finished));
        match action {
            Some(AdjudicationRunAction::Complete { attempt, model_descriptor, write: w }) => {
                assert_eq!(attempt, attempt_outcome);
                assert_eq!(model_descriptor, "model-a");
                assert_eq!(w, write);
            },
            _ => panic!("expected completion"),
        }
    }
    let (stage, action) = step(AdjudicationRunStage::Finished, AdjudicationRunEvent::Requeued);
    assert!(matches!(stage, AdjudicationRunStage::Finished));
    assert!(action.is_none());
}

#[test]
fn inactive_role_pipeline_is_skipped_and_delta_is_classified_at_once() {
    let mut run = RoleReconcileRun::start(true);
    assert!(matches!(run.step(RoleReconcileEvent::Activation(false)), Some(RoleReconcileAction::FinishInactive)));
    assert_eq!(run.stage, ReconcileStage::Finished);

    let mut delta = RoleReconcileRun::start(false);
    assert!(matches!(delta.step(RoleReconcileEvent::Activation(true)), Some(RoleReconcileAction::ClassifyDelta)));
    assert_eq!(delta.stage, ReconcileStage::Finished);
}

#[test]
fn full_reconcile_classifies_batches_and_retires_paths_no_longer_live() {
    let mut run = RoleReconcileRun::start(true);
    match run.step(RoleReconcileEvent::Activation(true)) {
        Some(RoleReconcileAction::LoadBatch { offset, limit }) => {
            assert_eq!(offset, 0);
            assert_eq!(limit, ROLE_CURRENT_STATE_FILE_BATCH_SIZE);
        },
        _ => panic!("expected a batch load"),
    }
    match run.step(RoleReconcileEvent::FileBatch(vec!["src/b.rs".to_string(), "src/a.rs".to_string()])) {
        Some(RoleReconcileAction::ClassifyBatch { affected_paths }) => {
            assert_eq!(affected_paths.to_vec(), vec!["src/a.rs".to_string(), "src/b.rs".to_string()]);
        },
        _ => panic!("expected a classification"),
    }
    match run.step(RoleReconcileEvent::Classified) {
        Some(RoleReconcileAction::LoadBatch { offset, .. }) => assert_eq!(offset, 2),
        _ => panic!("expected a batch load"),
    }
    match run.step(RoleReconcileEvent::FileBatch(vec![])) {
        Some(RoleReconcileAction::LoadRemovedPaths { live_paths }) => {
            assert_eq!(live_paths.to_vec(), vec!["src/a.rs".to_string(), "src/b.rs".to_string()]);
        },
        _ => panic!("expected the removed paths to be loaded"),
    }
    match run.step(RoleReconcileEvent::RemovedPaths(vec!["src/old.rs".to_string(), "src/old.rs".to_string()])) {
        Some(RoleReconcileAction::CleanUpRemoved { removed_paths }) => {
            assert_eq!(removed_paths.to_vec(), vec!["src/old.rs".to_string()]);
        },
        _ => panic!("expected a clean-up"),
    }
    match run.step(RoleReconcileEvent::CleanedUp) {
        Some(RoleReconcileAction::FinishFull { file_batches, removed_paths }) => {
            assert_eq!(file_batches, 1);
            assert_eq!(removed_paths, 1);
        },
        _ => panic!("expected the end"),
    }
    assert!(run.step(RoleReconcileEvent::Classified).is_none());
}

#[test]
fn proposals_dispatch_by_type_and_applied_ones_are_only_summarised() {
    assert_eq!(proposal_application("applied", "anything"), Ok(ProposalApplication::AlreadyApplied));
    assert_eq!(
        proposal_application("pending", "deprecate_role"),
        Ok(ProposalApplication::Apply(ProposalChange::RoleLifecycle { deprecate: true }))
    );
    assert_eq!(
        proposal_application("pending", "disable_rule"),
        Ok(ProposalApplication::Apply(ProposalChange::RuleLifecycle { activate: false }))
    );
    assert_eq!(proposal_application("pending", "merge_roles"), Ok(ProposalApplication::Apply(ProposalChange::MergeRoles)));
    assert_eq!(proposal_application("pending", "bogus"), Err("unsupported proposal type `bogus`".to_string()));
    assert_eq!(role_lifecycle_change(true), ("deprecated", "needs_review"));
    assert_eq!(role_lifecycle_change(false), ("removed", "stale"));
    assert_eq!(rule_lifecycle_change(true), "active");
}
