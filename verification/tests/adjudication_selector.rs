use architecture_graph::adjudication_selector::{
    select_adjudication_reason, DeterministicRoleOutcomeInput, HIGH_CONFIDENCE_THRESHOLD,
};
use architecture_graph::contracts::AdjudicationReason;

#[test]
fn high_confidence_non_conflicting_result_skips_adjudication() {
    let input = DeterministicRoleOutcomeInput::high_confidence_known();
    assert_eq!(select_adjudication_reason(&input), None);
}

#[test]
fn low_confidence_result_is_enqueued() {
    let input = DeterministicRoleOutcomeInput {
        best_confidence_permille: Some(400),
        ..DeterministicRoleOutcomeInput::high_confidence_known()
    };

    assert_eq!(
        select_adjudication_reason(&input),
        Some(AdjudicationReason::LowConfidence)
    );
}

#[test]
fn unknown_and_conflict_cases_are_enqueued() {
    let unknown = DeterministicRoleOutcomeInput {
        classification_known: false,
        ..DeterministicRoleOutcomeInput::high_confidence_known()
    };
    let conflict = DeterministicRoleOutcomeInput {
        has_conflict: true,
        ..DeterministicRoleOutcomeInput::high_confidence_known()
    };

    assert_eq!(
        select_adjudication_reason(&unknown),
        Some(AdjudicationReason::Unknown)
    );
    assert_eq!(
        select_adjudication_reason(&conflict),
        Some(AdjudicationReason::Conflict)
    );
}

#[test]
fn adjudication_reasons_follow_their_precedence() {
    let everything = DeterministicRoleOutcomeInput {
        classification_known: false,
        best_confidence_permille: None,
        has_conflict: true,
        high_impact: true,
        novel_pattern: true,
        manual_review_requested: true,
    };
    assert_eq!(select_adjudication_reason(&everything), Some(AdjudicationReason::ManualReview));
    let no_review = DeterministicRoleOutcomeInput { manual_review_requested: false, ..everything.clone() };
    assert_eq!(select_adjudication_reason(&no_review), Some(AdjudicationReason::HighImpact));
    let novel = DeterministicRoleOutcomeInput {
        novel_pattern: true,
        ..DeterministicRoleOutcomeInput::high_confidence_known()
    };
    assert_eq!(select_adjudication_reason(&novel), Some(AdjudicationReason::NovelPattern));
    let missing = DeterministicRoleOutcomeInput {
        best_confidence_permille: None,
        ..DeterministicRoleOutcomeInput::high_confidence_known()
    };
    assert_eq!(select_adjudication_reason(&missing), Some(AdjudicationReason::LowConfidence));
    let at_threshold = DeterministicRoleOutcomeInput {
        best_confidence_permille: Some(HIGH_CONFIDENCE_THRESHOLD),
        ..DeterministicRoleOutcomeInput::high_confidence_known()
    };
    assert_eq!(select_adjudication_reason(&at_threshold), None);
    let below = DeterministicRoleOutcomeInput {
        best_confidence_permille: Some(HIGH_CONFIDENCE_THRESHOLD - 1),
        ..DeterministicRoleOutcomeInput::high_confidence_known()
    };
    assert_eq!(select_adjudication_reason(&below), Some(AdjudicationReason::LowConfidence));
}
