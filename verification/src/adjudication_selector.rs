//! Which deterministic classification outcomes are sent to adjudication,
//! and why.
use vstd::prelude::*;

use crate::contracts::AdjudicationReason;

verus! {

/// Below this confidence, in thousandths, a known classification is still
/// adjudicated.
pub const HIGH_CONFIDENCE_THRESHOLD: u32 = 850;

/// What the deterministic classifier concluded about a target. The
/// confidence is in thousandths.
#[derive(Debug, Clone, PartialEq, Eq)]
pub struct DeterministicRoleOutcomeInput {
    pub classification_known: bool,
    pub best_confidence_permille: Option<u32>,
    pub has_conflict: bool,
    pub high_impact: bool,
    pub novel_pattern: bool,
    pub manual_review_requested: bool,
}

impl DeterministicRoleOutcomeInput {
    /// A known, confident (950 thousandths), unremarkable outcome.
    pub fn high_confidence_known() -> (r: Self)
        ensures
            r.classification_known,
            r.best_confidence_permille == Some(950u32),
            !r.has_conflict,
            !r.high_impact,
            !r.novel_pattern,
            !r.manual_review_requested,
    {
        DeterministicRoleOutcomeInput {
            classification_known: true,
            best_confidence_permille: Some(950),
            has_conflict: false,
            high_impact: false,
            novel_pattern: false,
            manual_review_requested: false,
        }
    }
}

/// The first reason that applies, in order of precedence: a requested
/// review, high impact, an unknown role, a conflict, a novel pattern, and
/// a confidence below the threshold (an absent confidence counts as zero).
pub open spec fn adjudication_reason_of(input: DeterministicRoleOutcomeInput) -> Option<AdjudicationReason> {
    if input.manual_review_requested {
        Some(AdjudicationReason::ManualReview)
    } else if input.high_impact {
        Some(AdjudicationReason::HighImpact)
    } else if !input.classification_known {
        Some(AdjudicationReason::Unknown)
    } else if input.has_conflict {
        Some(AdjudicationReason::Conflict)
    } else if input.novel_pattern {
        Some(AdjudicationReason::NovelPattern)
    } else if match input.best_confidence_permille {
        Some(c) => c < HIGH_CONFIDENCE_THRESHOLD,
        None => true,
    } {
        Some(AdjudicationReason::LowConfidence)
    } else {
        None
    }
}

pub fn select_adjudication_reason(input: &DeterministicRoleOutcomeInput) -> (r: Option<AdjudicationReason>)
    ensures
        r == adjudication_reason_of(*input),
{
    if input.manual_review_requested {
        return Some(AdjudicationReason::ManualReview);
    }
    if input.high_impact {
        return Some(AdjudicationReason::HighImpact);
    }
    if !input.classification_known {
        return Some(AdjudicationReason::Unknown);
    }
    if input.has_conflict {
        return Some(AdjudicationReason::Conflict);
    }
    if input.novel_pattern {
        return Some(AdjudicationReason::NovelPattern);
    }
    let confidence = match input.best_confidence_permille {
        Some(c) => c,
        None => 0,
    };
    if confidence < HIGH_CONFIDENCE_THRESHOLD {
        return Some(AdjudicationReason::LowConfidence);
    }
    None
}

/// A confident, known, conflict-free outcome that nobody flagged is never
/// adjudicated, and every other outcome is.
pub proof fn lemma_only_confident_known_outcomes_skip(input: DeterministicRoleOutcomeInput)
    ensures
        adjudication_reason_of(input) is None <==> (input.classification_known && !input.has_conflict
            && !input.high_impact && !input.novel_pattern && !input.manual_review_requested && match input.best_confidence_permille {
            Some(c) => c >= HIGH_CONFIDENCE_THRESHOLD,
            None => false,
        }),
{
}

} // verus!
