//! What a classification run reports: how many targets are covered by
//! active assignments, wait for a review or are left unassigned, and how
//! many adjudication requests were made for each reason. Ratios are in
//! thousandths.
use vstd::prelude::*;

use crate::aggregation::{ArchitectureRoleAssignment, AssignmentStatus};
use crate::contracts::{AdjudicationReason, RoleAdjudicationRequest};
use crate::model::{opt_view, RoleTarget, TargetV};
use crate::order::StrSet;
use crate::unknown_policy::{lists_target, target_listed, RoleTargetSummary};

verus! {

/// The counts of a classification run.
pub struct ArchitectureRoleReconcileMetrics {
    pub target_count: usize,
    pub deterministic_active_targets: usize,
    pub deterministic_needs_review_targets: usize,
    pub deterministic_conflict_targets: usize,
    pub deterministic_unassigned_targets: usize,
    pub repeated_adjudication_suppressed: usize,
    pub deterministic_guard_skipped: usize,
    pub unknown_adjudication_candidates: usize,
    pub high_impact_adjudication_candidates: usize,
    pub low_confidence_adjudication_candidates: usize,
    pub conflict_adjudication_candidates: usize,
    pub deterministic_coverage_ratio_permille: u128,
    pub needs_review_ratio_permille: u128,
    pub unknown_ratio_permille: u128,
}

/// Whether some request for a conflict names `path`.
pub open spec fn conflict_requested(reqs: Seq<RoleAdjudicationRequest>, path: Seq<char>) -> bool {
    exists|j: int| 0 <= j < reqs.len() && (#[trigger] reqs[j]).reason == AdjudicationReason::Conflict && opt_view(reqs[j].path) == Some(path)
}

/// Whether assignment `a` counts for `status` (for a conflict: it needs a
/// review and a conflict request names its path).
pub open spec fn counts_for(a: ArchitectureRoleAssignment, status: AssignmentStatus, conflict_only: bool, reqs: Seq<RoleAdjudicationRequest>) -> bool {
    a.status == status && (!conflict_only || conflict_requested(reqs, a.target.path@))
}

/// The targets of the assignments that count.
pub open spec fn counted_targets(
    asg: Seq<ArchitectureRoleAssignment>,
    status: AssignmentStatus,
    conflict_only: bool,
    reqs: Seq<RoleAdjudicationRequest>,
) -> Set<TargetV> {
    Set::new(|t: TargetV| exists|i: int| 0 <= i < asg.len() && counts_for(#[trigger] asg[i], status, conflict_only, reqs) && asg[i].target@ == t)
}

/// The paths of the assignments that are not stale.
pub open spec fn assigned_paths(asg: Seq<ArchitectureRoleAssignment>) -> Set<Seq<char>> {
    Set::new(|p: Seq<char>| exists|i: int| 0 <= i < asg.len() && (#[trigger] asg[i]).status != AssignmentStatus::Stale && asg[i].target.path@ == p)
}

/// How many of the summaries have a path no live assignment has.
pub open spec fn unassigned_count(sums: Seq<RoleTargetSummary>, paths: Set<Seq<char>>) -> nat
    decreases sums.len(),
{
    if sums.len() == 0 {
        0
    } else {
        unassigned_count(sums.drop_last(), paths) + if paths.contains(sums.last().target.path@) {
            0nat
        } else {
            1nat
        }
    }
}

/// How many requests have this reason.
pub open spec fn reason_count(reqs: Seq<RoleAdjudicationRequest>, reason: AdjudicationReason) -> nat
    decreases reqs.len(),
{
    if reqs.len() == 0 {
        0
    } else {
        reason_count(reqs.drop_last(), reason) + if reqs.last().reason == reason {
            1nat
        } else {
            0nat
        }
    }
}

/// `n / d` in thousandths, rounded down; 0 when `d` is 0.
pub open spec fn ratio_permille(n: int, d: int) -> int {
    if d == 0 {
        0
    } else {
        n * 1000 / d
    }
}

pub open spec fn target_views(v: Seq<RoleTarget>) -> Seq<TargetV> {
    v.map_values(|t: RoleTarget| t@)
}

fn distinct_counted_targets(
    assignments: &[ArchitectureRoleAssignment],
    status: AssignmentStatus,
    conflict_only: bool,
    requests: &[RoleAdjudicationRequest],
) -> (r: usize)
    ensures
        r == counted_targets(assignments@, status, conflict_only, requests@).len(),
        r <= assignments@.len(),
{
    let ghost asg = assignments@;
    let mut seen: Vec<RoleTarget> = Vec::new();
    let mut i: usize = 0;
    while i < assignments.len()
        invariant
            i <= asg.len(),
            asg == assignments@,
            seen@.len() <= i,
            target_views(seen@).no_duplicates(),
            target_views(seen@).to_set() == Set::new(
                |t: TargetV| exists|k: int| 0 <= k < i && counts_for(#[trigger] asg[k], status, conflict_only, requests@) && asg[k].target@ == t,
            ),
        decreases asg.len() - i,
    {
        let a = &assignments[i];
        let same_status = match (a.status, status) {
            (AssignmentStatus::Active, AssignmentStatus::Active) => true,
            (AssignmentStatus::NeedsReview, AssignmentStatus::NeedsReview) => true,
            (AssignmentStatus::Stale, AssignmentStatus::Stale) => true,
            _ => false,
        };
        let mut counts = same_status;
        if counts && conflict_only {
            let mut requested = false;
            let mut j: usize = 0;
            while j < requests.len()
                invariant
                    j <= requests@.len(),
                    requested == exists|m: int| 0 <= m < j && (#[trigger] requests@[m]).reason == AdjudicationReason::Conflict
                        && opt_view(requests@[m].path) == Some(a.target.path@),
                decreases requests@.len() - j,
            {
                let is_conflict = match requests[j].reason {
                    AdjudicationReason::Conflict => true,
                    _ => false,
                };
                if is_conflict {
                    match &requests[j].path {
                        Some(p) => {
                            if crate::text::str_eq(p.as_str(), a.target.path.as_str()) {
                                requested = true;
                            }
                        },
                        None => {},
                    }
                }
                j = j + 1;
            }
            counts = requested;
        }
        assert(counts == counts_for(asg[i as int], status, conflict_only, requests@));
        let ghost before = seen@;
        if counts && !lists_target(seen.as_slice(), &a.target) {
            seen.push(a.target.duplicate());
            assert(target_views(seen@) =~= target_views(before).push(a.target@));
            assert(!target_views(before).contains(a.target@)) by {
                if target_views(before).contains(a.target@) {
                    let w = choose|w: int| 0 <= w < target_views(before).len() && target_views(before)[w] == a.target@;
                    assert(before[w]@ == a.target@);
                }
            }
        }
        assert(target_views(seen@).to_set() =~= Set::new(
            |t: TargetV| exists|k: int| 0 <= k < i + 1 && counts_for(#[trigger] asg[k], status, conflict_only, requests@) && asg[k].target@ == t,
        )) by {
            assert forall|t: TargetV| target_views(seen@).to_set().contains(t) == (exists|k: int|
                0 <= k < i + 1 && counts_for(#[trigger] asg[k], status, conflict_only, requests@) && asg[k].target@ == t) by {
                if counts && t == a.target@ {
                    assert(counts_for(asg[i as int], status, conflict_only, requests@) && asg[i as int].target@ == t);
                    if target_listed(before, a.target@) {
                        let w = choose|w: int| 0 <= w < before.len() && #[trigger] before[w]@ == a.target@;
                        assert(target_views(before)[w] == t);
                        assert(target_views(before).contains(t));
                    } else {
                        assert(target_views(seen@)[before.len() as int] == t);
                    }
                }
                if exists|k: int| 0 <= k < i + 1 && counts_for(#[trigger] asg[k], status, conflict_only, requests@) && asg[k].target@ == t {
                    let k = choose|k: int| 0 <= k < i + 1 && counts_for(#[trigger] asg[k], status, conflict_only, requests@) && asg[k].target@ == t;
                    if k < i {
                        assert(target_views(before).to_set().contains(t));
                        let w = choose|w: int| 0 <= w < target_views(before).len() && target_views(before)[w] == t;
                        assert(target_views(seen@)[w] == t);
                    }
                }
                if target_views(seen@).to_set().contains(t) {
                    let w = choose|w: int| 0 <= w < target_views(seen@).len() && target_views(seen@)[w] == t;
                    if w < before.len() {
                        assert(target_views(before)[w] == t);
                        assert(target_views(before).to_set().contains(t));
                    }
                }
            }
        }
        i = i + 1;
    }
    proof {
        target_views(seen@).unique_seq_to_set();
        assert(Set::new(
            |t: TargetV| exists|k: int| 0 <= k < i && counts_for(#[trigger] asg[k], status, conflict_only, requests@) && asg[k].target@ == t,
        ) =~= counted_targets(asg, status, conflict_only, requests@));
    }
    seen.len()
}

/// The counts of a run over the summaries, the assignments and the
/// requests; the two counts given are passed through.
pub open spec fn metrics_hold(
    r: ArchitectureRoleReconcileMetrics,
    sums: Seq<RoleTargetSummary>,
    asg: Seq<ArchitectureRoleAssignment>,
    reqs: Seq<RoleAdjudicationRequest>,
    repeated_adjudication_suppressed: usize,
    deterministic_guard_skipped: usize,
) -> bool {
    &&& r.target_count == sums.len()
    &&& r.deterministic_active_targets == counted_targets(asg, AssignmentStatus::Active, false, reqs).len()
    &&& r.deterministic_needs_review_targets == counted_targets(
            asg,
            AssignmentStatus::NeedsReview,
            false,
            reqs,
        ).len()
    &&& r.deterministic_conflict_targets == counted_targets(
            asg,
            AssignmentStatus::NeedsReview,
            true,
            reqs,
        ).len()
    &&& r.deterministic_unassigned_targets == unassigned_count(sums, assigned_paths(asg))
    &&& r.repeated_adjudication_suppressed == repeated_adjudication_suppressed
    &&& r.deterministic_guard_skipped == deterministic_guard_skipped
    &&& r.unknown_adjudication_candidates == reason_count(reqs, AdjudicationReason::Unknown)
    &&& r.high_impact_adjudication_candidates == reason_count(reqs, AdjudicationReason::HighImpact)
    &&& r.low_confidence_adjudication_candidates == reason_count(reqs, AdjudicationReason::LowConfidence)
    &&& r.conflict_adjudication_candidates == reason_count(reqs, AdjudicationReason::Conflict)
    &&& r.deterministic_coverage_ratio_permille == ratio_permille(
            r.deterministic_active_targets as int,
            sums.len() as int,
        )
    &&& r.needs_review_ratio_permille == ratio_permille(
            r.deterministic_needs_review_targets as int,
            sums.len() as int,
        )
    &&& r.unknown_ratio_permille == ratio_permille(
            r.deterministic_unassigned_targets as int,
            sums.len() as int,
        )
}

/// The counts of a run: the targets of the summaries, the distinct targets
/// with active, needs-review and conflicting assignments, the summaries
/// whose path no live assignment has, and the requests by reason.
pub fn expanded_reconcile_metrics(
    target_summaries: &[RoleTargetSummary],
    assignments: &[ArchitectureRoleAssignment],
    adjudication_requests: &[RoleAdjudicationRequest],
    repeated_adjudication_suppressed: usize,
    deterministic_guard_skipped: usize,
) -> (r: ArchitectureRoleReconcileMetrics)
    ensures
        metrics_hold(
            r,
            target_summaries@,
            assignments@,
            adjudication_requests@,
            repeated_adjudication_suppressed,
            deterministic_guard_skipped,
        ),
{
    let target_count = target_summaries.len();
    let active = distinct_counted_targets(assignments, AssignmentStatus::Active, false, adjudication_requests);
    let review = distinct_counted_targets(assignments, AssignmentStatus::NeedsReview, false, adjudication_requests);
    let conflicts = distinct_counted_targets(assignments, AssignmentStatus::NeedsReview, true, adjudication_requests);
    // The paths of the live assignments.
    let ghost asg = assignments@;
    let mut paths = StrSet::new();
    let mut i: usize = 0;
    while i < assignments.len()
        invariant
            i <= asg.len(),
            asg == assignments@,
            paths@.to_set() == Set::new(
                |p: Seq<char>| exists|k: int| 0 <= k < i && (#[trigger] asg[k]).status != AssignmentStatus::Stale && asg[k].target.path@ == p,
            ),
        decreases asg.len() - i,
    {
        let live = match assignments[i].status {
            AssignmentStatus::Stale => false,
            _ => true,
        };
        let ghost before = paths@.to_set();
        if live {
            paths.insert(assignments[i].target.path.clone());
        }
        assert(paths@.to_set() =~= Set::new(
            |p: Seq<char>| exists|k: int| 0 <= k < i + 1 && (#[trigger] asg[k]).status != AssignmentStatus::Stale && asg[k].target.path@ == p,
        )) by {
            assert forall|p: Seq<char>| paths@.to_set().contains(p) == (exists|k: int|
                0 <= k < i + 1 && (#[trigger] asg[k]).status != AssignmentStatus::Stale && asg[k].target.path@ == p) by {
                if exists|k: int| 0 <= k < i + 1 && (#[trigger] asg[k]).status != AssignmentStatus::Stale && asg[k].target.path@ == p {
                    let k = choose|k: int| 0 <= k < i + 1 && (#[trigger] asg[k]).status != AssignmentStatus::Stale && asg[k].target.path@ == p;
                    if k < i {
                        assert(before.contains(p));
                    }
                }
            }
        }
        i = i + 1;
    }
    assert(paths@.to_set() =~= assigned_paths(asg));
    // The summaries without a live assignment.
    let ghost sums = target_summaries@;
    let mut unassigned: usize = 0;
    let mut s: usize = 0;
    while s < target_summaries.len()
        invariant
            s <= sums.len(),
            sums == target_summaries@,
            paths@.to_set() == assigned_paths(asg),
            unassigned == unassigned_count(sums.take(s as int), assigned_paths(asg)),
            unassigned <= s,
        decreases sums.len() - s,
    {
        assert(sums.take(s + 1).drop_last() =~= sums.take(s as int));
        assert(sums.take(s + 1).last() == sums[s as int]);
        if !paths.contains(target_summaries[s].target.path.as_str()) {
            unassigned = unassigned + 1;
        }
        s = s + 1;
    }
    assert(sums.take(s as int) =~= sums);
    // The requests by reason.
    let ghost reqs = adjudication_requests@;
    let mut unknown: usize = 0;
    let mut high_impact: usize = 0;
    let mut low_confidence: usize = 0;
    let mut conflict: usize = 0;
    let mut q: usize = 0;
    while q < adjudication_requests.len()
        invariant
            q <= reqs.len(),
            reqs == adjudication_requests@,
            unknown == reason_count(reqs.take(q as int), AdjudicationReason::Unknown),
            high_impact == reason_count(reqs.take(q as int), AdjudicationReason::HighImpact),
            low_confidence == reason_count(reqs.take(q as int), AdjudicationReason::LowConfidence),
            conflict == reason_count(reqs.take(q as int), AdjudicationReason::Conflict),
            unknown <= q,
            high_impact <= q,
            low_confidence <= q,
            conflict <= q,
        decreases reqs.len() - q,
    {
        assert(reqs.take(q + 1).drop_last() =~= reqs.take(q as int));
        assert(reqs.take(q + 1).last() == reqs[q as int]);
        match adjudication_requests[q].reason {
            AdjudicationReason::Unknown => unknown = unknown + 1,
            AdjudicationReason::HighImpact => high_impact = high_impact + 1,
            AdjudicationReason::LowConfidence => low_confidence = low_confidence + 1,
            AdjudicationReason::Conflict => conflict = conflict + 1,
            _ => {},
        }
        q = q + 1;
    }
    assert(reqs.take(q as int) =~= reqs);
    let coverage = ratio_of(active, target_count);
    let needs_review = ratio_of(review, target_count);
    let unknown_ratio = ratio_of(unassigned, target_count);
    ArchitectureRoleReconcileMetrics {
        target_count,
        deterministic_active_targets: active,
        deterministic_needs_review_targets: review,
        deterministic_conflict_targets: conflicts,
        deterministic_unassigned_targets: unassigned,
        repeated_adjudication_suppressed,
        deterministic_guard_skipped,
        unknown_adjudication_candidates: unknown,
        high_impact_adjudication_candidates: high_impact,
        low_confidence_adjudication_candidates: low_confidence,
        conflict_adjudication_candidates: conflict,
        deterministic_coverage_ratio_permille: coverage,
        needs_review_ratio_permille: needs_review,
        unknown_ratio_permille: unknown_ratio,
    }
}

fn ratio_of(n: usize, d: usize) -> (r: u128)
    ensures
        r == ratio_permille(n as int, d as int),
{
    if d == 0 {
        0
    } else {
        let scaled = n as u128 * 1000;
        scaled / d as u128
    }
}

} // verus!
