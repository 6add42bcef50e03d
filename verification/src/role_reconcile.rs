//! The decisions of a classification run over the current state: the
//! facts are evaluated by the rules, the signals aggregated into
//! assignments, these merged with the stored ones, and the targets that
//! need a review or no rule took turned into adjudication requests.
use vstd::prelude::*;

use crate::aggregation::{
    adjudication_requests_from_assignments, aggregate_role_assignments, assignment_holds, assignment_plan,
    review_request_holds, review_positions, review_targets, sort_review, ArchitectureRoleAssignment,
    AssignmentAggregationConfig, AssignmentStatus,
};
use crate::assignment_merge::{
    assignment_same, authoritative, authoritative_current_assignment, copy_assignment, current_follows,
    history_follows, merge_assignments, merge_plan, AssignmentHistoryWrite, MergedAssignments,
};
use crate::contracts::{scope_key_of, RoleAdjudicationRequest, RoleCurrentAssignmentSnapshot};
use crate::model::{clone_opt, fact_views, opt_view, ArchitectureArtefactFact, RoleTarget, TargetV};
use crate::order::StrSet;
use crate::reconcile_metrics::{
    assigned_paths, counted_targets, expanded_reconcile_metrics, ratio_permille, reason_count, unassigned_count,
    ArchitectureRoleReconcileMetrics,
};
use crate::rules::{
    evaluate_rules_over_facts, rules_plan, signals_follow, string_views, target_groups, ArchitectureRoleRuleSignal,
    CompiledArchitectureRoleRule, EvaluationErrorV, RuleEvaluationError, SignalPlan,
};
use crate::unknown_policy::{
    facts_by_target, file_target_paths, fact_targets, group_targets, policy_outcome_holds, select_unknown_target_policy,
    summary_targets, summary_views, target_listed, target_summaries_from_facts, RoleTargetSummary, TargetFacts,
    UnknownScope, UnknownTargetPolicyOutcome,
};

verus! {

// ---------------------------------------------------------------------------
// Copies of requests
// ---------------------------------------------------------------------------

pub open spec fn snapshot_same(a: Option<RoleCurrentAssignmentSnapshot>, b: Option<RoleCurrentAssignmentSnapshot>) -> bool {
    match a {
        Some(x) => b matches Some(y) && x.role_id@ == y.role_id@ && x.confidence_permille == y.confidence_permille
            && opt_view(x.source) == opt_view(y.source),
        None => b is None,
    }
}

/// Whether request `b` is a copy of `a`.
pub open spec fn request_same(a: RoleAdjudicationRequest, b: RoleAdjudicationRequest) -> bool {
    &&& a.repo_id@ == b.repo_id@
    &&& a.generation == b.generation
    &&& a.stable_request_key@ == b.stable_request_key@
    &&& a.facts_hash@ == b.facts_hash@
    &&& a.rules_hash@ == b.rules_hash@
    &&& opt_view(a.cluster_key) == opt_view(b.cluster_key)
    &&& opt_view(a.target_kind) == opt_view(b.target_kind)
    &&& opt_view(a.artefact_id) == opt_view(b.artefact_id)
    &&& opt_view(a.symbol_id) == opt_view(b.symbol_id)
    &&& opt_view(a.path) == opt_view(b.path)
    &&& opt_view(a.language) == opt_view(b.language)
    &&& opt_view(a.canonical_kind) == opt_view(b.canonical_kind)
    &&& a.reason == b.reason
    &&& a.deterministic_confidence_permille == b.deterministic_confidence_permille
    &&& string_views(a.candidate_role_ids@) == string_views(b.candidate_role_ids@)
    &&& snapshot_same(a.current_assignment, b.current_assignment)
}

fn copy_strings(v: &Vec<String>) -> (r: Vec<String>)
    ensures
        string_views(r@) == string_views(v@),
{
    let mut out: Vec<String> = Vec::new();
    let mut i: usize = 0;
    while i < v.len()
        invariant
            i <= v@.len(),
            string_views(out@) == string_views(v@).take(i as int),
        decreases v@.len() - i,
    {
        let ghost before = out@;
        out.push(crate::text::owned(v[i].as_str()));
        assert(string_views(out@) =~= string_views(before).push(v@[i as int]@));
        assert(string_views(v@).take(i + 1) =~= string_views(v@).take(i as int).push(v@[i as int]@));
        i = i + 1;
    }
    assert(string_views(v@).take(i as int) =~= string_views(v@));
    out
}

/// A copy of a request.
pub fn copy_request(a: &RoleAdjudicationRequest) -> (r: RoleAdjudicationRequest)
    ensures
        request_same(*a, r),
        scope_key_of(r) == scope_key_of(*a),
{
    let current_assignment = match &a.current_assignment {
        Some(c) => Some(
            RoleCurrentAssignmentSnapshot {
                role_id: c.role_id.clone(),
                confidence_permille: c.confidence_permille,
                source: clone_opt(&c.source),
            },
        ),
        None => None,
    };
    RoleAdjudicationRequest {
        repo_id: a.repo_id.clone(),
        generation: a.generation,
        stable_request_key: a.stable_request_key.clone(),
        facts_hash: a.facts_hash.clone(),
        rules_hash: a.rules_hash.clone(),
        cluster_key: clone_opt(&a.cluster_key),
        target_kind: clone_opt(&a.target_kind),
        artefact_id: clone_opt(&a.artefact_id),
        symbol_id: clone_opt(&a.symbol_id),
        path: clone_opt(&a.path),
        language: clone_opt(&a.language),
        canonical_kind: clone_opt(&a.canonical_kind),
        reason: a.reason,
        deterministic_confidence_permille: a.deterministic_confidence_permille,
        candidate_role_ids: copy_strings(&a.candidate_role_ids),
        current_assignment,
    }
}

// ---------------------------------------------------------------------------
// Requests with new scopes
// ---------------------------------------------------------------------------

/// The scope keys of the requests.
pub open spec fn request_keys(reqs: Seq<RoleAdjudicationRequest>) -> Set<Seq<char>> {
    Set::new(|k: Seq<char>| exists|i: int| 0 <= i < reqs.len() && scope_key_of(#[trigger] reqs[i]) == k)
}

/// The positions from `i` on of the requests whose scope is new: not in
/// `keys`, nor in that of an earlier one taken.
pub open spec fn fresh_positions(extra: Seq<RoleAdjudicationRequest>, keys: Set<Seq<char>>, i: nat) -> Seq<int>
    decreases extra.len() - i,
{
    if i >= extra.len() {
        Seq::empty()
    } else if keys.contains(scope_key_of(extra[i as int])) {
        fresh_positions(extra, keys, i + 1)
    } else {
        seq![i as int] + fresh_positions(extra, keys.insert(scope_key_of(extra[i as int])), i + 1)
    }
}

/// Appends a copy of each of `extra` whose scope is new, and says how
/// many it appended.
pub fn append_new_scopes(requests: &mut Vec<RoleAdjudicationRequest>, extra: &[RoleAdjudicationRequest]) -> (r: usize)
    ensures
        r == fresh_positions(extra@, request_keys(old(requests)@), 0).len(),
        final(requests)@.len() == old(requests)@.len() + r,
        forall|i: int| 0 <= i < old(requests)@.len() ==> final(requests)@[i] == old(requests)@[i],
        forall|j: int| 0 <= j < r ==> request_same(
            extra@[fresh_positions(extra@, request_keys(old(requests)@), 0)[j]],
            #[trigger] final(requests)@[old(requests)@.len() + j],
        ),
{
    let ghost start = requests@;
    let mut keys = StrSet::new();
    let mut i: usize = 0;
    while i < requests.len()
        invariant
            i <= start.len(),
            requests@ == start,
            keys@.to_set() == Set::new(|k: Seq<char>| exists|m: int| 0 <= m < i && scope_key_of(#[trigger] start[m]) == k),
        decreases start.len() - i,
    {
        let ghost before = keys@.to_set();
        let key = requests[i].scope_key();
        keys.insert(key);
        assert(keys@.to_set() =~= Set::new(|k: Seq<char>| exists|m: int| 0 <= m < i + 1 && scope_key_of(#[trigger] start[m]) == k)) by {
            assert forall|k: Seq<char>| keys@.to_set().contains(k) == (exists|m: int| 0 <= m < i + 1 && scope_key_of(#[trigger] start[m]) == k) by {
                if exists|m: int| 0 <= m < i + 1 && scope_key_of(#[trigger] start[m]) == k {
                    let m = choose|m: int| 0 <= m < i + 1 && scope_key_of(#[trigger] start[m]) == k;
                    if m < i {
                        assert(before.contains(k));
                    }
                }
            }
        }
        i = i + 1;
    }
    assert(keys@.to_set() =~= request_keys(start));
    let ghost fresh = fresh_positions(extra@, request_keys(start), 0);
    let ghost mut taken: Seq<int> = Seq::empty();
    let mut count: usize = 0;
    let mut j: usize = 0;
    assert(fresh =~= taken + fresh_positions(extra@, keys@.to_set(), 0));
    while j < extra.len()
        invariant
            j <= extra@.len(),
            fresh == fresh_positions(extra@, request_keys(start), 0),
            fresh == taken + fresh_positions(extra@, keys@.to_set(), j as nat),
            count == taken.len(),
            count <= j,
            requests@.len() == start.len() + count,
            forall|m: int| 0 <= m < start.len() ==> requests@[m] == start[m],
            forall|m: int| 0 <= m < count ==> request_same(extra@[taken[m]], #[trigger] requests@[start.len() + m]),
            forall|m: int| 0 <= m < count ==> 0 <= #[trigger] taken[m] < j,
        decreases extra@.len() - j,
    {
        let key = extra[j].scope_key();
        let ghost before_keys = keys@.to_set();
        let fresh_key = keys.insert(key);
        if fresh_key {
            requests.push(copy_request(&extra[j]));
            proof {
                let rest = fresh_positions(extra@, keys@.to_set(), (j + 1) as nat);
                assert(taken + (seq![j as int] + rest) =~= taken.push(j as int) + rest);
                taken = taken.push(j as int);
            }
            count = count + 1;
        } else {
            assert(keys@.to_set() =~= before_keys);
        }
        j = j + 1;
    }
    assert(taken + Seq::<int>::empty() =~= taken);
    count
}

// ---------------------------------------------------------------------------
// Candidates for adjudication
// ---------------------------------------------------------------------------

/// Whether an adjudicated previous assignment holds target `t`.
pub open spec fn adjudicated_target(prev: Seq<ArchitectureRoleAssignment>, t: TargetV) -> bool {
    exists|k: int| 0 <= k < prev.len() && authoritative(#[trigger] prev[k]) && prev[k].target@ == t
}

/// The positions before `n` of the new assignments that need a review and
/// whose target no adjudication holds.
pub open spec fn candidate_positions(next: Seq<ArchitectureRoleAssignment>, prev: Seq<ArchitectureRoleAssignment>, n: int) -> Seq<int>
    decreases n,
{
    if n <= 0 {
        Seq::empty()
    } else if next[n - 1].status == AssignmentStatus::NeedsReview && !adjudicated_target(prev, next[n - 1].target@) {
        candidate_positions(next, prev, n - 1).push(n - 1)
    } else {
        candidate_positions(next, prev, n - 1)
    }
}

/// The targets of the adjudicated previous assignments.
pub fn adjudicated_targets(previous: &[ArchitectureRoleAssignment]) -> (r: Vec<RoleTarget>)
    ensures
        forall|t: TargetV| #[trigger] target_listed(r@, t) == adjudicated_target(previous@, t),
{
    let mut out: Vec<RoleTarget> = Vec::new();
    let mut k: usize = 0;
    while k < previous.len()
        invariant
            k <= previous@.len(),
            forall|t: TargetV| #[trigger] target_listed(out@, t) == exists|m: int|
                0 <= m < k && authoritative(#[trigger] previous@[m]) && previous@[m].target@ == t,
        decreases previous@.len() - k,
    {
        let ghost before = out@;
        if authoritative_current_assignment(&previous[k]) {
            out.push(previous[k].target.duplicate());
        }
        assert forall|t: TargetV| #[trigger] target_listed(out@, t) == exists|m: int|
            0 <= m < k + 1 && authoritative(#[trigger] previous@[m]) && previous@[m].target@ == t by {
            if target_listed(out@, t) {
                let w = choose|w: int| 0 <= w < out@.len() && #[trigger] out@[w]@ == t;
                if w < before.len() {
                    assert(before[w]@ == t);
                    assert(target_listed(before, t));
                }
            }
            if target_listed(before, t) {
                let w = choose|w: int| 0 <= w < before.len() && #[trigger] before[w]@ == t;
                assert(out@[w]@ == t);
            }
            if exists|m: int| 0 <= m < k + 1 && authoritative(#[trigger] previous@[m]) && previous@[m].target@ == t {
                let m = choose|m: int| 0 <= m < k + 1 && authoritative(#[trigger] previous@[m]) && previous@[m].target@ == t;
                if m == k {
                    assert(out@[before.len() as int]@ == t);
                }
            }
        }
        k = k + 1;
    }
    out
}

/// Copies of the new assignments that need a review and whose target no
/// adjudication holds, in order.
pub fn adjudication_candidates(
    next: &[ArchitectureRoleAssignment],
    previous: &[ArchitectureRoleAssignment],
) -> (r: Vec<ArchitectureRoleAssignment>)
    ensures
        r@.len() == candidate_positions(next@, previous@, next@.len() as int).len(),
        forall|i: int| 0 <= i < r@.len() ==> assignment_same(
            next@[candidate_positions(next@, previous@, next@.len() as int)[i]],
            #[trigger] r@[i],
        ),
{
    let held = adjudicated_targets(previous);
    let mut out: Vec<ArchitectureRoleAssignment> = Vec::new();
    let mut i: usize = 0;
    while i < next.len()
        invariant
            i <= next@.len(),
            forall|t: TargetV| #[trigger] target_listed(held@, t) == adjudicated_target(previous@, t),
            out@.len() == candidate_positions(next@, previous@, i as int).len(),
            forall|m: int| 0 <= m < out@.len() ==> assignment_same(
                next@[candidate_positions(next@, previous@, i as int)[m]],
                #[trigger] out@[m],
            ),
        decreases next@.len() - i,
    {
        let review = match next[i].status {
            AssignmentStatus::NeedsReview => true,
            _ => false,
        };
        let ghost before = candidate_positions(next@, previous@, i as int);
        if review && !crate::unknown_policy::lists_target(held.as_slice(), &next[i].target) {
            out.push(copy_assignment(&next[i]));
            assert(candidate_positions(next@, previous@, i + 1) == before.push(i as int));
        } else {
            assert(candidate_positions(next@, previous@, i + 1) == before);
        }
        i = i + 1;
    }
    out
}

// ---------------------------------------------------------------------------
// A classification run
// ---------------------------------------------------------------------------

/// The thresholds the classifier aggregates with.
pub open spec fn default_aggregation_config() -> AssignmentAggregationConfig {
    AssignmentAggregationConfig {
        active_threshold_permille: 800,
        review_threshold_permille: 500,
        conflict_margin_permille: 50,
    }
}

/// What a classification run decides.
pub struct RoleClassificationDecision {
    pub target_summaries: Vec<RoleTargetSummary>,
    pub facts_by_target: Vec<TargetFacts>,
    pub signals: Vec<ArchitectureRoleRuleSignal>,
    pub assignments: Vec<ArchitectureRoleAssignment>,
    pub current_assignments: Vec<ArchitectureRoleAssignment>,
    pub history_writes: Vec<AssignmentHistoryWrite>,
    pub assigned_targets: Vec<RoleTarget>,
    pub adjudicated_targets: Vec<RoleTarget>,
    pub adjudication_candidates: Vec<ArchitectureRoleAssignment>,
    pub adjudication_requests: Vec<RoleAdjudicationRequest>,
    pub unknown_policy: UnknownTargetPolicyOutcome,
    pub unknown_or_high_impact_candidates: usize,
    pub metrics: ArchitectureRoleReconcileMetrics,
}

/// The paths that unknown targets are looked for in: all paths on a full
/// run or when no path was affected, else the affected ones.
pub open spec fn unknown_request_paths(full_reconcile: bool, affected: Seq<Seq<char>>) -> Option<Set<Seq<char>>> {
    if full_reconcile || affected.len() == 0 {
        None
    } else {
        Some(affected.to_set())
    }
}

/// Decision `d` is the run over `facts`, `rules` and the stored
/// assignments `prev`.
pub open spec fn decision_holds(
    d: RoleClassificationDecision,
    repo_id: Seq<char>,
    generation_seq: u64,
    full_reconcile: bool,
    affected: Seq<Seq<char>>,
    facts: Seq<ArchitectureArtefactFact>,
    rules: Seq<CompiledArchitectureRoleRule>,
    prev: Seq<ArchitectureRoleAssignment>,
) -> bool {
    let fv = fact_views(facts);
    let cands = d.adjudication_candidates@;
    let reviewed = review_targets(cands, cands.len() as int);
    let base = reviewed.len();
    let extra = d.unknown_policy.adjudication_requests@;
    let fresh = fresh_positions(extra, request_keys(d.adjudication_requests@.take(base as int)), 0);
    let plan = assignment_plan(d.signals@, default_aggregation_config());
    let merged = merge_plan(d.assignments@, prev);
    let picked = candidate_positions(d.assignments@, prev, d.assignments@.len() as int);
    &&& crate::unknown_policy::summaries_of_facts(d.target_summaries@, fv)
    &&& crate::unknown_policy::groups_of_facts(d.facts_by_target@, fv)
    &&& rules_plan(rules, target_groups(fv), 0) matches Ok(p) && signals_follow(d.signals@, rules, p)
    &&& d.assignments@.len() == plan.len()
    &&& forall|i: int| 0 <= i < plan.len() ==> assignment_holds(#[trigger] d.assignments@[i], repo_id, d.signals@, plan[i])
    &&& current_follows(d.current_assignments@, merged.0, d.assignments@, prev, generation_seq)
    &&& history_follows(d.history_writes@, merged.1, d.assignments@, prev, generation_seq)
    &&& d.assigned_targets@.len() == d.assignments@.len()
    &&& forall|i: int| 0 <= i < d.assignments@.len() ==> (#[trigger] d.assigned_targets@[i])@ == d.assignments@[i].target@
    &&& forall|t: TargetV| #[trigger] target_listed(d.adjudicated_targets@, t) == adjudicated_target(prev, t)
    &&& cands.len() == picked.len()
    &&& forall|i: int| 0 <= i < cands.len() ==> assignment_same(d.assignments@[picked[i]], #[trigger] cands[i])
    &&& d.adjudication_requests@.len() == base + fresh.len()
    &&& forall|k: int| 0 <= k < base ==> review_request_holds(
        #[trigger] d.adjudication_requests@[k],
        cands,
        reviewed[k],
        sort_review(cands, review_positions(cands, reviewed[k], cands.len() as int)),
    )
    &&& forall|j: int| 0 <= j < fresh.len() ==> request_same(extra[fresh[j]], #[trigger] d.adjudication_requests@[base + j])
    &&& d.unknown_or_high_impact_candidates == fresh.len()
    &&& policy_outcome_holds(
        d.unknown_policy,
        repo_id,
        generation_seq,
        summary_views(d.target_summaries@),
        d.facts_by_target@,
        UnknownScope {
            assigned: d.assigned_targets@,
            authoritative: d.adjudicated_targets@,
            eligible: unknown_request_paths(full_reconcile, affected),
            file_paths: file_target_paths(summary_views(d.target_summaries@)),
        },
    )
    &&& crate::reconcile_metrics::metrics_hold(
        d.metrics,
        d.target_summaries@,
        d.current_assignments@,
        d.adjudication_requests@,
        0,
        0,
    )
}

fn assignment_targets(assignments: &Vec<ArchitectureRoleAssignment>) -> (r: Vec<RoleTarget>)
    ensures
        r@.len() == assignments@.len(),
        forall|i: int| 0 <= i < assignments@.len() ==> (#[trigger] r@[i])@ == assignments@[i].target@,
{
    let mut out: Vec<RoleTarget> = Vec::new();
    let mut i: usize = 0;
    while i < assignments.len()
        invariant
            i <= assignments@.len(),
            out@.len() == i,
            forall|k: int| 0 <= k < i ==> (#[trigger] out@[k])@ == assignments@[k].target@,
        decreases assignments@.len() - i,
    {
        out.push(assignments[i].target.duplicate());
        i = i + 1;
    }
    out
}

/// The decisions of a classification run: the facts' summaries and
/// groups, the rules' signals, the assignments they call for merged with
/// the stored ones, the requests for adjudication (those for assignments
/// that need a review, then those the unknown-target policy escalates
/// under a new scope) and the run's counts. It fails as the evaluation of
/// the rules fails.
pub fn decide_role_classification(
    repo_id: &str,
    generation_seq: u64,
    full_reconcile: bool,
    affected_paths: &StrSet,
    facts: &[ArchitectureArtefactFact],
    rules: &[CompiledArchitectureRoleRule],
    previous_assignments: &[ArchitectureRoleAssignment],
) -> (r: Result<RoleClassificationDecision, RuleEvaluationError>)
    ensures
        match r {
            Ok(d) => decision_holds(
                d,
                repo_id@,
                generation_seq,
                full_reconcile,
                affected_paths@,
                facts@,
                rules@,
                previous_assignments@,
            ),
            Err(e) => rules_plan(rules@, target_groups(fact_views(facts@)), 0) == Err::<Seq<SignalPlan>, EvaluationErrorV>(e@),
        },
{
    let summaries = target_summaries_from_facts(facts);
    let groups = facts_by_target(facts);
    let evaluated = match evaluate_rules_over_facts(rules, facts) {
        Err(e) => return Err(e),
        Ok(x) => x,
    };
    let signals = evaluated.signals;
    let config = AssignmentAggregationConfig::default();
    assert(config == default_aggregation_config());
    let assignments = aggregate_role_assignments(repo_id, signals.as_slice(), &config);
    let merged = merge_assignments(assignments.as_slice(), previous_assignments, generation_seq);
    let held = adjudicated_targets(previous_assignments);
    let candidates = adjudication_candidates(assignments.as_slice(), previous_assignments);
    let mut requests = adjudication_requests_from_assignments(candidates.as_slice());
    let ghost base_requests = requests@;
    let assigned = assignment_targets(&assignments);
    let eligible = if full_reconcile || affected_paths.len() == 0 {
        None
    } else {
        Some(affected_paths)
    };
    let unknown = select_unknown_target_policy(
        repo_id,
        generation_seq,
        summaries.as_slice(),
        groups.as_slice(),
        assigned.as_slice(),
        held.as_slice(),
        eligible,
    );
    let added = append_new_scopes(&mut requests, unknown.adjudication_requests.as_slice());
    assert(requests@.take(base_requests.len() as int) =~= base_requests);
    let metrics = expanded_reconcile_metrics(summaries.as_slice(), merged.current.as_slice(), requests.as_slice(), 0, 0);
    let MergedAssignments { current, history } = merged;
    Ok(
        RoleClassificationDecision {
            target_summaries: summaries,
            facts_by_target: groups,
            signals,
            assignments,
            current_assignments: current,
            history_writes: history,
            assigned_targets: assigned,
            adjudicated_targets: held,
            adjudication_candidates: candidates,
            adjudication_requests: requests,
            unknown_policy: unknown,
            unknown_or_high_impact_candidates: added,
            metrics,
        },
    )
}

} // verus!
