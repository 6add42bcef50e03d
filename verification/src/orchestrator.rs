//! Which adjudication requests become queued jobs, and what an attempt's
//! outcome is recorded as.
use vstd::prelude::*;

use crate::adjudication_selector::{adjudication_reason_of, select_adjudication_reason, DeterministicRoleOutcomeInput};
use crate::contracts::{
    placeholder_hash_text, placeholder_request_hash, role_adjudication_stable_request_key, scope_key_of, stable_request_key_of,
    AdjudicationOutcome, AdjudicationReason, RoleAdjudicationAttemptOutcome, RoleAdjudicationRequest,
    RoleQueueEnqueueResult,
};
use crate::contracts::RoleAdjudicationMailboxPayload;
use crate::model::{clone_opt, opt_view};
use crate::registration::{ARCHITECTURE_GRAPH_CAPABILITY_ID, ARCHITECTURE_GRAPH_ROLE_ADJUDICATION_MAILBOX};
use crate::role_reconcile::{copy_request, request_same};
use crate::queue_store::{enqueue_result, enqueue_state, EntryV, InMemoryRoleAdjudicationQueueStore};
use crate::request::ChangedArtefact;
use crate::text::{chars_eq, chars_of, ends_with, lower, lower_chars, owned, str_ends_with, str_eq};

verus! {

/// How many requests were selected, how many became new jobs, and how many
/// were already queued or completed.
#[derive(Debug, Clone, PartialEq, Eq)]
pub struct RoleAdjudicationEnqueueMetrics {
    pub selected: usize,
    pub enqueued: usize,
    pub deduped: usize,
}

/// The queue after enqueueing `keys` in order.
pub open spec fn queue_after(m: Map<Seq<char>, EntryV>, keys: Seq<Seq<char>>) -> Map<Seq<char>, EntryV>
    decreases keys.len(),
{
    if keys.len() == 0 {
        m
    } else {
        enqueue_state(queue_after(m, keys.drop_last()), keys.last())
    }
}

/// What the queue answers, key by key, when `keys` are enqueued in order.
pub open spec fn queue_results(m: Map<Seq<char>, EntryV>, keys: Seq<Seq<char>>) -> Seq<RoleQueueEnqueueResult>
    decreases keys.len(),
{
    if keys.len() == 0 {
        Seq::empty()
    } else {
        queue_results(m, keys.drop_last()).push(enqueue_result(queue_after(m, keys.drop_last()), keys.last()))
    }
}

/// The positions at which the queue answered `Enqueued`, in order.
pub open spec fn enqueued_positions(results: Seq<RoleQueueEnqueueResult>) -> Seq<int>
    decreases results.len(),
{
    if results.len() == 0 {
        Seq::empty()
    } else if results.last() == RoleQueueEnqueueResult::Enqueued {
        enqueued_positions(results.drop_last()).push(results.len() - 1)
    } else {
        enqueued_positions(results.drop_last())
    }
}

pub open spec fn scope_keys(requests: Seq<RoleAdjudicationRequest>) -> Seq<Seq<char>> {
    requests.map_values(|r: RoleAdjudicationRequest| scope_key_of(r))
}

/// A job for the workplane: adjudicate the request of `payload`, in the
/// adjudication mailbox of the capability, once per `dedupe_key`.
#[derive(Debug, Clone, PartialEq, Eq)]
pub struct RoleAdjudicationJob {
    pub capability_id: String,
    pub mailbox_name: String,
    pub dedupe_key: String,
    pub payload: RoleAdjudicationMailboxPayload,
}

/// `job` is the job of request `r`: keyed by its scope key.
pub open spec fn job_of(job: RoleAdjudicationJob, r: RoleAdjudicationRequest) -> bool {
    &&& job.capability_id@ == ARCHITECTURE_GRAPH_CAPABILITY_ID@
    &&& job.mailbox_name@ == ARCHITECTURE_GRAPH_ROLE_ADJUDICATION_MAILBOX@
    &&& job.dedupe_key@ == scope_key_of(r)
    &&& request_same(r, job.payload.request)
}

/// What enqueueing `requests` comes to, given what the queue answered for
/// each: the counts, and the jobs to hand to the workplane (one per request
/// the queue took as new, in order; none to hand when there are none).
pub open spec fn enqueue_outcome_holds(
    r: (RoleAdjudicationEnqueueMetrics, Option<Vec<RoleAdjudicationJob>>),
    requests: Seq<RoleAdjudicationRequest>,
    results: Seq<RoleQueueEnqueueResult>,
) -> bool {
    let fresh = enqueued_positions(results);
    &&& r.0.selected == requests.len()
    &&& r.0.enqueued == fresh.len()
    &&& r.0.deduped == requests.len() - fresh.len()
    &&& (r.1 is None) == (fresh.len() == 0)
    &&& r.1 matches Some(jobs) ==> {
        &&& jobs@.len() == fresh.len()
        &&& forall|k: int| 0 <= k < jobs@.len() ==> job_of(#[trigger] jobs@[k], requests[fresh[k]])
    }
}

proof fn lemma_enqueued_positions_bounded(results: Seq<RoleQueueEnqueueResult>)
    ensures
        enqueued_positions(results).len() <= results.len(),
        forall|k: int| 0 <= k < enqueued_positions(results).len() ==> 0 <= #[trigger] enqueued_positions(results)[k] < results.len(),
    decreases results.len(),
{
    if results.len() > 0 {
        lemma_enqueued_positions_bounded(results.drop_last());
    }
}

/// Decides, from what the queue answered for each request, what enqueueing
/// the requests comes to: the counts, and the jobs for the workplane.
pub fn enqueue_outcome(
    requests: &[RoleAdjudicationRequest],
    results: &[RoleQueueEnqueueResult],
) -> (r: (RoleAdjudicationEnqueueMetrics, Option<Vec<RoleAdjudicationJob>>))
    requires
        results@.len() == requests@.len(),
    ensures
        enqueue_outcome_holds(r, requests@, results@),
{
    let mut jobs: Vec<RoleAdjudicationJob> = Vec::new();
    let mut deduped: usize = 0;
    let mut i: usize = 0;
    while i < requests.len()
        invariant
            i <= requests@.len(),
            results@.len() == requests@.len(),
            jobs@.len() == enqueued_positions(results@.take(i as int)).len(),
            forall|k: int| 0 <= k < jobs@.len() ==> job_of(
                #[trigger] jobs@[k],
                requests@[enqueued_positions(results@.take(i as int))[k]],
            ),
            deduped + jobs@.len() == i,
        decreases requests@.len() - i,
    {
        let ghost before = results@.take(i as int);
        let ghost after = results@.take(i + 1);
        assert(after.drop_last() =~= before);
        assert(after.last() == results@[i as int]);
        proof {
            lemma_enqueued_positions_bounded(before);
        }
        match results[i] {
            RoleQueueEnqueueResult::Enqueued => {
                let request = &requests[i];
                let job = RoleAdjudicationJob {
                    capability_id: owned(ARCHITECTURE_GRAPH_CAPABILITY_ID),
                    mailbox_name: owned(ARCHITECTURE_GRAPH_ROLE_ADJUDICATION_MAILBOX),
                    dedupe_key: request.scope_key(),
                    payload: RoleAdjudicationMailboxPayload { request: copy_request(request) },
                };
                let ghost old_jobs = jobs@;
                jobs.push(job);
                assert forall|k: int| 0 <= k < jobs@.len() implies job_of(
                    #[trigger] jobs@[k],
                    requests@[enqueued_positions(after)[k]],
                ) by {
                    if k < old_jobs.len() {
                        assert(jobs@[k] == old_jobs[k]);
                    }
                }
            },
            _ => {
                deduped = deduped + 1;
            },
        }
        i = i + 1;
    }
    assert(results@.take(i as int) =~= results@);
    let metrics = RoleAdjudicationEnqueueMetrics {
        selected: requests.len(),
        enqueued: requests.len() - deduped,
        deduped,
    };
    if jobs.len() == 0 {
        (metrics, None)
    } else {
        (metrics, Some(jobs))
    }
}

/// Queues every request under its scope key in the in-memory store, and
/// decides from the store's answers what enqueueing comes to.
pub fn enqueue_adjudication_requests(
    requests: &[RoleAdjudicationRequest],
    queue: &mut InMemoryRoleAdjudicationQueueStore,
) -> (r: (RoleAdjudicationEnqueueMetrics, Option<Vec<RoleAdjudicationJob>>))
    ensures
        final(queue)@ == queue_after(old(queue)@, scope_keys(requests@)),
        enqueue_outcome_holds(r, requests@, queue_results(old(queue)@, scope_keys(requests@))),
{
    let ghost start = queue@;
    let ghost keys = scope_keys(requests@);
    let mut results: Vec<RoleQueueEnqueueResult> = Vec::new();
    let mut i: usize = 0;
    while i < requests.len()
        invariant
            i <= requests@.len(),
            keys == scope_keys(requests@),
            queue@ == queue_after(start, keys.take(i as int)),
            results@ == queue_results(start, keys.take(i as int)),
        decreases requests@.len() - i,
    {
        assert(keys.take(i + 1).drop_last() =~= keys.take(i as int));
        assert(keys.take(i + 1).last() == scope_key_of(requests@[i as int]));
        let key = requests[i].scope_key();
        let result = queue.enqueue(key.as_str());
        results.push(result);
        i = i + 1;
    }
    assert(keys.take(i as int) =~= keys);
    proof {
        lemma_queue_results_len(start, keys);
    }
    enqueue_outcome(requests, results.as_slice())
}

proof fn lemma_queue_results_len(m: Map<Seq<char>, EntryV>, keys: Seq<Seq<char>>)
    ensures
        queue_results(m, keys).len() == keys.len(),
    decreases keys.len(),
{
    if keys.len() > 0 {
        lemma_queue_results_len(m, keys.drop_last());
    }
}

proof fn lemma_queue_after_keeps_keys(m: Map<Seq<char>, EntryV>, keys: Seq<Seq<char>>)
    ensures
        forall|k: Seq<char>| m.dom().contains(k) ==> queue_after(m, keys).dom().contains(k),
        forall|i: int| 0 <= i < keys.len() ==> queue_after(m, keys).dom().contains(#[trigger] keys[i]),
    decreases keys.len(),
{
    if keys.len() > 0 {
        lemma_queue_after_keeps_keys(m, keys.drop_last());
        assert forall|i: int| 0 <= i < keys.len() implies queue_after(m, keys).dom().contains(#[trigger] keys[i]) by {
            if i < keys.len() - 1 {
                assert(keys.drop_last()[i] == keys[i]);
            }
        }
    }
}

proof fn lemma_known_keys_change_nothing(m: Map<Seq<char>, EntryV>, keys: Seq<Seq<char>>)
    requires
        forall|i: int| 0 <= i < keys.len() ==> m.dom().contains(#[trigger] keys[i]),
    ensures
        queue_after(m, keys) == m,
        enqueued_positions(queue_results(m, keys)).len() == 0,
    decreases keys.len(),
{
    if keys.len() > 0 {
        assert forall|i: int| 0 <= i < keys.drop_last().len() implies m.dom().contains(#[trigger] keys.drop_last()[i]) by {
            assert(keys.drop_last()[i] == keys[i]);
        }
        lemma_known_keys_change_nothing(m, keys.drop_last());
        assert(m.dom().contains(keys[keys.len() - 1]));
        let results = queue_results(m, keys);
        assert(results.drop_last() =~= queue_results(m, keys.drop_last()));
    }
}

/// Enqueueing the same requests again changes nothing in the queue and
/// hands the workplane no job: each request becomes a job at most once.
pub proof fn lemma_requeue_hands_out_nothing(m: Map<Seq<char>, EntryV>, requests: Seq<RoleAdjudicationRequest>)
    ensures
        queue_after(queue_after(m, scope_keys(requests)), scope_keys(requests)) == queue_after(m, scope_keys(requests)),
        enqueued_positions(queue_results(queue_after(m, scope_keys(requests)), scope_keys(requests))).len() == 0,
{
    let keys = scope_keys(requests);
    lemma_queue_after_keeps_keys(m, keys);
    lemma_known_keys_change_nothing(queue_after(m, keys), keys);
}

/// Whether a changed artefact is an entry point: a `main.rs` file or a
/// symbol named `main` in any case.
pub open spec fn delta_high_impact(a: ChangedArtefact) -> bool {
    ends_with(a.path@, "/main.rs"@) || a.path@ == "main.rs"@ || lower(a.name@) == "main"@
}

/// What the deterministic pass concludes about a changed artefact without
/// rules: known when it has a kind, then confident (950) unless it is an
/// entry point (720).
pub open spec fn delta_outcome(a: ChangedArtefact) -> DeterministicRoleOutcomeInput {
    DeterministicRoleOutcomeInput {
        classification_known: a.canonical_kind is Some,
        best_confidence_permille: match a.canonical_kind {
            Some(_) => Some(
                if delta_high_impact(a) {
                    720u32
                } else {
                    950u32
                },
            ),
            None => None,
        },
        has_conflict: false,
        high_impact: delta_high_impact(a),
        novel_pattern: false,
        manual_review_requested: false,
    }
}

pub fn infer_deterministic_outcome(artefact: &ChangedArtefact) -> (r: DeterministicRoleOutcomeInput)
    ensures
        r == delta_outcome(*artefact),
{
    let name = chars_of(artefact.name.as_str());
    let lowered = lower_chars(name.as_slice());
    let main = chars_of("main");
    let is_high_impact = str_ends_with(artefact.path.as_str(), "/main.rs") || str_eq(artefact.path.as_str(), "main.rs")
        || chars_eq(lowered.as_slice(), main.as_slice());
    let known = artefact.canonical_kind.is_some();
    let best_confidence_permille = if known {
        Some(if is_high_impact { 720u32 } else { 950u32 })
    } else {
        None
    };
    DeterministicRoleOutcomeInput {
        classification_known: known,
        best_confidence_permille,
        has_conflict: false,
        high_impact: is_high_impact,
        novel_pattern: false,
        manual_review_requested: false,
    }
}

/// The request made for a changed artefact that needs adjudication for
/// `reason`.
pub open spec fn delta_request_for(
    r: RoleAdjudicationRequest,
    repo_id: Seq<char>,
    generation: u64,
    a: ChangedArtefact,
    reason: AdjudicationReason,
) -> bool {
    &&& r.repo_id@ == repo_id
    &&& r.generation == generation
    &&& r.stable_request_key@ == stable_request_key_of(
        Some("artefact"@),
        Some(a.artefact_id@),
        Some(a.symbol_id@),
        Some(a.path@),
    )
    &&& r.facts_hash@ == placeholder_hash_text()
    &&& r.rules_hash@ == placeholder_hash_text()
    &&& r.cluster_key is None
    &&& opt_view(r.target_kind) == Some("artefact"@)
    &&& opt_view(r.artefact_id) == Some(a.artefact_id@)
    &&& opt_view(r.symbol_id) == Some(a.symbol_id@)
    &&& opt_view(r.path) == Some(a.path@)
    &&& r.language is None
    &&& opt_view(r.canonical_kind) == opt_view(a.canonical_kind)
    &&& r.reason == reason
    &&& r.deterministic_confidence_permille == delta_outcome(a).best_confidence_permille
    &&& r.candidate_role_ids@.len() == 0
    &&& r.current_assignment is None
}

/// The changed artefacts that need adjudication, in order.
pub open spec fn delta_selected(artefacts: Seq<ChangedArtefact>) -> Seq<ChangedArtefact>
    decreases artefacts.len(),
{
    if artefacts.len() == 0 {
        Seq::empty()
    } else if adjudication_reason_of(delta_outcome(artefacts.last())) is Some {
        delta_selected(artefacts.drop_last()).push(artefacts.last())
    } else {
        delta_selected(artefacts.drop_last())
    }
}

/// One request per changed artefact that needs adjudication, in order.
pub fn role_requests_from_delta(
    repo_id: &str,
    generation: u64,
    artefact_upserts: &[ChangedArtefact],
) -> (r: Vec<RoleAdjudicationRequest>)
    ensures
        r@.len() == delta_selected(artefact_upserts@).len(),
        forall|i: int| 0 <= i < r@.len() ==> {
            let a = #[trigger] delta_selected(artefact_upserts@)[i];
            delta_request_for(r@[i], repo_id@, generation, a, adjudication_reason_of(delta_outcome(a)).unwrap())
        },
{
    let mut out: Vec<RoleAdjudicationRequest> = Vec::new();
    let mut i: usize = 0;
    while i < artefact_upserts.len()
        invariant
            i <= artefact_upserts@.len(),
            out@.len() == delta_selected(artefact_upserts@.take(i as int)).len(),
            forall|k: int| 0 <= k < out@.len() ==> {
                let a = #[trigger] delta_selected(artefact_upserts@.take(i as int))[k];
                delta_request_for(out@[k], repo_id@, generation, a, adjudication_reason_of(delta_outcome(a)).unwrap())
            },
        decreases artefact_upserts@.len() - i,
    {
        let artefact = &artefact_upserts[i];
        assert(artefact_upserts@.take(i + 1).drop_last() =~= artefact_upserts@.take(i as int));
        assert(artefact_upserts@.take(i + 1).last() == *artefact);
        let deterministic = infer_deterministic_outcome(artefact);
        match select_adjudication_reason(&deterministic) {
            Some(reason) => {
                let stable_request_key = role_adjudication_stable_request_key(
                    Some("artefact"),
                    Some(artefact.artefact_id.as_str()),
                    Some(artefact.symbol_id.as_str()),
                    Some(artefact.path.as_str()),
                );
                let request = RoleAdjudicationRequest {
                    repo_id: owned(repo_id),
                    generation,
                    stable_request_key,
                    facts_hash: placeholder_request_hash(),
                    rules_hash: placeholder_request_hash(),
                    cluster_key: None,
                    target_kind: Some(owned("artefact")),
                    artefact_id: Some(artefact.artefact_id.clone()),
                    symbol_id: Some(artefact.symbol_id.clone()),
                    path: Some(artefact.path.clone()),
                    language: None,
                    canonical_kind: clone_opt(&artefact.canonical_kind),
                    reason,
                    deterministic_confidence_permille: deterministic.best_confidence_permille,
                    candidate_role_ids: Vec::new(),
                    current_assignment: None,
                };
                let ghost before = out@;
                out.push(request);
                assert(out@ =~= before.push(request));
            },
            None => {},
        }
        i = i + 1;
    }
    assert(artefact_upserts@.take(i as int) =~= artefact_upserts@);
    out
}

/// Builds the requests for the changed artefacts that need adjudication
/// and queues them; the requests are returned with what enqueueing them
/// comes to.
pub fn enqueue_adjudication_jobs_for_delta(
    repo_id: &str,
    generation: u64,
    artefact_upserts: &[ChangedArtefact],
    queue: &mut InMemoryRoleAdjudicationQueueStore,
) -> (r: (Vec<RoleAdjudicationRequest>, RoleAdjudicationEnqueueMetrics, Option<Vec<RoleAdjudicationJob>>))
    ensures
        r.0@.len() == delta_selected(artefact_upserts@).len(),
        forall|i: int| 0 <= i < r.0@.len() ==> {
            let a = #[trigger] delta_selected(artefact_upserts@)[i];
            delta_request_for(r.0@[i], repo_id@, generation, a, adjudication_reason_of(delta_outcome(a)).unwrap())
        },
        final(queue)@ == queue_after(old(queue)@, scope_keys(r.0@)),
        enqueue_outcome_holds((r.1, r.2), r.0@, queue_results(old(queue)@, scope_keys(r.0@))),
{
    let requests = role_requests_from_delta(repo_id, generation, artefact_upserts);
    let (metrics, jobs) = enqueue_adjudication_requests(requests.as_slice(), queue);
    (requests, metrics, jobs)
}

/// What an adjudication attempt is recorded as, given the outcome the
/// model returned.
pub open spec fn attempt_outcome_of(outcome: AdjudicationOutcome) -> RoleAdjudicationAttemptOutcome {
    match outcome {
        AdjudicationOutcome::Assigned => RoleAdjudicationAttemptOutcome::Assigned,
        AdjudicationOutcome::Unknown => RoleAdjudicationAttemptOutcome::Unknown,
        AdjudicationOutcome::NeedsReview => RoleAdjudicationAttemptOutcome::NeedsReview,
    }
}

pub fn attempt_outcome_from_result(outcome: AdjudicationOutcome) -> (r: RoleAdjudicationAttemptOutcome)
    ensures
        r == attempt_outcome_of(outcome),
{
    match outcome {
        AdjudicationOutcome::Assigned => RoleAdjudicationAttemptOutcome::Assigned,
        AdjudicationOutcome::Unknown => RoleAdjudicationAttemptOutcome::Unknown,
        AdjudicationOutcome::NeedsReview => RoleAdjudicationAttemptOutcome::NeedsReview,
    }
}

} // verus!
