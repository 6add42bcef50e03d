//! The vocabulary of role adjudication: why a target is sent to a model,
//! what can come back, and the request that carries it.
use vstd::prelude::*;

use crate::model::opt_view;
use crate::text::{append_chars, string_from_chars};

verus! {

/// Why a target needs adjudication.
#[derive(Debug, Clone, Copy, PartialEq, Eq, Hash, Structural)]
pub enum AdjudicationReason {
    Unknown,
    LowConfidence,
    Conflict,
    HighImpact,
    NovelPattern,
    ManualReview,
}

pub open spec fn reason_text(r: AdjudicationReason) -> Seq<char> {
    match r {
        AdjudicationReason::Unknown => "unknown"@,
        AdjudicationReason::LowConfidence => "low_confidence"@,
        AdjudicationReason::Conflict => "conflict"@,
        AdjudicationReason::HighImpact => "high_impact"@,
        AdjudicationReason::NovelPattern => "novel_pattern"@,
        AdjudicationReason::ManualReview => "manual_review"@,
    }
}

impl AdjudicationReason {
    /// The snake-case name of the reason.
    pub fn as_str(self) -> (r: &'static str)
        ensures
            r@ == reason_text(self),
    {
        match self {
            AdjudicationReason::Unknown => "unknown",
            AdjudicationReason::LowConfidence => "low_confidence",
            AdjudicationReason::Conflict => "conflict",
            AdjudicationReason::HighImpact => "high_impact",
            AdjudicationReason::NovelPattern => "novel_pattern",
            AdjudicationReason::ManualReview => "manual_review",
        }
    }
}

/// What an adjudication decided.
#[derive(Debug, Clone, Copy, PartialEq, Eq, Structural)]
pub enum AdjudicationOutcome {
    Assigned,
    Unknown,
    NeedsReview,
}

/// A role offered to the model.
#[derive(Debug, Clone, PartialEq, Eq)]
pub struct RoleCandidateDescriptor {
    pub role_id: String,
    pub canonical_key: String,
    pub family: String,
    pub display_name: String,
    pub description: String,
}

/// How one adjudication attempt ended.
#[derive(Debug, Clone, Copy, PartialEq, Eq, Structural)]
pub enum RoleAdjudicationAttemptOutcome {
    Assigned,
    Unknown,
    NeedsReview,
    LlmError,
    ValidationError,
    NoActiveRoles,
    SkippedDeterministic,
}

pub open spec fn attempt_outcome_text(o: RoleAdjudicationAttemptOutcome) -> Seq<char> {
    match o {
        RoleAdjudicationAttemptOutcome::Assigned => "assigned"@,
        RoleAdjudicationAttemptOutcome::Unknown => "unknown"@,
        RoleAdjudicationAttemptOutcome::NeedsReview => "needs_review"@,
        RoleAdjudicationAttemptOutcome::LlmError => "llm_error"@,
        RoleAdjudicationAttemptOutcome::ValidationError => "validation_error"@,
        RoleAdjudicationAttemptOutcome::NoActiveRoles => "no_active_roles"@,
        RoleAdjudicationAttemptOutcome::SkippedDeterministic => "skipped_deterministic"@,
    }
}

impl RoleAdjudicationAttemptOutcome {
    /// The snake-case name of the outcome.
    pub fn as_str(self) -> (r: &'static str)
        ensures
            r@ == attempt_outcome_text(self),
    {
        match self {
            RoleAdjudicationAttemptOutcome::Assigned => "assigned",
            RoleAdjudicationAttemptOutcome::Unknown => "unknown",
            RoleAdjudicationAttemptOutcome::NeedsReview => "needs_review",
            RoleAdjudicationAttemptOutcome::LlmError => "llm_error",
            RoleAdjudicationAttemptOutcome::ValidationError => "validation_error",
            RoleAdjudicationAttemptOutcome::NoActiveRoles => "no_active_roles",
            RoleAdjudicationAttemptOutcome::SkippedDeterministic => "skipped_deterministic",
        }
    }
}

/// The role a target holds now. Confidences are in thousandths.
#[derive(Debug, Clone, PartialEq, Eq)]
pub struct RoleCurrentAssignmentSnapshot {
    pub role_id: String,
    pub confidence_permille: Option<u32>,
    pub source: Option<String>,
}

/// A target sent to adjudication.
#[derive(Debug, Clone, PartialEq, Eq)]
pub struct RoleAdjudicationRequest {
    pub repo_id: String,
    pub generation: u64,
    pub stable_request_key: String,
    pub facts_hash: String,
    pub rules_hash: String,
    pub cluster_key: Option<String>,
    pub target_kind: Option<String>,
    pub artefact_id: Option<String>,
    pub symbol_id: Option<String>,
    pub path: Option<String>,
    pub language: Option<String>,
    pub canonical_kind: Option<String>,
    pub reason: AdjudicationReason,
    pub deterministic_confidence_permille: Option<u32>,
    pub candidate_role_ids: Vec<String>,
    pub current_assignment: Option<RoleCurrentAssignmentSnapshot>,
}

/// What the adjudication mailbox carries: the request to adjudicate.
#[derive(Debug, Clone, PartialEq, Eq)]
pub struct RoleAdjudicationMailboxPayload {
    pub request: RoleAdjudicationRequest,
}

/// The first present of the symbol, the artefact and the path.
pub open spec fn scope_target(
    symbol_id: Option<Seq<char>>,
    artefact_id: Option<Seq<char>>,
    path: Option<Seq<char>>,
) -> Seq<char> {
    match symbol_id {
        Some(s) => s,
        None => match artefact_id {
            Some(a) => a,
            None => match path {
                Some(p) => p,
                None => "<unknown>"@,
            },
        },
    }
}

/// The view of an optional text.
pub open spec fn opt_str_view(o: Option<&str>) -> Option<Seq<char>> {
    match o {
        Some(s) => Some(s@),
        None => None,
    }
}

/// An optional text borrowed.
pub fn opt_str(o: &Option<String>) -> (r: Option<&str>)
    ensures
        opt_str_view(r) == opt_view(*o),
{
    match o {
        Some(s) => Some(s.as_str()),
        None => None,
    }
}

/// `kind:target`, naming a target apart from any generation: the kind
/// defaults to `target`, the target is the first present of the symbol,
/// the artefact and the path.
pub open spec fn stable_request_key_of(
    target_kind: Option<Seq<char>>,
    artefact_id: Option<Seq<char>>,
    symbol_id: Option<Seq<char>>,
    path: Option<Seq<char>>,
) -> Seq<char> {
    let kind = match target_kind {
        Some(k) => k,
        None => "target"@,
    };
    kind + ":"@ + scope_target(symbol_id, artefact_id, path)
}

/// The stable key of a request about a target.
pub fn role_adjudication_stable_request_key(
    target_kind: Option<&str>,
    artefact_id: Option<&str>,
    symbol_id: Option<&str>,
    path: Option<&str>,
) -> (r: String)
    ensures
        r@ == stable_request_key_of(
            opt_str_view(target_kind),
            opt_str_view(artefact_id),
            opt_str_view(symbol_id),
            opt_str_view(path),
        ),
{
    let mut out: Vec<char> = Vec::new();
    match target_kind {
        Some(k) => append_chars(&mut out, k),
        None => append_chars(&mut out, "target"),
    }
    append_chars(&mut out, ":");
    match symbol_id {
        Some(s) => append_chars(&mut out, s),
        None => match artefact_id {
            Some(a) => append_chars(&mut out, a),
            None => match path {
                Some(p) => append_chars(&mut out, p),
                None => append_chars(&mut out, "<unknown>"),
            },
        },
    }
    assert(out@ =~= stable_request_key_of(
        opt_str_view(target_kind),
        opt_str_view(artefact_id),
        opt_str_view(symbol_id),
        opt_str_view(path),
    ));
    string_from_chars(out.as_slice())
}

/// What stands for the facts and rules hashes before they are computed.
pub open spec fn placeholder_hash_text() -> Seq<char> {
    "pending"@
}

pub fn placeholder_request_hash() -> (r: String)
    ensures
        r@ == placeholder_hash_text(),
{
    crate::text::owned("pending")
}

/// `repo:stable key:reason:facts hash:rules hash`. The generation is not
/// part of it: a request about the same target for the same reason, with
/// the same facts and rules, keeps its key from one generation to the
/// next.
pub open spec fn scope_key_of(r: RoleAdjudicationRequest) -> Seq<char> {
    r.repo_id@ + ":"@ + r.stable_request_key@ + ":"@ + reason_text(r.reason) + ":"@ + r.facts_hash@ + ":"@
        + r.rules_hash@
}

/// Two requests that differ at most in their generation, candidates and
/// current assignment share a scope key.
pub proof fn lemma_scope_key_ignores_generation(a: RoleAdjudicationRequest, b: RoleAdjudicationRequest)
    requires
        a.repo_id@ == b.repo_id@,
        a.stable_request_key@ == b.stable_request_key@,
        a.reason == b.reason,
        a.facts_hash@ == b.facts_hash@,
        a.rules_hash@ == b.rules_hash@,
    ensures
        scope_key_of(a) == scope_key_of(b),
{
}

impl RoleAdjudicationRequest {
    /// The key under which requests for one target and reason are merged.
    pub fn scope_key(&self) -> (r: String)
        ensures
            r@ == scope_key_of(*self),
    {
        let mut out: Vec<char> = Vec::new();
        append_chars(&mut out, self.repo_id.as_str());
        append_chars(&mut out, ":");
        append_chars(&mut out, self.stable_request_key.as_str());
        append_chars(&mut out, ":");
        append_chars(&mut out, self.reason.as_str());
        append_chars(&mut out, ":");
        append_chars(&mut out, self.facts_hash.as_str());
        append_chars(&mut out, ":");
        append_chars(&mut out, self.rules_hash.as_str());
        assert(out@ =~= scope_key_of(*self));
        string_from_chars(out.as_slice())
    }
}

/// A suggestion for a new detection rule.
#[derive(Debug, Clone, PartialEq, Eq)]
pub struct RoleAdjudicationRuleSuggestion {
    pub title: String,
    pub summary: String,
    pub rationale: Option<String>,
}

/// Why a model's answer was refused.
#[derive(Debug, Clone, PartialEq, Eq)]
pub enum RoleAdjudicationValidationError {
    Schema(String),
    UnknownRoleId(String),
    InvalidConfidence(String),
    InvalidOutcome(String),
}

pub open spec fn validation_error_text(e: RoleAdjudicationValidationError) -> Seq<char> {
    match e {
        RoleAdjudicationValidationError::Schema(m) => "schema validation failed: "@ + m@,
        RoleAdjudicationValidationError::UnknownRoleId(r) => "adjudication response references unknown role id `"@
            + r@ + "`"@,
        RoleAdjudicationValidationError::InvalidConfidence(m) => "invalid confidence: "@ + m@,
        RoleAdjudicationValidationError::InvalidOutcome(m) => "invalid adjudication outcome: "@ + m@,
    }
}

impl RoleAdjudicationValidationError {
    /// The message of the error.
    pub fn message(&self) -> (r: String)
        ensures
            r@ == validation_error_text(*self),
    {
        let mut out: Vec<char> = Vec::new();
        match self {
            RoleAdjudicationValidationError::Schema(m) => {
                append_chars(&mut out, "schema validation failed: ");
                append_chars(&mut out, m.as_str());
            },
            RoleAdjudicationValidationError::UnknownRoleId(r) => {
                append_chars(&mut out, "adjudication response references unknown role id `");
                append_chars(&mut out, r.as_str());
                append_chars(&mut out, "`");
            },
            RoleAdjudicationValidationError::InvalidConfidence(m) => {
                append_chars(&mut out, "invalid confidence: ");
                append_chars(&mut out, m.as_str());
            },
            RoleAdjudicationValidationError::InvalidOutcome(m) => {
                append_chars(&mut out, "invalid adjudication outcome: ");
                append_chars(&mut out, m.as_str());
            },
        }
        string_from_chars(out.as_slice())
    }
}

/// Why an adjudication could not finish, and whether trying again may help.
#[derive(Debug, Clone, PartialEq, Eq)]
pub struct RoleAdjudicationFailure {
    pub message: String,
    pub retryable: bool,
}

/// Where an adjudicated assignment came from.
#[derive(Debug, Clone, PartialEq, Eq)]
pub struct RoleAdjudicationProvenance {
    pub source: String,
    pub model_descriptor: String,
    pub slot_name: String,
    pub packet_sha256: String,
    pub adjudication_reason: AdjudicationReason,
    pub adjudicated_at_unix: u64,
}

/// Whether and where an assignment was written.
#[derive(Debug, Clone, PartialEq, Eq)]
pub struct RoleAssignmentWriteOutcome {
    pub source: String,
    pub persisted: bool,
}

#[derive(Debug, Clone, PartialEq, Eq)]
pub struct RoleAdjudicationAttemptWriteResult {
    pub attempt_id: String,
}

/// What enqueueing a job did.
#[derive(Debug, Clone, Copy, PartialEq, Eq, Structural)]
pub enum RoleQueueEnqueueResult {
    Enqueued,
    AlreadyQueued,
    AlreadyCompleted,
}

/// Where a queued job stands.
#[derive(Debug, Clone, Copy, PartialEq, Eq, Structural)]
pub enum RoleQueueJobStatus {
    Queued,
    Running,
    Completed,
    Failed,
}

} // verus!
