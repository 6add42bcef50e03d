//! The decisions of one adjudication run: claim the job (queueing it first
//! when it was not queued), build the evidence packet, ask the model,
//! check its answer, and then record the attempt and either fail the job
//! or complete it. The caller does the outside work each action names and
//! hands back what it observed.
use vstd::prelude::*;

use crate::contracts::{AdjudicationOutcome, RoleAdjudicationAttemptOutcome, RoleAdjudicationFailure};
use crate::orchestrator::{attempt_outcome_from_result, attempt_outcome_of};
use crate::text::{append_chars, owned, string_from_chars};

verus! {

/// Where a run stands.
pub enum AdjudicationRunStage {
    /// The job is to be claimed.
    Claim,
    /// The job was not queued: it is being queued and claimed.
    Requeue,
    /// The evidence packet is being built.
    Packet,
    /// The model is being asked.
    Model,
    /// The answer of the model named by the descriptor is being checked.
    Validate(String),
    /// Nothing is left to do.
    Finished,
}

/// What the caller observed.
pub enum AdjudicationRunEvent {
    /// Whether claiming found the job queued.
    Claimed(bool),
    /// The job was queued and claimed.
    Requeued,
    /// The packet was built with this many candidate roles.
    PacketBuilt(usize),
    /// The model answered (its descriptor) or failed (the error).
    ModelAnswered(Result<String, String>),
    /// The answer was valid, with this outcome, or was refused (the
    /// reason).
    Validated(Result<AdjudicationOutcome, String>),
}

/// What the caller is to do next.
pub enum AdjudicationRunAction {
    EnqueueAndClaim,
    BuildPacket,
    CallModel,
    ValidateAnswer,
    /// Record the attempt as `attempt` under `model_descriptor`, fail the
    /// job with `failure`, apply the failure and mark the write.
    Fail { attempt: RoleAdjudicationAttemptOutcome, model_descriptor: String, failure: RoleAdjudicationFailure },
    /// Record the attempt; when `write` apply the result and mark the
    /// write, else mark it skipped; then complete the job.
    Complete { attempt: RoleAdjudicationAttemptOutcome, model_descriptor: String, write: bool },
}

/// A stage as plain values.
pub enum StageV {
    Claim,
    Requeue,
    Packet,
    Model,
    Validate(Seq<char>),
    Finished,
}

/// An action as plain values.
pub enum ActionV {
    EnqueueAndClaim,
    BuildPacket,
    CallModel,
    ValidateAnswer,
    Fail { attempt: RoleAdjudicationAttemptOutcome, model_descriptor: Seq<char>, message: Seq<char>, retryable: bool },
    Complete { attempt: RoleAdjudicationAttemptOutcome, model_descriptor: Seq<char>, write: bool },
}

/// An event as plain values.
pub enum EventV {
    Claimed(bool),
    Requeued,
    PacketBuilt(nat),
    ModelAnswered(Result<Seq<char>, Seq<char>>),
    Validated(Result<AdjudicationOutcome, Seq<char>>),
}

impl View for AdjudicationRunStage {
    type V = StageV;

    open spec fn view(&self) -> StageV {
        match self {
            AdjudicationRunStage::Claim => StageV::Claim,
            AdjudicationRunStage::Requeue => StageV::Requeue,
            AdjudicationRunStage::Packet => StageV::Packet,
            AdjudicationRunStage::Model => StageV::Model,
            AdjudicationRunStage::Validate(d) => StageV::Validate(d@),
            AdjudicationRunStage::Finished => StageV::Finished,
        }
    }
}

impl View for AdjudicationRunAction {
    type V = ActionV;

    open spec fn view(&self) -> ActionV {
        match self {
            AdjudicationRunAction::EnqueueAndClaim => ActionV::EnqueueAndClaim,
            AdjudicationRunAction::BuildPacket => ActionV::BuildPacket,
            AdjudicationRunAction::CallModel => ActionV::CallModel,
            AdjudicationRunAction::ValidateAnswer => ActionV::ValidateAnswer,
            AdjudicationRunAction::Fail { attempt, model_descriptor, failure } => ActionV::Fail {
                attempt: *attempt,
                model_descriptor: model_descriptor@,
                message: failure.message@,
                retryable: failure.retryable,
            },
            AdjudicationRunAction::Complete { attempt, model_descriptor, write } => ActionV::Complete {
                attempt: *attempt,
                model_descriptor: model_descriptor@,
                write: *write,
            },
        }
    }
}

impl View for AdjudicationRunEvent {
    type V = EventV;

    open spec fn view(&self) -> EventV {
        match self {
            AdjudicationRunEvent::Claimed(b) => EventV::Claimed(*b),
            AdjudicationRunEvent::Requeued => EventV::Requeued,
            AdjudicationRunEvent::PacketBuilt(n) => EventV::PacketBuilt(*n as nat),
            AdjudicationRunEvent::ModelAnswered(r) => EventV::ModelAnswered(
                match r {
                    Ok(d) => Ok(d@),
                    Err(e) => Err(e@),
                },
            ),
            AdjudicationRunEvent::Validated(r) => EventV::Validated(
                match r {
                    Ok(o) => Ok(*o),
                    Err(e) => Err(e@),
                },
            ),
        }
    }
}

/// The message of a run that found no role to offer.
pub open spec fn no_roles_message() -> Seq<char> {
    "no active taxonomy roles available for adjudication"@
}

/// The next stage and action of a run at `stage` that observed `event`;
/// an event the stage does not wait for changes nothing and calls for no
/// action.
pub open spec fn run_transition(stage: StageV, event: EventV) -> (StageV, Option<ActionV>) {
    match (stage, event) {
        (StageV::Claim, EventV::Claimed(true)) => (StageV::Packet, Some(ActionV::BuildPacket)),
        (StageV::Claim, EventV::Claimed(false)) => (StageV::Requeue, Some(ActionV::EnqueueAndClaim)),
        (StageV::Requeue, EventV::Requeued) => (StageV::Packet, Some(ActionV::BuildPacket)),
        (StageV::Packet, EventV::PacketBuilt(n)) => if n == 0 {
            (
                StageV::Finished,
                Some(
                    ActionV::Fail {
                        attempt: RoleAdjudicationAttemptOutcome::NoActiveRoles,
                        model_descriptor: "unavailable"@,
                        message: no_roles_message(),
                        retryable: false,
                    },
                ),
            )
        } else {
            (StageV::Model, Some(ActionV::CallModel))
        },
        (StageV::Model, EventV::ModelAnswered(Err(e))) => (
            StageV::Finished,
            Some(
                ActionV::Fail {
                    attempt: RoleAdjudicationAttemptOutcome::LlmError,
                    model_descriptor: "unknown"@,
                    message: "llm adjudication failed: "@ + e,
                    retryable: true,
                },
            ),
        ),
        (StageV::Model, EventV::ModelAnswered(Ok(d))) => (StageV::Validate(d), Some(ActionV::ValidateAnswer)),
        (StageV::Validate(d), EventV::Validated(Err(e))) => (
            StageV::Finished,
            Some(
                ActionV::Fail {
                    attempt: RoleAdjudicationAttemptOutcome::ValidationError,
                    model_descriptor: d,
                    message: e,
                    retryable: false,
                },
            ),
        ),
        (StageV::Validate(d), EventV::Validated(Ok(o))) => (
            StageV::Finished,
            Some(
                ActionV::Complete {
                    attempt: attempt_outcome_of(o),
                    model_descriptor: d,
                    write: o == AdjudicationOutcome::Assigned,
                },
            ),
        ),
        _ => (stage, None),
    }
}

fn copy_stage(stage: &AdjudicationRunStage) -> (r: AdjudicationRunStage)
    ensures
        r@ == stage@,
{
    match stage {
        AdjudicationRunStage::Claim => AdjudicationRunStage::Claim,
        AdjudicationRunStage::Requeue => AdjudicationRunStage::Requeue,
        AdjudicationRunStage::Packet => AdjudicationRunStage::Packet,
        AdjudicationRunStage::Model => AdjudicationRunStage::Model,
        AdjudicationRunStage::Validate(d) => AdjudicationRunStage::Validate(d.clone()),
        AdjudicationRunStage::Finished => AdjudicationRunStage::Finished,
    }
}

/// One step of an adjudication run.
pub fn adjudication_run_step(
    stage: &AdjudicationRunStage,
    event: &AdjudicationRunEvent,
) -> (r: (AdjudicationRunStage, Option<AdjudicationRunAction>))
    ensures
        r.0@ == run_transition(stage@, event@).0,
        match r.1 {
            Some(a) => run_transition(stage@, event@).1 == Some(a@),
            None => run_transition(stage@, event@).1 is None,
        },
{
    match (stage, event) {
        (AdjudicationRunStage::Claim, AdjudicationRunEvent::Claimed(queued)) => {
            if *queued {
                (AdjudicationRunStage::Packet, Some(AdjudicationRunAction::BuildPacket))
            } else {
                (AdjudicationRunStage::Requeue, Some(AdjudicationRunAction::EnqueueAndClaim))
            }
        },
        (AdjudicationRunStage::Requeue, AdjudicationRunEvent::Requeued) => {
            (AdjudicationRunStage::Packet, Some(AdjudicationRunAction::BuildPacket))
        },
        (AdjudicationRunStage::Packet, AdjudicationRunEvent::PacketBuilt(n)) => {
            if *n == 0 {
                let failure = RoleAdjudicationFailure {
                    message: owned("no active taxonomy roles available for adjudication"),
                    retryable: false,
                };
                (
                    AdjudicationRunStage::Finished,
                    Some(
                        AdjudicationRunAction::Fail {
                            attempt: RoleAdjudicationAttemptOutcome::NoActiveRoles,
                            model_descriptor: owned("unavailable"),
                            failure,
                        },
                    ),
                )
            } else {
                (AdjudicationRunStage::Model, Some(AdjudicationRunAction::CallModel))
            }
        },
        (AdjudicationRunStage::Model, AdjudicationRunEvent::ModelAnswered(answer)) => match answer {
            Err(e) => {
                let mut m: Vec<char> = Vec::new();
                append_chars(&mut m, "llm adjudication failed: ");
                append_chars(&mut m, e.as_str());
                let failure = RoleAdjudicationFailure { message: string_from_chars(m.as_slice()), retryable: true };
                (
                    AdjudicationRunStage::Finished,
                    Some(
                        AdjudicationRunAction::Fail {
                            attempt: RoleAdjudicationAttemptOutcome::LlmError,
                            model_descriptor: owned("unknown"),
                            failure,
                        },
                    ),
                )
            },
            Ok(d) => (AdjudicationRunStage::Validate(d.clone()), Some(AdjudicationRunAction::ValidateAnswer)),
        },
        (AdjudicationRunStage::Validate(d), AdjudicationRunEvent::Validated(checked)) => match checked {
            Err(e) => {
                let failure = RoleAdjudicationFailure { message: e.clone(), retryable: false };
                (
                    AdjudicationRunStage::Finished,
                    Some(
                        AdjudicationRunAction::Fail {
                            attempt: RoleAdjudicationAttemptOutcome::ValidationError,
                            model_descriptor: d.clone(),
                            failure,
                        },
                    ),
                )
            },
            Ok(o) => {
                let write = match o {
                    AdjudicationOutcome::Assigned => true,
                    _ => false,
                };
                (
                    AdjudicationRunStage::Finished,
                    Some(
                        AdjudicationRunAction::Complete {
                            attempt: attempt_outcome_from_result(*o),
                            model_descriptor: d.clone(),
                            write,
                        },
                    ),
                )
            },
        },
        _ => (copy_stage(stage), None),
    }
}

/// Failing or completing the job leaves the run finished, and a finished
/// run takes no further action.
pub proof fn lemma_run_ends(stage: StageV, event: EventV)
    ensures
        run_transition(stage, event).1 matches Some(ActionV::Fail { .. }) ==> run_transition(stage, event).0
            == StageV::Finished,
        run_transition(stage, event).1 matches Some(ActionV::Complete { .. }) ==> run_transition(stage, event).0
            == StageV::Finished,
        stage == StageV::Finished ==> run_transition(stage, event) == (stage, None::<ActionV>),
{
}

} // verus!
