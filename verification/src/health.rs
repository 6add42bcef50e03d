//! Health checks of the architecture graph capability, decided from what
//! the host reports about its configuration, store and inference slots.
use vstd::prelude::*;

use crate::text::{append_chars, chars_of, string_from_chars};

verus! {

/// The slot that synthesises architecture facts.
pub const ARCHITECTURE_GRAPH_FACT_SYNTHESIS_SLOT: &'static str = "fact_synthesis";

/// The slot that adjudicates architecture roles.
pub const ARCHITECTURE_GRAPH_ROLE_ADJUDICATION_SLOT: &'static str = "role_adjudication";

/// The outcome of one health check.
#[derive(Debug, Clone, PartialEq, Eq)]
pub struct CapabilityHealthResult {
    pub healthy: bool,
    pub message: String,
    pub details: Option<String>,
}

impl CapabilityHealthResult {
    pub fn ok(message: &str) -> (r: Self)
        ensures
            r.healthy,
            r.message@ == message@,
            r.details is None,
    {
        CapabilityHealthResult { healthy: true, message: message.to_owned(), details: None }
    }

    pub fn failed(message: &str, details: &str) -> (r: Self)
        ensures
            !r.healthy,
            r.message@ == message@,
            r.details matches Some(d) && d@ == details@,
    {
        CapabilityHealthResult { healthy: false, message: message.to_owned(), details: Some(details.to_owned()) }
    }
}

/// What an inference slot is configured to do.
#[derive(Debug, Clone, Copy, PartialEq, Eq, Structural)]
pub enum InferenceTask {
    Embeddings,
    TextGeneration,
    StructuredGeneration,
}

pub open spec fn task_text(t: InferenceTask) -> Seq<char> {
    match t {
        InferenceTask::Embeddings => "embeddings"@,
        InferenceTask::TextGeneration => "text_generation"@,
        InferenceTask::StructuredGeneration => "structured_generation"@,
    }
}

impl InferenceTask {
    pub fn as_str(self) -> (r: &'static str)
        ensures
            r@ == task_text(self),
    {
        match self {
            InferenceTask::Embeddings => "embeddings",
            InferenceTask::TextGeneration => "text_generation",
            InferenceTask::StructuredGeneration => "structured_generation",
        }
    }
}

/// A resolved slot: the profile it points to and that profile's task.
#[derive(Debug, Clone, PartialEq, Eq)]
pub struct ResolvedInferenceSlot {
    pub profile_name: String,
    pub task: Option<InferenceTask>,
}

/// What the host reports of one slot: whether it is configured, how it
/// resolves, and the descriptor of its structured-generation service or the
/// error that building it gave.
#[derive(Debug, PartialEq, Eq)]
pub struct InferenceSlotReport {
    pub configured: bool,
    pub resolved: Option<ResolvedInferenceSlot>,
    pub structured_generation: Result<String, String>,
}

/// The configuration view of the capability: available, or the error.
pub fn check_architecture_graph_config(config_view: &Result<(), String>) -> (r: CapabilityHealthResult)
    ensures
        r.healthy == (config_view is Ok),
        r.healthy ==> r.message@ == "architecture graph config available"@,
        !r.healthy ==> r.message@ == "architecture graph config unavailable"@ && (r.details matches Some(
            d,
        ) && d@ == config_view->Err_0@),
{
    match config_view {
        Ok(_) => CapabilityHealthResult::ok("architecture graph config available"),
        Err(err) => CapabilityHealthResult::failed("architecture graph config unavailable", err.as_str()),
    }
}

/// The relational store: healthy, or the error it reported.
pub fn check_architecture_graph_storage(relational: &Result<(), String>) -> (r: CapabilityHealthResult)
    ensures
        r.healthy == (relational is Ok),
        r.healthy ==> r.message@ == "architecture graph relational store healthy"@,
        !r.healthy ==> r.message@ == "architecture graph relational store unavailable"@ && (r.details matches Some(
            d,
        ) && d@ == relational->Err_0@),
{
    match relational {
        Ok(_) => CapabilityHealthResult::ok("architecture graph relational store healthy"),
        Err(err) => CapabilityHealthResult::failed(
            "architecture graph relational store unavailable",
            err.as_str(),
        ),
    }
}

/// Why a configured slot is not usable, if it is not.
pub open spec fn slot_problem(label: Seq<char>, s: InferenceSlotReport) -> Option<Seq<char>> {
    if !s.configured {
        None
    } else {
        match s.resolved {
            None => Some(label + " slot is unresolved"@),
            Some(slot) => if slot.task != Some(InferenceTask::StructuredGeneration) {
                Some(
                    label + " slot points to profile `"@ + slot.profile_name@ + "` with task `"@
                        + match slot.task {
                        Some(t) => task_text(t),
                        None => "<unknown>"@,
                    } + "` instead of `structured_generation`"@,
                )
            } else {
                match s.structured_generation {
                    Ok(_) => None,
                    Err(e) => Some(label + " slot failed: "@ + e@),
                }
            },
        }
    }
}

/// The descriptor shown when the slots are ready.
pub open spec fn ready_descriptor(fact: InferenceSlotReport, role: InferenceSlotReport) -> Seq<char> {
    match fact.structured_generation {
        Ok(d) => d@,
        Err(_) => match role.structured_generation {
            Ok(d) => d@,
            Err(_) => "structured_generation"@,
        },
    }
}

fn slot_problem_of(label: &str, s: &InferenceSlotReport) -> (r: Option<String>)
    ensures
        match r {
            Some(m) => slot_problem(label@, *s) == Some(m@),
            None => slot_problem(label@, *s) is None,
        },
{
    if !s.configured {
        return None;
    }
    match &s.resolved {
        None => {
            let mut out = chars_of(label);
            append_chars(&mut out, " slot is unresolved");
            Some(string_from_chars(out.as_slice()))
        },
        Some(slot) => {
            let structured = match slot.task {
                Some(InferenceTask::StructuredGeneration) => true,
                _ => false,
            };
            if !structured {
                let mut out = chars_of(label);
                append_chars(&mut out, " slot points to profile `");
                append_chars(&mut out, slot.profile_name.as_str());
                append_chars(&mut out, "` with task `");
                match slot.task {
                    Some(t) => append_chars(&mut out, t.as_str()),
                    None => append_chars(&mut out, "<unknown>"),
                }
                append_chars(&mut out, "` instead of `structured_generation`");
                return Some(string_from_chars(out.as_slice()));
            }
            match &s.structured_generation {
                Ok(_) => None,
                Err(e) => {
                    let mut out = chars_of(label);
                    append_chars(&mut out, " slot failed: ");
                    append_chars(&mut out, e.as_str());
                    Some(string_from_chars(out.as_slice()))
                },
            }
        },
    }
}

/// The inference slots: the first unusable configured slot fails the
/// check; with no slot configured the check passes; else it names the
/// service that is ready.
pub fn check_architecture_graph_inference(
    fact_synthesis: &InferenceSlotReport,
    role_adjudication: &InferenceSlotReport,
) -> (r: CapabilityHealthResult)
    ensures
        ({
            let p1 = slot_problem("fact_synthesis"@, *fact_synthesis);
            let p2 = slot_problem("role_adjudication"@, *role_adjudication);
            if p1 is Some || p2 is Some {
                &&& !r.healthy
                &&& r.message@ == "architecture_graph.inference"@
                &&& r.details matches Some(d) && d@ == (if p1 is Some { p1->0 } else { p2->0 })
            } else if !fact_synthesis.configured && !role_adjudication.configured {
                &&& r.healthy
                &&& r.message@ == "architecture graph inference slots not configured"@
            } else {
                &&& r.healthy
                &&& r.message@ == "architecture graph inference slots ready ("@ + ready_descriptor(
                    *fact_synthesis,
                    *role_adjudication,
                ) + ")"@
            }
        }),
{
    match slot_problem_of("fact_synthesis", fact_synthesis) {
        Some(m) => return CapabilityHealthResult::failed("architecture_graph.inference", m.as_str()),
        None => {},
    }
    match slot_problem_of("role_adjudication", role_adjudication) {
        Some(m) => return CapabilityHealthResult::failed("architecture_graph.inference", m.as_str()),
        None => {},
    }
    if !fact_synthesis.configured && !role_adjudication.configured {
        return CapabilityHealthResult::ok("architecture graph inference slots not configured");
    }
    let mut out = chars_of("architecture graph inference slots ready (");
    match &fact_synthesis.structured_generation {
        Ok(d) => append_chars(&mut out, d.as_str()),
        Err(_) => match &role_adjudication.structured_generation {
            Ok(d) => append_chars(&mut out, d.as_str()),
            Err(_) => append_chars(&mut out, "structured_generation"),
        },
    }
    append_chars(&mut out, ")");
    let message = string_from_chars(out.as_slice());
    CapabilityHealthResult { healthy: true, message, details: None }
}

/// A named health check of the capability.
#[derive(Debug, Clone, Copy, PartialEq, Eq, Structural)]
pub enum ArchitectureGraphHealthCheck {
    Storage,
    Inference,
}

impl ArchitectureGraphHealthCheck {
    pub fn name(self) -> (r: &'static str)
        ensures
            r@ == match self {
                ArchitectureGraphHealthCheck::Storage => "architecture_graph.storage"@,
                ArchitectureGraphHealthCheck::Inference => "architecture_graph.inference"@,
            },
    {
        match self {
            ArchitectureGraphHealthCheck::Storage => "architecture_graph.storage",
            ArchitectureGraphHealthCheck::Inference => "architecture_graph.inference",
        }
    }
}

/// The health checks the capability registers.
pub fn architecture_graph_health_checks() -> (r: Vec<ArchitectureGraphHealthCheck>)
    ensures
        r@ == seq![ArchitectureGraphHealthCheck::Storage, ArchitectureGraphHealthCheck::Inference],
{
    let mut r = Vec::new();
    r.push(ArchitectureGraphHealthCheck::Storage);
    r.push(ArchitectureGraphHealthCheck::Inference);
    r
}

} // verus!
