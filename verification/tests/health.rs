use architecture_graph::health::{
    check_architecture_graph_inference, InferenceSlotReport, InferenceTask,
    ResolvedInferenceSlot,
};

fn missing_slot() -> InferenceSlotReport {
    InferenceSlotReport {
        configured: false,
        resolved: None,
        structured_generation: Err("structured-generation inference is not available".to_string()),
    }
}

fn fact_slot(task: Option<InferenceTask>, service_ok: bool) -> InferenceSlotReport {
    InferenceSlotReport {
        configured: true,
        resolved: Some(ResolvedInferenceSlot {
            profile_name: "local_agent".to_string(),
            task,
        }),
        structured_generation: if service_ok {
            Ok("codex:gpt-5.4-mini".to_string())
        } else {
            Err("structured-generation inference is not available".to_string())
        },
    }
}

#[test]
fn architecture_inference_health_reports_missing_slot_as_ok() {
    let result = check_architecture_graph_inference(&missing_slot(), &missing_slot());

    assert!(result.healthy);
    assert!(result.message.contains("not configured"));
}

#[test]
fn architecture_inference_health_reports_wrong_task() {
    let result = check_architecture_graph_inference(
        &fact_slot(Some(InferenceTask::TextGeneration), true),
        &missing_slot(),
    );

    assert!(!result.healthy);
    assert!(result
        .details
        .as_deref()
        .is_some_and(|details| details.contains("structured_generation")));
}

#[test]
fn architecture_inference_health_reports_ready() {
    let result = check_architecture_graph_inference(
        &fact_slot(Some(InferenceTask::StructuredGeneration), true),
        &missing_slot(),
    );

    assert!(result.healthy);
    assert!(result.message.contains("ready"));
}
