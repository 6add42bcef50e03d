use architecture_graph::seed_evidence::{truncate_seed_evidence_text, MAX_SEED_TEXT_CHARS};

#[test]
fn llm_adjudication_seed_evidence_text_is_truncated_with_omission_marker() {
    let input = "a".repeat(MAX_SEED_TEXT_CHARS + 20);
    let truncated = truncate_seed_evidence_text(&input, MAX_SEED_TEXT_CHARS);

    assert!(truncated.len() <= MAX_SEED_TEXT_CHARS + "…[truncated]".len());
    assert!(truncated.ends_with("…[truncated]"));
}

#[test]
fn llm_adjudication_seed_evidence_text_keeps_short_values_unchanged() {
    let input = "short docstring";
    assert_eq!(
        truncate_seed_evidence_text(input, MAX_SEED_TEXT_CHARS),
        "short docstring"
    );
}

#[test]
fn tests_seed_evidence_text_is_truncated_with_omission_marker() {
    let input = "a".repeat(MAX_SEED_TEXT_CHARS + 20);
    let truncated = truncate_seed_evidence_text(&input, MAX_SEED_TEXT_CHARS);

    assert!(truncated.len() <= MAX_SEED_TEXT_CHARS + "…[truncated]".len());
    assert!(truncated.ends_with("…[truncated]"));
}

#[test]
fn tests_seed_evidence_text_keeps_short_values_unchanged() {
    let input = "short docstring";
    assert_eq!(
        truncate_seed_evidence_text(input, MAX_SEED_TEXT_CHARS),
        "short docstring"
    );
}
