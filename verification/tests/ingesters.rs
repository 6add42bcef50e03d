use architecture_graph::ingesters::{
    assertion_identity, build_assertion, deterministic_id, normalise_action, normalise_fact_kind,
    normalise_target_kind, non_empty_option, non_empty_string, AssertArchitectureGraphFactPayload,
    AssertionError,
};
use sha2::{Digest, Sha256};

fn payload(action: &str, target_kind: &str, reason: &str) -> AssertArchitectureGraphFactPayload {
    AssertArchitectureGraphFactPayload {
        assertion_id: None,
        action: action.to_string(),
        target_kind: target_kind.to_string(),
        node_id: None,
        node_kind: None,
        edge_id: None,
        edge_kind: None,
        from_node_id: None,
        to_node_id: None,
        label: None,
        artefact_id: None,
        symbol_id: None,
        path: None,
        entry_kind: None,
        reason: reason.to_string(),
        source: None,
        confidence_permille: None,
        provenance: None,
        evidence: None,
        properties: None,
    }
}

fn sha256_hex(text: &str) -> String {
    hex::encode(Sha256::digest(text.as_bytes()))
}

#[test]
fn assertion_payload_requires_reason() {
    let mut request = payload("ASSERT", "NODE", " ");
    request.node_id = Some("node-1".to_string());
    let err = build_assertion("repo", &request).unwrap_err();
    assert_eq!(err, AssertionError::EmptyField("reason".to_string()));
    assert!(err.message().contains("reason"));
    assert_eq!(err.message(), "reason must not be empty");
}

#[test]
fn fact_kinds_are_normalised_to_upper_snake_case() {
    assert_eq!(normalise_fact_kind(" nodeKind "), "NODE_KIND");
    assert_eq!(normalise_fact_kind("edge-kind"), "EDGE_KIND");
    assert_eq!(normalise_fact_kind("__a - b__"), "A_B");
    assert_eq!(normalise_fact_kind("apiV2Route"), "API_V2_ROUTE");
    assert_eq!(normalise_fact_kind("HTTPServer"), "HTTPSERVER");
    assert_eq!(normalise_fact_kind("   "), "");

    assert_eq!(normalise_action("suppress"), Ok("SUPPRESS".to_string()));
    assert_eq!(normalise_action("delete"), Err(AssertionError::UnsupportedAction("delete".to_string())));
    assert_eq!(
        AssertionError::UnsupportedAction("delete".to_string()).message(),
        "unsupported architecture graph assertion action `delete`"
    );
    assert_eq!(normalise_target_kind(" edge "), Ok("EDGE".to_string()));
    assert_eq!(
        normalise_target_kind("graph"),
        Err(AssertionError::UnsupportedTargetKind("graph".to_string()))
    );

    assert_eq!(non_empty_string("  x y "), Some("x y".to_string()));
    assert_eq!(non_empty_string(" \t"), None);
    assert_eq!(non_empty_option(&Some("  ".to_string())), None);
    assert_eq!(non_empty_option(&None), None);
}

#[test]
fn assertion_identities_need_ids_or_enough_parts() {
    let mut node = payload("ASSERT", "NODE", "why");
    node.node_id = Some(" n-1 ".to_string());
    assert_eq!(assertion_identity("NODE", &node), Ok("node:n-1".to_string()));

    let mut node = payload("ASSERT", "NODE", "why");
    assert_eq!(assertion_identity("NODE", &node), Err(AssertionError::MissingNodeKind));
    node.node_kind = Some("component".to_string());
    assert_eq!(assertion_identity("NODE", &node), Err(AssertionError::MissingNodeLabel));
    node.path = Some("src/api".to_string());
    assert_eq!(assertion_identity("NODE", &node), Ok("node:COMPONENT:src/api".to_string()));
    node.label = Some("Api".to_string());
    assert_eq!(assertion_identity("NODE", &node), Ok("node:COMPONENT:Api".to_string()));

    let mut edge = payload("ASSERT", "EDGE", "why");
    assert_eq!(assertion_identity("EDGE", &edge), Err(AssertionError::MissingEdgeKind));
    edge.edge_kind = Some("depends-on".to_string());
    assert_eq!(assertion_identity("EDGE", &edge), Err(AssertionError::MissingFromNode));
    edge.from_node_id = Some("a".to_string());
    assert_eq!(assertion_identity("EDGE", &edge), Err(AssertionError::MissingToNode));
    edge.to_node_id = Some("b".to_string());
    assert_eq!(assertion_identity("EDGE", &edge), Ok("edge:DEPENDS_ON:a:b".to_string()));
    edge.edge_id = Some("e-9".to_string());
    assert_eq!(assertion_identity("EDGE", &edge), Ok("edge:e-9".to_string()));

    assert_eq!(
        assertion_identity("LINK", &edge),
        Err(AssertionError::UnsupportedTargetKind("LINK".to_string()))
    );
}

#[test]
fn node_assertions_derive_their_identifiers() {
    let mut request = payload("assert", "node", " keep it ");
    request.node_kind = Some("component".to_string());
    request.label = Some("Api".to_string());
    request.confidence_permille = Some(900);
    let assertion = build_assertion("repo", &request).expect("valid assertion");

    assert_eq!(assertion.action, "ASSERT");
    assert_eq!(assertion.target_kind, "NODE");
    assert_eq!(assertion.reason, "keep it");
    assert_eq!(
        assertion.assertion_id,
        sha256_hex("architecture_graph|assertion|repo|ASSERT|NODE|ASSERT|node:COMPONENT:Api")
    );
    assert_eq!(
        assertion.node_id,
        Some(sha256_hex("architecture_graph|node|repo|COMPONENT|node:COMPONENT:Api"))
    );
    assert_eq!(assertion.node_kind.as_deref(), Some("COMPONENT"));
    assert_eq!(assertion.edge_id, None);
    assert_eq!(assertion.source, "devql_mutation");
    assert_eq!(assertion.confidence_permille, Some(900));
    assert_eq!(assertion.provenance, "{\"source\":\"devql_mutation\"}");
    assert_eq!(assertion.evidence, "[]");
    assert_eq!(assertion.properties, "{}");

    request.assertion_id = Some(" chosen ".to_string());
    request.source = Some("review".to_string());
    let chosen = build_assertion("repo", &request).expect("valid assertion");
    assert_eq!(chosen.assertion_id, "chosen");
    assert_eq!(chosen.source, "review");

    request.confidence_permille = Some(1001);
    assert_eq!(build_assertion("repo", &request), Err(AssertionError::ConfidenceOutOfRange));
}

#[test]
fn edge_assertions_derive_their_identifiers() {
    let mut request = payload("annotate", "edge", "link");
    request.edge_kind = Some("dependsOn".to_string());
    request.from_node_id = Some("a".to_string());
    request.to_node_id = Some("b".to_string());
    let assertion = build_assertion("repo", &request).expect("valid assertion");
    assert_eq!(assertion.action, "ANNOTATE");
    assert_eq!(assertion.edge_kind.as_deref(), Some("DEPENDS_ON"));
    assert_eq!(assertion.edge_id, Some(sha256_hex("architecture_graph|edge|repo|DEPENDS_ON|a|b")));
    assert_eq!(assertion.node_id, None);
    assert_eq!(assertion.from_node_id.as_deref(), Some("a"));

    assert_eq!(deterministic_id("abc"), sha256_hex("abc"));
    assert_eq!(
        deterministic_id("abc"),
        "ba7816bf8f01cfea414140de5dae2223b00361a396177a9cb410ff61f20015ad"
    );
}

#[test]
fn normalising_a_normal_form_changes_nothing() {
    for raw in ["deploymentUnit", "edge-kind", "  __node kind__ ", "HTTPServer", "a-b_c d"] {
        let once = normalise_fact_kind(raw);
        assert_eq!(normalise_fact_kind(&once), once);
    }
    assert_eq!(normalise_fact_kind("deploymentUnit"), "DEPLOYMENT_UNIT");
}
