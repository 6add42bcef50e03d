use architecture_graph::health::ARCHITECTURE_GRAPH_ROLE_ADJUDICATION_SLOT;
use architecture_graph::registration::{
    register_architecture_graph_pack, ArchitectureGraphPack, CapabilityMailboxInitPolicy,
    CapabilityMailboxReadinessPolicy, CapabilityRegistrations, ARCHITECTURE_GRAPH_ASSERT_INGESTER_ID,
    ARCHITECTURE_GRAPH_CAPABILITY_ID, ARCHITECTURE_GRAPH_CONSUMER_ID,
    ARCHITECTURE_GRAPH_REVOKE_INGESTER_ID, ARCHITECTURE_GRAPH_ROLE_ADJUDICATION_INGESTER_ID,
    ARCHITECTURE_GRAPH_ROLE_ADJUDICATION_MAILBOX, ARCHITECTURE_GRAPH_ROLE_CURRENT_STATE_CONSUMER_ID,
    ARCHITECTURE_GRAPH_SCHEMA_MODULE,
};

#[test]
fn architecture_graph_pack_exposes_descriptor_migration_and_health_checks() {
    let pack = ArchitectureGraphPack::new();

    assert_eq!(pack.descriptor().id, "architecture_graph");
    assert_eq!(pack.descriptor().display_name, "Architecture Graph");
    assert_eq!(pack.migrations().len(), 1);
    assert_eq!(pack.migrations()[0].capability_id, "architecture_graph");
    assert_eq!(pack.health_checks().len(), 2);
}

#[test]
fn register_architecture_graph_pack_registers_expected_contributions() {
    let mut registrar = CapabilityRegistrations::new();

    register_architecture_graph_pack(&mut registrar);

    let ingesters = registrar
        .ingesters
        .iter()
        .map(|i| (i.capability_id.as_str(), i.ingester_name.as_str()))
        .collect::<Vec<_>>();
    assert_eq!(
        ingesters,
        vec![
            (ARCHITECTURE_GRAPH_CAPABILITY_ID, ARCHITECTURE_GRAPH_ASSERT_INGESTER_ID),
            (ARCHITECTURE_GRAPH_CAPABILITY_ID, ARCHITECTURE_GRAPH_REVOKE_INGESTER_ID),
            (ARCHITECTURE_GRAPH_CAPABILITY_ID, ARCHITECTURE_GRAPH_ROLE_ADJUDICATION_INGESTER_ID),
        ]
    );
    let consumers = registrar
        .current_state_consumers
        .iter()
        .map(|c| (c.capability_id.as_str(), c.consumer_id.as_str()))
        .collect::<Vec<_>>();
    assert_eq!(
        consumers,
        vec![
            (ARCHITECTURE_GRAPH_CAPABILITY_ID, ARCHITECTURE_GRAPH_CONSUMER_ID),
            (ARCHITECTURE_GRAPH_CAPABILITY_ID, ARCHITECTURE_GRAPH_ROLE_CURRENT_STATE_CONSUMER_ID),
        ]
    );
    assert_eq!(
        registrar
            .mailboxes
            .iter()
            .map(|mailbox| (mailbox.capability_id.as_str(), mailbox.mailbox_name.as_str()))
            .collect::<Vec<_>>(),
        vec![
            (ARCHITECTURE_GRAPH_CAPABILITY_ID, ARCHITECTURE_GRAPH_CONSUMER_ID),
            (ARCHITECTURE_GRAPH_CAPABILITY_ID, ARCHITECTURE_GRAPH_ROLE_CURRENT_STATE_CONSUMER_ID),
            (ARCHITECTURE_GRAPH_CAPABILITY_ID, ARCHITECTURE_GRAPH_ROLE_ADJUDICATION_MAILBOX),
        ]
    );
    let snapshot_mailbox = registrar
        .mailboxes
        .iter()
        .find(|mailbox| mailbox.mailbox_name == ARCHITECTURE_GRAPH_CONSUMER_ID)
        .expect("architecture graph snapshot mailbox to be registered");
    assert_eq!(snapshot_mailbox.init_policy, CapabilityMailboxInitPolicy::Background);
    let role_current_state_mailbox = registrar
        .mailboxes
        .iter()
        .find(|mailbox| mailbox.mailbox_name == ARCHITECTURE_GRAPH_ROLE_CURRENT_STATE_CONSUMER_ID)
        .expect("architecture role current-state mailbox to be registered");
    assert_eq!(
        role_current_state_mailbox.init_policy,
        CapabilityMailboxInitPolicy::Background
    );
    let adjudication_mailbox = registrar
        .mailboxes
        .iter()
        .find(|mailbox| mailbox.mailbox_name == ARCHITECTURE_GRAPH_ROLE_ADJUDICATION_MAILBOX)
        .expect("role adjudication mailbox to be registered");
    assert_eq!(
        adjudication_mailbox.readiness_policy,
        CapabilityMailboxReadinessPolicy::StructuredGenerationSlot(
            ARCHITECTURE_GRAPH_ROLE_ADJUDICATION_SLOT.to_string()
        )
    );
    assert_eq!(registrar.schema_modules, vec![ARCHITECTURE_GRAPH_SCHEMA_MODULE.to_string()]);
    assert_eq!(registrar.query_examples.len(), 3);
    assert!(registrar.stages.is_empty());
}

#[test]
fn roles_facade_exposes_expected_submodules() {
    let submodules = [
        "adjudication_selector",
        "assignment_applier",
        "schema",
        "storage",
        "taxonomy",
        "fact_extraction",
        "rules",
        "classifier",
        "llm_adjudication",
        "llm_executor",
        "migrations",
        "orchestrator",
        "queue_store",
        "response_validator",
    ];
    assert_eq!(submodules.len(), 14);
}

#[test]
fn registration_adds_the_pack_query_examples() {
    let mut registrar = CapabilityRegistrations::new();
    register_architecture_graph_pack(&mut registrar);
    let names: Vec<&str> = registrar.query_examples.iter().map(|e| e.name.as_str()).collect();
    assert_eq!(names, vec!["Architecture graph", "Architecture entry points", "Architecture flows"]);
    assert_eq!(registrar.query_examples[0].query, "repo(\"my-repo\") -> architecture_graph()");
    assert!(registrar.stages.is_empty());
    assert_eq!(registrar.schema_modules.len(), 1);
}
