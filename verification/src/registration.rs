//! What the architecture graph capability contributes to its host: its
//! descriptor, ingesters, mailboxes, consumers, schema and query examples.
use vstd::prelude::*;

use crate::health::{
    architecture_graph_health_checks, ArchitectureGraphHealthCheck, ARCHITECTURE_GRAPH_ROLE_ADJUDICATION_SLOT,
};
use crate::text::owned;

verus! {

pub const ARCHITECTURE_GRAPH_CAPABILITY_ID: &'static str = "architecture_graph";

pub const ARCHITECTURE_GRAPH_CONSUMER_ID: &'static str = "architecture_graph.current_state";

pub const ARCHITECTURE_GRAPH_ROLE_CURRENT_STATE_CONSUMER_ID: &'static str =
    "architecture_graph.roles.current_state";

pub const ARCHITECTURE_GRAPH_ASSERT_INGESTER_ID: &'static str = "architecture_graph.assert";

pub const ARCHITECTURE_GRAPH_REVOKE_INGESTER_ID: &'static str = "architecture_graph.revoke";

pub const ARCHITECTURE_GRAPH_ROLE_ADJUDICATION_INGESTER_ID: &'static str =
    "architecture_graph.roles.adjudicate";

pub const ARCHITECTURE_GRAPH_ROLE_ADJUDICATION_MAILBOX: &'static str =
    "architecture_graph.roles.adjudication";

pub const ARCHITECTURE_GRAPH_SCHEMA_MODULE: &'static str = "architecture_graph";

/// The capability as the host lists it.
#[derive(Debug, Clone, PartialEq, Eq)]
pub struct CapabilityDescriptor {
    pub id: String,
    pub display_name: String,
    pub version: String,
    pub api_version: u32,
    pub description: String,
    pub default_enabled: bool,
    pub experimental: bool,
}

/// A schema migration of the capability.
#[derive(Debug, Clone, PartialEq, Eq)]
pub struct CapabilityMigration {
    pub capability_id: String,
    pub name: String,
}

/// A query shown as an example of the capability's DevQL stages.
#[derive(Debug, Clone, PartialEq, Eq)]
pub struct QueryExample {
    pub capability_id: String,
    pub name: String,
    pub query: String,
    pub description: String,
}

#[derive(Debug, Clone, PartialEq, Eq)]
pub struct IngesterRegistration {
    pub capability_id: String,
    pub ingester_name: String,
}

#[derive(Debug, Clone, PartialEq, Eq)]
pub struct CurrentStateConsumerRegistration {
    pub capability_id: String,
    pub consumer_id: String,
}

#[derive(Debug, Clone, Copy, PartialEq, Eq, Structural)]
pub enum CapabilityMailboxPolicy {
    Cursor,
    Job,
}

#[derive(Debug, Clone, Copy, PartialEq, Eq, Structural)]
pub enum CapabilityMailboxInitPolicy {
    Background,
    Blocking,
}

#[derive(Debug, Clone, Copy, PartialEq, Eq, Structural)]
pub enum CapabilityMailboxBacklogPolicy {
    Unbounded,
    ArtefactCompaction,
}

/// What handles the messages of a mailbox.
#[derive(Debug, Clone, PartialEq, Eq)]
pub enum CapabilityMailboxHandler {
    CurrentStateConsumer(String),
    Ingester(String),
}

/// When a mailbox may be drained.
#[derive(Debug, Clone, PartialEq, Eq)]
pub enum CapabilityMailboxReadinessPolicy {
    Always,
    StructuredGenerationSlot(String),
}

#[derive(Debug, Clone, PartialEq, Eq)]
pub struct CapabilityMailboxRegistration {
    pub capability_id: String,
    pub mailbox_name: String,
    pub policy: CapabilityMailboxPolicy,
    pub handler: CapabilityMailboxHandler,
    pub init_policy: CapabilityMailboxInitPolicy,
    pub readiness_policy: CapabilityMailboxReadinessPolicy,
    pub backlog_policy: CapabilityMailboxBacklogPolicy,
}

/// Everything registered so far.
pub struct CapabilityRegistrations {
    pub ingesters: Vec<IngesterRegistration>,
    pub mailboxes: Vec<CapabilityMailboxRegistration>,
    pub current_state_consumers: Vec<CurrentStateConsumerRegistration>,
    pub schema_modules: Vec<String>,
    pub query_examples: Vec<QueryExample>,
    pub stages: Vec<String>,
}

impl CapabilityRegistrations {
    pub fn new() -> (r: Self)
        ensures
            r.ingesters@.len() == 0,
            r.mailboxes@.len() == 0,
            r.current_state_consumers@.len() == 0,
            r.schema_modules@.len() == 0,
            r.query_examples@.len() == 0,
            r.stages@.len() == 0,
    {
        CapabilityRegistrations {
            ingesters: Vec::new(),
            mailboxes: Vec::new(),
            current_state_consumers: Vec::new(),
            schema_modules: Vec::new(),
            query_examples: Vec::new(),
            stages: Vec::new(),
        }
    }
}

pub open spec fn ingester_names(v: Seq<IngesterRegistration>) -> Seq<(Seq<char>, Seq<char>)> {
    v.map_values(|i: IngesterRegistration| (i.capability_id@, i.ingester_name@))
}

pub open spec fn mailbox_names(v: Seq<CapabilityMailboxRegistration>) -> Seq<(Seq<char>, Seq<char>)> {
    v.map_values(|m: CapabilityMailboxRegistration| (m.capability_id@, m.mailbox_name@))
}

pub open spec fn consumer_names(v: Seq<CurrentStateConsumerRegistration>) -> Seq<(Seq<char>, Seq<char>)> {
    v.map_values(|c: CurrentStateConsumerRegistration| (c.capability_id@, c.consumer_id@))
}

/// The ingester of architecture assertions.
pub struct ArchitectureGraphAssertIngester;

/// The ingester that revokes architecture assertions.
pub struct ArchitectureGraphRevokeIngester;

/// The ingester of role adjudication jobs.
pub struct ArchitectureRoleAdjudicationIngester;

pub fn build_assert_ingester() -> (r: IngesterRegistration)
    ensures
        r.capability_id@ == ARCHITECTURE_GRAPH_CAPABILITY_ID@,
        r.ingester_name@ == ARCHITECTURE_GRAPH_ASSERT_INGESTER_ID@,
{
    IngesterRegistration {
        capability_id: owned(ARCHITECTURE_GRAPH_CAPABILITY_ID),
        ingester_name: owned(ARCHITECTURE_GRAPH_ASSERT_INGESTER_ID),
    }
}

pub fn build_revoke_ingester() -> (r: IngesterRegistration)
    ensures
        r.capability_id@ == ARCHITECTURE_GRAPH_CAPABILITY_ID@,
        r.ingester_name@ == ARCHITECTURE_GRAPH_REVOKE_INGESTER_ID@,
{
    IngesterRegistration {
        capability_id: owned(ARCHITECTURE_GRAPH_CAPABILITY_ID),
        ingester_name: owned(ARCHITECTURE_GRAPH_REVOKE_INGESTER_ID),
    }
}

pub fn build_role_adjudication_ingester() -> (r: IngesterRegistration)
    ensures
        r.capability_id@ == ARCHITECTURE_GRAPH_CAPABILITY_ID@,
        r.ingester_name@ == ARCHITECTURE_GRAPH_ROLE_ADJUDICATION_INGESTER_ID@,
{
    IngesterRegistration {
        capability_id: owned(ARCHITECTURE_GRAPH_CAPABILITY_ID),
        ingester_name: owned(ARCHITECTURE_GRAPH_ROLE_ADJUDICATION_INGESTER_ID),
    }
}

/// The consumer that rebuilds the architecture graph.
pub struct ArchitectureGraphCurrentStateConsumer;

impl ArchitectureGraphCurrentStateConsumer {
    pub fn capability_id(&self) -> (r: &'static str)
        ensures
            r@ == ARCHITECTURE_GRAPH_CAPABILITY_ID@,
    {
        ARCHITECTURE_GRAPH_CAPABILITY_ID
    }

    pub fn consumer_id(&self) -> (r: &'static str)
        ensures
            r@ == ARCHITECTURE_GRAPH_CONSUMER_ID@,
    {
        ARCHITECTURE_GRAPH_CONSUMER_ID
    }
}

/// The consumer that reclassifies architecture roles.
pub struct ArchitectureGraphRoleCurrentStateConsumer;

impl ArchitectureGraphRoleCurrentStateConsumer {
    pub fn capability_id(&self) -> (r: &'static str)
        ensures
            r@ == ARCHITECTURE_GRAPH_CAPABILITY_ID@,
    {
        ARCHITECTURE_GRAPH_CAPABILITY_ID
    }

    pub fn consumer_id(&self) -> (r: &'static str)
        ensures
            r@ == ARCHITECTURE_GRAPH_ROLE_CURRENT_STATE_CONSUMER_ID@,
    {
        ARCHITECTURE_GRAPH_ROLE_CURRENT_STATE_CONSUMER_ID
    }
}

fn mailbox(
    name: &str,
    policy: CapabilityMailboxPolicy,
    handler: CapabilityMailboxHandler,
) -> (r: CapabilityMailboxRegistration)
    ensures
        r.capability_id@ == ARCHITECTURE_GRAPH_CAPABILITY_ID@,
        r.mailbox_name@ == name@,
        r.policy == policy,
        r.handler == handler,
        r.init_policy == CapabilityMailboxInitPolicy::Background,
        r.readiness_policy == CapabilityMailboxReadinessPolicy::Always,
        r.backlog_policy == CapabilityMailboxBacklogPolicy::Unbounded,
{
    CapabilityMailboxRegistration {
        capability_id: owned(ARCHITECTURE_GRAPH_CAPABILITY_ID),
        mailbox_name: owned(name),
        policy,
        handler,
        init_policy: CapabilityMailboxInitPolicy::Background,
        readiness_policy: CapabilityMailboxReadinessPolicy::Always,
        backlog_policy: CapabilityMailboxBacklogPolicy::Unbounded,
    }
}

fn consumer_registration(consumer_id: &str) -> (r: CurrentStateConsumerRegistration)
    ensures
        r.capability_id@ == ARCHITECTURE_GRAPH_CAPABILITY_ID@,
        r.consumer_id@ == consumer_id@,
{
    CurrentStateConsumerRegistration {
        capability_id: owned(ARCHITECTURE_GRAPH_CAPABILITY_ID),
        consumer_id: owned(consumer_id),
    }
}

fn query_example(name: &str, query: &str, description: &str) -> (r: QueryExample)
    ensures
        r.capability_id@ == ARCHITECTURE_GRAPH_CAPABILITY_ID@,
        r.name@ == name@,
        r.query@ == query@,
        r.description@ == description@,
{
    QueryExample {
        capability_id: owned(ARCHITECTURE_GRAPH_CAPABILITY_ID),
        name: owned(name),
        query: owned(query),
        description: owned(description),
    }
}

/// The three example queries of the capability: its id, then each
/// example's name, query and description.
pub open spec fn pack_query_examples() -> Seq<(Seq<char>, Seq<char>, Seq<char>, Seq<char>)> {
    seq![
        (
            ARCHITECTURE_GRAPH_CAPABILITY_ID@,
            "Architecture graph"@,
            "repo(\"my-repo\") -> architecture_graph()"@,
            "Read the effective architecture graph for the current project scope."@,
        ),
        (
            ARCHITECTURE_GRAPH_CAPABILITY_ID@,
            "Architecture entry points"@,
            "repo(\"my-repo\") -> architecture_entry_points(kind: \"main\")"@,
            "Inspect effective entry points resolved from language evidence and assertions."@,
        ),
        (
            ARCHITECTURE_GRAPH_CAPABILITY_ID@,
            "Architecture flows"@,
            "repo(\"my-repo\") -> architecture_flows(entryPointId: \"...\")"@,
            "Inspect flows triggered by an entry point, the nodes they traverse, and ordered module steps."@,
        ),
    ]
}

pub open spec fn example_views(v: Seq<QueryExample>) -> Seq<(Seq<char>, Seq<char>, Seq<char>, Seq<char>)> {
    v.map_values(|e: QueryExample| (e.capability_id@, e.name@, e.query@, e.description@))
}

fn push_query_examples(r: &mut Vec<QueryExample>)
    ensures
        example_views(final(r)@) == example_views(old(r)@) + pack_query_examples(),
{
    let ghost start = r@;
    r.push(query_example(
        "Architecture graph",
        "repo(\"my-repo\") -> architecture_graph()",
        "Read the effective architecture graph for the current project scope.",
    ));
    r.push(query_example(
        "Architecture entry points",
        "repo(\"my-repo\") -> architecture_entry_points(kind: \"main\")",
        "Inspect effective entry points resolved from language evidence and assertions.",
    ));
    r.push(query_example(
        "Architecture flows",
        "repo(\"my-repo\") -> architecture_flows(entryPointId: \"...\")",
        "Inspect flows triggered by an entry point, the nodes they traverse, and ordered module steps.",
    ));
    assert(example_views(r@) =~= example_views(start) + pack_query_examples());
}

/// The example queries of the capability.
pub fn architecture_graph_query_examples() -> (r: Vec<QueryExample>)
    ensures
        example_views(r@) == pack_query_examples(),
{
    let mut r = Vec::new();
    assert(example_views(r@) =~= Seq::empty());
    push_query_examples(&mut r);
    assert(example_views(r@) =~= pack_query_examples());
    r
}

/// What registering the pack adds: its ingesters, the mailboxes of the two
/// current-state consumers and of role adjudication, the consumers, the
/// schema module and the query examples, each after what was there; no
/// stage.
pub open spec fn pack_registered(before: CapabilityRegistrations, after: CapabilityRegistrations) -> bool {
    let m = after.mailboxes@;
    let n = before.mailboxes@.len() as int;
    &&& ingester_names(after.ingesters@) == ingester_names(before.ingesters@) + seq![
        (ARCHITECTURE_GRAPH_CAPABILITY_ID@, ARCHITECTURE_GRAPH_ASSERT_INGESTER_ID@),
        (ARCHITECTURE_GRAPH_CAPABILITY_ID@, ARCHITECTURE_GRAPH_REVOKE_INGESTER_ID@),
        (ARCHITECTURE_GRAPH_CAPABILITY_ID@, ARCHITECTURE_GRAPH_ROLE_ADJUDICATION_INGESTER_ID@),
    ]
    &&& m.len() == n + 3
    &&& m.subrange(0, n) == before.mailboxes@
    &&& mailbox_names(m.subrange(n, n + 3)) == seq![
        (ARCHITECTURE_GRAPH_CAPABILITY_ID@, ARCHITECTURE_GRAPH_CONSUMER_ID@),
        (ARCHITECTURE_GRAPH_CAPABILITY_ID@, ARCHITECTURE_GRAPH_ROLE_CURRENT_STATE_CONSUMER_ID@),
        (ARCHITECTURE_GRAPH_CAPABILITY_ID@, ARCHITECTURE_GRAPH_ROLE_ADJUDICATION_MAILBOX@),
    ]
    &&& m[n].policy == CapabilityMailboxPolicy::Cursor
    &&& m[n].handler matches CapabilityMailboxHandler::CurrentStateConsumer(c) && c@ == ARCHITECTURE_GRAPH_CONSUMER_ID@
    &&& m[n].init_policy == CapabilityMailboxInitPolicy::Background
    &&& m[n + 1].policy == CapabilityMailboxPolicy::Cursor
    &&& m[n + 1].handler matches CapabilityMailboxHandler::CurrentStateConsumer(c)
        && c@ == ARCHITECTURE_GRAPH_ROLE_CURRENT_STATE_CONSUMER_ID@
    &&& m[n + 1].init_policy == CapabilityMailboxInitPolicy::Background
    &&& m[n + 2].policy == CapabilityMailboxPolicy::Job
    &&& m[n + 2].handler matches CapabilityMailboxHandler::Ingester(c) && c@ == ARCHITECTURE_GRAPH_ROLE_ADJUDICATION_INGESTER_ID@
    &&& m[n + 2].readiness_policy matches CapabilityMailboxReadinessPolicy::StructuredGenerationSlot(s)
        && s@ == ARCHITECTURE_GRAPH_ROLE_ADJUDICATION_SLOT@
    &&& m[n + 2].backlog_policy == CapabilityMailboxBacklogPolicy::ArtefactCompaction
    &&& m[n + 2].init_policy == CapabilityMailboxInitPolicy::Background
    &&& consumer_names(after.current_state_consumers@) == consumer_names(before.current_state_consumers@) + seq![
        (ARCHITECTURE_GRAPH_CAPABILITY_ID@, ARCHITECTURE_GRAPH_CONSUMER_ID@),
        (ARCHITECTURE_GRAPH_CAPABILITY_ID@, ARCHITECTURE_GRAPH_ROLE_CURRENT_STATE_CONSUMER_ID@),
    ]
    &&& after.schema_modules@ == before.schema_modules@.push(after.schema_modules@.last())
    &&& after.schema_modules@.last()@ == ARCHITECTURE_GRAPH_SCHEMA_MODULE@
    &&& example_views(after.query_examples@) == example_views(before.query_examples@) + pack_query_examples()
    &&& after.stages@ == before.stages@
}

/// Registers the ingesters, the mailboxes of the two current-state
/// consumers and of role adjudication, the consumers, the schema module and
/// the query examples, in that order.
pub fn register_architecture_graph_pack(registrar: &mut CapabilityRegistrations)
    ensures
        pack_registered(*old(registrar), *final(registrar)),
{
    let ghost old_ingesters = registrar.ingesters@;
    registrar.ingesters.push(build_assert_ingester());
    registrar.ingesters.push(build_revoke_ingester());
    registrar.ingesters.push(build_role_adjudication_ingester());
    assert(ingester_names(registrar.ingesters@) =~= ingester_names(old_ingesters) + seq![
        (ARCHITECTURE_GRAPH_CAPABILITY_ID@, ARCHITECTURE_GRAPH_ASSERT_INGESTER_ID@),
        (ARCHITECTURE_GRAPH_CAPABILITY_ID@, ARCHITECTURE_GRAPH_REVOKE_INGESTER_ID@),
        (ARCHITECTURE_GRAPH_CAPABILITY_ID@, ARCHITECTURE_GRAPH_ROLE_ADJUDICATION_INGESTER_ID@),
    ]);
    let ghost old_mailboxes = registrar.mailboxes@;
    registrar.mailboxes.push(mailbox(
        ARCHITECTURE_GRAPH_CONSUMER_ID,
        CapabilityMailboxPolicy::Cursor,
        CapabilityMailboxHandler::CurrentStateConsumer(owned(ARCHITECTURE_GRAPH_CONSUMER_ID)),
    ));
    registrar.mailboxes.push(mailbox(
        ARCHITECTURE_GRAPH_ROLE_CURRENT_STATE_CONSUMER_ID,
        CapabilityMailboxPolicy::Cursor,
        CapabilityMailboxHandler::CurrentStateConsumer(owned(ARCHITECTURE_GRAPH_ROLE_CURRENT_STATE_CONSUMER_ID)),
    ));
    let mut adjudication = mailbox(
        ARCHITECTURE_GRAPH_ROLE_ADJUDICATION_MAILBOX,
        CapabilityMailboxPolicy::Job,
        CapabilityMailboxHandler::Ingester(owned(ARCHITECTURE_GRAPH_ROLE_ADJUDICATION_INGESTER_ID)),
    );
    adjudication.readiness_policy = CapabilityMailboxReadinessPolicy::StructuredGenerationSlot(
        owned(ARCHITECTURE_GRAPH_ROLE_ADJUDICATION_SLOT),
    );
    adjudication.backlog_policy = CapabilityMailboxBacklogPolicy::ArtefactCompaction;
    registrar.mailboxes.push(adjudication);
    let ghost n = old_mailboxes.len() as int;
    assert(registrar.mailboxes@.subrange(0, n) =~= old_mailboxes);
    assert(mailbox_names(registrar.mailboxes@.subrange(n, n + 3)) =~= seq![
        (ARCHITECTURE_GRAPH_CAPABILITY_ID@, ARCHITECTURE_GRAPH_CONSUMER_ID@),
        (ARCHITECTURE_GRAPH_CAPABILITY_ID@, ARCHITECTURE_GRAPH_ROLE_CURRENT_STATE_CONSUMER_ID@),
        (ARCHITECTURE_GRAPH_CAPABILITY_ID@, ARCHITECTURE_GRAPH_ROLE_ADJUDICATION_MAILBOX@),
    ]);
    let ghost old_consumers = registrar.current_state_consumers@;
    registrar.current_state_consumers.push(consumer_registration(ARCHITECTURE_GRAPH_CONSUMER_ID));
    registrar.current_state_consumers.push(
        consumer_registration(ARCHITECTURE_GRAPH_ROLE_CURRENT_STATE_CONSUMER_ID),
    );
    assert(consumer_names(registrar.current_state_consumers@) =~= consumer_names(old_consumers) + seq![
        (ARCHITECTURE_GRAPH_CAPABILITY_ID@, ARCHITECTURE_GRAPH_CONSUMER_ID@),
        (ARCHITECTURE_GRAPH_CAPABILITY_ID@, ARCHITECTURE_GRAPH_ROLE_CURRENT_STATE_CONSUMER_ID@),
    ]);
    registrar.schema_modules.push(owned(ARCHITECTURE_GRAPH_SCHEMA_MODULE));
    push_query_examples(&mut registrar.query_examples);
}

/// The architecture graph capability.
pub struct ArchitectureGraphPack;

impl ArchitectureGraphPack {
    pub fn new() -> (r: Self)
        ensures
            r == ArchitectureGraphPack,
    {
        ArchitectureGraphPack
    }

    pub fn descriptor(&self) -> (r: CapabilityDescriptor)
        ensures
            r.id@ == ARCHITECTURE_GRAPH_CAPABILITY_ID@,
            r.display_name@ == "Architecture Graph"@,
            r.version@ == "0.1.0"@,
            r.api_version == 1,
            r.default_enabled,
            !r.experimental,
    {
        CapabilityDescriptor {
            id: owned(ARCHITECTURE_GRAPH_CAPABILITY_ID),
            display_name: owned("Architecture Graph"),
            version: owned("0.1.0"),
            api_version: 1,
            description: owned(
                "C4, DDD, ArchiMate, and runtime-trace inspired architecture graph facts for DevQL.",
            ),
            default_enabled: true,
            experimental: false,
        }
    }

    pub fn migrations(&self) -> (r: Vec<CapabilityMigration>)
        ensures
            r@.len() == 1,
            r@[0].capability_id@ == ARCHITECTURE_GRAPH_CAPABILITY_ID@,
    {
        let mut r = Vec::new();
        r.push(CapabilityMigration {
            capability_id: owned(ARCHITECTURE_GRAPH_CAPABILITY_ID),
            name: owned("architecture_graph_tables"),
        });
        r
    }

    pub fn health_checks(&self) -> (r: Vec<ArchitectureGraphHealthCheck>)
        ensures
            r@ == seq![ArchitectureGraphHealthCheck::Storage, ArchitectureGraphHealthCheck::Inference],
    {
        architecture_graph_health_checks()
    }

    pub fn register(&self, registrar: &mut CapabilityRegistrations)
        ensures
            pack_registered(*old(registrar), *final(registrar)),
    {
        register_architecture_graph_pack(registrar)
    }
}

} // verus!
