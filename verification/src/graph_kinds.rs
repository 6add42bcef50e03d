//! The kinds of architecture graph nodes and edges, their names, and how a
//! synthesised fact's kind is read back.
use vstd::prelude::*;

use crate::json_doc::JsonValue;
use crate::text::{concat3, str_eq, trim, trimmed};

verus! {

/// A kind of architecture graph node.
#[derive(Debug, Clone, Copy, PartialEq, Eq, Structural)]
pub enum ArchitectureGraphNodeKind {
    System,
    DeploymentUnit,
    Container,
    Component,
    Domain,
    Entity,
    Capability,
    EntryPoint,
    Flow,
    Node,
    PersistenceObject,
    Event,
    ExternalSystem,
    Contract,
    Test,
    ChangeUnit,
    RiskSignal,
}

/// A kind of architecture graph edge.
#[derive(Debug, Clone, Copy, PartialEq, Eq, Structural)]
pub enum ArchitectureGraphEdgeKind {
    Contains,
    Owns,
    Exposes,
    Produces,
    Realises,
    Triggers,
    Traverses,
    Reads,
    Writes,
    Emits,
    Calls,
    Implements,
    DependsOn,
    VerifiedBy,
    Stores,
    Modifies,
    Impacts,
    Scores,
}

/// The SCREAMING_SNAKE_CASE name of a node kind.
pub open spec fn node_kind_text(k: ArchitectureGraphNodeKind) -> Seq<char> {
    match k {
        ArchitectureGraphNodeKind::System => "SYSTEM"@,
        ArchitectureGraphNodeKind::DeploymentUnit => "DEPLOYMENT_UNIT"@,
        ArchitectureGraphNodeKind::Container => "CONTAINER"@,
        ArchitectureGraphNodeKind::Component => "COMPONENT"@,
        ArchitectureGraphNodeKind::Domain => "DOMAIN"@,
        ArchitectureGraphNodeKind::Entity => "ENTITY"@,
        ArchitectureGraphNodeKind::Capability => "CAPABILITY"@,
        ArchitectureGraphNodeKind::EntryPoint => "ENTRY_POINT"@,
        ArchitectureGraphNodeKind::Flow => "FLOW"@,
        ArchitectureGraphNodeKind::Node => "NODE"@,
        ArchitectureGraphNodeKind::PersistenceObject => "PERSISTENCE_OBJECT"@,
        ArchitectureGraphNodeKind::Event => "EVENT"@,
        ArchitectureGraphNodeKind::ExternalSystem => "EXTERNAL_SYSTEM"@,
        ArchitectureGraphNodeKind::Contract => "CONTRACT"@,
        ArchitectureGraphNodeKind::Test => "TEST"@,
        ArchitectureGraphNodeKind::ChangeUnit => "CHANGE_UNIT"@,
        ArchitectureGraphNodeKind::RiskSignal => "RISK_SIGNAL"@,
    }
}

/// The SCREAMING_SNAKE_CASE name of an edge kind.
pub open spec fn edge_kind_text(k: ArchitectureGraphEdgeKind) -> Seq<char> {
    match k {
        ArchitectureGraphEdgeKind::Contains => "CONTAINS"@,
        ArchitectureGraphEdgeKind::Owns => "OWNS"@,
        ArchitectureGraphEdgeKind::Exposes => "EXPOSES"@,
        ArchitectureGraphEdgeKind::Produces => "PRODUCES"@,
        ArchitectureGraphEdgeKind::Realises => "REALISES"@,
        ArchitectureGraphEdgeKind::Triggers => "TRIGGERS"@,
        ArchitectureGraphEdgeKind::Traverses => "TRAVERSES"@,
        ArchitectureGraphEdgeKind::Reads => "READS"@,
        ArchitectureGraphEdgeKind::Writes => "WRITES"@,
        ArchitectureGraphEdgeKind::Emits => "EMITS"@,
        ArchitectureGraphEdgeKind::Calls => "CALLS"@,
        ArchitectureGraphEdgeKind::Implements => "IMPLEMENTS"@,
        ArchitectureGraphEdgeKind::DependsOn => "DEPENDS_ON"@,
        ArchitectureGraphEdgeKind::VerifiedBy => "VERIFIED_BY"@,
        ArchitectureGraphEdgeKind::Stores => "STORES"@,
        ArchitectureGraphEdgeKind::Modifies => "MODIFIES"@,
        ArchitectureGraphEdgeKind::Impacts => "IMPACTS"@,
        ArchitectureGraphEdgeKind::Scores => "SCORES"@,
    }
}

impl ArchitectureGraphNodeKind {
    pub fn as_str(self) -> (r: &'static str)
        ensures
            r@ == node_kind_text(self),
    {
        match self {
            ArchitectureGraphNodeKind::System => "SYSTEM",
            ArchitectureGraphNodeKind::DeploymentUnit => "DEPLOYMENT_UNIT",
            ArchitectureGraphNodeKind::Container => "CONTAINER",
            ArchitectureGraphNodeKind::Component => "COMPONENT",
            ArchitectureGraphNodeKind::Domain => "DOMAIN",
            ArchitectureGraphNodeKind::Entity => "ENTITY",
            ArchitectureGraphNodeKind::Capability => "CAPABILITY",
            ArchitectureGraphNodeKind::EntryPoint => "ENTRY_POINT",
            ArchitectureGraphNodeKind::Flow => "FLOW",
            ArchitectureGraphNodeKind::Node => "NODE",
            ArchitectureGraphNodeKind::PersistenceObject => "PERSISTENCE_OBJECT",
            ArchitectureGraphNodeKind::Event => "EVENT",
            ArchitectureGraphNodeKind::ExternalSystem => "EXTERNAL_SYSTEM",
            ArchitectureGraphNodeKind::Contract => "CONTRACT",
            ArchitectureGraphNodeKind::Test => "TEST",
            ArchitectureGraphNodeKind::ChangeUnit => "CHANGE_UNIT",
            ArchitectureGraphNodeKind::RiskSignal => "RISK_SIGNAL",
        }
    }
}

impl ArchitectureGraphEdgeKind {
    pub fn as_str(self) -> (r: &'static str)
        ensures
            r@ == edge_kind_text(self),
    {
        match self {
            ArchitectureGraphEdgeKind::Contains => "CONTAINS",
            ArchitectureGraphEdgeKind::Owns => "OWNS",
            ArchitectureGraphEdgeKind::Exposes => "EXPOSES",
            ArchitectureGraphEdgeKind::Produces => "PRODUCES",
            ArchitectureGraphEdgeKind::Realises => "REALISES",
            ArchitectureGraphEdgeKind::Triggers => "TRIGGERS",
            ArchitectureGraphEdgeKind::Traverses => "TRAVERSES",
            ArchitectureGraphEdgeKind::Reads => "READS",
            ArchitectureGraphEdgeKind::Writes => "WRITES",
            ArchitectureGraphEdgeKind::Emits => "EMITS",
            ArchitectureGraphEdgeKind::Calls => "CALLS",
            ArchitectureGraphEdgeKind::Implements => "IMPLEMENTS",
            ArchitectureGraphEdgeKind::DependsOn => "DEPENDS_ON",
            ArchitectureGraphEdgeKind::VerifiedBy => "VERIFIED_BY",
            ArchitectureGraphEdgeKind::Stores => "STORES",
            ArchitectureGraphEdgeKind::Modifies => "MODIFIES",
            ArchitectureGraphEdgeKind::Impacts => "IMPACTS",
            ArchitectureGraphEdgeKind::Scores => "SCORES",
        }
    }
}

/// Every node kind, in the order the synthesis schema lists them.
pub open spec fn all_node_kinds() -> Seq<ArchitectureGraphNodeKind> {
    seq![
        ArchitectureGraphNodeKind::System,
        ArchitectureGraphNodeKind::DeploymentUnit,
        ArchitectureGraphNodeKind::Container,
        ArchitectureGraphNodeKind::Component,
        ArchitectureGraphNodeKind::Domain,
        ArchitectureGraphNodeKind::Entity,
        ArchitectureGraphNodeKind::Capability,
        ArchitectureGraphNodeKind::EntryPoint,
        ArchitectureGraphNodeKind::Flow,
        ArchitectureGraphNodeKind::Node,
        ArchitectureGraphNodeKind::PersistenceObject,
        ArchitectureGraphNodeKind::Event,
        ArchitectureGraphNodeKind::ExternalSystem,
        ArchitectureGraphNodeKind::Contract,
        ArchitectureGraphNodeKind::Test,
        ArchitectureGraphNodeKind::ChangeUnit,
        ArchitectureGraphNodeKind::RiskSignal,
    ]
}

/// Every edge kind, in the order the synthesis schema lists them.
pub open spec fn all_edge_kinds() -> Seq<ArchitectureGraphEdgeKind> {
    seq![
        ArchitectureGraphEdgeKind::Contains,
        ArchitectureGraphEdgeKind::Owns,
        ArchitectureGraphEdgeKind::Exposes,
        ArchitectureGraphEdgeKind::Produces,
        ArchitectureGraphEdgeKind::Realises,
        ArchitectureGraphEdgeKind::Triggers,
        ArchitectureGraphEdgeKind::Traverses,
        ArchitectureGraphEdgeKind::Reads,
        ArchitectureGraphEdgeKind::Writes,
        ArchitectureGraphEdgeKind::Emits,
        ArchitectureGraphEdgeKind::Calls,
        ArchitectureGraphEdgeKind::Implements,
        ArchitectureGraphEdgeKind::DependsOn,
        ArchitectureGraphEdgeKind::VerifiedBy,
        ArchitectureGraphEdgeKind::Stores,
        ArchitectureGraphEdgeKind::Modifies,
        ArchitectureGraphEdgeKind::Impacts,
        ArchitectureGraphEdgeKind::Scores,
    ]
}

/// The first of `kinds` named `name`.
pub open spec fn node_kind_among(kinds: Seq<ArchitectureGraphNodeKind>, name: Seq<char>) -> Option<ArchitectureGraphNodeKind>
    decreases kinds.len(),
{
    if kinds.len() == 0 {
        None
    } else if node_kind_text(kinds[0]) == name {
        Some(kinds[0])
    } else {
        node_kind_among(kinds.drop_first(), name)
    }
}

pub open spec fn node_kind_views(kinds: Seq<ArchitectureGraphNodeKind>) -> Seq<Seq<char>> {
    kinds.map_values(|k: ArchitectureGraphNodeKind| node_kind_text(k))
}

pub open spec fn edge_kind_views(kinds: Seq<ArchitectureGraphEdgeKind>) -> Seq<Seq<char>> {
    kinds.map_values(|k: ArchitectureGraphEdgeKind| edge_kind_text(k))
}

pub open spec fn str_views(v: Seq<&str>) -> Seq<Seq<char>> {
    v.map_values(|s: &str| s@)
}

fn node_kind_list() -> (r: Vec<ArchitectureGraphNodeKind>)
    ensures
        r@ == all_node_kinds(),
{
    let r = vec![
        ArchitectureGraphNodeKind::System,
        ArchitectureGraphNodeKind::DeploymentUnit,
        ArchitectureGraphNodeKind::Container,
        ArchitectureGraphNodeKind::Component,
        ArchitectureGraphNodeKind::Domain,
        ArchitectureGraphNodeKind::Entity,
        ArchitectureGraphNodeKind::Capability,
        ArchitectureGraphNodeKind::EntryPoint,
        ArchitectureGraphNodeKind::Flow,
        ArchitectureGraphNodeKind::Node,
        ArchitectureGraphNodeKind::PersistenceObject,
        ArchitectureGraphNodeKind::Event,
        ArchitectureGraphNodeKind::ExternalSystem,
        ArchitectureGraphNodeKind::Contract,
        ArchitectureGraphNodeKind::Test,
        ArchitectureGraphNodeKind::ChangeUnit,
        ArchitectureGraphNodeKind::RiskSignal,
    ];
    assert(r@ =~= all_node_kinds());
    r
}

fn edge_kind_list() -> (r: Vec<ArchitectureGraphEdgeKind>)
    ensures
        r@ == all_edge_kinds(),
{
    let r = vec![
        ArchitectureGraphEdgeKind::Contains,
        ArchitectureGraphEdgeKind::Owns,
        ArchitectureGraphEdgeKind::Exposes,
        ArchitectureGraphEdgeKind::Produces,
        ArchitectureGraphEdgeKind::Realises,
        ArchitectureGraphEdgeKind::Triggers,
        ArchitectureGraphEdgeKind::Traverses,
        ArchitectureGraphEdgeKind::Reads,
        ArchitectureGraphEdgeKind::Writes,
        ArchitectureGraphEdgeKind::Emits,
        ArchitectureGraphEdgeKind::Calls,
        ArchitectureGraphEdgeKind::Implements,
        ArchitectureGraphEdgeKind::DependsOn,
        ArchitectureGraphEdgeKind::VerifiedBy,
        ArchitectureGraphEdgeKind::Stores,
        ArchitectureGraphEdgeKind::Modifies,
        ArchitectureGraphEdgeKind::Impacts,
        ArchitectureGraphEdgeKind::Scores,
    ];
    assert(r@ =~= all_edge_kinds());
    r
}

/// The names of every node kind, in schema order.
pub fn node_kind_names() -> (r: Vec<&'static str>)
    ensures
        str_views(r@) == node_kind_views(all_node_kinds()),
{
    let kinds = node_kind_list();
    let mut out: Vec<&'static str> = Vec::new();
    let mut i: usize = 0;
    while i < kinds.len()
        invariant
            i <= kinds@.len(),
            kinds@ == all_node_kinds(),
            str_views(out@) == node_kind_views(kinds@.take(i as int)),
        decreases kinds@.len() - i,
    {
        let ghost before = str_views(out@);
        let name = kinds[i].as_str();
        out.push(name);
        assert(str_views(out@) =~= before.push(name@));
        assert(kinds@.take(i + 1) =~= kinds@.take(i as int).push(kinds@[i as int]));
        assert(node_kind_views(kinds@.take(i + 1)) =~= node_kind_views(kinds@.take(i as int)).push(node_kind_text(kinds@[i as int])));
        i = i + 1;
    }
    assert(kinds@.take(i as int) =~= kinds@);
    out
}

/// The names of every edge kind, in schema order.
pub fn edge_kind_names() -> (r: Vec<&'static str>)
    ensures
        str_views(r@) == edge_kind_views(all_edge_kinds()),
{
    let kinds = edge_kind_list();
    let mut out: Vec<&'static str> = Vec::new();
    let mut i: usize = 0;
    while i < kinds.len()
        invariant
            i <= kinds@.len(),
            kinds@ == all_edge_kinds(),
            str_views(out@) == edge_kind_views(kinds@.take(i as int)),
        decreases kinds@.len() - i,
    {
        let ghost before = str_views(out@);
        let name = kinds[i].as_str();
        out.push(name);
        assert(str_views(out@) =~= before.push(name@));
        assert(kinds@.take(i + 1) =~= kinds@.take(i as int).push(kinds@[i as int]));
        assert(edge_kind_views(kinds@.take(i + 1)) =~= edge_kind_views(kinds@.take(i as int)).push(edge_kind_text(kinds@[i as int])));
        i = i + 1;
    }
    assert(kinds@.take(i as int) =~= kinds@);
    out
}

/// The node kind names as JSON strings, then `null`: the values an
/// endpoint's kind may take.
pub open spec fn kind_value_matches(v: JsonValue, name: Seq<char>) -> bool {
    match v {
        JsonValue::Text(s) => s@ == name,
        _ => false,
    }
}

pub fn node_kind_names_with_null() -> (r: Vec<JsonValue>)
    ensures
        r@.len() == all_node_kinds().len() + 1,
        forall|i: int| 0 <= i < all_node_kinds().len() ==> kind_value_matches(#[trigger] r@[i], node_kind_text(all_node_kinds()[i])),
        r@[all_node_kinds().len() as int] is Null,
{
    let names = node_kind_names();
    assert(str_views(names@).len() == names@.len());
    let mut out: Vec<JsonValue> = Vec::new();
    let mut i: usize = 0;
    while i < names.len()
        invariant
            i <= names@.len(),
            names@.len() == all_node_kinds().len(),
            str_views(names@) == node_kind_views(all_node_kinds()),
            out@.len() == i,
            forall|j: int| 0 <= j < i ==> kind_value_matches(#[trigger] out@[j], node_kind_text(all_node_kinds()[j])),
        decreases names@.len() - i,
    {
        assert(str_views(names@)[i as int] == names@[i as int]@);
        assert(node_kind_views(all_node_kinds())[i as int] == node_kind_text(all_node_kinds()[i as int]));
        let ghost before = out@;
        let v = JsonValue::Text(crate::text::owned(names[i]));
        out.push(v);
        assert(out@ =~= before.push(v));
        i = i + 1;
    }
    out.push(JsonValue::Null);
    out
}

/// The node kind a synthesised fact names, after trimming.
pub open spec fn node_kind_named(raw: Seq<char>) -> Option<ArchitectureGraphNodeKind> {
    node_kind_among(all_node_kinds(), trim(raw))
}

/// The edge kind a synthesised fact names, after trimming.
pub open spec fn edge_kind_named(raw: Seq<char>) -> Option<ArchitectureGraphEdgeKind> {
    let t = trim(raw);
    if t == "CONTAINS"@ {
        Some(ArchitectureGraphEdgeKind::Contains)
    } else if t == "OWNS"@ {
        Some(ArchitectureGraphEdgeKind::Owns)
    } else if t == "EXPOSES"@ {
        Some(ArchitectureGraphEdgeKind::Exposes)
    } else if t == "PRODUCES"@ {
        Some(ArchitectureGraphEdgeKind::Produces)
    } else if t == "REALISES"@ {
        Some(ArchitectureGraphEdgeKind::Realises)
    } else if t == "TRIGGERS"@ {
        Some(ArchitectureGraphEdgeKind::Triggers)
    } else if t == "TRAVERSES"@ {
        Some(ArchitectureGraphEdgeKind::Traverses)
    } else if t == "READS"@ {
        Some(ArchitectureGraphEdgeKind::Reads)
    } else if t == "WRITES"@ {
        Some(ArchitectureGraphEdgeKind::Writes)
    } else if t == "EMITS"@ {
        Some(ArchitectureGraphEdgeKind::Emits)
    } else if t == "CALLS"@ {
        Some(ArchitectureGraphEdgeKind::Calls)
    } else if t == "IMPLEMENTS"@ {
        Some(ArchitectureGraphEdgeKind::Implements)
    } else if t == "DEPENDS_ON"@ {
        Some(ArchitectureGraphEdgeKind::DependsOn)
    } else if t == "VERIFIED_BY"@ {
        Some(ArchitectureGraphEdgeKind::VerifiedBy)
    } else if t == "STORES"@ {
        Some(ArchitectureGraphEdgeKind::Stores)
    } else if t == "MODIFIES"@ {
        Some(ArchitectureGraphEdgeKind::Modifies)
    } else if t == "IMPACTS"@ {
        Some(ArchitectureGraphEdgeKind::Impacts)
    } else if t == "SCORES"@ {
        Some(ArchitectureGraphEdgeKind::Scores)
    } else {
        None
    }
}

/// Reads a node kind from its name; any other text is refused with
/// ``unsupported node kind `<text>` ``.
pub fn parse_node_kind(raw: &str) -> (r: Result<ArchitectureGraphNodeKind, String>)
    ensures
        match r {
            Ok(k) => node_kind_named(raw@) == Some(k),
            Err(e) => node_kind_named(raw@) is None && e@ == "unsupported node kind `"@ + trim(raw@) + "`"@,
        },
{
    let t = trimmed(raw);
    let kinds = node_kind_list();
    let mut i: usize = 0;
    assert(kinds@.skip(0) =~= kinds@);
    while i < kinds.len()
        invariant
            i <= kinds@.len(),
            kinds@ == all_node_kinds(),
            t@ == trim(raw@),
            node_kind_among(kinds@, t@) == node_kind_among(kinds@.skip(i as int), t@),
        decreases kinds@.len() - i,
    {
        assert(kinds@.skip(i as int)[0] == kinds@[i as int]);
        assert(kinds@.skip(i as int).drop_first() =~= kinds@.skip(i + 1));
        if str_eq(kinds[i].as_str(), t.as_str()) {
            return Ok(kinds[i]);
        }
        i = i + 1;
    }
    assert(kinds@.skip(i as int) =~= Seq::<ArchitectureGraphNodeKind>::empty());
    Err(concat3("unsupported node kind `", t.as_str(), "`"))
}

/// Reads an edge kind from its name; any other text is refused with
/// ``unsupported edge kind `<text>` ``.
pub fn parse_edge_kind(raw: &str) -> (r: Result<ArchitectureGraphEdgeKind, String>)
    ensures
        match r {
            Ok(k) => edge_kind_named(raw@) == Some(k),
            Err(e) => edge_kind_named(raw@) is None && e@ == "unsupported edge kind `"@ + trim(raw@) + "`"@,
        },
{
    let t = trimmed(raw);
    let kind = if str_eq(t.as_str(), "CONTAINS") {
        ArchitectureGraphEdgeKind::Contains
    } else if str_eq(t.as_str(), "OWNS") {
        ArchitectureGraphEdgeKind::Owns
    } else if str_eq(t.as_str(), "EXPOSES") {
        ArchitectureGraphEdgeKind::Exposes
    } else if str_eq(t.as_str(), "PRODUCES") {
        ArchitectureGraphEdgeKind::Produces
    } else if str_eq(t.as_str(), "REALISES") {
        ArchitectureGraphEdgeKind::Realises
    } else if str_eq(t.as_str(), "TRIGGERS") {
        ArchitectureGraphEdgeKind::Triggers
    } else if str_eq(t.as_str(), "TRAVERSES") {
        ArchitectureGraphEdgeKind::Traverses
    } else if str_eq(t.as_str(), "READS") {
        ArchitectureGraphEdgeKind::Reads
    } else if str_eq(t.as_str(), "WRITES") {
        ArchitectureGraphEdgeKind::Writes
    } else if str_eq(t.as_str(), "EMITS") {
        ArchitectureGraphEdgeKind::Emits
    } else if str_eq(t.as_str(), "CALLS") {
        ArchitectureGraphEdgeKind::Calls
    } else if str_eq(t.as_str(), "IMPLEMENTS") {
        ArchitectureGraphEdgeKind::Implements
    } else if str_eq(t.as_str(), "DEPENDS_ON") {
        ArchitectureGraphEdgeKind::DependsOn
    } else if str_eq(t.as_str(), "VERIFIED_BY") {
        ArchitectureGraphEdgeKind::VerifiedBy
    } else if str_eq(t.as_str(), "STORES") {
        ArchitectureGraphEdgeKind::Stores
    } else if str_eq(t.as_str(), "MODIFIES") {
        ArchitectureGraphEdgeKind::Modifies
    } else if str_eq(t.as_str(), "IMPACTS") {
        ArchitectureGraphEdgeKind::Impacts
    } else if str_eq(t.as_str(), "SCORES") {
        ArchitectureGraphEdgeKind::Scores
    } else {
        return Err(concat3("unsupported edge kind `", t.as_str(), "`"));
    };
    Ok(kind)
}

/// Every node kind is read back from its own name: the names the schema
/// offers are exactly the ones the parser accepts.
pub proof fn lemma_node_kind_round_trip(k: ArchitectureGraphNodeKind)
    ensures
        node_kind_named(node_kind_text(k)) == Some(k),
{
    reveal_strlit("SYSTEM");
    reveal_strlit("DEPLOYMENT_UNIT");
    reveal_strlit("CONTAINER");
    reveal_strlit("COMPONENT");
    reveal_strlit("DOMAIN");
    reveal_strlit("ENTITY");
    reveal_strlit("CAPABILITY");
    reveal_strlit("ENTRY_POINT");
    reveal_strlit("FLOW");
    reveal_strlit("NODE");
    reveal_strlit("PERSISTENCE_OBJECT");
    reveal_strlit("EVENT");
    reveal_strlit("EXTERNAL_SYSTEM");
    reveal_strlit("CONTRACT");
    reveal_strlit("TEST");
    reveal_strlit("CHANGE_UNIT");
    reveal_strlit("RISK_SIGNAL");
    let t = node_kind_text(k);
    crate::text::lemma_trim_unpadded(t);
    reveal_with_fuel(node_kind_among, 18);
}

/// Every edge kind is read back from its own name.
pub proof fn lemma_edge_kind_round_trip(k: ArchitectureGraphEdgeKind)
    ensures
        edge_kind_named(edge_kind_text(k)) == Some(k),
{
    reveal_strlit("CONTAINS");
    reveal_strlit("OWNS");
    reveal_strlit("EXPOSES");
    reveal_strlit("PRODUCES");
    reveal_strlit("REALISES");
    reveal_strlit("TRIGGERS");
    reveal_strlit("TRAVERSES");
    reveal_strlit("READS");
    reveal_strlit("WRITES");
    reveal_strlit("EMITS");
    reveal_strlit("CALLS");
    reveal_strlit("IMPLEMENTS");
    reveal_strlit("DEPENDS_ON");
    reveal_strlit("VERIFIED_BY");
    reveal_strlit("STORES");
    reveal_strlit("MODIFIES");
    reveal_strlit("IMPACTS");
    reveal_strlit("SCORES");
    let t = edge_kind_text(k);
    crate::text::lemma_trim_unpadded(t);
    if k == ArchitectureGraphEdgeKind::Scores {
        // Same length as `STORES` and `WRITES`: they differ in a character.
        assert(t[1] != "STORES"@[1]);
        assert(t[0] != "WRITES"@[0]);
    }
}

} // verus!
