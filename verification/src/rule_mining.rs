//! Inputs of rule mining: targets no rule covers, and the signature by
//! which similar ones are clustered.
use vstd::prelude::*;

use crate::contracts::AdjudicationReason;
use crate::model::{clone_opt, fact_views, opt_view, ArchitectureArtefactFact, FactV, RoleTarget, TargetKind, TargetV};
use crate::order::{order_of, views_of, Order, StrSet};
use crate::text::{chars_of, segments, split_segments, str_eq, string_from_chars};

verus! {

/// A target that rule mining may learn from. Confidences are in
/// thousandths.
pub struct RoleRuleMiningClusterInput {
    pub reason: AdjudicationReason,
    pub target: RoleTarget,
    pub facts: Vec<ArchitectureArtefactFact>,
    pub candidate_role_ids: Vec<String>,
    pub deterministic_confidence_permille: Option<u32>,
    pub high_impact: bool,
}

/// A cluster of similar targets offered to rule mining, with its most
/// telling members.
#[derive(Debug, Clone, PartialEq, Eq)]
pub struct RoleRuleMiningCluster {
    pub cluster_key: String,
    pub reason_family: String,
    pub target_kind: TargetKind,
    pub stable_path_prefix: Option<String>,
    pub language: Option<String>,
    pub canonical_kind: Option<String>,
    pub file_role: Option<String>,
    pub analysis_mode: Option<String>,
    pub symbol_suffix: Option<String>,
    pub dependency_kinds: Vec<String>,
    pub candidate_role_ids: Vec<String>,
    pub representative_target_ids: Vec<String>,
    pub member_count: usize,
}

/// A cluster rule mining declined, and why.
#[derive(Debug, Clone, PartialEq, Eq)]
pub struct RoleRuleMiningSkippedCluster {
    pub cluster_key: String,
    pub reason: String,
}

/// The family of reasons a cluster is mined for.
pub open spec fn reason_family_of(reason: AdjudicationReason) -> Seq<char> {
    match reason {
        AdjudicationReason::Unknown => "unknown"@,
        AdjudicationReason::HighImpact => "unknown"@,
        AdjudicationReason::Conflict => "conflict"@,
        AdjudicationReason::LowConfidence => "low_confidence"@,
        AdjudicationReason::NovelPattern => "unknown"@,
        AdjudicationReason::ManualReview => "manual_review"@,
    }
}

pub fn reason_family(reason: AdjudicationReason) -> (r: &'static str)
    ensures
        r@ == reason_family_of(reason),
{
    match reason {
        AdjudicationReason::Unknown | AdjudicationReason::HighImpact => "unknown",
        AdjudicationReason::Conflict => "conflict",
        AdjudicationReason::LowConfidence => "low_confidence",
        AdjudicationReason::NovelPattern => "unknown",
        AdjudicationReason::ManualReview => "manual_review",
    }
}

/// The first two non-empty segments of a path, joined by `/`.
pub open spec fn stable_prefix_of(path: Seq<char>) -> Option<Seq<char>> {
    let parts = segments(path, '/');
    if parts.len() >= 2 {
        Some(parts[0] + "/"@ + parts[1])
    } else {
        None
    }
}

pub fn stable_path_prefix(path: &str) -> (r: Option<String>)
    ensures
        opt_view(r) == stable_prefix_of(path@),
{
    let chars = chars_of(path);
    let parts = split_segments(chars.as_slice(), '/');
    proof {
        assert(parts@.len() == segments(path@, '/').len());
    }
    if parts.len() < 2 {
        return None;
    }
    let mut out: Vec<char> = Vec::new();
    let mut i: usize = 0;
    while i < parts[0].len()
        invariant
            parts@.len() >= 2,
            i <= parts@[0]@.len(),
            out@ == parts@[0]@.take(i as int),
        decreases parts@[0]@.len() - i,
    {
        out.push(parts[0][i]);
        assert(parts@[0]@.take(i + 1) =~= parts@[0]@.take(i as int).push(parts@[0]@[i as int]));
        i = i + 1;
    }
    out.push('/');
    let ghost head = out@;
    let mut j: usize = 0;
    while j < parts[1].len()
        invariant
            parts@.len() >= 2,
            j <= parts@[1]@.len(),
            out@ == head + parts@[1]@.take(j as int),
        decreases parts@[1]@.len() - j,
    {
        out.push(parts[1][j]);
        assert(parts@[1]@.take(j + 1) =~= parts@[1]@.take(j as int).push(parts@[1]@[j as int]));
        j = j + 1;
    }
    proof {
        assert(parts@[0]@.take(parts@[0]@.len() as int) =~= parts@[0]@);
        assert(parts@[1]@.take(parts@[1]@.len() as int) =~= parts@[1]@);
        assert(crate::text::views(parts@)[0] == parts@[0]@);
        assert(crate::text::views(parts@)[1] == parts@[1]@);
        assert(out@ =~= parts@[0]@ + "/"@ + parts@[1]@) by {
            reveal_strlit("/");
        }
    }
    Some(string_from_chars(out.as_slice()))
}

/// The identifier of a target: its symbol, else its artefact, else its path.
pub open spec fn target_id_of(t: TargetV) -> Seq<char> {
    match t.symbol_id {
        Some(s) => s,
        None => match t.artefact_id {
            Some(a) => a,
            None => t.path,
        },
    }
}

pub fn target_id(input: &RoleRuleMiningClusterInput) -> (r: String)
    ensures
        r@ == target_id_of(input.target@),
{
    match &input.target.symbol_id {
        Some(s) => s.clone(),
        None => match &input.target.artefact_id {
            Some(a) => a.clone(),
            None => input.target.path.clone(),
        },
    }
}

pub fn fact_count(input: &RoleRuleMiningClusterInput) -> (r: usize)
    ensures
        r == input.facts@.len(),
{
    input.facts.len()
}

/// What the facts of a target say that clusters are built on.
pub struct FactView {
    pub language: Option<String>,
    pub canonical_kind: Option<String>,
    pub file_role: Option<String>,
    pub analysis_mode: Option<String>,
    pub symbol_suffix: Option<String>,
    pub dependency_kinds: StrSet,
}

/// A fact view as plain values.
pub struct FactViewV {
    pub language: Option<Seq<char>>,
    pub canonical_kind: Option<Seq<char>>,
    pub file_role: Option<Seq<char>>,
    pub analysis_mode: Option<Seq<char>>,
    pub symbol_suffix: Option<Seq<char>>,
    pub dependency_kinds: Set<Seq<char>>,
}

impl View for FactView {
    type V = FactViewV;

    open spec fn view(&self) -> FactViewV {
        FactViewV {
            language: opt_view(self.language),
            canonical_kind: opt_view(self.canonical_kind),
            file_role: opt_view(self.file_role),
            analysis_mode: opt_view(self.analysis_mode),
            symbol_suffix: opt_view(self.symbol_suffix),
            dependency_kinds: self.dependency_kinds@.to_set(),
        }
    }
}

pub open spec fn empty_fact_view() -> FactViewV {
    FactViewV {
        language: None,
        canonical_kind: None,
        file_role: None,
        analysis_mode: None,
        symbol_suffix: None,
        dependency_kinds: Set::empty(),
    }
}

/// What one more fact adds: the last value of each kept key wins, and
/// dependency kinds accumulate.
pub open spec fn observe_view(v: FactViewV, f: FactV) -> FactViewV {
    if f.kind == "language"@ && f.key == "resolved"@ {
        FactViewV { language: Some(f.value), ..v }
    } else if f.kind == "artefact"@ && f.key == "canonical_kind"@ {
        FactViewV { canonical_kind: Some(f.value), ..v }
    } else if f.kind == "file"@ && f.key == "role"@ {
        FactViewV { file_role: Some(f.value), ..v }
    } else if f.kind == "file"@ && f.key == "analysis_mode"@ {
        FactViewV { analysis_mode: Some(f.value), ..v }
    } else if f.kind == "symbol"@ && f.key == "name_suffix"@ {
        FactViewV { symbol_suffix: Some(f.value), ..v }
    } else if f.kind == "dependency"@ && (f.key == "incoming_kind"@ || f.key == "outgoing_kind"@) {
        FactViewV { dependency_kinds: v.dependency_kinds.insert(f.value), ..v }
    } else {
        v
    }
}

/// The view after reading `facts` in order.
pub open spec fn fact_view_of(facts: Seq<FactV>) -> FactViewV
    decreases facts.len(),
{
    if facts.len() == 0 {
        empty_fact_view()
    } else {
        observe_view(fact_view_of(facts.drop_last()), facts.last())
    }
}

impl FactView {
    pub fn new() -> (r: FactView)
        ensures
            r@ == empty_fact_view(),
    {
        let r = FactView {
            language: None,
            canonical_kind: None,
            file_role: None,
            analysis_mode: None,
            symbol_suffix: None,
            dependency_kinds: StrSet::new(),
        };
        assert(r@.dependency_kinds =~= Set::<Seq<char>>::empty());
        r
    }

    pub fn observe(&mut self, fact: &ArchitectureArtefactFact)
        ensures
            final(self)@ == observe_view(old(self)@, fact@),
    {
        let kind = fact.fact_kind.as_str();
        let key = fact.fact_key.as_str();
        if str_eq(kind, "language") && str_eq(key, "resolved") {
            self.language = Some(fact.fact_value.clone());
        } else if str_eq(kind, "artefact") && str_eq(key, "canonical_kind") {
            self.canonical_kind = Some(fact.fact_value.clone());
        } else if str_eq(kind, "file") && str_eq(key, "role") {
            self.file_role = Some(fact.fact_value.clone());
        } else if str_eq(kind, "file") && str_eq(key, "analysis_mode") {
            self.analysis_mode = Some(fact.fact_value.clone());
        } else if str_eq(kind, "symbol") && str_eq(key, "name_suffix") {
            self.symbol_suffix = Some(fact.fact_value.clone());
        } else if str_eq(kind, "dependency") && (str_eq(key, "incoming_kind") || str_eq(key, "outgoing_kind")) {
            self.dependency_kinds.insert(fact.fact_value.clone());
        }
    }
}

/// The signature that groups similar mining inputs. Candidate roles are
/// sorted and free of repeats.
pub struct ClusterSignature {
    pub reason_family: String,
    pub target_kind: TargetKind,
    pub stable_path_prefix: Option<String>,
    pub language: Option<String>,
    pub canonical_kind: Option<String>,
    pub file_role: Option<String>,
    pub analysis_mode: Option<String>,
    pub symbol_suffix: Option<String>,
    pub dependency_kinds: StrSet,
    pub candidate_role_ids: StrSet,
}

/// The signature of an input, as plain values.
pub open spec fn signature_holds(sig: ClusterSignature, input: RoleRuleMiningClusterInput) -> bool {
    let v = fact_view_of(fact_views(input.facts@));
    &&& sig.reason_family@ == reason_family_of(input.reason)
    &&& sig.target_kind == input.target.target_kind
    &&& opt_view(sig.stable_path_prefix) == stable_prefix_of(input.target.path@)
    &&& opt_view(sig.language) == v.language
    &&& opt_view(sig.canonical_kind) == v.canonical_kind
    &&& opt_view(sig.file_role) == v.file_role
    &&& opt_view(sig.analysis_mode) == v.analysis_mode
    &&& opt_view(sig.symbol_suffix) == v.symbol_suffix
    &&& sig.dependency_kinds@.to_set() == v.dependency_kinds
    &&& sig.candidate_role_ids@.to_set() == views_of(input.candidate_role_ids@).to_set()
    &&& crate::order::sorted_strict(sig.candidate_role_ids@)
}

pub fn cluster_signature_from_input(input: &RoleRuleMiningClusterInput) -> (r: ClusterSignature)
    ensures
        signature_holds(r, *input),
{
    let mut view = FactView::new();
    let ghost fv = fact_views(input.facts@);
    let mut i: usize = 0;
    while i < input.facts.len()
        invariant
            i <= input.facts@.len(),
            fv == fact_views(input.facts@),
            view@ == fact_view_of(fv.take(i as int)),
        decreases input.facts@.len() - i,
    {
        assert(fv.take(i + 1).drop_last() =~= fv.take(i as int));
        view.observe(&input.facts[i]);
        i = i + 1;
    }
    assert(fv.take(i as int) =~= fv);
    let candidate_role_ids = StrSet::from_strings(input.candidate_role_ids.as_slice());
    let FactView { language, canonical_kind, file_role, analysis_mode, symbol_suffix, dependency_kinds } = view;
    ClusterSignature {
        reason_family: crate::text::owned(reason_family(input.reason)),
        target_kind: input.target.target_kind,
        stable_path_prefix: stable_path_prefix(input.target.path.as_str()),
        language,
        canonical_kind,
        file_role,
        analysis_mode,
        symbol_suffix,
        dependency_kinds,
        candidate_role_ids,
    }
}

/// Rank of a member among the representatives of its cluster: high-impact
/// first, then more facts, then higher confidence (an absent confidence
/// ranks last), then by path and by target identifier.
pub open spec fn member_order(a: RoleRuleMiningClusterInput, b: RoleRuleMiningClusterInput) -> Order {
    if a.high_impact != b.high_impact {
        if a.high_impact {
            Order::Less
        } else {
            Order::Greater
        }
    } else if a.facts@.len() != b.facts@.len() {
        if a.facts@.len() > b.facts@.len() {
            Order::Less
        } else {
            Order::Greater
        }
    } else if a.deterministic_confidence_permille != b.deterministic_confidence_permille {
        match (a.deterministic_confidence_permille, b.deterministic_confidence_permille) {
            (Some(x), Some(y)) => if x > y {
                Order::Less
            } else {
                Order::Greater
            },
            (Some(_), None) => Order::Less,
            _ => Order::Greater,
        }
    } else if a.target.path@ != b.target.path@ {
        order_of(a.target.path@, b.target.path@)
    } else {
        order_of(target_id_of(a.target@), target_id_of(b.target@))
    }
}

pub fn compare_members(a: &RoleRuleMiningClusterInput, b: &RoleRuleMiningClusterInput) -> (r: Order)
    ensures
        r == member_order(*a, *b),
{
    if a.high_impact != b.high_impact {
        return if a.high_impact {
            Order::Less
        } else {
            Order::Greater
        };
    }
    let fa = fact_count(a);
    let fb = fact_count(b);
    if fa != fb {
        return if fa > fb {
            Order::Less
        } else {
            Order::Greater
        };
    }
    match (a.deterministic_confidence_permille, b.deterministic_confidence_permille) {
        (Some(x), Some(y)) => {
            if x != y {
                return if x > y {
                    Order::Less
                } else {
                    Order::Greater
                };
            }
        },
        (Some(_), None) => {
            return Order::Less;
        },
        (None, Some(_)) => {
            return Order::Greater;
        },
        (None, None) => {},
    }
    let pa = chars_of(a.target.path.as_str());
    let pb = chars_of(b.target.path.as_str());
    let by_path = crate::order::compare_chars(pa.as_slice(), pb.as_slice());
    match by_path {
        Order::Equal => {},
        _ => {
            return by_path;
        },
    }
    let ia = target_id(a);
    let ib = target_id(b);
    let ca = chars_of(ia.as_str());
    let cb = chars_of(ib.as_str());
    crate::order::compare_chars(ca.as_slice(), cb.as_slice())
}

} // verus!
