//! Records of the current-state snapshot and the role-target vocabulary.
use vstd::prelude::*;

verus! {

/// The optional character sequence held by an optional string.
pub open spec fn opt_view(o: Option<String>) -> Option<Seq<char>> {
    match o {
        Some(s) => Some(s@),
        None => None,
    }
}

pub fn clone_opt(o: &Option<String>) -> (r: Option<String>)
    ensures
        opt_view(r) == opt_view(*o),
{
    match o {
        Some(s) => Some(s.clone()),
        None => None,
    }
}

/// Whether two optional strings hold the same text.
pub fn opt_text_eq(a: &Option<String>, b: &Option<String>) -> (r: bool)
    ensures
        r == (opt_view(*a) == opt_view(*b)),
{
    match (a, b) {
        (Some(x), Some(y)) => crate::text::str_eq(x.as_str(), y.as_str()),
        (None, None) => true,
        _ => false,
    }
}

/// One file of the current-state snapshot.
#[derive(Debug, Clone, PartialEq, Eq)]
pub struct CurrentCanonicalFileRecord {
    pub repo_id: String,
    pub path: String,
    pub analysis_mode: String,
    pub file_role: String,
    pub language: String,
    pub resolved_language: String,
    pub effective_content_id: String,
    pub parser_version: String,
    pub extractor_version: String,
    pub exists_in_head: bool,
    pub exists_in_index: bool,
    pub exists_in_worktree: bool,
}

/// One code artefact (symbol) of the current-state snapshot.
#[derive(Debug, Clone, PartialEq, Eq)]
pub struct CurrentCanonicalArtefactRecord {
    pub repo_id: String,
    pub path: String,
    pub content_id: String,
    pub symbol_id: String,
    pub artefact_id: String,
    pub language: String,
    pub extraction_fingerprint: String,
    pub canonical_kind: Option<String>,
    pub language_kind: Option<String>,
    pub symbol_fqn: Option<String>,
    pub parent_symbol_id: Option<String>,
    pub parent_artefact_id: Option<String>,
    pub start_line: i64,
    pub end_line: i64,
    pub start_byte: i64,
    pub end_byte: i64,
    pub signature: Option<String>,
    pub modifiers: String,
    pub docstring: Option<String>,
}

/// One dependency edge of the current-state snapshot.
#[derive(Debug, Clone, PartialEq, Eq)]
pub struct CurrentCanonicalEdgeRecord {
    pub repo_id: String,
    pub edge_id: String,
    pub path: String,
    pub content_id: String,
    pub from_symbol_id: String,
    pub from_artefact_id: String,
    pub to_symbol_id: Option<String>,
    pub to_artefact_id: Option<String>,
    pub to_symbol_ref: Option<String>,
    pub edge_kind: String,
    pub language: String,
    pub start_line: Option<i64>,
    pub end_line: Option<i64>,
    pub metadata: String,
}

/// What a role assignment is about.
#[derive(Debug, Clone, Copy, PartialEq, Eq, PartialOrd, Ord, Hash)]
pub enum TargetKind {
    File,
    Artefact,
    Symbol,
}

pub open spec fn target_kind_db(k: TargetKind) -> Seq<char> {
    match k {
        TargetKind::File => "file"@,
        TargetKind::Artefact => "artefact"@,
        TargetKind::Symbol => "symbol"@,
    }
}

impl TargetKind {
    pub fn as_db(&self) -> (r: &'static str)
        ensures
            r@ == target_kind_db(*self),
    {
        match self {
            TargetKind::File => "file",
            TargetKind::Artefact => "artefact",
            TargetKind::Symbol => "symbol",
        }
    }
}

/// A file, an artefact, or a symbol of the snapshot.
#[derive(Debug, Clone, PartialEq, Eq, PartialOrd, Ord, Hash)]
pub struct RoleTarget {
    pub target_kind: TargetKind,
    pub artefact_id: Option<String>,
    pub symbol_id: Option<String>,
    pub path: String,
}

/// A role target as plain values.
pub struct TargetV {
    pub kind: TargetKind,
    pub artefact_id: Option<Seq<char>>,
    pub symbol_id: Option<Seq<char>>,
    pub path: Seq<char>,
}

impl View for RoleTarget {
    type V = TargetV;

    open spec fn view(&self) -> TargetV {
        TargetV {
            kind: self.target_kind,
            artefact_id: opt_view(self.artefact_id),
            symbol_id: opt_view(self.symbol_id),
            path: self.path@,
        }
    }
}

impl RoleTarget {
    pub fn file(path: String) -> (r: RoleTarget)
        ensures
            r@ == (TargetV { kind: TargetKind::File, artefact_id: None, symbol_id: None, path: path@ }),
    {
        RoleTarget { target_kind: TargetKind::File, artefact_id: None, symbol_id: None, path }
    }

    pub fn artefact(artefact_id: String, symbol_id: String, path: String) -> (r: RoleTarget)
        ensures
            r@ == (TargetV {
                kind: TargetKind::Artefact,
                artefact_id: Some(artefact_id@),
                symbol_id: Some(symbol_id@),
                path: path@,
            }),
    {
        RoleTarget {
            target_kind: TargetKind::Artefact,
            artefact_id: Some(artefact_id),
            symbol_id: Some(symbol_id),
            path,
        }
    }

    pub fn symbol(artefact_id: String, symbol_id: String, path: String) -> (r: RoleTarget)
        ensures
            r@ == (TargetV {
                kind: TargetKind::Symbol,
                artefact_id: Some(artefact_id@),
                symbol_id: Some(symbol_id@),
                path: path@,
            }),
    {
        RoleTarget {
            target_kind: TargetKind::Symbol,
            artefact_id: Some(artefact_id),
            symbol_id: Some(symbol_id),
            path,
        }
    }

    /// Whether both name the same target.
    pub fn same_as(&self, other: &RoleTarget) -> (r: bool)
        ensures
            r == (self@ == other@),
    {
        let same_kind = match (self.target_kind, other.target_kind) {
            (TargetKind::File, TargetKind::File) => true,
            (TargetKind::Artefact, TargetKind::Artefact) => true,
            (TargetKind::Symbol, TargetKind::Symbol) => true,
            _ => false,
        };
        same_kind && opt_text_eq(&self.artefact_id, &other.artefact_id) && opt_text_eq(&self.symbol_id, &other.symbol_id)
            && crate::text::str_eq(self.path.as_str(), other.path.as_str())
    }

    pub fn duplicate(&self) -> (r: RoleTarget)
        ensures
            r@ == self@,
    {
        RoleTarget {
            target_kind: self.target_kind,
            artefact_id: clone_opt(&self.artefact_id),
            symbol_id: clone_opt(&self.symbol_id),
            path: self.path.clone(),
        }
    }
}

/// One observed fact about a role target. The confidence is in
/// thousandths (1000 is certainty).
#[derive(Debug, Clone, PartialEq, Eq)]
pub struct ArchitectureArtefactFact {
    pub repo_id: String,
    pub fact_id: String,
    pub target: RoleTarget,
    pub language: Option<String>,
    pub fact_kind: String,
    pub fact_key: String,
    pub fact_value: String,
    pub source: String,
    pub confidence_permille: u32,
    pub generation_seq: u64,
}

/// A fact as plain values.
pub struct FactV {
    pub repo_id: Seq<char>,
    pub fact_id: Seq<char>,
    pub target: TargetV,
    pub language: Option<Seq<char>>,
    pub kind: Seq<char>,
    pub key: Seq<char>,
    pub value: Seq<char>,
    pub source: Seq<char>,
    pub confidence_permille: u32,
    pub generation_seq: u64,
}

impl View for ArchitectureArtefactFact {
    type V = FactV;

    open spec fn view(&self) -> FactV {
        FactV {
            repo_id: self.repo_id@,
            fact_id: self.fact_id@,
            target: self.target@,
            language: opt_view(self.language),
            kind: self.fact_kind@,
            key: self.fact_key@,
            value: self.fact_value@,
            source: self.source@,
            confidence_permille: self.confidence_permille,
            generation_seq: self.generation_seq,
        }
    }
}

pub open spec fn fact_views(v: Seq<ArchitectureArtefactFact>) -> Seq<FactV> {
    v.map_values(|f: ArchitectureArtefactFact| f@)
}

impl ArchitectureArtefactFact {
    pub fn duplicate(&self) -> (r: ArchitectureArtefactFact)
        ensures
            r@ == self@,
    {
        ArchitectureArtefactFact {
            repo_id: self.repo_id.clone(),
            fact_id: self.fact_id.clone(),
            target: self.target.duplicate(),
            language: clone_opt(&self.language),
            fact_kind: self.fact_kind.clone(),
            fact_key: self.fact_key.clone(),
            fact_value: self.fact_value.clone(),
            source: self.source.clone(),
            confidence_permille: self.confidence_permille,
            generation_seq: self.generation_seq,
        }
    }
}

} // verus!
