//! A request to reconcile a capability's current state after a sync.
use vstd::prelude::*;

use crate::order::views_of;

verus! {

/// Whether a reconcile covers everything or only what changed.
#[derive(Debug, Clone, Copy, PartialEq, Eq, Structural)]
pub enum ReconcileMode {
    FullReconcile,
    MergedDelta,
}

#[derive(Debug, Clone, PartialEq, Eq)]
pub struct ChangedFile {
    pub path: String,
    pub language: String,
    pub content_id: String,
}

#[derive(Debug, Clone, PartialEq, Eq)]
pub struct RemovedFile {
    pub path: String,
}

#[derive(Debug, Clone, PartialEq, Eq)]
pub struct ChangedArtefact {
    pub artefact_id: String,
    pub symbol_id: String,
    pub path: String,
    pub canonical_kind: Option<String>,
    pub name: String,
}

#[derive(Debug, Clone, PartialEq, Eq)]
pub struct RemovedArtefact {
    pub artefact_id: String,
    pub symbol_id: String,
    pub path: String,
}

/// What changed between two generations of a repository.
#[derive(Debug, Clone, PartialEq, Eq)]
pub struct CurrentStateConsumerRequest {
    pub run_id: Option<String>,
    pub repo_id: String,
    pub repo_root: String,
    pub active_branch: Option<String>,
    pub head_commit_sha: Option<String>,
    pub from_generation_seq_exclusive: u64,
    pub to_generation_seq_inclusive: u64,
    pub reconcile_mode: ReconcileMode,
    pub file_upserts: Vec<ChangedFile>,
    pub file_removals: Vec<RemovedFile>,
    pub affected_paths: Vec<String>,
    pub artefact_upserts: Vec<ChangedArtefact>,
    pub artefact_removals: Vec<RemovedArtefact>,
}

pub open spec fn changed_file_paths(v: Seq<ChangedFile>) -> Seq<Seq<char>> {
    v.map_values(|f: ChangedFile| f.path@)
}

pub open spec fn removed_file_paths(v: Seq<RemovedFile>) -> Seq<Seq<char>> {
    v.map_values(|f: RemovedFile| f.path@)
}

pub open spec fn changed_artefact_paths(v: Seq<ChangedArtefact>) -> Seq<Seq<char>> {
    v.map_values(|a: ChangedArtefact| a.path@)
}

pub open spec fn removed_artefact_paths(v: Seq<RemovedArtefact>) -> Seq<Seq<char>> {
    v.map_values(|a: RemovedArtefact| a.path@)
}

/// Every path a request names: affected paths, changed and removed files,
/// changed and removed artefacts.
pub open spec fn request_paths(r: CurrentStateConsumerRequest) -> Set<Seq<char>> {
    views_of(r.affected_paths@).to_set().union(changed_file_paths(r.file_upserts@).to_set()).union(
        removed_file_paths(r.file_removals@).to_set(),
    ).union(changed_artefact_paths(r.artefact_upserts@).to_set()).union(
        removed_artefact_paths(r.artefact_removals@).to_set(),
    )
}

pub fn paths_of_changed_files(v: &Vec<ChangedFile>) -> (r: Vec<String>)
    ensures
        views_of(r@) == changed_file_paths(v@),
{
    let mut out: Vec<String> = Vec::new();
    let mut i: usize = 0;
    while i < v.len()
        invariant
            i <= v@.len(),
            views_of(out@) == changed_file_paths(v@).take(i as int),
        decreases v@.len() - i,
    {
        let p = v[i].path.clone();
        let ghost before = out@;
        out.push(p);
        assert(views_of(out@) =~= views_of(before).push(p@));
        assert(changed_file_paths(v@).take(i + 1) =~= changed_file_paths(v@).take(i as int).push(p@));
        i = i + 1;
    }
    assert(changed_file_paths(v@).take(i as int) =~= changed_file_paths(v@));
    out
}

pub fn paths_of_removed_files(v: &Vec<RemovedFile>) -> (r: Vec<String>)
    ensures
        views_of(r@) == removed_file_paths(v@),
{
    let mut out: Vec<String> = Vec::new();
    let mut i: usize = 0;
    while i < v.len()
        invariant
            i <= v@.len(),
            views_of(out@) == removed_file_paths(v@).take(i as int),
        decreases v@.len() - i,
    {
        let p = v[i].path.clone();
        let ghost before = out@;
        out.push(p);
        assert(views_of(out@) =~= views_of(before).push(p@));
        assert(removed_file_paths(v@).take(i + 1) =~= removed_file_paths(v@).take(i as int).push(p@));
        i = i + 1;
    }
    assert(removed_file_paths(v@).take(i as int) =~= removed_file_paths(v@));
    out
}

pub fn paths_of_changed_artefacts(v: &Vec<ChangedArtefact>) -> (r: Vec<String>)
    ensures
        views_of(r@) == changed_artefact_paths(v@),
{
    let mut out: Vec<String> = Vec::new();
    let mut i: usize = 0;
    while i < v.len()
        invariant
            i <= v@.len(),
            views_of(out@) == changed_artefact_paths(v@).take(i as int),
        decreases v@.len() - i,
    {
        let p = v[i].path.clone();
        let ghost before = out@;
        out.push(p);
        assert(views_of(out@) =~= views_of(before).push(p@));
        assert(changed_artefact_paths(v@).take(i + 1) =~= changed_artefact_paths(v@).take(i as int).push(p@));
        i = i + 1;
    }
    assert(changed_artefact_paths(v@).take(i as int) =~= changed_artefact_paths(v@));
    out
}

pub fn paths_of_removed_artefacts(v: &Vec<RemovedArtefact>) -> (r: Vec<String>)
    ensures
        views_of(r@) == removed_artefact_paths(v@),
{
    let mut out: Vec<String> = Vec::new();
    let mut i: usize = 0;
    while i < v.len()
        invariant
            i <= v@.len(),
            views_of(out@) == removed_artefact_paths(v@).take(i as int),
        decreases v@.len() - i,
    {
        let p = v[i].path.clone();
        let ghost before = out@;
        out.push(p);
        assert(views_of(out@) =~= views_of(before).push(p@));
        assert(removed_artefact_paths(v@).take(i + 1) =~= removed_artefact_paths(v@).take(i as int).push(p@));
        i = i + 1;
    }
    assert(removed_artefact_paths(v@).take(i as int) =~= removed_artefact_paths(v@));
    out
}

} // verus!
