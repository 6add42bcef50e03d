//! Which paths a role classification covers, from a reconcile request.
use vstd::prelude::*;

use crate::model::CurrentCanonicalFileRecord;

use crate::model::{opt_view, target_kind_db, RoleTarget};
use crate::order::{sorted_strict, views_of, StrSet};
use crate::request::{
    paths_of_changed_artefacts, paths_of_changed_files, paths_of_removed_artefacts,
    paths_of_removed_files, removed_file_paths, request_paths, CurrentStateConsumerRequest,
    ReconcileMode,
};
use crate::text::owned;

verus! {

/// The paths a classification looks at. A full reconcile looks at every
/// live path and names none.
pub struct ArchitectureRoleClassificationScope {
    pub full_reconcile: bool,
    pub affected_paths: StrSet,
    pub removed_paths: StrSet,
}

/// The version of the deterministic role classifier's contract.
pub const ARCHITECTURE_ROLE_CLASSIFIER_VERSION: &'static str = "architecture_roles.deterministic.contract.v1";

/// What a classification run reads: the repository, the generation, the
/// scope of the run and the snapshot's files.
pub struct ArchitectureRoleClassificationInput<'a> {
    pub repo_id: &'a str,
    pub generation_seq: u64,
    pub scope: ArchitectureRoleClassificationScope,
    pub files: &'a [CurrentCanonicalFileRecord],
}

/// Every path a merged-delta request names.
pub fn affected_role_paths_from_request(request: &CurrentStateConsumerRequest) -> (r: StrSet)
    ensures
        r@.to_set() == request_paths(*request),
        sorted_strict(r@),
{
    let mut affected = StrSet::new();
    assert(affected@.to_set() =~= Set::<Seq<char>>::empty());
    affected.insert_strings(request.affected_paths.as_slice());
    let a = paths_of_changed_files(&request.file_upserts);
    affected.insert_strings(a.as_slice());
    let b = paths_of_removed_files(&request.file_removals);
    affected.insert_strings(b.as_slice());
    let c = paths_of_changed_artefacts(&request.artefact_upserts);
    affected.insert_strings(c.as_slice());
    let d = paths_of_removed_artefacts(&request.artefact_removals);
    affected.insert_strings(d.as_slice());
    assert(affected@.to_set() =~= request_paths(*request));
    affected
}

/// The paths of the removed files; removed artefacts leave their path.
pub fn removed_role_paths_from_request(request: &CurrentStateConsumerRequest) -> (r: StrSet)
    ensures
        r@.to_set() == removed_file_paths(request.file_removals@).to_set(),
        sorted_strict(r@),
{
    let paths = paths_of_removed_files(&request.file_removals);
    StrSet::from_strings(paths.as_slice())
}

pub fn role_classification_scope_from_request(request: &CurrentStateConsumerRequest) -> (r:
    ArchitectureRoleClassificationScope)
    ensures
        r.full_reconcile == (request.reconcile_mode == ReconcileMode::FullReconcile),
        r.full_reconcile ==> r.affected_paths@.len() == 0 && r.removed_paths@.len() == 0,
        !r.full_reconcile ==> r.affected_paths@.to_set() == request_paths(*request)
            && r.removed_paths@.to_set() == removed_file_paths(request.file_removals@).to_set(),
{
    if request.reconcile_mode == ReconcileMode::FullReconcile {
        return ArchitectureRoleClassificationScope {
            full_reconcile: true,
            affected_paths: StrSet::new(),
            removed_paths: StrSet::new(),
        };
    }
    ArchitectureRoleClassificationScope {
        full_reconcile: false,
        affected_paths: affected_role_paths_from_request(request),
        removed_paths: removed_role_paths_from_request(request),
    }
}

/// The refreshed paths and the removed ones, in ascending order without
/// repeats.
pub fn refreshed_paths_with_removals(refreshed_paths: &[String], removed_paths: &StrSet) -> (r: Vec<
    String,
>)
    ensures
        sorted_strict(views_of(r@)),
        views_of(r@).to_set() == views_of(refreshed_paths@).to_set().union(removed_paths@.to_set()),
{
    let mut all = StrSet::from_strings(refreshed_paths);
    all.insert_all(removed_paths);
    all.to_vec()
}

/// `paths` without the members of `removed`, in order.
pub open spec fn without(paths: Seq<Seq<char>>, removed: Set<Seq<char>>) -> Seq<Seq<char>>
    decreases paths.len(),
{
    if paths.len() == 0 {
        Seq::empty()
    } else if removed.contains(paths.last()) {
        without(paths.drop_last(), removed)
    } else {
        without(paths.drop_last(), removed).push(paths.last())
    }
}

/// The refreshed paths whose assignments are recomputed: those not removed.
pub fn assignment_refresh_paths(refreshed_paths: &[String], removed_paths: &StrSet) -> (r: Vec<String>)
    ensures
        views_of(r@) == without(views_of(refreshed_paths@), removed_paths@.to_set()),
{
    let ghost v = views_of(refreshed_paths@);
    let mut out: Vec<String> = Vec::new();
    let mut i: usize = 0;
    while i < refreshed_paths.len()
        invariant
            i <= refreshed_paths@.len(),
            v == views_of(refreshed_paths@),
            views_of(out@) == without(v.take(i as int), removed_paths@.to_set()),
        decreases refreshed_paths@.len() - i,
    {
        assert(v.take(i + 1).drop_last() =~= v.take(i as int));
        assert(v.take(i + 1).last() == refreshed_paths@[i as int]@);
        if !removed_paths.contains(refreshed_paths[i].as_str()) {
            out.push(refreshed_paths[i].clone());
            assert(views_of(out@) =~= without(v.take(i + 1), removed_paths@.to_set()));
        }
        i = i + 1;
    }
    assert(v.take(i as int) =~= v);
    out
}

/// The target columns of an adjudication request: kind, artefact, symbol.
pub fn request_target_fields(target: &RoleTarget) -> (r: (Option<String>, Option<String>, Option<String>))
    ensures
        opt_view(r.0) == Some(target_kind_db(target.target_kind)),
        opt_view(r.1) == target@.artefact_id,
        opt_view(r.2) == target@.symbol_id,
{
    (
        Some(owned(target.target_kind.as_db())),
        crate::model::clone_opt(&target.artefact_id),
        crate::model::clone_opt(&target.symbol_id),
    )
}

} // verus!
