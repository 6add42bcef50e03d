//! Role facts of the current-state snapshot: which paths a change makes
//! stale, and the facts observed about the files and artefacts on them.
use vstd::prelude::*;

use crate::fact_order::{
    fact_order, lemma_sorted_facts_by_ties, lemma_target_order, lemma_ties_concat, lemma_ties_none, sort_facts,
    sorted_facts, ties,
};
use crate::facts::{
    add_artefact_facts, add_file_facts, artefact_context, artefact_fact_context, artefact_facts,
    emit, file_context, file_facts, file_seeds, lemma_emit_extend, push_fact, seed, ContextV, FactContext, SeedV,
};
use crate::model::{
    fact_views, opt_view, ArchitectureArtefactFact, CurrentCanonicalArtefactRecord,
    CurrentCanonicalEdgeRecord, CurrentCanonicalFileRecord, FactV, TargetKind, TargetV,
};
use crate::order::{lemma_sorted_strict_unique, sorted_strict, views_of, StrSet};
use crate::text::{decimal, str_eq, usize_to_decimal};

verus! {

// ---------------------------------------------------------------------------
// What the snapshot says, as sets and counts
// ---------------------------------------------------------------------------

/// The path of the last artefact with identity `id`.
pub open spec fn path_of(artefacts: Seq<CurrentCanonicalArtefactRecord>, id: Seq<char>) -> Option<Seq<char>>
    decreases artefacts.len(),
{
    if artefacts.len() == 0 {
        None
    } else if artefacts.last().artefact_id@ == id {
        Some(artefacts.last().path@)
    } else {
        path_of(artefacts.drop_last(), id)
    }
}

pub open spec fn artefact_paths(artefacts: Seq<CurrentCanonicalArtefactRecord>) -> Set<Seq<char>>
    decreases artefacts.len(),
{
    if artefacts.len() == 0 {
        Set::empty()
    } else {
        artefact_paths(artefacts.drop_last()).insert(artefacts.last().path@)
    }
}

pub open spec fn file_paths(files: Seq<CurrentCanonicalFileRecord>) -> Set<Seq<char>>
    decreases files.len(),
{
    if files.len() == 0 {
        Set::empty()
    } else {
        file_paths(files.drop_last()).insert(files.last().path@)
    }
}

pub open spec fn opt_set(o: Option<Seq<char>>) -> Set<Seq<char>> {
    match o {
        Some(p) => set![p],
        None => Set::empty(),
    }
}

/// The paths that hold the source of some dependency edge: the edge's own
/// path and the path of its source artefact.
pub open spec fn source_path_set(
    artefacts: Seq<CurrentCanonicalArtefactRecord>,
    edges: Seq<CurrentCanonicalEdgeRecord>,
) -> Set<Seq<char>>
    decreases edges.len(),
{
    if edges.len() == 0 {
        Set::empty()
    } else {
        let e = edges.last();
        source_path_set(artefacts, edges.drop_last()).insert(e.path@).union(
            opt_set(path_of(artefacts, e.from_artefact_id@)),
        )
    }
}

/// An edge whose source lies on an affected path.
pub open spec fn source_affected(
    artefacts: Seq<CurrentCanonicalArtefactRecord>,
    affected: Set<Seq<char>>,
    e: CurrentCanonicalEdgeRecord,
) -> bool {
    affected.contains(e.path@) || match path_of(artefacts, e.from_artefact_id@) {
        Some(p) => affected.contains(p),
        None => false,
    }
}

/// The destination of an edge, when it is a known artefact.
pub open spec fn destination_of(
    artefacts: Seq<CurrentCanonicalArtefactRecord>,
    e: CurrentCanonicalEdgeRecord,
) -> Option<Seq<char>> {
    match opt_view(e.to_artefact_id) {
        Some(t) => path_of(artefacts, t),
        None => None,
    }
}

/// The paths of the destinations of edges whose source is affected.
pub open spec fn destination_paths(
    artefacts: Seq<CurrentCanonicalArtefactRecord>,
    edges: Seq<CurrentCanonicalEdgeRecord>,
    affected: Set<Seq<char>>,
) -> Set<Seq<char>>
    decreases edges.len(),
{
    if edges.len() == 0 {
        Set::empty()
    } else {
        let e = edges.last();
        let prev = destination_paths(artefacts, edges.drop_last(), affected);
        if source_affected(artefacts, affected, e) {
            prev.union(opt_set(destination_of(artefacts, e)))
        } else {
            prev
        }
    }
}

pub open spec fn outgoing_kinds(edges: Seq<CurrentCanonicalEdgeRecord>, id: Seq<char>) -> Set<Seq<char>>
    decreases edges.len(),
{
    if edges.len() == 0 {
        Set::empty()
    } else if edges.last().from_artefact_id@ == id {
        outgoing_kinds(edges.drop_last(), id).insert(edges.last().edge_kind@)
    } else {
        outgoing_kinds(edges.drop_last(), id)
    }
}

pub open spec fn outgoing_count(edges: Seq<CurrentCanonicalEdgeRecord>, id: Seq<char>) -> nat
    decreases edges.len(),
{
    if edges.len() == 0 {
        0
    } else if edges.last().from_artefact_id@ == id {
        outgoing_count(edges.drop_last(), id) + 1
    } else {
        outgoing_count(edges.drop_last(), id)
    }
}

pub open spec fn incoming_kinds(edges: Seq<CurrentCanonicalEdgeRecord>, id: Seq<char>) -> Set<Seq<char>>
    decreases edges.len(),
{
    if edges.len() == 0 {
        Set::empty()
    } else if opt_view(edges.last().to_artefact_id) == Some(id) {
        incoming_kinds(edges.drop_last(), id).insert(edges.last().edge_kind@)
    } else {
        incoming_kinds(edges.drop_last(), id)
    }
}

pub open spec fn incoming_count(edges: Seq<CurrentCanonicalEdgeRecord>, id: Seq<char>) -> nat
    decreases edges.len(),
{
    if edges.len() == 0 {
        0
    } else if opt_view(edges.last().to_artefact_id) == Some(id) {
        incoming_count(edges.drop_last(), id) + 1
    } else {
        incoming_count(edges.drop_last(), id)
    }
}

/// Some affected path holds artefacts, or is neither a file nor the source
/// of an edge: edges may have gone, and every artefact path is stale.
pub open spec fn needs_dependency_reset(
    affected: Set<Seq<char>>,
    files: Seq<CurrentCanonicalFileRecord>,
    artefacts: Seq<CurrentCanonicalArtefactRecord>,
    edges: Seq<CurrentCanonicalEdgeRecord>,
) -> bool {
    exists|p: Seq<char>|
        #![trigger affected.contains(p)]
        affected.contains(p) && (artefact_paths(artefacts).contains(p) || (!file_paths(
            files,
        ).contains(p) && !source_path_set(artefacts, edges).contains(p)))
}

/// The paths whose facts are recomputed: every live path when nothing is
/// named as affected; else the affected paths, the destinations of their
/// edges, and every artefact path when edges may have gone.
pub open spec fn refresh_set(
    affected: Set<Seq<char>>,
    files: Seq<CurrentCanonicalFileRecord>,
    artefacts: Seq<CurrentCanonicalArtefactRecord>,
    edges: Seq<CurrentCanonicalEdgeRecord>,
) -> Set<Seq<char>> {
    if affected.is_empty() {
        file_paths(files).union(artefact_paths(artefacts))
    } else {
        affected.union(destination_paths(artefacts, edges, affected)).union(
            if needs_dependency_reset(affected, files, artefacts, edges) {
                artefact_paths(artefacts)
            } else {
                Set::empty()
            },
        )
    }
}

/// The strictly ascending list of a finite set of strings.
pub open spec fn ascending(s: Set<Seq<char>>) -> Seq<Seq<char>> {
    choose|v: Seq<Seq<char>>| sorted_strict(v) && v.to_set() == s
}

pub proof fn lemma_ascending(v: Seq<Seq<char>>, s: Set<Seq<char>>)
    requires
        sorted_strict(v),
        v.to_set() == s,
    ensures
        ascending(s) == v,
{
    let w = ascending(s);
    assert(sorted_strict(w) && w.to_set() == s);
    lemma_sorted_strict_unique(w, v);
}

// ---------------------------------------------------------------------------
// Dependency facts of an artefact
// ---------------------------------------------------------------------------

pub open spec fn kind_seeds(key: Seq<char>, kinds: Seq<Seq<char>>) -> Seq<SeedV> {
    kinds.map_values(|k: Seq<char>| seed("dependency"@, key, k, "canonical_edge"@, 950))
}

pub open spec fn count_seeds(key: Seq<char>, n: nat) -> Seq<SeedV> {
    if n > 0 {
        seq![seed("dependency"@, key, decimal(n), "canonical_edge"@, 900)]
    } else {
        Seq::empty()
    }
}

/// The kinds of the edges leaving and entering an artefact, in ascending
/// order, and their numbers.
pub open spec fn dependency_seeds(edges: Seq<CurrentCanonicalEdgeRecord>, id: Seq<char>) -> Seq<SeedV> {
    kind_seeds("outgoing_kind"@, ascending(outgoing_kinds(edges, id))) + count_seeds(
        "outgoing_count"@,
        outgoing_count(edges, id),
    ) + kind_seeds("incoming_kind"@, ascending(incoming_kinds(edges, id))) + count_seeds(
        "incoming_count"@,
        incoming_count(edges, id),
    )
}

pub open spec fn dependency_facts(
    repo_id: Seq<char>,
    generation_seq: u64,
    edges: Seq<CurrentCanonicalEdgeRecord>,
    a: CurrentCanonicalArtefactRecord,
) -> Seq<FactV> {
    emit(artefact_context(repo_id, generation_seq, a), dependency_seeds(edges, a.artefact_id@))
}

// ---------------------------------------------------------------------------
// All the facts of the refreshed paths
// ---------------------------------------------------------------------------

pub open spec fn refreshed_file_facts(
    repo_id: Seq<char>,
    generation_seq: u64,
    files: Seq<CurrentCanonicalFileRecord>,
    refreshed: Set<Seq<char>>,
) -> Seq<FactV>
    decreases files.len(),
{
    if files.len() == 0 {
        Seq::empty()
    } else {
        refreshed_file_facts(repo_id, generation_seq, files.drop_last(), refreshed) + if refreshed.contains(
            files.last().path@,
        ) {
            file_facts(repo_id, generation_seq, files.last())
        } else {
            Seq::empty()
        }
    }
}

pub open spec fn refreshed_artefact_facts(
    repo_id: Seq<char>,
    generation_seq: u64,
    artefacts: Seq<CurrentCanonicalArtefactRecord>,
    edges: Seq<CurrentCanonicalEdgeRecord>,
    refreshed: Set<Seq<char>>,
) -> Seq<FactV>
    decreases artefacts.len(),
{
    if artefacts.len() == 0 {
        Seq::empty()
    } else {
        let a = artefacts.last();
        refreshed_artefact_facts(repo_id, generation_seq, artefacts.drop_last(), edges, refreshed)
            + if refreshed.contains(a.path@) {
            artefact_facts(repo_id, generation_seq, a) + dependency_facts(repo_id, generation_seq, edges, a)
        } else {
            Seq::empty()
        }
    }
}

/// The facts of the refreshed files, in file order, then those of the
/// artefacts on refreshed paths, in artefact order.
pub open spec fn extracted_facts(
    repo_id: Seq<char>,
    generation_seq: u64,
    files: Seq<CurrentCanonicalFileRecord>,
    artefacts: Seq<CurrentCanonicalArtefactRecord>,
    edges: Seq<CurrentCanonicalEdgeRecord>,
    refreshed: Set<Seq<char>>,
) -> Seq<FactV> {
    refreshed_file_facts(repo_id, generation_seq, files, refreshed) + refreshed_artefact_facts(
        repo_id,
        generation_seq,
        artefacts,
        edges,
        refreshed,
    )
}


// ---------------------------------------------------------------------------
// Where the records come from
// ---------------------------------------------------------------------------

/// The artefacts and dependency edges of the current state.
pub trait ArchitectureRoleCurrentStateSource {
    spec fn artefact_records(&self) -> Seq<CurrentCanonicalArtefactRecord>;

    spec fn edge_records(&self) -> Seq<CurrentCanonicalEdgeRecord>;

    fn current_artefacts(&self) -> (r: &[CurrentCanonicalArtefactRecord])
        ensures
            r@ == self.artefact_records(),
    ;

    fn current_dependency_edges(&self) -> (r: &[CurrentCanonicalEdgeRecord])
        ensures
            r@ == self.edge_records(),
    ;
}

/// A current state held in memory.
pub struct SliceArchitectureRoleCurrentStateSource<'a> {
    artefacts: &'a [CurrentCanonicalArtefactRecord],
    dependency_edges: &'a [CurrentCanonicalEdgeRecord],
}

impl<'a> SliceArchitectureRoleCurrentStateSource<'a> {
    pub fn new(
        artefacts: &'a [CurrentCanonicalArtefactRecord],
        dependency_edges: &'a [CurrentCanonicalEdgeRecord],
    ) -> (r: Self)
        ensures
            r.artefact_records() == artefacts@,
            r.edge_records() == dependency_edges@,
    {
        SliceArchitectureRoleCurrentStateSource { artefacts, dependency_edges }
    }
}

impl<'a> ArchitectureRoleCurrentStateSource for SliceArchitectureRoleCurrentStateSource<'a> {
    closed spec fn artefact_records(&self) -> Seq<CurrentCanonicalArtefactRecord> {
        self.artefacts@
    }

    closed spec fn edge_records(&self) -> Seq<CurrentCanonicalEdgeRecord> {
        self.dependency_edges@
    }

    fn current_artefacts(&self) -> (r: &[CurrentCanonicalArtefactRecord]) {
        self.artefacts
    }

    fn current_dependency_edges(&self) -> (r: &[CurrentCanonicalEdgeRecord]) {
        self.dependency_edges
    }
}

// ---------------------------------------------------------------------------
// Index and summary
// ---------------------------------------------------------------------------

/// The path of the last artefact with identity `id`.
pub fn artefact_path(artefacts: &[CurrentCanonicalArtefactRecord], id: &str) -> (r: Option<String>)
    ensures
        opt_view(r) == path_of(artefacts@, id@),
{
    let mut i: usize = artefacts.len();
    assert(artefacts@.take(i as int) =~= artefacts@);
    while i > 0
        invariant
            i <= artefacts@.len(),
            path_of(artefacts@, id@) == path_of(artefacts@.take(i as int), id@),
        decreases i,
    {
        assert(artefacts@.take(i as int).drop_last() =~= artefacts@.take(i - 1));
        assert(artefacts@.take(i as int).last() == artefacts@[i - 1]);
        if str_eq(artefacts[i - 1].artefact_id.as_str(), id) {
            return Some(artefacts[i - 1].path.clone());
        }
        i = i - 1;
    }
    None
}

pub struct ArtefactPathIndex {
    pub artefact_paths: StrSet,
}

pub fn build_artefact_path_index(artefacts: &[CurrentCanonicalArtefactRecord]) -> (r: ArtefactPathIndex)
    ensures
        r.artefact_paths@.to_set() == artefact_paths(artefacts@),
{
    let mut paths = StrSet::new();
    let mut i: usize = 0;
    assert(paths@.to_set() =~= Set::<Seq<char>>::empty());
    while i < artefacts.len()
        invariant
            i <= artefacts@.len(),
            paths@.to_set() == artefact_paths(artefacts@.take(i as int)),
        decreases artefacts@.len() - i,
    {
        assert(artefacts@.take(i + 1).drop_last() =~= artefacts@.take(i as int));
        paths.insert(artefacts[i].path.clone());
        i = i + 1;
    }
    assert(artefacts@.take(i as int) =~= artefacts@);
    ArtefactPathIndex { artefact_paths: paths }
}

pub fn file_path_set(files: &[CurrentCanonicalFileRecord]) -> (r: StrSet)
    ensures
        r@.to_set() == file_paths(files@),
{
    let mut paths = StrSet::new();
    let mut i: usize = 0;
    assert(paths@.to_set() =~= Set::<Seq<char>>::empty());
    while i < files.len()
        invariant
            i <= files@.len(),
            paths@.to_set() == file_paths(files@.take(i as int)),
        decreases files@.len() - i,
    {
        assert(files@.take(i + 1).drop_last() =~= files@.take(i as int));
        paths.insert(files[i].path.clone());
        i = i + 1;
    }
    assert(files@.take(i as int) =~= files@);
    paths
}

pub struct DependencySummary {
    pub current_dependency_source_paths: StrSet,
    pub destination_paths_for_affected_sources: StrSet,
}

pub fn summarize_dependency_edges(
    artefacts: &[CurrentCanonicalArtefactRecord],
    edges: &[CurrentCanonicalEdgeRecord],
    affected_paths: &StrSet,
) -> (r: DependencySummary)
    ensures
        r.current_dependency_source_paths@.to_set() == source_path_set(artefacts@, edges@),
        r.destination_paths_for_affected_sources@.to_set() == destination_paths(
            artefacts@,
            edges@,
            affected_paths@.to_set(),
        ),
{
    let ghost aff = affected_paths@.to_set();
    let mut sources = StrSet::new();
    let mut destinations = StrSet::new();
    assert(sources@.to_set() =~= Set::<Seq<char>>::empty());
    assert(destinations@.to_set() =~= Set::<Seq<char>>::empty());
    let mut i: usize = 0;
    while i < edges.len()
        invariant
            i <= edges@.len(),
            aff == affected_paths@.to_set(),
            sources@.to_set() == source_path_set(artefacts@, edges@.take(i as int)),
            destinations@.to_set() == destination_paths(artefacts@, edges@.take(i as int), aff),
        decreases edges@.len() - i,
    {
        let e = &edges[i];
        assert(edges@.take(i + 1).drop_last() =~= edges@.take(i as int));
        assert(edges@.take(i + 1).last() == *e);
        let source_path = artefact_path(artefacts, e.from_artefact_id.as_str());
        let ghost before_sources = sources@.to_set();
        sources.insert(e.path.clone());
        match &source_path {
            Some(p) => {
                sources.insert(p.clone());
            },
            None => {},
        }
        assert(sources@.to_set() =~= before_sources.insert(e.path@).union(
            opt_set(path_of(artefacts@, e.from_artefact_id@)),
        ));
        let mut affected = affected_paths.contains(e.path.as_str());
        match &source_path {
            Some(p) => {
                if affected_paths.contains(p.as_str()) {
                    affected = true;
                }
            },
            None => {},
        }
        assert(affected == source_affected(artefacts@, aff, *e));
        let ghost before_dest = destinations@.to_set();
        if affected {
            match &e.to_artefact_id {
                Some(t) => {
                    match artefact_path(artefacts, t.as_str()) {
                        Some(d) => {
                            destinations.insert(d);
                        },
                        None => {},
                    }
                },
                None => {},
            }
            assert(destinations@.to_set() =~= before_dest.union(opt_set(destination_of(artefacts@, *e))));
        }
        i = i + 1;
    }
    assert(edges@.take(i as int) =~= edges@);
    DependencySummary {
        current_dependency_source_paths: sources,
        destination_paths_for_affected_sources: destinations,
    }
}

/// The kinds and the number of the edges leaving artefact `id`.
pub fn outgoing_edge_summary(edges: &[CurrentCanonicalEdgeRecord], id: &str) -> (r: (StrSet, usize))
    ensures
        r.0@.to_set() == outgoing_kinds(edges@, id@),
        r.1 == outgoing_count(edges@, id@),
{
    let mut kinds = StrSet::new();
    let mut count: usize = 0;
    assert(kinds@.to_set() =~= Set::<Seq<char>>::empty());
    let mut i: usize = 0;
    while i < edges.len()
        invariant
            i <= edges@.len(),
            count <= i,
            kinds@.to_set() == outgoing_kinds(edges@.take(i as int), id@),
            count == outgoing_count(edges@.take(i as int), id@),
        decreases edges@.len() - i,
    {
        assert(edges@.take(i + 1).drop_last() =~= edges@.take(i as int));
        assert(edges@.take(i + 1).last() == edges@[i as int]);
        if str_eq(edges[i].from_artefact_id.as_str(), id) {
            kinds.insert(edges[i].edge_kind.clone());
            count = count + 1;
        }
        i = i + 1;
    }
    assert(edges@.take(i as int) =~= edges@);
    (kinds, count)
}

/// The kinds and the number of the edges entering artefact `id`.
pub fn incoming_edge_summary(edges: &[CurrentCanonicalEdgeRecord], id: &str) -> (r: (StrSet, usize))
    ensures
        r.0@.to_set() == incoming_kinds(edges@, id@),
        r.1 == incoming_count(edges@, id@),
{
    let mut kinds = StrSet::new();
    let mut count: usize = 0;
    assert(kinds@.to_set() =~= Set::<Seq<char>>::empty());
    let mut i: usize = 0;
    while i < edges.len()
        invariant
            i <= edges@.len(),
            count <= i,
            kinds@.to_set() == incoming_kinds(edges@.take(i as int), id@),
            count == incoming_count(edges@.take(i as int), id@),
        decreases edges@.len() - i,
    {
        assert(edges@.take(i + 1).drop_last() =~= edges@.take(i as int));
        assert(edges@.take(i + 1).last() == edges@[i as int]);
        let hit = match &edges[i].to_artefact_id {
            Some(t) => str_eq(t.as_str(), id),
            None => false,
        };
        assert(hit == (opt_view(edges@[i as int].to_artefact_id) == Some(id@)));
        if hit {
            kinds.insert(edges[i].edge_kind.clone());
            count = count + 1;
        }
        i = i + 1;
    }
    assert(edges@.take(i as int) =~= edges@);
    (kinds, count)
}


// ---------------------------------------------------------------------------
// Paths to refresh
// ---------------------------------------------------------------------------

fn needs_dependency_reset_of(
    affected_paths: &StrSet,
    file_paths_set: &StrSet,
    index: &ArtefactPathIndex,
    summary: &DependencySummary,
    files: Ghost<Seq<CurrentCanonicalFileRecord>>,
    artefacts: Ghost<Seq<CurrentCanonicalArtefactRecord>>,
    edges: Ghost<Seq<CurrentCanonicalEdgeRecord>>,
) -> (r: bool)
    requires
        file_paths_set@.to_set() == file_paths(files@),
        index.artefact_paths@.to_set() == artefact_paths(artefacts@),
        summary.current_dependency_source_paths@.to_set() == source_path_set(artefacts@, edges@),
    ensures
        r == needs_dependency_reset(affected_paths@.to_set(), files@, artefacts@, edges@),
{
    let items = affected_paths.to_vec();
    let ghost aff = affected_paths@.to_set();
    let mut i: usize = 0;
    while i < items.len()
        invariant
            i <= items@.len(),
            views_of(items@) == affected_paths@,
            aff == affected_paths@.to_set(),
            file_paths_set@.to_set() == file_paths(files@),
            index.artefact_paths@.to_set() == artefact_paths(artefacts@),
            summary.current_dependency_source_paths@.to_set() == source_path_set(artefacts@, edges@),
            forall|k: int|
                0 <= k < i ==> !(artefact_paths(artefacts@).contains(#[trigger] affected_paths@[k]) || (
                !file_paths(files@).contains(affected_paths@[k]) && !source_path_set(
                    artefacts@,
                    edges@,
                ).contains(affected_paths@[k]))),
        decreases items@.len() - i,
    {
        let p = items[i].as_str();
        assert(p@ == affected_paths@[i as int]);
        if index.artefact_paths.contains(p) || (!file_paths_set.contains(p)
            && !summary.current_dependency_source_paths.contains(p)) {
            assert(aff.contains(p@));
            return true;
        }
        i = i + 1;
    }
    proof {
        assert forall|x: Seq<char>| #[trigger] aff.contains(x) implies !(artefact_paths(artefacts@).contains(x) || (
            !file_paths(files@).contains(x) && !source_path_set(artefacts@, edges@).contains(x))) by {
            let k = choose|k: int| 0 <= k < affected_paths@.len() && affected_paths@[k] == x;
        }
    }
    false
}

/// The paths whose facts are recomputed, in ascending order.
pub fn paths_to_refresh(
    affected_paths: &StrSet,
    files: &[CurrentCanonicalFileRecord],
    index: &ArtefactPathIndex,
    summary: &DependencySummary,
    artefacts: Ghost<Seq<CurrentCanonicalArtefactRecord>>,
    edges: Ghost<Seq<CurrentCanonicalEdgeRecord>>,
) -> (r: StrSet)
    requires
        index.artefact_paths@.to_set() == artefact_paths(artefacts@),
        summary.current_dependency_source_paths@.to_set() == source_path_set(artefacts@, edges@),
        summary.destination_paths_for_affected_sources@.to_set() == destination_paths(
            artefacts@,
            edges@,
            affected_paths@.to_set(),
        ),
    ensures
        r@.to_set() == refresh_set(affected_paths@.to_set(), files@, artefacts@, edges@),
{
    let file_set = file_path_set(files);
    let mut paths = StrSet::new();
    assert(paths@.to_set() =~= Set::<Seq<char>>::empty());
    let ghost aff = affected_paths@.to_set();
    if affected_paths.len() == 0 {
        assert(aff =~= Set::<Seq<char>>::empty());
        paths.insert_all(&file_set);
        paths.insert_all(&index.artefact_paths);
        assert(paths@.to_set() =~= refresh_set(aff, files@, artefacts@, edges@));
    } else {
        assert(aff.contains(affected_paths@[0]));
        paths.insert_all(affected_paths);
        paths.insert_all(&summary.destination_paths_for_affected_sources);
        let reset = needs_dependency_reset_of(affected_paths, &file_set, index, summary, Ghost(files@), artefacts, edges);
        if reset {
            paths.insert_all(&index.artefact_paths);
        }
        assert(paths@.to_set() =~= refresh_set(aff, files@, artefacts@, edges@));
    }
    paths
}

// ---------------------------------------------------------------------------
// Dependency facts
// ---------------------------------------------------------------------------

fn add_kind_facts(ctx: &FactContext, key: &str, kinds: &StrSet, out: &mut Vec<ArchitectureArtefactFact>)
    ensures
        sorted_strict(kinds@),
        fact_views(final(out)@) == fact_views(old(out)@) + emit(ctx@, kind_seeds(key@, kinds@)),
{
    let items = kinds.to_vec();
    let ghost base = fact_views(out@);
    assert(kind_seeds(key@, kinds@.take(0)) =~= Seq::<SeedV>::empty());
    assert(emit(ctx@, Seq::<SeedV>::empty()) == Seq::<FactV>::empty());
    assert(base =~= base + emit(ctx@, Seq::<SeedV>::empty()));
    let mut i: usize = 0;
    while i < items.len()
        invariant
            i <= items@.len(),
            views_of(items@) == kinds@,
            fact_views(out@) == base + emit(ctx@, kind_seeds(key@, kinds@.take(i as int))),
        decreases items@.len() - i,
    {
        let ghost done = kind_seeds(key@, kinds@.take(i as int));
        let ghost one = seq![seed("dependency"@, key@, kinds@[i as int], "canonical_edge"@, 950)];
        assert(items@[i as int]@ == kinds@[i as int]);
        push_fact(ctx, "dependency", key, items[i].as_str(), "canonical_edge", 950, out);
        proof {
            lemma_emit_extend(ctx@, base, done, one);
            assert(done + one =~= kind_seeds(key@, kinds@.take(i + 1)));
        }
        i = i + 1;
    }
    assert(kinds@.take(i as int) =~= kinds@);
}

fn add_count_fact(ctx: &FactContext, key: &str, count: usize, out: &mut Vec<ArchitectureArtefactFact>)
    ensures
        fact_views(final(out)@) == fact_views(old(out)@) + emit(ctx@, count_seeds(key@, count as nat)),
{
    if count > 0 {
        let text = usize_to_decimal(count);
        push_fact(ctx, "dependency", key, text.as_str(), "canonical_edge", 900, out);
    } else {
        assert(emit(ctx@, Seq::<SeedV>::empty()) == Seq::<FactV>::empty());
        assert(fact_views(out@) =~= fact_views(out@) + Seq::<FactV>::empty());
    }
}

pub fn add_dependency_summary_facts_for_artefact(
    repo_id: &str,
    generation_seq: u64,
    artefact: &CurrentCanonicalArtefactRecord,
    edges: &[CurrentCanonicalEdgeRecord],
    out: &mut Vec<ArchitectureArtefactFact>,
)
    ensures
        fact_views(final(out)@) == fact_views(old(out)@) + dependency_facts(
            repo_id@,
            generation_seq,
            edges@,
            *artefact,
        ),
{
    let ghost base = fact_views(out@);
    let ghost id = artefact.artefact_id@;
    let ctx = artefact_fact_context(repo_id, generation_seq, artefact);
    let (out_kinds, out_count) = outgoing_edge_summary(edges, artefact.artefact_id.as_str());
    let (in_kinds, in_count) = incoming_edge_summary(edges, artefact.artefact_id.as_str());
    let ghost s1 = kind_seeds("outgoing_kind"@, out_kinds@);
    let ghost s2 = count_seeds("outgoing_count"@, out_count as nat);
    let ghost s3 = kind_seeds("incoming_kind"@, in_kinds@);
    let ghost s4 = count_seeds("incoming_count"@, in_count as nat);
    add_kind_facts(&ctx, "outgoing_kind", &out_kinds, out);
    add_count_fact(&ctx, "outgoing_count", out_count, out);
    proof { lemma_emit_extend(ctx@, base, s1, s2); }
    add_kind_facts(&ctx, "incoming_kind", &in_kinds, out);
    proof { lemma_emit_extend(ctx@, base, s1 + s2, s3); }
    add_count_fact(&ctx, "incoming_count", in_count, out);
    proof {
        lemma_ascending(out_kinds@, outgoing_kinds(edges@, id));
        lemma_ascending(in_kinds@, incoming_kinds(edges@, id));
        lemma_emit_extend(ctx@, base, s1 + s2 + s3, s4);
        assert(s1 + s2 + s3 + s4 =~= dependency_seeds(edges@, id));
    }
}

// ---------------------------------------------------------------------------
// Extraction
// ---------------------------------------------------------------------------

/// What a fact extraction looks at.
pub struct ArchitectureRoleFactExtractionInput<'a> {
    pub repo_id: &'a str,
    pub generation_seq: u64,
    pub affected_paths: &'a StrSet,
    pub files: &'a [CurrentCanonicalFileRecord],
}

/// The facts of the refreshed paths, in fact order; the refreshed paths in
/// ascending order; and every path that holds a file or an artefact.
pub struct ArchitectureRoleFactExtractionResult {
    pub facts: Vec<ArchitectureArtefactFact>,
    pub refreshed_paths: Vec<String>,
    pub live_paths: StrSet,
}

/// Extracts the role facts of the paths that a change makes stale.
pub fn extract_architecture_role_facts<S: ArchitectureRoleCurrentStateSource>(
    input: ArchitectureRoleFactExtractionInput,
    source: &S,
) -> (r: ArchitectureRoleFactExtractionResult)
    ensures
        ({
            let refreshed = refresh_set(
                input.affected_paths@.to_set(),
                input.files@,
                source.artefact_records(),
                source.edge_records(),
            );
            &&& sorted_strict(views_of(r.refreshed_paths@))
            &&& views_of(r.refreshed_paths@).to_set() == refreshed
            &&& r.live_paths@.to_set() == file_paths(input.files@).union(
                artefact_paths(source.artefact_records()),
            )
            &&& fact_views(r.facts@) == sorted_facts(
                extracted_facts(
                    input.repo_id@,
                    input.generation_seq,
                    input.files@,
                    source.artefact_records(),
                    source.edge_records(),
                    refreshed,
                ),
            )
        }),
{
    let artefacts = source.current_artefacts();
    let edges = source.current_dependency_edges();
    let files = input.files;
    let repo_id = input.repo_id;
    let generation_seq = input.generation_seq;
    let index = build_artefact_path_index(artefacts);
    let summary = summarize_dependency_edges(artefacts, edges, input.affected_paths);
    let refreshed = paths_to_refresh(input.affected_paths, files, &index, &summary, Ghost(artefacts@), Ghost(edges@));
    let ghost rset = refreshed@.to_set();
    let mut facts: Vec<ArchitectureArtefactFact> = Vec::new();
    let mut i: usize = 0;
    assert(fact_views(facts@) =~= Seq::<FactV>::empty());
    while i < files.len()
        invariant
            i <= files@.len(),
            rset == refreshed@.to_set(),
            fact_views(facts@) == refreshed_file_facts(repo_id@, generation_seq, files@.take(i as int), rset),
        decreases files@.len() - i,
    {
        assert(files@.take(i + 1).drop_last() =~= files@.take(i as int));
        assert(files@.take(i + 1).last() == files@[i as int]);
        let ghost before = fact_views(facts@);
        if refreshed.contains(files[i].path.as_str()) {
            add_file_facts(repo_id, generation_seq, &files[i], &mut facts);
        } else {
            assert(before =~= before + Seq::<FactV>::empty());
        }
        i = i + 1;
    }
    assert(files@.take(i as int) =~= files@);
    let ghost file_part = fact_views(facts@);
    let mut j: usize = 0;
    assert(file_part =~= file_part + Seq::<FactV>::empty());
    while j < artefacts.len()
        invariant
            j <= artefacts@.len(),
            rset == refreshed@.to_set(),
            fact_views(facts@) == file_part + refreshed_artefact_facts(
                repo_id@,
                generation_seq,
                artefacts@.take(j as int),
                edges@,
                rset,
            ),
        decreases artefacts@.len() - j,
    {
        let a = &artefacts[j];
        assert(artefacts@.take(j + 1).drop_last() =~= artefacts@.take(j as int));
        assert(artefacts@.take(j + 1).last() == *a);
        let ghost before = fact_views(facts@);
        let ghost done = refreshed_artefact_facts(repo_id@, generation_seq, artefacts@.take(j as int), edges@, rset);
        if refreshed.contains(a.path.as_str()) {
            add_artefact_facts(repo_id, generation_seq, a, &mut facts);
            add_dependency_summary_facts_for_artefact(repo_id, generation_seq, a, edges, &mut facts);
            assert(fact_views(facts@) =~= file_part + refreshed_artefact_facts(
                repo_id@,
                generation_seq,
                artefacts@.take(j + 1),
                edges@,
                rset,
            ));
        } else {
            assert(fact_views(facts@) =~= file_part + refreshed_artefact_facts(
                repo_id@,
                generation_seq,
                artefacts@.take(j + 1),
                edges@,
                rset,
            ));
        }
        j = j + 1;
    }
    assert(artefacts@.take(j as int) =~= artefacts@);
    let sorted = sort_facts(&facts);
    let refreshed_paths = refreshed.to_vec();
    let mut live_paths = file_path_set(files);
    live_paths.insert_all(&index.artefact_paths);
    ArchitectureRoleFactExtractionResult { facts: sorted, refreshed_paths, live_paths }
}


// ---------------------------------------------------------------------------
// The order of the files does not matter
// ---------------------------------------------------------------------------

/// The facts of one file, when its path is refreshed.
pub open spec fn refreshed_part(
    repo_id: Seq<char>,
    generation_seq: u64,
    f: CurrentCanonicalFileRecord,
    refreshed: Set<Seq<char>>,
) -> Seq<FactV> {
    if refreshed.contains(f.path@) {
        file_facts(repo_id, generation_seq, f)
    } else {
        Seq::empty()
    }
}

proof fn lemma_file_paths_listed(files: Seq<CurrentCanonicalFileRecord>, p: Seq<char>)
    ensures
        file_paths(files).contains(p) == (exists|i: int| 0 <= i < files.len() && (#[trigger] files[i]).path@ == p),
    decreases files.len(),
{
    if files.len() > 0 {
        lemma_file_paths_listed(files.drop_last(), p);
        if exists|i: int| 0 <= i < files.drop_last().len() && (#[trigger] files.drop_last()[i]).path@ == p {
            let i = choose|i: int| 0 <= i < files.drop_last().len() && (#[trigger] files.drop_last()[i]).path@ == p;
            assert(files[i].path@ == p);
        }
        if exists|i: int| 0 <= i < files.len() && (#[trigger] files[i]).path@ == p {
            let i = choose|i: int| 0 <= i < files.len() && (#[trigger] files[i]).path@ == p;
            if i < files.len() - 1 {
                assert(files.drop_last()[i].path@ == p);
            }
        }
    }
}

proof fn lemma_file_paths_permutation(f1: Seq<CurrentCanonicalFileRecord>, f2: Seq<CurrentCanonicalFileRecord>)
    requires
        f1.to_multiset() == f2.to_multiset(),
    ensures
        file_paths(f1) == file_paths(f2),
{
    broadcast use vstd::seq_lib::group_to_multiset_ensures;

    assert forall|p: Seq<char>| file_paths(f1).contains(p) implies file_paths(f2).contains(p) by {
        lemma_file_paths_listed(f1, p);
        lemma_file_paths_listed(f2, p);
        let i = choose|i: int| 0 <= i < f1.len() && (#[trigger] f1[i]).path@ == p;
        assert(f1.contains(f1[i]));
        assert(f1.to_multiset().count(f1[i]) > 0);
        assert(f2.contains(f1[i]));
        let j = choose|j: int| 0 <= j < f2.len() && f2[j] == f1[i];
        assert(f2[j].path@ == p);
    }
    assert forall|p: Seq<char>| file_paths(f2).contains(p) implies file_paths(f1).contains(p) by {
        lemma_file_paths_listed(f1, p);
        lemma_file_paths_listed(f2, p);
        let i = choose|i: int| 0 <= i < f2.len() && (#[trigger] f2[i]).path@ == p;
        assert(f2.contains(f2[i]));
        assert(f2.to_multiset().count(f2[i]) > 0);
        assert(f1.contains(f2[i]));
        let j = choose|j: int| 0 <= j < f1.len() && f1[j] == f2[i];
        assert(f1[j].path@ == p);
    }
    assert(file_paths(f1) =~= file_paths(f2));
}

/// No two files share a path.
pub open spec fn paths_distinct(files: Seq<CurrentCanonicalFileRecord>) -> bool {
    forall|i: int, j: int| 0 <= i < j < files.len() ==> (#[trigger] files[i]).path@ != (#[trigger] files[j]).path@
}

/// The target of the file at `path`.
pub open spec fn file_target_at(path: Seq<char>) -> TargetV {
    TargetV { kind: TargetKind::File, artefact_id: None, symbol_id: None, path }
}

proof fn lemma_emit_target(ctx: ContextV, seeds: Seq<SeedV>, k: int)
    requires
        0 <= k < emit(ctx, seeds).len(),
    ensures
        emit(ctx, seeds)[k].target == ctx.target,
    decreases seeds.len(),
{
    if seeds.len() > 0 {
        let prev = emit(ctx, seeds.drop_last());
        if k < prev.len() {
            lemma_emit_target(ctx, seeds.drop_last(), k);
        }
    }
}

/// The facts of a file tie only with facts about that file.
proof fn lemma_part_ties_empty(
    repo_id: Seq<char>,
    generation_seq: u64,
    f: CurrentCanonicalFileRecord,
    refreshed: Set<Seq<char>>,
    v: FactV,
)
    requires
        v.target != file_target_at(f.path@),
    ensures
        ties(refreshed_part(repo_id, generation_seq, f, refreshed), v) == Seq::<FactV>::empty(),
{
    let part = refreshed_part(repo_id, generation_seq, f, refreshed);
    assert forall|k: int| 0 <= k < part.len() implies !(fact_order(#[trigger] part[k], v) is Equal) by {
        lemma_emit_target(file_context(repo_id, generation_seq, f), file_seeds(f), k);
        lemma_target_order(part[k].target, v.target, v.target);
    }
    lemma_ties_none(part, v);
}

proof fn lemma_file_ties_remove(
    repo_id: Seq<char>,
    generation_seq: u64,
    files: Seq<CurrentCanonicalFileRecord>,
    refreshed: Set<Seq<char>>,
    i: int,
    v: FactV,
)
    requires
        paths_distinct(files),
        0 <= i < files.len(),
    ensures
        ties(refreshed_file_facts(repo_id, generation_seq, files, refreshed), v) == ties(
            refreshed_file_facts(repo_id, generation_seq, files.remove(i), refreshed),
            v,
        ) + ties(refreshed_part(repo_id, generation_seq, files[i], refreshed), v),
    decreases files.len(),
{
    let dl = files.drop_last();
    let last = files.last();
    let pl = refreshed_part(repo_id, generation_seq, last, refreshed);
    let pi = refreshed_part(repo_id, generation_seq, files[i], refreshed);
    assert(refreshed_file_facts(repo_id, generation_seq, files, refreshed) == refreshed_file_facts(
        repo_id,
        generation_seq,
        dl,
        refreshed,
    ) + pl);
    lemma_ties_concat(refreshed_file_facts(repo_id, generation_seq, dl, refreshed), pl, v);
    if i == files.len() - 1 {
        assert(files.remove(i) =~= dl);
    } else {
        assert(paths_distinct(dl)) by {
            assert forall|a: int, b: int| 0 <= a < b < dl.len() implies (#[trigger] dl[a]).path@ != (
            #[trigger] dl[b]).path@ by {
                assert(dl[a] == files[a] && dl[b] == files[b]);
            }
        }
        assert(dl[i] == files[i]);
        lemma_file_ties_remove(repo_id, generation_seq, dl, refreshed, i, v);
        let rest = files.remove(i);
        assert(rest.drop_last() =~= dl.remove(i));
        assert(rest.last() == last);
        let a = refreshed_file_facts(repo_id, generation_seq, dl.remove(i), refreshed);
        assert(refreshed_file_facts(repo_id, generation_seq, rest, refreshed) == a + pl);
        lemma_ties_concat(a, pl, v);
        assert(files[i].path@ != last.path@) by {
            assert(files[files.len() - 1] == last);
        }
        if v.target != file_target_at(files[i].path@) {
            lemma_part_ties_empty(repo_id, generation_seq, files[i], refreshed, v);
            assert(ties(a, v) + ties(pi, v) + ties(pl, v) =~= ties(a, v) + ties(pl, v) + ties(pi, v));
        } else {
            lemma_part_ties_empty(repo_id, generation_seq, last, refreshed, v);
            assert(ties(a, v) + ties(pi, v) + ties(pl, v) =~= ties(a, v) + ties(pl, v) + ties(pi, v));
        }
    }
}

proof fn lemma_file_ties_permutation(
    repo_id: Seq<char>,
    generation_seq: u64,
    f1: Seq<CurrentCanonicalFileRecord>,
    f2: Seq<CurrentCanonicalFileRecord>,
    refreshed: Set<Seq<char>>,
    v: FactV,
)
    requires
        f1.to_multiset() == f2.to_multiset(),
        paths_distinct(f2),
    ensures
        ties(refreshed_file_facts(repo_id, generation_seq, f1, refreshed), v) == ties(
            refreshed_file_facts(repo_id, generation_seq, f2, refreshed),
            v,
        ),
    decreases f1.len(),
{
    broadcast use vstd::seq_lib::group_to_multiset_ensures;
    broadcast use vstd::multiset::group_multiset_axioms;

    if f1.len() == 0 {
        assert(f2.len() == f2.to_multiset().len());
        assert(f1 =~= f2);
    } else {
        let x = f1.last();
        assert(f1.contains(x)) by {
            assert(f1[f1.len() - 1] == x);
        }
        assert(f1.to_multiset().count(x) > 0);
        assert(f2.contains(x));
        let j = choose|j: int| 0 <= j < f2.len() && f2[j] == x;
        assert(f1.drop_last() =~= f1.remove(f1.len() - 1));
        assert(f1.drop_last().to_multiset() == f2.remove(j).to_multiset());
        let rest = f2.remove(j);
        assert(paths_distinct(rest)) by {
            assert forall|a: int, b: int| 0 <= a < b < rest.len() implies (#[trigger] rest[a]).path@ != (
            #[trigger] rest[b]).path@ by {
                let a2 = if a < j { a } else { a + 1 };
                let b2 = if b < j { b } else { b + 1 };
                assert(rest[a] == f2[a2] && rest[b] == f2[b2]);
            }
        }
        lemma_file_ties_permutation(repo_id, generation_seq, f1.drop_last(), rest, refreshed, v);
        lemma_file_ties_remove(repo_id, generation_seq, f2, refreshed, j, v);
        let pl = refreshed_part(repo_id, generation_seq, x, refreshed);
        assert(refreshed_file_facts(repo_id, generation_seq, f1, refreshed) == refreshed_file_facts(
            repo_id,
            generation_seq,
            f1.drop_last(),
            refreshed,
        ) + pl);
        lemma_ties_concat(refreshed_file_facts(repo_id, generation_seq, f1.drop_last(), refreshed), pl, v);
    }
}

/// Extraction does not depend on the order of the files: files with
/// distinct paths, given in another order, give the same sorted facts.
pub proof fn lemma_extraction_ignores_file_order(
    repo_id: Seq<char>,
    generation_seq: u64,
    affected: Set<Seq<char>>,
    files1: Seq<CurrentCanonicalFileRecord>,
    files2: Seq<CurrentCanonicalFileRecord>,
    artefacts: Seq<CurrentCanonicalArtefactRecord>,
    edges: Seq<CurrentCanonicalEdgeRecord>,
)
    requires
        files1.to_multiset() == files2.to_multiset(),
        paths_distinct(files1),
    ensures
        refresh_set(affected, files1, artefacts, edges) == refresh_set(affected, files2, artefacts, edges),
        sorted_facts(
            extracted_facts(
                repo_id,
                generation_seq,
                files1,
                artefacts,
                edges,
                refresh_set(affected, files1, artefacts, edges),
            ),
        ) == sorted_facts(
            extracted_facts(
                repo_id,
                generation_seq,
                files2,
                artefacts,
                edges,
                refresh_set(affected, files2, artefacts, edges),
            ),
        ),
{
    lemma_file_paths_permutation(files1, files2);
    let r = refresh_set(affected, files1, artefacts, edges);
    assert(needs_dependency_reset(affected, files1, artefacts, edges) == needs_dependency_reset(
        affected,
        files2,
        artefacts,
        edges,
    ));
    assert(r == refresh_set(affected, files2, artefacts, edges));
    let g1 = extracted_facts(repo_id, generation_seq, files1, artefacts, edges, r);
    let g2 = extracted_facts(repo_id, generation_seq, files2, artefacts, edges, r);
    let art = refreshed_artefact_facts(repo_id, generation_seq, artefacts, edges, r);
    assert forall|v: FactV| #[trigger] ties(g1, v) == ties(g2, v) by {
        lemma_file_ties_permutation(repo_id, generation_seq, files2, files1, r, v);
        lemma_ties_concat(refreshed_file_facts(repo_id, generation_seq, files1, r), art, v);
        lemma_ties_concat(refreshed_file_facts(repo_id, generation_seq, files2, r), art, v);
    }
    lemma_sorted_facts_by_ties(g1, g2);
}

} // verus!
