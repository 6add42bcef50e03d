//! Which artefacts each artefact depends on, from the resolved dependency
//! edges of the current state.
use vstd::prelude::*;

use crate::assoc::StrMap;
use crate::model::{opt_view, CurrentCanonicalEdgeRecord};
use crate::order::{sorted_strict, views_of, StrSet};

verus! {

/// The targets of the resolved edges leaving each artefact. Edges without a
/// resolved target add nothing.
pub open spec fn adjacency_of(edges: Seq<CurrentCanonicalEdgeRecord>) -> Map<Seq<char>, Set<Seq<char>>>
    decreases edges.len(),
{
    if edges.len() == 0 {
        Map::empty()
    } else {
        let prev = adjacency_of(edges.drop_last());
        let e = edges.last();
        match opt_view(e.to_artefact_id) {
            Some(t) => prev.insert(
                e.from_artefact_id@,
                if prev.dom().contains(e.from_artefact_id@) {
                    prev[e.from_artefact_id@]
                } else {
                    Set::empty()
                }.insert(t),
            ),
            None => prev,
        }
    }
}

/// Targets by source artefact.
pub struct DependencyAdjacency {
    targets: StrMap<StrSet>,
}

impl View for DependencyAdjacency {
    type V = Map<Seq<char>, Set<Seq<char>>>;

    closed spec fn view(&self) -> Map<Seq<char>, Set<Seq<char>>> {
        self.targets@.map_values(|s: StrSet| s@.to_set())
    }
}

impl DependencyAdjacency {
    pub fn new() -> (r: Self)
        ensures
            r@ == Map::<Seq<char>, Set<Seq<char>>>::empty(),
    {
        let r = DependencyAdjacency { targets: StrMap::new() };
        assert(r@ =~= Map::<Seq<char>, Set<Seq<char>>>::empty());
        r
    }

    pub fn contains_key(&self, source: &str) -> (r: bool)
        ensures
            r == self@.dom().contains(source@),
    {
        self.targets.contains_key(source)
    }

    /// The targets of `source` in ascending order, if it has any.
    pub fn get(&self, source: &str) -> (r: Option<Vec<String>>)
        ensures
            match r {
                Some(v) => self@.dom().contains(source@) && sorted_strict(views_of(v@)) && views_of(v@).to_set()
                    == self@[source@],
                None => !self@.dom().contains(source@),
            },
    {
        match self.targets.get(source) {
            Some(set) => Some(set.to_vec()),
            None => None,
        }
    }
}

pub fn insert_dependency_adjacency(adjacency: &mut DependencyAdjacency, edge: &CurrentCanonicalEdgeRecord)
    ensures
        final(adjacency)@ == match opt_view(edge.to_artefact_id) {
            Some(t) => old(adjacency)@.insert(
                edge.from_artefact_id@,
                if old(adjacency)@.dom().contains(edge.from_artefact_id@) {
                    old(adjacency)@[edge.from_artefact_id@]
                } else {
                    Set::empty()
                }.insert(t),
            ),
            None => old(adjacency)@,
        },
{
    let to = match &edge.to_artefact_id {
        Some(t) => t,
        None => return ,
    };
    let ghost before = adjacency@;
    let mut set = match adjacency.targets.take(edge.from_artefact_id.as_str()) {
        Some(s) => s,
        None => {
            let s = StrSet::new();
            assert(s@.to_set() =~= Set::<Seq<char>>::empty());
            s
        },
    };
    set.insert(to.clone());
    adjacency.targets.set(edge.from_artefact_id.as_str(), set);
    assert(adjacency@ =~= before.insert(
        edge.from_artefact_id@,
        if before.dom().contains(edge.from_artefact_id@) {
            before[edge.from_artefact_id@]
        } else {
            Set::empty()
        }.insert(to@),
    ));
}

pub fn dependency_adjacency(edges: &[CurrentCanonicalEdgeRecord]) -> (r: DependencyAdjacency)
    ensures
        r@ == adjacency_of(edges@),
{
    let mut adjacency = DependencyAdjacency::new();
    let mut i: usize = 0;
    while i < edges.len()
        invariant
            i <= edges@.len(),
            adjacency@ == adjacency_of(edges@.take(i as int)),
        decreases edges@.len() - i,
    {
        assert(edges@.take(i + 1).drop_last() =~= edges@.take(i as int));
        assert(edges@.take(i + 1).last() == edges@[i as int]);
        insert_dependency_adjacency(&mut adjacency, &edges[i]);
        i = i + 1;
    }
    assert(edges@.take(i as int) =~= edges@);
    adjacency
}

} // verus!
