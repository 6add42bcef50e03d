//! The test harness part of the graph: each test artefact becomes a test
//! node of the system, and each test edge whose ends are known links the
//! production node it reaches to the test that verifies it.
//!
//! A test node is named by its artefact id; a symbol id names the node of
//! the last test row that carries it.
use vstd::prelude::*;

use crate::assoc::StrMap;
use crate::model::opt_view;
use crate::text::{is_blank, trim, trimmed};

verus! {

/// A row of the current test artefacts, its fields as read.
pub struct TestArtefactRow {
    pub artefact_id: Option<String>,
    pub symbol_id: Option<String>,
    pub path: Option<String>,
    pub name: Option<String>,
}

/// A row of the current test edges, its fields as read.
pub struct TestEdgeRow {
    pub from_artefact_id: Option<String>,
    pub from_symbol_id: Option<String>,
    pub to_artefact_id: Option<String>,
    pub to_symbol_id: Option<String>,
}

/// A test node to add, for test row `row`.
pub struct TestNodePlan {
    pub row: usize,
    pub artefact_id: String,
    pub symbol_id: String,
    pub path: Option<String>,
    pub label: String,
}

/// A link to add, for edge row `row`: the production node is verified by
/// the test node of `test_artefact_id`.
pub struct VerifiedByPlan {
    pub row: usize,
    pub production_node_id: String,
    pub test_artefact_id: String,
}

/// A field's text, trimmed; none when missing or blank.
pub open spec fn field_text(o: Option<String>) -> Option<Seq<char>> {
    match o {
        Some(s) => if trim(s@).len() == 0 {
            None
        } else {
            Some(trim(s@))
        },
        None => None,
    }
}

/// The artefact and symbol ids of a test row, when it has both.
pub open spec fn row_ids(r: TestArtefactRow) -> Option<(Seq<char>, Seq<char>)> {
    match (field_text(r.artefact_id), field_text(r.symbol_id)) {
        (Some(a), Some(s)) => Some((a, s)),
        _ => None,
    }
}

/// The artefact ids of the test nodes.
pub open spec fn test_artefact_nodes(rows: Seq<TestArtefactRow>) -> Set<Seq<char>>
    decreases rows.len(),
{
    if rows.len() == 0 {
        Set::empty()
    } else {
        match row_ids(rows.last()) {
            Some((a, _)) => test_artefact_nodes(rows.drop_last()).insert(a),
            None => test_artefact_nodes(rows.drop_last()),
        }
    }
}

/// Each symbol id of the test rows, to the artefact id of the last row
/// that carries it.
pub open spec fn test_symbol_nodes(rows: Seq<TestArtefactRow>) -> Map<Seq<char>, Seq<char>>
    decreases rows.len(),
{
    if rows.len() == 0 {
        Map::empty()
    } else {
        match row_ids(rows.last()) {
            Some((a, s)) => test_symbol_nodes(rows.drop_last()).insert(s, a),
            None => test_symbol_nodes(rows.drop_last()),
        }
    }
}

/// The positions of the rows that give test nodes.
pub open spec fn test_node_rows(rows: Seq<TestArtefactRow>) -> Seq<int>
    decreases rows.len(),
{
    if rows.len() == 0 {
        Seq::empty()
    } else if row_ids(rows.last()) is Some {
        test_node_rows(rows.drop_last()).push(rows.len() - 1)
    } else {
        test_node_rows(rows.drop_last())
    }
}

/// The test node an edge starts from: that of its artefact when known,
/// else that of its symbol.
pub open spec fn test_node_of(rows: Seq<TestArtefactRow>, e: TestEdgeRow) -> Option<Seq<char>> {
    let by_artefact = match field_text(e.from_artefact_id) {
        Some(a) => if test_artefact_nodes(rows).contains(a) {
            Some(a)
        } else {
            None
        },
        None => None,
    };
    if by_artefact is Some {
        by_artefact
    } else {
        match field_text(e.from_symbol_id) {
            Some(s) => if test_symbol_nodes(rows).dom().contains(s) {
                Some(test_symbol_nodes(rows)[s])
            } else {
                None
            },
            None => None,
        }
    }
}

/// The production node an edge reaches: that of its artefact when known,
/// else that of its symbol.
pub open spec fn production_node_of(
    artefact_nodes: Map<Seq<char>, String>,
    symbol_nodes: Map<Seq<char>, String>,
    e: TestEdgeRow,
) -> Option<Seq<char>> {
    let by_artefact = match field_text(e.to_artefact_id) {
        Some(a) => if artefact_nodes.dom().contains(a) {
            Some(artefact_nodes[a]@)
        } else {
            None
        },
        None => None,
    };
    if by_artefact is Some {
        by_artefact
    } else {
        match field_text(e.to_symbol_id) {
            Some(s) => if symbol_nodes.dom().contains(s) {
                Some(symbol_nodes[s]@)
            } else {
                None
            },
            None => None,
        }
    }
}

/// The positions of the edges whose two ends are known.
pub open spec fn linked_edge_rows(
    rows: Seq<TestArtefactRow>,
    artefact_nodes: Map<Seq<char>, String>,
    symbol_nodes: Map<Seq<char>, String>,
    edges: Seq<TestEdgeRow>,
) -> Seq<int>
    decreases edges.len(),
{
    if edges.len() == 0 {
        Seq::empty()
    } else {
        let prev = linked_edge_rows(rows, artefact_nodes, symbol_nodes, edges.drop_last());
        if production_node_of(artefact_nodes, symbol_nodes, edges.last()) is Some && test_node_of(
            rows,
            edges.last(),
        ) is Some {
            prev.push(edges.len() - 1)
        } else {
            prev
        }
    }
}

/// `p` is the test node of row `i`, `r`: labelled by its name, else by its
/// artefact id.
pub open spec fn node_plan_of(p: TestNodePlan, i: int, r: TestArtefactRow) -> bool {
    &&& p.row == i
    &&& row_ids(r) == Some((p.artefact_id@, p.symbol_id@))
    &&& opt_view(p.path) == field_text(r.path)
    &&& p.label@ == match field_text(r.name) {
        Some(n) => n,
        None => p.artefact_id@,
    }
}

/// `p` is the link of edge row `i`, `e`.
pub open spec fn link_plan_of(
    p: VerifiedByPlan,
    i: int,
    rows: Seq<TestArtefactRow>,
    artefact_nodes: Map<Seq<char>, String>,
    symbol_nodes: Map<Seq<char>, String>,
    e: TestEdgeRow,
) -> bool {
    &&& p.row == i
    &&& production_node_of(artefact_nodes, symbol_nodes, e) == Some(p.production_node_id@)
    &&& test_node_of(rows, e) == Some(p.test_artefact_id@)
}

proof fn lemma_symbol_owners_are_test_nodes(rows: Seq<TestArtefactRow>)
    ensures
        forall|s: Seq<char>| #[trigger] test_symbol_nodes(rows).dom().contains(s) ==> test_artefact_nodes(rows).contains(
            test_symbol_nodes(rows)[s],
        ),
    decreases rows.len(),
{
    if rows.len() > 0 {
        let dl = rows.drop_last();
        lemma_symbol_owners_are_test_nodes(dl);
        assert forall|s: Seq<char>| #[trigger] test_symbol_nodes(rows).dom().contains(s) implies test_artefact_nodes(
            rows,
        ).contains(test_symbol_nodes(rows)[s]) by {
            match row_ids(rows.last()) {
                Some((a, t)) => {
                    if s != t {
                        assert(test_symbol_nodes(dl).dom().contains(s));
                    }
                },
                None => {
                    assert(test_symbol_nodes(dl).dom().contains(s));
                },
            }
        }
    }
}

/// Every link ends at a test node of the rows: an edge is only linked to a
/// test that was added.
pub proof fn lemma_links_end_at_test_nodes(rows: Seq<TestArtefactRow>, e: TestEdgeRow)
    ensures
        test_node_of(rows, e) matches Some(a) ==> test_artefact_nodes(rows).contains(a),
{
    lemma_symbol_owners_are_test_nodes(rows);
}

fn field_of(o: &Option<String>) -> (r: Option<String>)
    ensures
        opt_view(r) == field_text(*o),
{
    match o {
        Some(s) => if is_blank(s.as_str()) {
            None
        } else {
            Some(trimmed(s.as_str()))
        },
        None => None,
    }
}

proof fn lemma_test_node_rows_bounded(rows: Seq<TestArtefactRow>)
    ensures
        forall|k: int| 0 <= k < test_node_rows(rows).len() ==> 0 <= #[trigger] test_node_rows(rows)[k] < rows.len(),
    decreases rows.len(),
{
    if rows.len() > 0 {
        let prev = test_node_rows(rows.drop_last());
        lemma_test_node_rows_bounded(rows.drop_last());
        assert forall|k: int| 0 <= k < test_node_rows(rows).len() implies 0 <= #[trigger] test_node_rows(rows)[k]
            < rows.len() by {
            if k < prev.len() {
                assert(test_node_rows(rows)[k] == prev[k]);
            }
        }
    }
}

proof fn lemma_linked_edge_rows_bounded(
    rows: Seq<TestArtefactRow>,
    artefact_nodes: Map<Seq<char>, String>,
    symbol_nodes: Map<Seq<char>, String>,
    edges: Seq<TestEdgeRow>,
)
    ensures
        forall|k: int|
            0 <= k < linked_edge_rows(rows, artefact_nodes, symbol_nodes, edges).len() ==> 0
                <= #[trigger] linked_edge_rows(rows, artefact_nodes, symbol_nodes, edges)[k] < edges.len(),
    decreases edges.len(),
{
    if edges.len() > 0 {
        let prev = linked_edge_rows(rows, artefact_nodes, symbol_nodes, edges.drop_last());
        lemma_linked_edge_rows_bounded(rows, artefact_nodes, symbol_nodes, edges.drop_last());
        assert forall|k: int| 0 <= k < linked_edge_rows(rows, artefact_nodes, symbol_nodes, edges).len() implies 0
            <= #[trigger] linked_edge_rows(rows, artefact_nodes, symbol_nodes, edges)[k] < edges.len() by {
            if k < prev.len() {
                assert(linked_edge_rows(rows, artefact_nodes, symbol_nodes, edges)[k] == prev[k]);
            }
        }
    }
}

/// Looks up the node of an id in a node map.
fn node_in(nodes: &StrMap<String>, id: &Option<String>) -> (r: Option<String>)
    ensures
        r matches Some(n) ==> field_text(*id) matches Some(k) && nodes@.dom().contains(k) && nodes@[k]@ == n@,
        r is None ==> !(field_text(*id) matches Some(k) && nodes@.dom().contains(k)),
{
    match field_of(id) {
        Some(k) => match nodes.get(k.as_str()) {
            Some(n) => Some(n.clone()),
            None => None,
        },
        None => None,
    }
}

/// The test nodes of the test rows, in order, and the links of the test
/// edges whose two ends are known, in order. `artefact_nodes` and
/// `symbol_nodes` give the production node of an artefact or symbol id.
pub fn test_harness_plan(
    test_rows: &[TestArtefactRow],
    edge_rows: &[TestEdgeRow],
    artefact_nodes: &StrMap<String>,
    symbol_nodes: &StrMap<String>,
) -> (r: (Vec<TestNodePlan>, Vec<VerifiedByPlan>))
    ensures
        r.0@.len() == test_node_rows(test_rows@).len(),
        forall|k: int| 0 <= k < r.0@.len() ==> {
            let i = test_node_rows(test_rows@)[k];
            node_plan_of(#[trigger] r.0@[k], i, test_rows@[i])
        },
        r.1@.len() == linked_edge_rows(test_rows@, artefact_nodes@, symbol_nodes@, edge_rows@).len(),
        forall|k: int| 0 <= k < r.1@.len() ==> {
            let i = linked_edge_rows(test_rows@, artefact_nodes@, symbol_nodes@, edge_rows@)[k];
            link_plan_of(#[trigger] r.1@[k], i, test_rows@, artefact_nodes@, symbol_nodes@, edge_rows@[i])
        },
{
    let ghost rows = test_rows@;
    let mut nodes: Vec<TestNodePlan> = Vec::new();
    let mut arts: StrMap<bool> = StrMap::new();
    let mut syms: StrMap<String> = StrMap::new();
    let mut i: usize = 0;
    while i < test_rows.len()
        invariant
            i <= rows.len(),
            rows == test_rows@,
            arts@.dom() == test_artefact_nodes(rows.take(i as int)),
            syms@.dom() == test_symbol_nodes(rows.take(i as int)).dom(),
            forall|s: Seq<char>| #[trigger] syms@.dom().contains(s) ==> syms@[s]@ == test_symbol_nodes(
                rows.take(i as int),
            )[s],
            nodes@.len() == test_node_rows(rows.take(i as int)).len(),
            forall|k: int| 0 <= k < nodes@.len() ==> {
                let j = test_node_rows(rows.take(i as int))[k];
                node_plan_of(#[trigger] nodes@[k], j, rows[j])
            },
        decreases rows.len() - i,
    {
        let ghost before = rows.take(i as int);
        let ghost after = rows.take(i + 1);
        assert(after.drop_last() =~= before);
        assert(after.last() == rows[i as int]);
        proof {
            lemma_test_node_rows_bounded(before);
        }
        let row = &test_rows[i];
        let artefact = field_of(&row.artefact_id);
        let symbol = field_of(&row.symbol_id);
        match (artefact, symbol) {
            (Some(a), Some(s)) => {
                let label = match field_of(&row.name) {
                    Some(n) => n,
                    None => a.clone(),
                };
                let ghost old_nodes = nodes@;
                let ghost old_syms = syms@;
                arts.set(a.as_str(), true);
                syms.set(s.as_str(), a.clone());
                nodes.push(TestNodePlan { row: i, artefact_id: a, symbol_id: s, path: field_of(&row.path), label });
                assert(arts@.dom() =~= test_artefact_nodes(after));
                assert(syms@.dom() =~= test_symbol_nodes(after).dom());
                assert forall|k: int| 0 <= k < nodes@.len() implies {
                    let j = test_node_rows(after)[k];
                    node_plan_of(#[trigger] nodes@[k], j, rows[j])
                } by {
                    if k < old_nodes.len() {
                        assert(nodes@[k] == old_nodes[k]);
                    }
                }
            },
            _ => {
                assert(row_ids(rows[i as int]) is None);
            },
        }
        i = i + 1;
    }
    assert(rows.take(i as int) =~= rows);
    let mut links: Vec<VerifiedByPlan> = Vec::new();
    let ghost an = artefact_nodes@;
    let ghost sn = symbol_nodes@;
    let ghost edges = edge_rows@;
    let mut j: usize = 0;
    while j < edge_rows.len()
        invariant
            j <= edges.len(),
            edges == edge_rows@,
            rows == test_rows@,
            an == artefact_nodes@,
            sn == symbol_nodes@,
            arts@.dom() == test_artefact_nodes(rows),
            syms@.dom() == test_symbol_nodes(rows).dom(),
            forall|s: Seq<char>| #[trigger] syms@.dom().contains(s) ==> syms@[s]@ == test_symbol_nodes(rows)[s],
            links@.len() == linked_edge_rows(rows, an, sn, edges.take(j as int)).len(),
            forall|k: int| 0 <= k < links@.len() ==> {
                let m = linked_edge_rows(rows, an, sn, edges.take(j as int))[k];
                link_plan_of(#[trigger] links@[k], m, rows, an, sn, edges[m])
            },
        decreases edges.len() - j,
    {
        let ghost before = edges.take(j as int);
        let ghost after = edges.take(j + 1);
        assert(after.drop_last() =~= before);
        assert(after.last() == edges[j as int]);
        proof {
            lemma_linked_edge_rows_bounded(rows, an, sn, before);
        }
        let e = &edge_rows[j];
        let production = match node_in(artefact_nodes, &e.to_artefact_id) {
            Some(n) => Some(n),
            None => node_in(symbol_nodes, &e.to_symbol_id),
        };
        let by_artefact = match field_of(&e.from_artefact_id) {
            Some(a) => if arts.contains_key(a.as_str()) {
                Some(a)
            } else {
                None
            },
            None => None,
        };
        let test = match by_artefact {
            Some(a) => Some(a),
            None => match field_of(&e.from_symbol_id) {
                Some(s) => match syms.get(s.as_str()) {
                    Some(t) => Some(t.clone()),
                    None => None,
                },
                None => None,
            },
        };
        match (production, test) {
            (Some(p), Some(t)) => {
                let ghost old_links = links@;
                links.push(VerifiedByPlan { row: j, production_node_id: p, test_artefact_id: t });
                assert forall|k: int| 0 <= k < links@.len() implies {
                    let m = linked_edge_rows(rows, an, sn, after)[k];
                    link_plan_of(#[trigger] links@[k], m, rows, an, sn, edges[m])
                } by {
                    if k < old_links.len() {
                        assert(links@[k] == old_links[k]);
                    }
                }
            },
            _ => {},
        }
        j = j + 1;
    }
    assert(edges.take(j as int) =~= edges);
    (nodes, links)
}

} // verus!
