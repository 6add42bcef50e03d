//! Merging the assignments the rules make now with those stored before:
//! adjudicated assignments stand, changed ones are recorded in the
//! history, and active ones the rules no longer make go stale.
use vstd::prelude::*;

use crate::aggregation::{ArchitectureRoleAssignment, AssignmentSource, AssignmentStatus};
use crate::json_doc::{json_copy, json_same};
use crate::model::RoleTarget;
use crate::order::StrSet;
use crate::text::{owned, str_eq};

verus! {

/// Whether `b` is a copy of `a`.
pub open spec fn assignment_same(a: ArchitectureRoleAssignment, b: ArchitectureRoleAssignment) -> bool {
    &&& a.repo_id@ == b.repo_id@
    &&& a.assignment_id@ == b.assignment_id@
    &&& a.role_id@ == b.role_id@
    &&& a.target@ == b.target@
    &&& a.priority == b.priority
    &&& a.status == b.status
    &&& a.source == b.source
    &&& a.confidence_permille == b.confidence_permille
    &&& json_same(a.evidence, b.evidence)
    &&& json_same(a.provenance, b.provenance)
    &&& a.classifier_version@ == b.classifier_version@
    &&& a.rule_version == b.rule_version
    &&& a.generation_seq == b.generation_seq
}

/// Whether `b` is `a` gone stale at `generation`: a copy but for its
/// status and generation.
pub open spec fn stale_of(a: ArchitectureRoleAssignment, b: ArchitectureRoleAssignment, generation: u64) -> bool {
    &&& a.repo_id@ == b.repo_id@
    &&& a.assignment_id@ == b.assignment_id@
    &&& a.role_id@ == b.role_id@
    &&& a.target@ == b.target@
    &&& a.priority == b.priority
    &&& b.status == AssignmentStatus::Stale
    &&& a.source == b.source
    &&& a.confidence_permille == b.confidence_permille
    &&& json_same(a.evidence, b.evidence)
    &&& json_same(a.provenance, b.provenance)
    &&& a.classifier_version@ == b.classifier_version@
    &&& a.rule_version == b.rule_version
    &&& b.generation_seq == generation
}

fn copy_status(s: AssignmentStatus) -> (r: AssignmentStatus)
    ensures
        r == s,
{
    match s {
        AssignmentStatus::Active => AssignmentStatus::Active,
        AssignmentStatus::NeedsReview => AssignmentStatus::NeedsReview,
        AssignmentStatus::Stale => AssignmentStatus::Stale,
    }
}

/// A copy of an assignment.
pub fn copy_assignment(a: &ArchitectureRoleAssignment) -> (r: ArchitectureRoleAssignment)
    ensures
        assignment_same(*a, r),
{
    ArchitectureRoleAssignment {
        repo_id: a.repo_id.clone(),
        assignment_id: a.assignment_id.clone(),
        role_id: a.role_id.clone(),
        target: a.target.duplicate(),
        priority: a.priority,
        status: copy_status(a.status),
        source: a.source,
        confidence_permille: a.confidence_permille,
        evidence: json_copy(&a.evidence),
        provenance: json_copy(&a.provenance),
        classifier_version: a.classifier_version.clone(),
        rule_version: a.rule_version,
        generation_seq: a.generation_seq,
    }
}

/// An assignment that an adjudication made and that holds: the rules do
/// not replace it.
pub open spec fn authoritative(a: ArchitectureRoleAssignment) -> bool {
    a.status == AssignmentStatus::Active && a.source != AssignmentSource::Rule
}

pub fn authoritative_current_assignment(assignment: &ArchitectureRoleAssignment) -> (r: bool)
    ensures
        r == authoritative(*assignment),
{
    let active = match assignment.status {
        AssignmentStatus::Active => true,
        _ => false,
    };
    let by_rule = match assignment.source {
        AssignmentSource::Rule => true,
        _ => false,
    };
    active && !by_rule
}

/// Whether an assignment changed enough to be recorded: another role,
/// priority, status or source, or a confidence moved by 50 thousandths or
/// more.
pub open spec fn meaningfully_changed(p: ArchitectureRoleAssignment, n: ArchitectureRoleAssignment) -> bool {
    ||| p.role_id@ != n.role_id@
    ||| p.priority != n.priority
    ||| p.status != n.status
    ||| p.confidence_permille - n.confidence_permille >= 50
    ||| n.confidence_permille - p.confidence_permille >= 50
    ||| p.source != n.source
}

pub fn assignment_meaningfully_changed(previous: &ArchitectureRoleAssignment, next: &ArchitectureRoleAssignment) -> (r: bool)
    ensures
        r == meaningfully_changed(*previous, *next),
{
    let same_priority = match (previous.priority, next.priority) {
        (crate::aggregation::AssignmentPriority::Primary, crate::aggregation::AssignmentPriority::Primary) => true,
        (crate::aggregation::AssignmentPriority::Secondary, crate::aggregation::AssignmentPriority::Secondary) => true,
        _ => false,
    };
    let same_status = match (previous.status, next.status) {
        (AssignmentStatus::Active, AssignmentStatus::Active) => true,
        (AssignmentStatus::NeedsReview, AssignmentStatus::NeedsReview) => true,
        (AssignmentStatus::Stale, AssignmentStatus::Stale) => true,
        _ => false,
    };
    let same_source = match (previous.source, next.source) {
        (AssignmentSource::Rule, AssignmentSource::Rule) => true,
        (AssignmentSource::Llm, AssignmentSource::Llm) => true,
        _ => false,
    };
    let p = previous.confidence_permille as u64;
    let n = next.confidence_permille as u64;
    let moved = p >= n + 50 || n >= p + 50;
    !str_eq(previous.role_id.as_str(), next.role_id.as_str()) || !same_priority || !same_status || moved || !same_source
}

/// The position of the last of `prev` with identity `id`.
pub open spec fn last_with_id(prev: Seq<ArchitectureRoleAssignment>, id: Seq<char>) -> Option<int>
    decreases prev.len(),
{
    if prev.len() == 0 {
        None
    } else if prev.last().assignment_id@ == id {
        Some(prev.len() - 1)
    } else {
        last_with_id(prev.drop_last(), id)
    }
}

/// Where an assignment of the merged state comes from.
pub enum CurrentSource {
    New(int),
    Previous(int),
    Stale(int),
}

/// A history row to be written: the previous assignment, if there was
/// one, and the assignment it became.
pub struct HistoryPlan {
    pub previous: Option<int>,
    pub next: CurrentSource,
}

/// Merging the new assignments from `i` on: an adjudicated previous one
/// with the same identity stands; otherwise the new one is taken, and
/// recorded when it is new or changed meaningfully.
pub open spec fn next_plan_from(
    next: Seq<ArchitectureRoleAssignment>,
    prev: Seq<ArchitectureRoleAssignment>,
    i: nat,
) -> (Seq<CurrentSource>, Seq<HistoryPlan>)
    decreases next.len() - i,
{
    if i >= next.len() {
        (Seq::empty(), Seq::empty())
    } else {
        let rest = next_plan_from(next, prev, i + 1);
        let here = CurrentSource::New(i as int);
        match last_with_id(prev, next[i as int].assignment_id@) {
            Some(k) => if authoritative(prev[k]) {
                (seq![CurrentSource::Previous(k)] + rest.0, rest.1)
            } else if meaningfully_changed(prev[k], next[i as int]) {
                (seq![here] + rest.0, seq![HistoryPlan { previous: Some(k), next: here }] + rest.1)
            } else {
                (seq![here] + rest.0, rest.1)
            },
            None => (seq![here] + rest.0, seq![HistoryPlan { previous: None, next: here }] + rest.1),
        }
    }
}

/// The identities of the new assignments.
pub open spec fn next_ids(next: Seq<ArchitectureRoleAssignment>) -> Set<Seq<char>> {
    Set::new(|id: Seq<char>| exists|i: int| 0 <= i < next.len() && (#[trigger] next[i]).assignment_id@ == id)
}

/// The active previous assignments from `k` on that the rules no longer
/// make: an adjudicated one stays (once per identity), any other goes
/// stale and is recorded. `ids` are the identities already in the state.
pub open spec fn active_plan_from(
    prev: Seq<ArchitectureRoleAssignment>,
    nids: Set<Seq<char>>,
    k: nat,
    ids: Set<Seq<char>>,
) -> (Seq<CurrentSource>, Seq<HistoryPlan>, Set<Seq<char>>)
    decreases prev.len() - k,
{
    if k >= prev.len() {
        (Seq::empty(), Seq::empty(), ids)
    } else {
        let p = prev[k as int];
        if p.status == AssignmentStatus::Active && !nids.contains(p.assignment_id@) {
            if authoritative(p) {
                if ids.contains(p.assignment_id@) {
                    active_plan_from(prev, nids, k + 1, ids)
                } else {
                    let rest = active_plan_from(prev, nids, k + 1, ids.insert(p.assignment_id@));
                    (seq![CurrentSource::Previous(k as int)] + rest.0, rest.1, rest.2)
                }
            } else {
                let rest = active_plan_from(prev, nids, k + 1, ids);
                (
                    seq![CurrentSource::Stale(k as int)] + rest.0,
                    seq![HistoryPlan { previous: Some(k as int), next: CurrentSource::Stale(k as int) }] + rest.1,
                    rest.2,
                )
            }
        } else {
            active_plan_from(prev, nids, k + 1, ids)
        }
    }
}

/// The other previous assignments from `k` on that the rules no longer
/// make stay, once per identity.
pub open spec fn inactive_plan_from(
    prev: Seq<ArchitectureRoleAssignment>,
    nids: Set<Seq<char>>,
    k: nat,
    ids: Set<Seq<char>>,
) -> Seq<CurrentSource>
    decreases prev.len() - k,
{
    if k >= prev.len() {
        Seq::empty()
    } else {
        let p = prev[k as int];
        if p.status != AssignmentStatus::Active && !nids.contains(p.assignment_id@) && !ids.contains(p.assignment_id@) {
            seq![CurrentSource::Previous(k as int)] + inactive_plan_from(prev, nids, k + 1, ids.insert(p.assignment_id@))
        } else {
            inactive_plan_from(prev, nids, k + 1, ids)
        }
    }
}

/// The merged state and the history rows, in order.
pub open spec fn merge_plan(next: Seq<ArchitectureRoleAssignment>, prev: Seq<ArchitectureRoleAssignment>) -> (
    Seq<CurrentSource>,
    Seq<HistoryPlan>,
) {
    let first = next_plan_from(next, prev, 0);
    let nids = next_ids(next);
    let second = active_plan_from(prev, nids, 0, nids);
    let third = inactive_plan_from(prev, nids, 0, second.2);
    (first.0 + second.0 + third, first.1 + second.1)
}

/// Assignment `a` is what `src` names.
pub open spec fn realizes(
    a: ArchitectureRoleAssignment,
    src: CurrentSource,
    next: Seq<ArchitectureRoleAssignment>,
    prev: Seq<ArchitectureRoleAssignment>,
    generation: u64,
) -> bool {
    match src {
        CurrentSource::New(i) => 0 <= i < next.len() && assignment_same(next[i], a),
        CurrentSource::Previous(k) => 0 <= k < prev.len() && assignment_same(prev[k], a),
        CurrentSource::Stale(k) => 0 <= k < prev.len() && stale_of(prev[k], a, generation),
    }
}

/// A history row.
pub struct AssignmentHistoryWrite {
    pub previous: Option<ArchitectureRoleAssignment>,
    pub next: ArchitectureRoleAssignment,
    pub change_kind: String,
}

/// Row `w` is what `h` plans.
pub open spec fn history_realizes(
    w: AssignmentHistoryWrite,
    h: HistoryPlan,
    next: Seq<ArchitectureRoleAssignment>,
    prev: Seq<ArchitectureRoleAssignment>,
    generation: u64,
) -> bool {
    &&& match h.previous {
        Some(k) => 0 <= k < prev.len() && (w.previous matches Some(p) && assignment_same(prev[k], p)),
        None => w.previous is None,
    }
    &&& realizes(w.next, h.next, next, prev, generation)
    &&& w.change_kind@ == "deterministic_reclassified"@
}

/// The merged state and the history rows.
pub struct MergedAssignments {
    pub current: Vec<ArchitectureRoleAssignment>,
    pub history: Vec<AssignmentHistoryWrite>,
}

fn last_previous_with_id(previous: &[ArchitectureRoleAssignment], id: &str) -> (r: Option<usize>)
    ensures
        match r {
            Some(k) => k < previous@.len() && last_with_id(previous@, id@) == Some(k as int),
            None => last_with_id(previous@, id@) is None,
        },
{
    let mut k: usize = previous.len();
    assert(previous@.take(k as int) =~= previous@);
    while k > 0
        invariant
            k <= previous@.len(),
            last_with_id(previous@, id@) == last_with_id(previous@.take(k as int), id@),
        decreases k,
    {
        assert(previous@.take(k as int).drop_last() =~= previous@.take(k - 1));
        assert(previous@.take(k as int).last() == previous@[k - 1]);
        if str_eq(previous[k - 1].assignment_id.as_str(), id) {
            return Some(k - 1);
        }
        k = k - 1;
    }
    None
}

fn history_row(previous: Option<ArchitectureRoleAssignment>, next: ArchitectureRoleAssignment) -> (r: AssignmentHistoryWrite)
    ensures
        r.previous == previous,
        r.next == next,
        r.change_kind@ == "deterministic_reclassified"@,
{
    AssignmentHistoryWrite { previous, next, change_kind: owned("deterministic_reclassified") }
}

pub open spec fn current_follows(
    current: Seq<ArchitectureRoleAssignment>,
    plan: Seq<CurrentSource>,
    next: Seq<ArchitectureRoleAssignment>,
    prev: Seq<ArchitectureRoleAssignment>,
    generation: u64,
) -> bool {
    &&& current.len() == plan.len()
    &&& forall|i: int| 0 <= i < plan.len() ==> realizes(#[trigger] current[i], plan[i], next, prev, generation)
}

pub open spec fn history_follows(
    history: Seq<AssignmentHistoryWrite>,
    plan: Seq<HistoryPlan>,
    next: Seq<ArchitectureRoleAssignment>,
    prev: Seq<ArchitectureRoleAssignment>,
    generation: u64,
) -> bool {
    &&& history.len() == plan.len()
    &&& forall|i: int| 0 <= i < plan.len() ==> history_realizes(#[trigger] history[i], plan[i], next, prev, generation)
}

/// Merges the new assignments with the previous ones, as `merge_plan`
/// describes.
pub fn merge_assignments(
    next: &[ArchitectureRoleAssignment],
    previous: &[ArchitectureRoleAssignment],
    generation_seq: u64,
) -> (r: MergedAssignments)
    ensures
        current_follows(r.current@, merge_plan(next@, previous@).0, next@, previous@, generation_seq),
        history_follows(r.history@, merge_plan(next@, previous@).1, next@, previous@, generation_seq),
{
    let ghost nx = next@;
    let ghost pv = previous@;
    let mut current: Vec<ArchitectureRoleAssignment> = Vec::new();
    let mut history: Vec<AssignmentHistoryWrite> = Vec::new();
    let ghost mut cur_plan: Seq<CurrentSource> = Seq::empty();
    let ghost mut hist_plan: Seq<HistoryPlan> = Seq::empty();
    // The new assignments.
    let mut ids = StrSet::new();
    let mut next_id_set = StrSet::new();
    let mut i: usize = 0;
    assert(next_plan_from(nx, pv, 0).0 =~= cur_plan + next_plan_from(nx, pv, 0).0);
    assert(next_plan_from(nx, pv, 0).1 =~= hist_plan + next_plan_from(nx, pv, 0).1);
    while i < next.len()
        invariant
            i <= nx.len(),
            nx == next@,
            pv == previous@,
            next_plan_from(nx, pv, 0).0 == cur_plan + next_plan_from(nx, pv, i as nat).0,
            next_plan_from(nx, pv, 0).1 == hist_plan + next_plan_from(nx, pv, i as nat).1,
            current_follows(current@, cur_plan, nx, pv, generation_seq),
            history_follows(history@, hist_plan, nx, pv, generation_seq),
            ids@.to_set() == Set::new(|id: Seq<char>| exists|m: int| 0 <= m < i && (#[trigger] nx[m]).assignment_id@ == id),
            next_id_set@.to_set() == ids@.to_set(),
        decreases nx.len() - i,
    {
        let a = &next[i];
        let ghost rest = next_plan_from(nx, pv, (i + 1) as nat);
        let ghost here = CurrentSource::New(i as int);
        let ghost before_ids = ids@.to_set();
        ids.insert(a.assignment_id.clone());
        next_id_set.insert(a.assignment_id.clone());
        assert(ids@.to_set() =~= Set::new(|id: Seq<char>| exists|m: int| 0 <= m < i + 1 && (#[trigger] nx[m]).assignment_id@ == id)) by {
            assert forall|id: Seq<char>| ids@.to_set().contains(id) == (exists|m: int| 0 <= m < i + 1 && (#[trigger] nx[m]).assignment_id@ == id) by {
                if exists|m: int| 0 <= m < i + 1 && (#[trigger] nx[m]).assignment_id@ == id {
                    let m = choose|m: int| 0 <= m < i + 1 && (#[trigger] nx[m]).assignment_id@ == id;
                    if m < i {
                        assert(before_ids.contains(id));
                    }
                }
            }
        }
        match last_previous_with_id(previous, a.assignment_id.as_str()) {
            Some(k) => {
                if authoritative_current_assignment(&previous[k]) {
                    current.push(copy_assignment(&previous[k]));
                    proof {
                        assert(seq![CurrentSource::Previous(k as int)] + rest.0 =~= seq![CurrentSource::Previous(k as int)] + rest.0);
                        assert(cur_plan + (seq![CurrentSource::Previous(k as int)] + rest.0) =~= cur_plan.push(
                            CurrentSource::Previous(k as int),
                        ) + rest.0);
                        cur_plan = cur_plan.push(CurrentSource::Previous(k as int));
                    }
                } else if assignment_meaningfully_changed(&previous[k], a) {
                    current.push(copy_assignment(a));
                    history.push(history_row(Some(copy_assignment(&previous[k])), copy_assignment(a)));
                    proof {
                        assert(cur_plan + (seq![here] + rest.0) =~= cur_plan.push(here) + rest.0);
                        assert(hist_plan + (seq![HistoryPlan { previous: Some(k as int), next: here }] + rest.1)
                            =~= hist_plan.push(HistoryPlan { previous: Some(k as int), next: here }) + rest.1);
                        cur_plan = cur_plan.push(here);
                        hist_plan = hist_plan.push(HistoryPlan { previous: Some(k as int), next: here });
                    }
                } else {
                    current.push(copy_assignment(a));
                    proof {
                        assert(cur_plan + (seq![here] + rest.0) =~= cur_plan.push(here) + rest.0);
                        cur_plan = cur_plan.push(here);
                    }
                }
            },
            None => {
                current.push(copy_assignment(a));
                history.push(history_row(None, copy_assignment(a)));
                proof {
                    assert(cur_plan + (seq![here] + rest.0) =~= cur_plan.push(here) + rest.0);
                    assert(hist_plan + (seq![HistoryPlan { previous: None, next: here }] + rest.1) =~= hist_plan.push(
                        HistoryPlan { previous: None, next: here },
                    ) + rest.1);
                    cur_plan = cur_plan.push(here);
                    hist_plan = hist_plan.push(HistoryPlan { previous: None, next: here });
                }
            },
        }
        i = i + 1;
    }
    let ghost nids = next_ids(nx);
    assert(ids@.to_set() =~= nids);
    assert(cur_plan + Seq::<CurrentSource>::empty() =~= cur_plan);
    assert(hist_plan + Seq::<HistoryPlan>::empty() =~= hist_plan);
    let ghost first = next_plan_from(nx, pv, 0);
    assert(first.0 == cur_plan && first.1 == hist_plan);
    // The active previous assignments the rules no longer make.
    let ghost second = active_plan_from(pv, nids, 0, nids);
    let ghost mut cur2: Seq<CurrentSource> = Seq::empty();
    let ghost mut hist2: Seq<HistoryPlan> = Seq::empty();
    let mut k: usize = 0;
    while k < previous.len()
        invariant
            k <= pv.len(),
            nx == next@,
            pv == previous@,
            nids == next_ids(nx),
            next_id_set@.to_set() == nids,
            second == active_plan_from(pv, nids, 0, nids),
            second.0 == cur2 + active_plan_from(pv, nids, k as nat, ids@.to_set()).0,
            second.1 == hist2 + active_plan_from(pv, nids, k as nat, ids@.to_set()).1,
            second.2 == active_plan_from(pv, nids, k as nat, ids@.to_set()).2,
            current_follows(current@, first.0 + cur2, nx, pv, generation_seq),
            history_follows(history@, first.1 + hist2, nx, pv, generation_seq),
        decreases pv.len() - k,
    {
        let p = &previous[k];
        let ghost ids_before = ids@.to_set();
        let active = match p.status {
            AssignmentStatus::Active => true,
            _ => false,
        };
        if active && !next_id_set.contains(p.assignment_id.as_str()) {
            if authoritative_current_assignment(p) {
                let fresh = ids.insert(p.assignment_id.clone());
                if fresh {
                    current.push(copy_assignment(p));
                    proof {
                        let rest = active_plan_from(pv, nids, (k + 1) as nat, ids@.to_set());
                        assert(cur2 + (seq![CurrentSource::Previous(k as int)] + rest.0) =~= cur2.push(CurrentSource::Previous(k as int))
                            + rest.0);
                        assert(first.0 + cur2.push(CurrentSource::Previous(k as int)) =~= (first.0 + cur2).push(
                            CurrentSource::Previous(k as int),
                        ));
                        cur2 = cur2.push(CurrentSource::Previous(k as int));
                    }
                } else {
                    assert(ids@.to_set() =~= ids_before);
                }
            } else {
                let mut stale = copy_assignment(p);
                stale.status = AssignmentStatus::Stale;
                stale.generation_seq = generation_seq;
                let mut recorded = copy_assignment(p);
                recorded.status = AssignmentStatus::Stale;
                recorded.generation_seq = generation_seq;
                history.push(history_row(Some(copy_assignment(p)), recorded));
                current.push(stale);
                proof {
                    let rest = active_plan_from(pv, nids, (k + 1) as nat, ids@.to_set());
                    let h = HistoryPlan { previous: Some(k as int), next: CurrentSource::Stale(k as int) };
                    assert(cur2 + (seq![CurrentSource::Stale(k as int)] + rest.0) =~= cur2.push(CurrentSource::Stale(k as int)) + rest.0);
                    assert(hist2 + (seq![h] + rest.1) =~= hist2.push(h) + rest.1);
                    assert(first.0 + cur2.push(CurrentSource::Stale(k as int)) =~= (first.0 + cur2).push(CurrentSource::Stale(k as int)));
                    assert(first.1 + hist2.push(h) =~= (first.1 + hist2).push(h));
                    cur2 = cur2.push(CurrentSource::Stale(k as int));
                    hist2 = hist2.push(h);
                }
            }
        }
        k = k + 1;
    }
    assert(cur2 + Seq::<CurrentSource>::empty() =~= cur2);
    assert(hist2 + Seq::<HistoryPlan>::empty() =~= hist2);
    assert(second.0 == cur2 && second.1 == hist2);
    assert(second.2 == ids@.to_set());
    // The other previous assignments the rules no longer make.
    let ghost third = inactive_plan_from(pv, nids, 0, second.2);
    let ghost mut cur3: Seq<CurrentSource> = Seq::empty();
    let mut k: usize = 0;
    while k < previous.len()
        invariant
            k <= pv.len(),
            nx == next@,
            pv == previous@,
            nids == next_ids(nx),
            next_id_set@.to_set() == nids,
            third == inactive_plan_from(pv, nids, 0, second.2),
            third == cur3 + inactive_plan_from(pv, nids, k as nat, ids@.to_set()),
            current_follows(current@, first.0 + second.0 + cur3, nx, pv, generation_seq),
        decreases pv.len() - k,
    {
        let p = &previous[k];
        let active = match p.status {
            AssignmentStatus::Active => true,
            _ => false,
        };
        if !active && !next_id_set.contains(p.assignment_id.as_str()) {
            let ghost ids_before = ids@.to_set();
            let fresh = ids.insert(p.assignment_id.clone());
            if fresh {
                current.push(copy_assignment(p));
                proof {
                    let rest = inactive_plan_from(pv, nids, (k + 1) as nat, ids@.to_set());
                    assert(cur3 + (seq![CurrentSource::Previous(k as int)] + rest) =~= cur3.push(CurrentSource::Previous(k as int)) + rest);
                    assert(first.0 + second.0 + cur3.push(CurrentSource::Previous(k as int)) =~= (first.0 + second.0 + cur3).push(
                        CurrentSource::Previous(k as int),
                    ));
                    cur3 = cur3.push(CurrentSource::Previous(k as int));
                }
            } else {
                assert(ids@.to_set() =~= ids_before);
            }
        }
        k = k + 1;
    }
    assert(cur3 + Seq::<CurrentSource>::empty() =~= cur3);
    MergedAssignments { current, history }
}

} // verus!
