//! The roles offered to a model for one adjudication.
use vstd::prelude::*;

use crate::contracts::{RoleAdjudicationRequest, RoleCandidateDescriptor};
use crate::order::{views_of, StrSet};

verus! {

/// A role as plain values.
pub struct RoleV {
    pub role_id: Seq<char>,
    pub canonical_key: Seq<char>,
    pub family: Seq<char>,
    pub display_name: Seq<char>,
    pub description: Seq<char>,
}

impl View for RoleCandidateDescriptor {
    type V = RoleV;

    open spec fn view(&self) -> RoleV {
        RoleV {
            role_id: self.role_id@,
            canonical_key: self.canonical_key@,
            family: self.family@,
            display_name: self.display_name@,
            description: self.description@,
        }
    }
}

pub open spec fn role_views(v: Seq<RoleCandidateDescriptor>) -> Seq<RoleV> {
    v.map_values(|r: RoleCandidateDescriptor| r@)
}

impl RoleCandidateDescriptor {
    pub fn duplicate(&self) -> (r: Self)
        ensures
            r@ == self@,
    {
        RoleCandidateDescriptor {
            role_id: self.role_id.clone(),
            canonical_key: self.canonical_key.clone(),
            family: self.family.clone(),
            display_name: self.display_name.clone(),
            description: self.description.clone(),
        }
    }
}

/// The first active role with identity `id`.
pub open spec fn find_role(active: Seq<RoleV>, id: Seq<char>) -> Option<RoleV>
    decreases active.len(),
{
    if active.len() == 0 {
        None
    } else if active[0].role_id == id {
        Some(active[0])
    } else {
        find_role(active.drop_first(), id)
    }
}

/// The roles chosen so far and their identities.
pub struct PickV {
    pub roles: Seq<RoleV>,
    pub selected: Set<Seq<char>>,
}

pub open spec fn pick_start() -> PickV {
    PickV { roles: Seq::empty(), selected: Set::empty() }
}

pub open spec fn add_role(st: PickV, r: RoleV, max: nat) -> PickV {
    if st.roles.len() >= max || st.selected.contains(r.role_id) {
        st
    } else {
        PickV { roles: st.roles.push(r), selected: st.selected.insert(r.role_id) }
    }
}

/// The active roles the request names, in the request's order.
pub open spec fn pick_requested(ids: Seq<Seq<char>>, active: Seq<RoleV>, max: nat) -> PickV
    decreases ids.len(),
{
    if ids.len() == 0 {
        pick_start()
    } else {
        let prev = pick_requested(ids.drop_last(), active, max);
        match find_role(active, ids.last()) {
            Some(r) => add_role(prev, r, max),
            None => prev,
        }
    }
}

/// Then the other active roles, in their order.
pub open spec fn fill_active(st: PickV, active: Seq<RoleV>, max: nat) -> PickV
    decreases active.len(),
{
    if active.len() == 0 {
        st
    } else {
        add_role(fill_active(st, active.drop_last(), max), active.last(), max)
    }
}

/// The roles offered: those the request names first, then the rest, each
/// once, at most `max`.
pub open spec fn candidate_roles_of(ids: Seq<Seq<char>>, active: Seq<RoleV>, max: nat) -> Seq<RoleV> {
    fill_active(pick_requested(ids, active, max), active, max).roles
}

fn find_active(active: &[RoleCandidateDescriptor], id: &str) -> (r: Option<usize>)
    ensures
        match r {
            Some(i) => i < active@.len() && find_role(role_views(active@), id@) == Some(active@[i as int]@),
            None => find_role(role_views(active@), id@) is None,
        },
{
    let ghost av = role_views(active@);
    let mut i: usize = 0;
    assert(av.skip(0) =~= av);
    while i < active.len()
        invariant
            i <= active@.len(),
            av == role_views(active@),
            find_role(av, id@) == find_role(av.skip(i as int), id@),
        decreases active@.len() - i,
    {
        assert(av.skip(i as int)[0] == active@[i as int]@);
        assert(av.skip(i as int).drop_first() =~= av.skip(i + 1));
        if crate::text::str_eq(active[i].role_id.as_str(), id) {
            return Some(i);
        }
        i = i + 1;
    }
    assert(av.skip(i as int) =~= Seq::<RoleV>::empty());
    None
}

fn add_role_exec(out: &mut Vec<RoleCandidateDescriptor>, selected: &mut StrSet, role: &RoleCandidateDescriptor, max: usize)
    requires
        old(selected)@.to_set() == role_views(old(out)@).map_values(|r: RoleV| r.role_id).to_set(),
    ensures
        add_role(
            PickV { roles: role_views(old(out)@), selected: old(selected)@.to_set() },
            role@,
            max as nat,
        ) == (PickV { roles: role_views(final(out)@), selected: final(selected)@.to_set() }),
        final(selected)@.to_set() == role_views(final(out)@).map_values(|r: RoleV| r.role_id).to_set(),
{
    if out.len() >= max || selected.contains(role.role_id.as_str()) {
        return ;
    }
    let ghost before = role_views(out@);
    selected.insert(role.role_id.clone());
    out.push(role.duplicate());
    assert(role_views(out@) =~= before.push(role@));
    proof {
        before.map_values(|r: RoleV| r.role_id).lemma_push_to_set_commute(role@.role_id);
        assert(role_views(out@).map_values(|r: RoleV| r.role_id) =~= before.map_values(|r: RoleV| r.role_id).push(
            role@.role_id,
        ));
    }
}

pub fn candidate_roles_for_request(
    request: &RoleAdjudicationRequest,
    active_roles: &[RoleCandidateDescriptor],
    max_candidate_roles: usize,
) -> (r: Vec<RoleCandidateDescriptor>)
    ensures
        role_views(r@) == candidate_roles_of(
            views_of(request.candidate_role_ids@),
            role_views(active_roles@),
            max_candidate_roles as nat,
        ),
{
    let ghost ids = views_of(request.candidate_role_ids@);
    let ghost av = role_views(active_roles@);
    let ghost max = max_candidate_roles as nat;
    let mut out: Vec<RoleCandidateDescriptor> = Vec::new();
    let mut selected = StrSet::new();
    assert(role_views(out@) =~= Seq::<RoleV>::empty());
    assert(selected@.to_set() =~= Set::<Seq<char>>::empty());
    assert(role_views(out@).map_values(|r: RoleV| r.role_id).to_set() =~= Set::<Seq<char>>::empty());
    let mut i: usize = 0;
    assert(ids.take(0) =~= Seq::<Seq<char>>::empty());
    while i < request.candidate_role_ids.len()
        invariant
            i <= ids.len(),
            ids == views_of(request.candidate_role_ids@),
            av == role_views(active_roles@),
            max == max_candidate_roles as nat,
            pick_requested(ids.take(i as int), av, max) == (PickV { roles: role_views(out@), selected: selected@.to_set() }),
            selected@.to_set() == role_views(out@).map_values(|r: RoleV| r.role_id).to_set(),
        decreases ids.len() - i,
    {
        assert(ids.take(i + 1).drop_last() =~= ids.take(i as int));
        assert(ids.take(i + 1).last() == request.candidate_role_ids@[i as int]@);
        match find_active(active_roles, request.candidate_role_ids[i].as_str()) {
            Some(k) => {
                add_role_exec(&mut out, &mut selected, &active_roles[k], max_candidate_roles);
            },
            None => {},
        }
        i = i + 1;
    }
    assert(ids.take(i as int) =~= ids);
    let ghost picked = PickV { roles: role_views(out@), selected: selected@.to_set() };
    let mut j: usize = 0;
    assert(av.take(0) =~= Seq::<RoleV>::empty());
    while j < active_roles.len()
        invariant
            j <= av.len(),
            av == role_views(active_roles@),
            max == max_candidate_roles as nat,
            fill_active(picked, av.take(j as int), max) == (PickV { roles: role_views(out@), selected: selected@.to_set() }),
            selected@.to_set() == role_views(out@).map_values(|r: RoleV| r.role_id).to_set(),
        decreases av.len() - j,
    {
        assert(av.take(j + 1).drop_last() =~= av.take(j as int));
        assert(av.take(j + 1).last() == active_roles@[j as int]@);
        add_role_exec(&mut out, &mut selected, &active_roles[j], max_candidate_roles);
        j = j + 1;
    }
    assert(av.take(j as int) =~= av);
    out
}

pub open spec fn role_ids(roles: Seq<RoleV>) -> Seq<Seq<char>> {
    roles.map_values(|r: RoleV| r.role_id)
}

spec fn pick_ok(st: PickV, active: Seq<RoleV>, max: nat) -> bool {
    &&& role_ids(st.roles).no_duplicates()
    &&& st.selected == role_ids(st.roles).to_set()
    &&& st.roles.len() <= max
    &&& forall|i: int| 0 <= i < st.roles.len() ==> active.contains(#[trigger] st.roles[i])
}

proof fn lemma_find_role(active: Seq<RoleV>, id: Seq<char>)
    ensures
        find_role(active, id) matches Some(r) ==> active.contains(r) && r.role_id == id,
    decreases active.len(),
{
    if active.len() > 0 && active[0].role_id != id {
        lemma_find_role(active.drop_first(), id);
        if let Some(r) = find_role(active.drop_first(), id) {
            let k = choose|k: int| 0 <= k < active.drop_first().len() && active.drop_first()[k] == r;
            assert(active[k + 1] == r);
        }
    } else if active.len() > 0 {
        assert(active[0] == active[0]);
    }
}

proof fn lemma_add_role_ok(st: PickV, r: RoleV, active: Seq<RoleV>, max: nat)
    requires
        pick_ok(st, active, max),
        active.contains(r),
    ensures
        pick_ok(add_role(st, r, max), active, max),
{
    if !(st.roles.len() >= max || st.selected.contains(r.role_id)) {
        let next = st.roles.push(r);
        assert(role_ids(next) =~= role_ids(st.roles).push(r.role_id));
        role_ids(st.roles).lemma_push_to_set_commute(r.role_id);
        assert(!role_ids(st.roles).contains(r.role_id));
        assert forall|i: int, j: int| 0 <= i < role_ids(next).len() && 0 <= j < role_ids(next).len() && i != j implies role_ids(next)[i] != role_ids(next)[j] by {
            if i < st.roles.len() && j < st.roles.len() {
                assert(role_ids(st.roles)[i] != role_ids(st.roles)[j]);
            } else if i == st.roles.len() {
                assert(role_ids(st.roles)[j] == role_ids(next)[j]);
            } else {
                assert(role_ids(st.roles)[i] == role_ids(next)[i]);
            }
        }
        assert forall|i: int| 0 <= i < next.len() implies active.contains(#[trigger] next[i]) by {
            if i < st.roles.len() {
                assert(next[i] == st.roles[i]);
            }
        }
    }
}

proof fn lemma_pick_requested_ok(ids: Seq<Seq<char>>, active: Seq<RoleV>, max: nat)
    ensures
        pick_ok(pick_requested(ids, active, max), active, max),
    decreases ids.len(),
{
    if ids.len() == 0 {
        assert(role_ids(Seq::<RoleV>::empty()).to_set() =~= Set::<Seq<char>>::empty());
    } else {
        lemma_pick_requested_ok(ids.drop_last(), active, max);
        lemma_find_role(active, ids.last());
        if let Some(r) = find_role(active, ids.last()) {
            lemma_add_role_ok(pick_requested(ids.drop_last(), active, max), r, active, max);
        }
    }
}

proof fn lemma_fill_active_ok(st: PickV, active: Seq<RoleV>, all: Seq<RoleV>, max: nat)
    requires
        pick_ok(st, all, max),
        forall|i: int| 0 <= i < active.len() ==> all.contains(#[trigger] active[i]),
    ensures
        pick_ok(fill_active(st, active, max), all, max),
    decreases active.len(),
{
    if active.len() > 0 {
        assert forall|i: int| 0 <= i < active.drop_last().len() implies all.contains(#[trigger] active.drop_last()[i]) by {
            assert(active.drop_last()[i] == active[i]);
        }
        lemma_fill_active_ok(st, active.drop_last(), all, max);
        assert(all.contains(active[active.len() - 1]));
        lemma_add_role_ok(fill_active(st, active.drop_last(), max), active.last(), all, max);
    }
}

/// The roles offered for a request are active roles, each offered once, and
/// there are at most `max` of them.
pub proof fn lemma_candidate_roles_distinct_active_bounded(ids: Seq<Seq<char>>, active: Seq<RoleV>, max: nat)
    ensures
        candidate_roles_of(ids, active, max).len() <= max,
        role_ids(candidate_roles_of(ids, active, max)).no_duplicates(),
        forall|i: int| 0 <= i < candidate_roles_of(ids, active, max).len() ==> active.contains(
            #[trigger] candidate_roles_of(ids, active, max)[i],
        ),
{
    lemma_pick_requested_ok(ids, active, max);
    assert forall|i: int| 0 <= i < active.len() implies active.contains(#[trigger] active[i]) by {}
    lemma_fill_active_ok(pick_requested(ids, active, max), active, active, max);
}

} // verus!
