//! Keeping role targets in ascending target order: a target is put in
//! before the first target that it precedes.
use vstd::prelude::*;

use crate::fact_order::{compare_targets, lemma_target_order, target_order};
use crate::model::{RoleTarget, TargetV};
use crate::order::Order;

verus! {

/// The position from `i` on of the first target that `x` precedes, or the
/// length of `s`.
pub open spec fn position_from(s: Seq<TargetV>, x: TargetV, i: int) -> int
    decreases s.len() - i,
{
    if i >= s.len() {
        s.len() as int
    } else if target_order(x, s[i]) is Less {
        i
    } else {
        position_from(s, x, i + 1)
    }
}

/// Where `x` goes in `s`.
pub open spec fn target_position(s: Seq<TargetV>, x: TargetV) -> int {
    position_from(s, x, 0)
}

/// `x` put into `s` before the first target that it precedes.
pub open spec fn insert_target(s: Seq<TargetV>, x: TargetV) -> Seq<TargetV> {
    let p = target_position(s, x);
    s.take(p).push(x) + s.skip(p)
}

/// Strictly ascending in target order.
pub open spec fn targets_sorted(s: Seq<TargetV>) -> bool {
    forall|i: int, j: int| 0 <= i < j < s.len() ==> (target_order(s[i], s[j]) is Less)
}

/// No target occurs twice.
pub open spec fn targets_distinct(s: Seq<TargetV>) -> bool {
    forall|i: int, j: int| 0 <= i < j < s.len() ==> s[i] != s[j]
}

pub open spec fn target_views(v: Seq<RoleTarget>) -> Seq<TargetV> {
    v.map_values(|t: RoleTarget| t@)
}

pub proof fn lemma_position_from(s: Seq<TargetV>, x: TargetV, i: int)
    requires
        0 <= i <= s.len(),
    ensures
        i <= position_from(s, x, i) <= s.len(),
        forall|m: int| i <= m < position_from(s, x, i) ==> !(target_order(x, #[trigger] s[m]) is Less),
        position_from(s, x, i) < s.len() ==> (target_order(x, s[position_from(s, x, i)]) is Less),
    decreases s.len() - i,
{
    if i < s.len() && !(target_order(x, s[i]) is Less) {
        lemma_position_from(s, x, i + 1);
    }
}

/// What inserting does: `x` lands at the position, the targets before it
/// stay, those after it move up by one; sortedness and distinctness are
/// kept when `x` is new.
pub proof fn lemma_insert_target(s: Seq<TargetV>, x: TargetV)
    ensures
        0 <= target_position(s, x) <= s.len(),
        insert_target(s, x).len() == s.len() + 1,
        insert_target(s, x)[target_position(s, x)] == x,
        forall|i: int| 0 <= i < target_position(s, x) ==> #[trigger] insert_target(s, x)[i] == s[i],
        forall|i: int| target_position(s, x) < i < s.len() + 1 ==> #[trigger] insert_target(s, x)[i] == s[i - 1],
        forall|y: TargetV| #[trigger] insert_target(s, x).contains(y) == (s.contains(y) || y == x),
        !s.contains(x) && targets_distinct(s) ==> targets_distinct(insert_target(s, x)),
        !s.contains(x) && targets_sorted(s) ==> targets_sorted(insert_target(s, x)),
{
    let p = target_position(s, x);
    let r = insert_target(s, x);
    lemma_position_from(s, x, 0);
    assert(r.len() == s.len() + 1);
    assert forall|i: int| 0 <= i < p implies #[trigger] r[i] == s[i] by {}
    assert forall|i: int| p < i < s.len() + 1 implies #[trigger] r[i] == s[i - 1] by {}
    assert forall|y: TargetV| #[trigger] r.contains(y) == (s.contains(y) || y == x) by {
        if r.contains(y) {
            let k = choose|k: int| 0 <= k < r.len() && r[k] == y;
            if k < p {
                assert(s[k] == y);
            } else if k > p {
                assert(s[k - 1] == y);
            }
        }
        if s.contains(y) {
            let k = choose|k: int| 0 <= k < s.len() && s[k] == y;
            if k < p {
                assert(r[k] == y);
            } else {
                assert(r[k + 1] == y);
            }
        }
        if y == x {
            assert(r[p] == y);
        }
    }
    if !s.contains(x) && targets_distinct(s) {
        assert forall|i: int, j: int| 0 <= i < j < r.len() implies r[i] != r[j] by {
            if i == p {
                assert(s[j - 1] == r[j]);
            } else if j == p {
                assert(s[i] == r[i]);
            } else {
                let a = if i < p { i } else { i - 1 };
                let b = if j < p { j } else { j - 1 };
                assert(r[i] == s[a] && r[j] == s[b]);
            }
        }
    }
    if !s.contains(x) && targets_sorted(s) {
        assert forall|i: int, j: int| 0 <= i < j < r.len() implies (target_order(r[i], r[j]) is Less) by {
            if i == p {
                // x precedes s[p] and s[p] precedes or is s[j - 1].
                lemma_target_order(x, s[p], s[j - 1]);
                if j - 1 > p {
                    assert(target_order(s[p], s[j - 1]) is Less);
                }
            } else if j == p {
                // s[i] does not follow x and is not x.
                lemma_target_order(x, s[i], x);
                lemma_target_order(s[i], x, s[i]);
                assert(s[i] != x);
            } else {
                let a = if i < p { i } else { i - 1 };
                let b = if j < p { j } else { j - 1 };
                assert(r[i] == s[a] && r[j] == s[b]);
                if a == b {
                    assert(i < p && j > p);
                    assert(false);
                }
            }
        }
    }
}

/// Where `t` goes among the targets of `v`.
pub fn target_insert_position(v: &Vec<RoleTarget>, t: &RoleTarget) -> (p: usize)
    ensures
        p as int == target_position(target_views(v@), t@),
        p <= v@.len(),
{
    let ghost s = target_views(v@);
    let mut k: usize = 0;
    while k < v.len()
        invariant
            k <= v@.len(),
            s == target_views(v@),
            position_from(s, t@, 0) == position_from(s, t@, k as int),
        ensures
            k <= v@.len(),
            position_from(s, t@, 0) == position_from(s, t@, k as int),
            k < v@.len() ==> (target_order(t@, s[k as int]) is Less),
        decreases v@.len() - k,
    {
        let o = compare_targets(t, &v[k]);
        if o == Order::Less {
            break;
        }
        k = k + 1;
    }
    k
}

/// Inserts `t` into `v` at its place in target order.
pub fn insert_target_in_order(v: &mut Vec<RoleTarget>, t: RoleTarget)
    ensures
        target_views(final(v)@) == insert_target(target_views(old(v)@), t@),
{
    let ghost s = target_views(v@);
    let k = target_insert_position(v, &t);
    v.insert(k, t);
    assert(target_views(v@) =~= insert_target(s, t@));
}

} // verus!
