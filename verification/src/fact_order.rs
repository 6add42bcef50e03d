//! The order of facts: by target, then kind, key, value and identity, each
//! compared as `Ord` compares them; and a stable sort in that order.
use vstd::prelude::*;

use crate::model::{fact_views, ArchitectureArtefactFact, FactV, RoleTarget, TargetKind, TargetV};
use crate::order::{compare_chars, lemma_lex_asym, lemma_lex_total, lemma_lex_trans, lex_lt, order_of, Order};
use crate::text::chars_of;

verus! {

pub open spec fn kind_rank(k: TargetKind) -> int {
    match k {
        TargetKind::File => 0,
        TargetKind::Artefact => 1,
        TargetKind::Symbol => 2,
    }
}

pub open spec fn int_order(a: int, b: int) -> Order {
    if a == b {
        Order::Equal
    } else if a < b {
        Order::Less
    } else {
        Order::Greater
    }
}

/// `Option`'s order: `None` first.
pub open spec fn opt_order(a: Option<Seq<char>>, b: Option<Seq<char>>) -> Order {
    match (a, b) {
        (None, None) => Order::Equal,
        (None, Some(_)) => Order::Less,
        (Some(_), None) => Order::Greater,
        (Some(x), Some(y)) => order_of(x, y),
    }
}

/// The first decisive comparison.
pub open spec fn then(first: Order, next: Order) -> Order {
    if first is Equal {
        next
    } else {
        first
    }
}

/// The order of role targets: kind, artefact id, symbol id, path.
pub open spec fn target_order(a: TargetV, b: TargetV) -> Order {
    then(
        int_order(kind_rank(a.kind), kind_rank(b.kind)),
        then(
            opt_order(a.artefact_id, b.artefact_id),
            then(opt_order(a.symbol_id, b.symbol_id), order_of(a.path, b.path)),
        ),
    )
}

/// The order of facts: target, kind, key, value, identity.
pub open spec fn fact_order(a: FactV, b: FactV) -> Order {
    then(
        target_order(a.target, b.target),
        then(
            order_of(a.kind, b.kind),
            then(order_of(a.key, b.key), then(order_of(a.value, b.value), order_of(a.fact_id, b.fact_id))),
        ),
    )
}

pub open spec fn fact_le(a: FactV, b: FactV) -> bool {
    !(fact_order(a, b) is Greater)
}

proof fn lemma_order_of(a: Seq<char>, b: Seq<char>, c: Seq<char>)
    ensures
        (order_of(a, b) is Greater) == (order_of(b, a) is Less),
        (order_of(a, b) is Less) && (order_of(b, c) is Less) ==> (order_of(a, c) is Less),
{
    lemma_lex_total(a, b);
    if lex_lt(a, b) {
        lemma_lex_asym(a, b);
    }
    if lex_lt(b, a) {
        lemma_lex_asym(b, a);
    }
    if (order_of(a, b) is Less) && (order_of(b, c) is Less) {
        lemma_lex_trans(a, b, c);
        lemma_lex_asym(a, c);
    }
}

pub proof fn lemma_opt_order(a: Option<Seq<char>>, b: Option<Seq<char>>, c: Option<Seq<char>>)
    ensures
        (opt_order(a, b) is Greater) == (opt_order(b, a) is Less),
        (opt_order(a, b) is Less) && (opt_order(b, c) is Less) ==> (opt_order(a, c) is Less),
        (opt_order(a, b) is Equal) == (a == b),
{
    match (a, b, c) {
        (Some(x), Some(y), Some(z)) => lemma_order_of(x, y, z),
        (Some(x), Some(y), None) => lemma_order_of(x, y, x),
        _ => {},
    }
}

/// `target_order` is a strict total order on targets.
pub proof fn lemma_target_order(a: TargetV, b: TargetV, c: TargetV)
    ensures
        (target_order(a, b) is Greater) == (target_order(b, a) is Less),
        (target_order(a, b) is Less) && (target_order(b, c) is Less) ==> (target_order(a, c) is Less),
        (target_order(a, b) is Equal) == (a == b),
{
    lemma_opt_order(a.artefact_id, b.artefact_id, c.artefact_id);
    lemma_opt_order(a.symbol_id, b.symbol_id, c.symbol_id);
    lemma_opt_order(b.artefact_id, c.artefact_id, a.artefact_id);
    lemma_opt_order(b.symbol_id, c.symbol_id, a.symbol_id);
    lemma_opt_order(a.artefact_id, c.artefact_id, b.artefact_id);
    lemma_opt_order(a.symbol_id, c.symbol_id, b.symbol_id);
    lemma_order_of(a.path, b.path, c.path);
    lemma_order_of(b.path, c.path, a.path);
    lemma_order_of(a.path, c.path, b.path);
}

/// Swapping the arguments turns `Greater` into `Less`.
pub proof fn lemma_fact_order_flip(a: FactV, b: FactV)
    ensures
        (fact_order(a, b) is Greater) == (fact_order(b, a) is Less),
{
    lemma_target_order(a.target, b.target, a.target);
    lemma_order_of(a.kind, b.kind, a.kind);
    lemma_order_of(a.key, b.key, a.key);
    lemma_order_of(a.value, b.value, a.value);
    lemma_order_of(a.fact_id, b.fact_id, a.fact_id);
}

/// `fact_le` is transitive.
pub proof fn lemma_fact_le_trans(a: FactV, b: FactV, c: FactV)
    requires
        fact_le(a, b),
        fact_le(b, c),
    ensures
        fact_le(a, c),
{
    lemma_target_order(a.target, b.target, c.target);
    lemma_target_order(c.target, a.target, b.target);
    lemma_target_order(a.target, c.target, b.target);
    lemma_order_of(a.kind, b.kind, c.kind);
    lemma_order_of(c.kind, a.kind, b.kind);
    lemma_order_of(a.key, b.key, c.key);
    lemma_order_of(c.key, a.key, b.key);
    lemma_order_of(a.value, b.value, c.value);
    lemma_order_of(c.value, a.value, b.value);
    lemma_order_of(a.fact_id, b.fact_id, c.fact_id);
    lemma_order_of(c.fact_id, a.fact_id, b.fact_id);
}

pub fn compare_str(a: &str, b: &str) -> (r: Order)
    ensures
        r == order_of(a@, b@),
{
    let ca = chars_of(a);
    let cb = chars_of(b);
    compare_chars(ca.as_slice(), cb.as_slice())
}

pub fn compare_opt(a: &Option<String>, b: &Option<String>) -> (r: Order)
    ensures
        r == opt_order(crate::model::opt_view(*a), crate::model::opt_view(*b)),
{
    match (a, b) {
        (None, None) => Order::Equal,
        (None, Some(_)) => Order::Less,
        (Some(_), None) => Order::Greater,
        (Some(x), Some(y)) => compare_str(x.as_str(), y.as_str()),
    }
}

fn kind_rank_of(k: TargetKind) -> (r: u8)
    ensures
        r as int == kind_rank(k),
{
    match k {
        TargetKind::File => 0,
        TargetKind::Artefact => 1,
        TargetKind::Symbol => 2,
    }
}

pub fn compare_targets(a: &RoleTarget, b: &RoleTarget) -> (r: Order)
    ensures
        r == target_order(a@, b@),
{
    let ra = kind_rank_of(a.target_kind);
    let rb = kind_rank_of(b.target_kind);
    if ra < rb {
        return Order::Less;
    }
    if ra > rb {
        return Order::Greater;
    }
    let o = compare_opt(&a.artefact_id, &b.artefact_id);
    if !(o == Order::Equal) {
        return o;
    }
    let o = compare_opt(&a.symbol_id, &b.symbol_id);
    if !(o == Order::Equal) {
        return o;
    }
    compare_str(a.path.as_str(), b.path.as_str())
}

pub fn compare_facts(a: &ArchitectureArtefactFact, b: &ArchitectureArtefactFact) -> (r: Order)
    ensures
        r == fact_order(a@, b@),
{
    let o = compare_targets(&a.target, &b.target);
    if !(o == Order::Equal) {
        return o;
    }
    let o = compare_str(a.fact_kind.as_str(), b.fact_kind.as_str());
    if !(o == Order::Equal) {
        return o;
    }
    let o = compare_str(a.fact_key.as_str(), b.fact_key.as_str());
    if !(o == Order::Equal) {
        return o;
    }
    let o = compare_str(a.fact_value.as_str(), b.fact_value.as_str());
    if !(o == Order::Equal) {
        return o;
    }
    compare_str(a.fact_id.as_str(), b.fact_id.as_str())
}

/// Inserting `x` into `s` after every element not above it.
pub open spec fn insert_ordered(s: Seq<FactV>, x: FactV) -> Seq<FactV>
    decreases s.len(),
{
    if s.len() == 0 {
        seq![x]
    } else if fact_order(s.last(), x) is Greater {
        insert_ordered(s.drop_last(), x).push(s.last())
    } else {
        s.push(x)
    }
}

/// The stable sort of `g` in fact order: equal facts keep their order.
pub open spec fn sorted_facts(g: Seq<FactV>) -> Seq<FactV>
    decreases g.len(),
{
    if g.len() == 0 {
        Seq::empty()
    } else {
        insert_ordered(sorted_facts(g.drop_last()), g.last())
    }
}

proof fn lemma_insert_ordered_at(s: Seq<FactV>, x: FactV, j: int)
    requires
        0 <= j <= s.len(),
        forall|k: int| j <= k < s.len() ==> fact_order(#[trigger] s[k], x) is Greater,
        j == 0 || !(fact_order(s[j - 1], x) is Greater),
    ensures
        insert_ordered(s, x) == s.insert(j, x),
    decreases s.len(),
{
    if s.len() == 0 {
        assert(s.insert(j, x) =~= seq![x]);
    } else if fact_order(s.last(), x) is Greater {
        assert(j < s.len());
        lemma_insert_ordered_at(s.drop_last(), x, j);
        assert(s.drop_last().insert(j, x).push(s.last()) =~= s.insert(j, x));
    } else {
        assert(j == s.len());
        assert(s.push(x) =~= s.insert(j, x));
    }
}

/// Sorts facts stably in fact order.
pub fn sort_facts(facts: &Vec<ArchitectureArtefactFact>) -> (r: Vec<ArchitectureArtefactFact>)
    ensures
        fact_views(r@) == sorted_facts(fact_views(facts@)),
{
    let mut out: Vec<ArchitectureArtefactFact> = Vec::new();
    let mut i: usize = 0;
    while i < facts.len()
        invariant
            i <= facts@.len(),
            fact_views(out@) == sorted_facts(fact_views(facts@).take(i as int)),
        decreases facts@.len() - i,
    {
        let x = facts[i].duplicate();
        let mut j: usize = out.len();
        loop
            invariant
                j <= out@.len(),
                forall|k: int| j <= k < out@.len() ==> fact_order(#[trigger] fact_views(out@)[k], x@) is Greater,
            ensures
                j <= out@.len(),
                forall|k: int| j <= k < out@.len() ==> fact_order(#[trigger] fact_views(out@)[k], x@) is Greater,
                j == 0 || !(fact_order(fact_views(out@)[j - 1], x@) is Greater),
            decreases j,
        {
            if j == 0 {
                break;
            }
            let o = compare_facts(&out[j - 1], &x);
            if !(o == Order::Greater) {
                break;
            }
            j = j - 1;
        }
        let ghost before = out@;
        proof {
            lemma_insert_ordered_at(fact_views(before), x@, j as int);
            assert(fact_views(facts@).take(i + 1).drop_last() =~= fact_views(facts@).take(i as int));
            assert(fact_views(facts@).take(i + 1).last() == x@);
        }
        out.insert(j, x);
        assert(fact_views(out@) =~= fact_views(before).insert(j as int, x@));
        i = i + 1;
    }
    assert(fact_views(facts@).take(facts@.len() as int) =~= fact_views(facts@));
    out
}


/// Every fact is in fact order with every later one.
pub open spec fn facts_sorted(s: Seq<FactV>) -> bool {
    forall|i: int, j: int| 0 <= i < j < s.len() ==> fact_le(#[trigger] s[i], #[trigger] s[j])
}

/// Where `insert_ordered` puts `x`.
pub open spec fn insert_position(s: Seq<FactV>, x: FactV) -> int
    decreases s.len(),
{
    if s.len() == 0 {
        0
    } else if fact_order(s.last(), x) is Greater {
        insert_position(s.drop_last(), x)
    } else {
        s.len() as int
    }
}

proof fn lemma_insert_position(s: Seq<FactV>, x: FactV)
    ensures
        0 <= insert_position(s, x) <= s.len(),
        forall|k: int| insert_position(s, x) <= k < s.len() ==> fact_order(#[trigger] s[k], x) is Greater,
        insert_position(s, x) == 0 || !(fact_order(s[insert_position(s, x) - 1], x) is Greater),
    decreases s.len(),
{
    if s.len() > 0 && fact_order(s.last(), x) is Greater {
        lemma_insert_position(s.drop_last(), x);
        let p = insert_position(s, x);
        assert forall|k: int| p <= k < s.len() implies fact_order(#[trigger] s[k], x) is Greater by {
            if k < s.len() - 1 {
                assert(s[k] == s.drop_last()[k]);
            }
        }
        if p > 0 {
            assert(s[p - 1] == s.drop_last()[p - 1]);
        }
    }
}

proof fn lemma_insert_ordered_sorted(s: Seq<FactV>, x: FactV)
    requires
        facts_sorted(s),
    ensures
        facts_sorted(insert_ordered(s, x)),
        insert_ordered(s, x).to_multiset() == s.to_multiset().insert(x),
{
    broadcast use vstd::seq_lib::to_multiset_insert;

    lemma_insert_position(s, x);
    let p = insert_position(s, x);
    lemma_insert_ordered_at(s, x, p);
    let r = s.insert(p, x);
    assert forall|i: int, j: int| 0 <= i < j < r.len() implies fact_le(#[trigger] r[i], #[trigger] r[j]) by {
        if j < p {
            assert(r[i] == s[i] && r[j] == s[j]);
        } else if j == p {
            assert(r[j] == x);
            assert(r[i] == s[i]);
            if i < p - 1 {
                lemma_fact_le_trans(s[i], s[p - 1], x);
            }
        } else if i == p {
            assert(r[i] == x);
            assert(r[j] == s[j - 1]);
            lemma_fact_order_flip(s[j - 1], x);
        } else if i < p {
            assert(r[i] == s[i]);
            assert(r[j] == s[j - 1]);
        } else {
            assert(r[i] == s[i - 1]);
            assert(r[j] == s[j - 1]);
        }
    }
}

/// The stable sort puts facts in fact order and keeps every fact, as many
/// times as it occurs.
pub proof fn lemma_sorted_facts_sorted_permutation(g: Seq<FactV>)
    ensures
        facts_sorted(sorted_facts(g)),
        sorted_facts(g).to_multiset() == g.to_multiset(),
    decreases g.len(),
{
    broadcast use vstd::seq_lib::to_multiset_build;

    if g.len() == 0 {
        assert(sorted_facts(g) =~= g);
    } else {
        lemma_sorted_facts_sorted_permutation(g.drop_last());
        lemma_insert_ordered_sorted(sorted_facts(g.drop_last()), g.last());
        assert(g =~= g.drop_last().push(g.last()));
    }
}

/// The facts of `s` that tie with `v` in fact order, in their order in `s`.
pub open spec fn ties(s: Seq<FactV>, v: FactV) -> Seq<FactV>
    decreases s.len(),
{
    if s.len() == 0 {
        Seq::empty()
    } else if fact_order(s.last(), v) is Equal {
        ties(s.drop_last(), v).push(s.last())
    } else {
        ties(s.drop_last(), v)
    }
}

/// Facts tie when they agree on everything the order compares; then they
/// compare alike with every other fact.
proof fn lemma_tie_same_order(a: FactV, b: FactV, c: FactV)
    requires
        fact_order(a, b) is Equal,
    ensures
        fact_order(a, c) == fact_order(b, c),
        fact_order(b, a) is Equal,
{
    lemma_target_order(a.target, b.target, c.target);
    lemma_target_order(b.target, a.target, c.target);
    lemma_opt_order(a.target.artefact_id, b.target.artefact_id, None);
    lemma_opt_order(a.target.symbol_id, b.target.symbol_id, None);
    lemma_order_of(a.kind, b.kind, c.kind);
    lemma_order_of(a.key, b.key, c.key);
    lemma_order_of(a.value, b.value, c.value);
    lemma_order_of(a.fact_id, b.fact_id, c.fact_id);
    assert(a.target == b.target);
    lemma_lex_total(a.kind, b.kind);
    lemma_lex_total(a.key, b.key);
    lemma_lex_total(a.value, b.value);
    lemma_lex_total(a.fact_id, b.fact_id);
}

pub proof fn lemma_ties_concat(a: Seq<FactV>, b: Seq<FactV>, v: FactV)
    ensures
        ties(a + b, v) == ties(a, v) + ties(b, v),
    decreases b.len(),
{
    if b.len() == 0 {
        assert(a + b =~= a);
        assert(ties(a, v) + ties(b, v) =~= ties(a, v));
    } else {
        lemma_ties_concat(a, b.drop_last(), v);
        assert((a + b).drop_last() =~= a + b.drop_last());
        assert((a + b).last() == b.last());
        if fact_order(b.last(), v) is Equal {
            assert(ties(a, v) + ties(b.drop_last(), v).push(b.last()) =~= (ties(a, v) + ties(
                b.drop_last(),
                v,
            )).push(b.last()));
        }
    }
}

/// No fact of `s` ties with `v`.
pub proof fn lemma_ties_none(s: Seq<FactV>, v: FactV)
    requires
        forall|k: int| 0 <= k < s.len() ==> !(fact_order(#[trigger] s[k], v) is Equal),
    ensures
        ties(s, v) == Seq::<FactV>::empty(),
    decreases s.len(),
{
    if s.len() > 0 {
        lemma_ties_none(s.drop_last(), v);
    }
}

/// The stable sort keeps, for every fact, the order of the facts that tie
/// with it.
pub proof fn lemma_ties_sorted(g: Seq<FactV>, v: FactV)
    ensures
        ties(sorted_facts(g), v) == ties(g, v),
    decreases g.len(),
{
    if g.len() > 0 {
        lemma_ties_sorted(g.drop_last(), v);
        let s = sorted_facts(g.drop_last());
        let x = g.last();
        lemma_insert_position(s, x);
        let p = insert_position(s, x);
        lemma_insert_ordered_at(s, x, p);
        assert(s.insert(p, x) =~= s.take(p) + (seq![x] + s.skip(p)));
        assert(s =~= s.take(p) + s.skip(p));
        lemma_ties_concat(s.take(p), seq![x] + s.skip(p), v);
        lemma_ties_concat(seq![x], s.skip(p), v);
        lemma_ties_concat(s.take(p), s.skip(p), v);
        let one = seq![x];
        assert(one.last() == x);
        assert(one.drop_last() =~= Seq::<FactV>::empty());
        assert(ties(one.drop_last(), v) == Seq::<FactV>::empty());
        if fact_order(x, v) is Equal {
            assert forall|k: int| 0 <= k < s.skip(p).len() implies !(fact_order(#[trigger] s.skip(p)[k], v) is Equal) by {
                assert(s.skip(p)[k] == s[p + k]);
                assert(fact_order(s[p + k], x) is Greater);
                lemma_tie_same_order(x, v, s[p + k]);
                lemma_fact_order_flip(s[p + k], x);
                lemma_fact_order_flip(s[p + k], v);
                if fact_order(s[p + k], v) is Equal {
                    lemma_tie_same_order(s[p + k], v, x);
                    lemma_tie_same_order(x, v, x);
                }
            }
            lemma_ties_none(s.skip(p), v);
            assert(ties(one, v) =~= one);
            assert(ties(s, v) =~= ties(s.take(p), v));
            assert(ties(s.take(p), v) + (seq![x] + Seq::<FactV>::empty()) =~= ties(s.take(p), v).push(x));
        } else {
            assert(ties(one, v) =~= Seq::<FactV>::empty());
            assert(ties(s.take(p), v) + (Seq::<FactV>::empty() + ties(s.skip(p), v)) =~= ties(s.take(p), v) + ties(
                s.skip(p),
                v,
            ));
        }
    }
}

proof fn lemma_ties_member(s: Seq<FactV>, v: FactV, k: int)
    requires
        0 <= k < ties(s, v).len(),
    ensures
        s.contains(ties(s, v)[k]),
    decreases s.len(),
{
    if s.len() > 0 {
        let t = ties(s.drop_last(), v);
        if fact_order(s.last(), v) is Equal && k == t.len() {
            assert(s[s.len() - 1] == s.last());
        } else {
            lemma_ties_member(s.drop_last(), v, k);
            let j = choose|j: int| 0 <= j < s.drop_last().len() && s.drop_last()[j] == ties(s, v)[k];
            assert(s[j] == ties(s, v)[k]);
        }
    }
}

proof fn lemma_sorted_drop_last(s: Seq<FactV>)
    requires
        s.len() > 0,
        facts_sorted(s),
    ensures
        facts_sorted(s.drop_last()),
{
    assert forall|i: int, j: int| 0 <= i < j < s.drop_last().len() implies fact_le(
        #[trigger] s.drop_last()[i],
        #[trigger] s.drop_last()[j],
    ) by {
        assert(s.drop_last()[i] == s[i] && s.drop_last()[j] == s[j]);
        assert(fact_le(s[i], s[j]));
    }
}

/// Two sorted lists in which every fact has the same ties, in the same
/// order, are the same list.
proof fn lemma_sorted_same_ties(x: Seq<FactV>, y: Seq<FactV>)
    requires
        facts_sorted(x),
        facts_sorted(y),
        forall|v: FactV| #[trigger] ties(x, v) == ties(y, v),
    ensures
        x == y,
    decreases x.len() + y.len(),
{
    if x.len() == 0 && y.len() == 0 {
        assert(x =~= y);
    } else if x.len() == 0 {
        let b = y.last();
        lemma_tie_same_order(b, b, b);
        lemma_ties_none(x, b);
        assert(ties(y, b).len() > 0);
        assert(ties(x, b) == ties(y, b));
    } else if y.len() == 0 {
        let a = x.last();
        lemma_tie_same_order(a, a, a);
        lemma_ties_none(y, a);
        assert(ties(x, a).len() > 0);
        assert(ties(x, a) == ties(y, a));
    } else {
        let a = x.last();
        let b = y.last();
        lemma_tie_same_order(a, a, a);
        lemma_tie_same_order(b, b, b);
        assert(ties(x, a) == ties(y, a));
        assert(ties(x, b) == ties(y, b));
        // `a` occurs in `y`, so it is not after `b`; and the other way round.
        let ta = ties(y, a);
        assert(ta.len() > 0 && ta.last() == a);
        lemma_ties_member(y, a, ta.len() - 1);
        let ka = choose|k: int| 0 <= k < y.len() && y[k] == a;
        if ka < y.len() - 1 {
            assert(fact_le(y[ka], y[y.len() - 1]));
        }
        let tb = ties(x, b);
        assert(tb.len() > 0 && tb.last() == b);
        lemma_ties_member(x, b, tb.len() - 1);
        let kb = choose|k: int| 0 <= k < x.len() && x[k] == b;
        if kb < x.len() - 1 {
            assert(fact_le(x[kb], x[x.len() - 1]));
        }
        assert(fact_le(a, b) && fact_le(b, a));
        lemma_fact_order_flip(a, b);
        assert(fact_order(b, a) is Equal);
        lemma_tie_same_order(b, a, a);
        assert(ties(y, a) == ties(y.drop_last(), a).push(b));
        assert(ties(x, a) == ties(x.drop_last(), a).push(a));
        assert(a == b);
        lemma_sorted_drop_last(x);
        lemma_sorted_drop_last(y);
        assert forall|v: FactV| #[trigger] ties(x.drop_last(), v) == ties(y.drop_last(), v) by {
            assert(ties(x, v) == ties(y, v));
            if fact_order(a, v) is Equal {
                assert(ties(x.drop_last(), v) == ties(x, v).drop_last());
                assert(ties(y.drop_last(), v) == ties(y, v).drop_last());
            }
        }
        lemma_sorted_same_ties(x.drop_last(), y.drop_last());
        assert(x =~= x.drop_last().push(a));
        assert(y =~= y.drop_last().push(b));
    }
}

/// The sorted facts depend only on the order, within each group of facts
/// that tie in fact order, in which those facts come.
pub proof fn lemma_sorted_facts_by_ties(g1: Seq<FactV>, g2: Seq<FactV>)
    requires
        forall|v: FactV| #[trigger] ties(g1, v) == ties(g2, v),
    ensures
        sorted_facts(g1) == sorted_facts(g2),
{
    lemma_sorted_facts_sorted_permutation(g1);
    lemma_sorted_facts_sorted_permutation(g2);
    assert forall|v: FactV| #[trigger] ties(sorted_facts(g1), v) == ties(sorted_facts(g2), v) by {
        lemma_ties_sorted(g1, v);
        lemma_ties_sorted(g2, v);
        assert(ties(g1, v) == ties(g2, v));
    }
    lemma_sorted_same_ties(sorted_facts(g1), sorted_facts(g2));
}

} // verus!
