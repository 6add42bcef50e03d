//! Rule evaluation does not depend on the order of the facts: when no
//! condition compares numbers (the only ones that can fail, at the first
//! value that is not a number), facts given in another order give the
//! same signals, rule by rule and target by target, with the same scores.
use vstd::prelude::*;

use crate::fact_order::{lemma_target_order, target_order};
use crate::model::{FactV, TargetV};
use crate::rules::{
    any_from, condition_test, condition_views, first_match, first_match_from, groups_from, matched, matched_from,
    required_from, rule_target_plan, rules_plan, selector_test, target_groups, targets_plan, CompiledArchitectureRoleRule,
    ConditionV, RoleFactConditionOp, SignalPlan,
};
use crate::target_sort::targets_sorted;
use crate::unknown_policy::{facts_about, fact_targets, lemma_fact_targets_listed, lemma_fact_targets_sorted};

verus! {

/// No condition compares numbers.
pub open spec fn no_numeric(conds: Seq<ConditionV>) -> bool {
    forall|i: int| 0 <= i < conds.len() ==> (#[trigger] conds[i]).op != RoleFactConditionOp::Gte && conds[i].op
        != RoleFactConditionOp::Lte
}

/// No condition of the rule, in its selector or among its positive and
/// negative conditions, compares numbers.
pub open spec fn rule_no_numeric(rule: CompiledArchitectureRoleRule) -> bool {
    &&& no_numeric(rule.selector@.required_facts)
    &&& forall|g: int| 0 <= g < rule.selector@.any_groups.len() ==> no_numeric(#[trigger] rule.selector@.any_groups[g])
    &&& no_numeric(condition_views(rule.positive_conditions@))
    &&& no_numeric(condition_views(rule.negative_conditions@))
}

/// The same facts, each as often or not at all, in any order.
pub open spec fn same_facts(a: Seq<FactV>, b: Seq<FactV>) -> bool {
    forall|f: FactV| #[trigger] a.contains(f) == b.contains(f)
}

/// A plan without the facts that met the conditions: the rule, target,
/// polarity and score of each signal.
pub open spec fn plan_keys(p: Seq<SignalPlan>) -> Seq<(int, TargetV, crate::rules::RoleSignalPolarity, int)> {
    p.map_values(|s: SignalPlan| (s.rule, s.target, s.polarity, s.matched_score))
}

/// Some fact meets `c`.
pub open spec fn met(c: ConditionV, facts: Seq<FactV>) -> bool {
    exists|j: int| 0 <= j < facts.len() && condition_test(c, #[trigger] facts[j]) == Ok::<bool, crate::rules::EvaluationErrorV>(true)
}

proof fn lemma_first_match_plain(c: ConditionV, facts: Seq<FactV>, i: nat)
    requires
        c.op != RoleFactConditionOp::Gte,
        c.op != RoleFactConditionOp::Lte,
        i <= facts.len(),
    ensures
        first_match_from(c, facts, i) is Ok,
        (first_match_from(c, facts, i) matches Ok(Some(_))) == exists|j: int|
            i <= j < facts.len() && condition_test(c, #[trigger] facts[j]) == Ok::<bool, crate::rules::EvaluationErrorV>(true),
    decreases facts.len() - i,
{
    if i < facts.len() {
        lemma_first_match_plain(c, facts, i + 1);
        assert(condition_test(c, facts[i as int]) is Ok);
    }
}

proof fn lemma_met_same(c: ConditionV, a: Seq<FactV>, b: Seq<FactV>)
    requires
        same_facts(a, b),
        c.op != RoleFactConditionOp::Gte,
        c.op != RoleFactConditionOp::Lte,
    ensures
        first_match(c, a) is Ok,
        first_match(c, b) is Ok,
        (first_match(c, a) matches Ok(Some(_))) == (first_match(c, b) matches Ok(Some(_))),
{
    lemma_first_match_plain(c, a, 0);
    lemma_first_match_plain(c, b, 0);
    if exists|j: int| 0 <= j < a.len() && condition_test(c, #[trigger] a[j]) == Ok::<bool, crate::rules::EvaluationErrorV>(true) {
        let j = choose|j: int| 0 <= j < a.len() && condition_test(c, #[trigger] a[j]) == Ok::<bool, crate::rules::EvaluationErrorV>(true);
        assert(a.contains(a[j]));
        assert(b.contains(a[j]));
        let k = choose|k: int| 0 <= k < b.len() && b[k] == a[j];
        assert(condition_test(c, b[k]) == Ok::<bool, crate::rules::EvaluationErrorV>(true));
    }
    if exists|j: int| 0 <= j < b.len() && condition_test(c, #[trigger] b[j]) == Ok::<bool, crate::rules::EvaluationErrorV>(true) {
        let j = choose|j: int| 0 <= j < b.len() && condition_test(c, #[trigger] b[j]) == Ok::<bool, crate::rules::EvaluationErrorV>(true);
        assert(b.contains(b[j]));
        assert(a.contains(b[j]));
        let k = choose|k: int| 0 <= k < a.len() && a[k] == b[j];
        assert(condition_test(c, a[k]) == Ok::<bool, crate::rules::EvaluationErrorV>(true));
    }
}

proof fn lemma_matched_same(conds: Seq<ConditionV>, a: Seq<FactV>, b: Seq<FactV>, i: nat)
    requires
        same_facts(a, b),
        no_numeric(conds),
        i <= conds.len(),
    ensures
        matched_from(conds, a, i) is Ok,
        matched_from(conds, b, i) is Ok,
        matched_from(conds, a, i)->Ok_0.0 == matched_from(conds, b, i)->Ok_0.0,
    decreases conds.len() - i,
{
    if i < conds.len() {
        assert(conds[i as int].op != RoleFactConditionOp::Gte && conds[i as int].op != RoleFactConditionOp::Lte);
        lemma_met_same(conds[i as int], a, b);
        lemma_matched_same(conds, a, b, i + 1);
    }
}

proof fn lemma_required_same(reqs: Seq<ConditionV>, a: Seq<FactV>, b: Seq<FactV>, i: nat)
    requires
        same_facts(a, b),
        no_numeric(reqs),
        i <= reqs.len(),
    ensures
        required_from(reqs, a, i) is Ok,
        required_from(reqs, a, i) == required_from(reqs, b, i),
    decreases reqs.len() - i,
{
    if i < reqs.len() {
        assert(reqs[i as int].op != RoleFactConditionOp::Gte && reqs[i as int].op != RoleFactConditionOp::Lte);
        lemma_met_same(reqs[i as int], a, b);
        lemma_required_same(reqs, a, b, i + 1);
    }
}

proof fn lemma_any_same(group: Seq<ConditionV>, a: Seq<FactV>, b: Seq<FactV>, k: nat)
    requires
        same_facts(a, b),
        no_numeric(group),
        k <= group.len(),
    ensures
        any_from(group, a, k) is Ok,
        any_from(group, a, k) == any_from(group, b, k),
    decreases group.len() - k,
{
    if k < group.len() {
        assert(group[k as int].op != RoleFactConditionOp::Gte && group[k as int].op != RoleFactConditionOp::Lte);
        lemma_met_same(group[k as int], a, b);
        lemma_any_same(group, a, b, k + 1);
    }
}

proof fn lemma_groups_same(groups: Seq<Seq<ConditionV>>, a: Seq<FactV>, b: Seq<FactV>, j: nat)
    requires
        same_facts(a, b),
        forall|g: int| 0 <= g < groups.len() ==> no_numeric(#[trigger] groups[g]),
        j <= groups.len(),
    ensures
        groups_from(groups, a, j) is Ok,
        groups_from(groups, a, j) == groups_from(groups, b, j),
    decreases groups.len() - j,
{
    if j < groups.len() {
        assert(no_numeric(groups[j as int]));
        lemma_any_same(groups[j as int], a, b, 0);
        lemma_groups_same(groups, a, b, j + 1);
    }
}

proof fn lemma_rule_target_same(ri: int, rule: CompiledArchitectureRoleRule, t: TargetV, a: Seq<FactV>, b: Seq<FactV>)
    requires
        same_facts(a, b),
        rule_no_numeric(rule),
    ensures
        rule_target_plan(ri, rule, t, a) is Ok,
        rule_target_plan(ri, rule, t, b) is Ok,
        plan_keys(rule_target_plan(ri, rule, t, a)->Ok_0) == plan_keys(rule_target_plan(ri, rule, t, b)->Ok_0),
{
    lemma_required_same(rule.selector@.required_facts, a, b, 0);
    lemma_groups_same(rule.selector@.any_groups, a, b, 0);
    assert(selector_test(rule.selector@, t, a) == selector_test(rule.selector@, t, b));
    lemma_matched_same(condition_views(rule.positive_conditions@), a, b, 0);
    lemma_matched_same(condition_views(rule.negative_conditions@), a, b, 0);
    let pa = rule_target_plan(ri, rule, t, a)->Ok_0;
    let pb = rule_target_plan(ri, rule, t, b)->Ok_0;
    assert(plan_keys(pa) =~= plan_keys(pb));
}

/// Groups with the same targets, position by position, and the same facts.
pub open spec fn same_groups(g1: Seq<(TargetV, Seq<FactV>)>, g2: Seq<(TargetV, Seq<FactV>)>) -> bool {
    &&& g1.len() == g2.len()
    &&& forall|j: int| 0 <= j < g1.len() ==> (#[trigger] g1[j]).0 == g2[j].0 && same_facts(g1[j].1, g2[j].1)
}

proof fn lemma_plan_keys_concat(a: Seq<SignalPlan>, b: Seq<SignalPlan>)
    ensures
        plan_keys(a + b) == plan_keys(a) + plan_keys(b),
{
    assert(plan_keys(a + b) =~= plan_keys(a) + plan_keys(b));
}

proof fn lemma_targets_same(ri: int, rule: CompiledArchitectureRoleRule, g1: Seq<(TargetV, Seq<FactV>)>, g2: Seq<(TargetV, Seq<FactV>)>, j: nat)
    requires
        same_groups(g1, g2),
        rule_no_numeric(rule),
        j <= g1.len(),
    ensures
        targets_plan(ri, rule, g1, j) is Ok,
        targets_plan(ri, rule, g2, j) is Ok,
        plan_keys(targets_plan(ri, rule, g1, j)->Ok_0) == plan_keys(targets_plan(ri, rule, g2, j)->Ok_0),
    decreases g1.len() - j,
{
    if j < g1.len() {
        lemma_rule_target_same(ri, rule, g1[j as int].0, g1[j as int].1, g2[j as int].1);
        lemma_targets_same(ri, rule, g1, g2, j + 1);
        lemma_plan_keys_concat(
            rule_target_plan(ri, rule, g1[j as int].0, g1[j as int].1)->Ok_0,
            targets_plan(ri, rule, g1, j + 1)->Ok_0,
        );
        lemma_plan_keys_concat(
            rule_target_plan(ri, rule, g2[j as int].0, g2[j as int].1)->Ok_0,
            targets_plan(ri, rule, g2, j + 1)->Ok_0,
        );
    } else {
        assert(plan_keys(Seq::<SignalPlan>::empty()) =~= Seq::empty());
    }
}

proof fn lemma_rules_same(rules: Seq<CompiledArchitectureRoleRule>, g1: Seq<(TargetV, Seq<FactV>)>, g2: Seq<(TargetV, Seq<FactV>)>, i: nat)
    requires
        same_groups(g1, g2),
        forall|k: int| 0 <= k < rules.len() ==> rule_no_numeric(#[trigger] rules[k]),
        i <= rules.len(),
    ensures
        rules_plan(rules, g1, i) is Ok,
        rules_plan(rules, g2, i) is Ok,
        plan_keys(rules_plan(rules, g1, i)->Ok_0) == plan_keys(rules_plan(rules, g2, i)->Ok_0),
    decreases rules.len() - i,
{
    if i < rules.len() {
        assert(rule_no_numeric(rules[i as int]));
        lemma_targets_same(i as int, rules[i as int], g1, g2, 0);
        lemma_rules_same(rules, g1, g2, i + 1);
        lemma_plan_keys_concat(targets_plan(i as int, rules[i as int], g1, 0)->Ok_0, rules_plan(rules, g1, i + 1)->Ok_0);
        lemma_plan_keys_concat(targets_plan(i as int, rules[i as int], g2, 0)->Ok_0, rules_plan(rules, g2, i + 1)->Ok_0);
    } else {
        assert(plan_keys(Seq::<SignalPlan>::empty()) =~= Seq::empty());
    }
}

/// Two strictly ascending lists of targets with the same targets are equal.
proof fn lemma_targets_sorted_unique(a: Seq<TargetV>, b: Seq<TargetV>)
    requires
        targets_sorted(a),
        targets_sorted(b),
        forall|x: TargetV| #[trigger] a.contains(x) == b.contains(x),
    ensures
        a == b,
    decreases a.len(),
{
    if a.len() == 0 {
        if b.len() > 0 {
            assert(b[0] == b[0]);
            assert(b.contains(b[0]));
            assert(a.contains(b[0]));
        }
        assert(a =~= b);
    } else {
        assert(a[0] == a[0]);
        assert(a.contains(a[0]));
        assert(b.contains(a[0]));
        let j = choose|j: int| 0 <= j < b.len() && b[j] == a[0];
        assert(b[0] == b[0]);
        assert(b.contains(b[0]));
        assert(a.contains(b[0]));
        let i = choose|i: int| 0 <= i < a.len() && a[i] == b[0];
        lemma_target_order(a[0], b[0], a[0]);
        lemma_target_order(b[0], b[0], b[0]);
        lemma_target_order(a[0], a[0], a[0]);
        assert(a[0] == b[0]) by {
            if j > 0 {
                assert(target_order(b[0], b[j]) is Less);
                if i > 0 {
                    assert(target_order(a[0], a[i]) is Less);
                }
            }
        }
        let ra = a.drop_first();
        let rb = b.drop_first();
        assert forall|x: TargetV| #[trigger] ra.contains(x) == rb.contains(x) by {
            if ra.contains(x) {
                let k = choose|k: int| 0 <= k < ra.len() && ra[k] == x;
                assert(a[k + 1] == x);
                assert(target_order(a[0], a[k + 1]) is Less);
                lemma_target_order(a[0], x, a[0]);
                assert(a.contains(x));
                let m = choose|m: int| 0 <= m < b.len() && b[m] == x;
                assert(m != 0);
                assert(rb[m - 1] == x);
            }
            if rb.contains(x) {
                let k = choose|k: int| 0 <= k < rb.len() && rb[k] == x;
                assert(b[k + 1] == x);
                assert(target_order(b[0], b[k + 1]) is Less);
                lemma_target_order(b[0], x, b[0]);
                assert(x != b[0]);
                assert(b.contains(x));
                assert(a.contains(x));
                let m = choose|m: int| 0 <= m < a.len() && a[m] == x;
                assert(m != 0);
                assert(ra[m - 1] == x);
            }
        }
        assert(targets_sorted(ra)) by {
            assert forall|p: int, q: int| 0 <= p < q < ra.len() implies (target_order(ra[p], ra[q]) is Less) by {
                assert(ra[p] == a[p + 1] && ra[q] == a[q + 1]);
            }
        }
        assert(targets_sorted(rb)) by {
            assert forall|p: int, q: int| 0 <= p < q < rb.len() implies (target_order(rb[p], rb[q]) is Less) by {
                assert(rb[p] == b[p + 1] && rb[q] == b[q + 1]);
            }
        }
        lemma_targets_sorted_unique(ra, rb);
        assert(a =~= seq![a[0]] + ra);
        assert(b =~= seq![b[0]] + rb);
    }
}

proof fn lemma_facts_about_contains(t: TargetV, fv: Seq<FactV>, f: FactV)
    ensures
        facts_about(t, fv).contains(f) == (fv.contains(f) && f.target == t),
    decreases fv.len(),
{
    if fv.len() > 0 {
        let prev = fv.drop_last();
        lemma_facts_about_contains(t, prev, f);
        if prev.contains(f) {
            let k = choose|k: int| 0 <= k < prev.len() && prev[k] == f;
            assert(fv[k] == f);
        }
        if fv.contains(f) {
            let k = choose|k: int| 0 <= k < fv.len() && fv[k] == f;
            if k < fv.len() - 1 {
                assert(prev[k] == f);
            }
        }
        let fa = facts_about(t, prev);
        if fv.last().target == t {
            assert(fa.push(fv.last())[fa.len() as int] == fv.last());
            if fa.push(fv.last()).contains(f) && f != fv.last() {
                let k = choose|k: int| 0 <= k < fa.push(fv.last()).len() && fa.push(fv.last())[k] == f;
                assert(fa[k] == f);
            }
            if fa.contains(f) {
                let k = choose|k: int| 0 <= k < fa.len() && fa[k] == f;
                assert(fa.push(fv.last())[k] == f);
            }
        }
    }
}

/// Rule evaluation does not depend on the order of the facts: when no
/// condition of the rules compares numbers, facts given in another order
/// give signals with the same rules, targets, polarities and scores, in
/// the same order.
pub proof fn lemma_rule_signals_ignore_fact_order(
    rules: Seq<CompiledArchitectureRoleRule>,
    facts1: Seq<FactV>,
    facts2: Seq<FactV>,
)
    requires
        facts1.to_multiset() == facts2.to_multiset(),
        forall|k: int| 0 <= k < rules.len() ==> rule_no_numeric(#[trigger] rules[k]),
    ensures
        rules_plan(rules, target_groups(facts1), 0) is Ok,
        rules_plan(rules, target_groups(facts2), 0) is Ok,
        plan_keys(rules_plan(rules, target_groups(facts1), 0)->Ok_0) == plan_keys(
            rules_plan(rules, target_groups(facts2), 0)->Ok_0,
        ),
{
    broadcast use vstd::seq_lib::group_to_multiset_ensures;

    assert forall|f: FactV| #[trigger] facts1.contains(f) == facts2.contains(f) by {
        assert(facts1.contains(f) == (facts1.to_multiset().count(f) > 0));
        assert(facts2.contains(f) == (facts2.to_multiset().count(f) > 0));
    }
    let t1 = fact_targets(facts1);
    let t2 = fact_targets(facts2);
    lemma_fact_targets_sorted(facts1);
    lemma_fact_targets_sorted(facts2);
    assert forall|x: TargetV| #[trigger] t1.contains(x) == t2.contains(x) by {
        lemma_fact_targets_listed(x, facts1);
        lemma_fact_targets_listed(x, facts2);
        if facts_about(x, facts1).len() > 0 {
            let f = facts_about(x, facts1)[0];
            assert(facts_about(x, facts1).contains(f));
            lemma_facts_about_contains(x, facts1, f);
            lemma_facts_about_contains(x, facts2, f);
            assert(facts_about(x, facts2).contains(f));
        }
        if facts_about(x, facts2).len() > 0 {
            let f = facts_about(x, facts2)[0];
            assert(facts_about(x, facts2).contains(f));
            lemma_facts_about_contains(x, facts2, f);
            lemma_facts_about_contains(x, facts1, f);
            assert(facts_about(x, facts1).contains(f));
        }
    }
    lemma_targets_sorted_unique(t1, t2);
    let g1 = target_groups(facts1);
    let g2 = target_groups(facts2);
    assert forall|j: int| 0 <= j < g1.len() implies (#[trigger] g1[j]).0 == g2[j].0 && same_facts(g1[j].1, g2[j].1) by {
        let t = t1[j];
        assert forall|f: FactV| #[trigger] facts_about(t, facts1).contains(f) == facts_about(t, facts2).contains(f) by {
            lemma_facts_about_contains(t, facts1, f);
            lemma_facts_about_contains(t, facts2, f);
        }
    }
    lemma_rules_same(rules, g1, g2, 0);
}

} // verus!
