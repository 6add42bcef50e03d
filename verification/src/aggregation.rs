//! Combining the signals of the detection rules into role assignments.
//!
//! The signals about one target and one role are combined by noisy-or:
//! positive scores raise the confidence, negative ones lower it. Scores
//! and confidences are in thousandths.
use vstd::prelude::*;

use vstd::arithmetic::div_mod::lemma_fundamental_div_mod_converse;

use crate::json_doc::{json_copy, json_same, JsonMember, JsonValue};
use crate::model::{RoleTarget, TargetV};
use crate::rules::{polarity_text, text_member, ArchitectureRoleRuleSignal, RoleSignalPolarity};
use crate::text::{decimal, i64_to_decimal, owned, signed_decimal, str_eq, u64_to_decimal};
use crate::big_digits::{add_big, big_value, digits_ok, lemma_pow_add, lemma_pow_pos, lemma_value_bound, lemma_value_shift, mul_small, skip_digits, small_value, thousand_pow};
use crate::target_sort::{insert_target, insert_target_in_order, target_insert_position, lemma_insert_target, target_views, targets_distinct, targets_sorted};

verus! {

/// What signals are combined by: their target and role.
pub open spec fn key_of(s: ArchitectureRoleRuleSignal) -> (TargetV, Seq<char>) {
    (s.target@, s.role_id@)
}

/// The keys of the signals, each once, in the order in which they first
/// appear.
pub open spec fn first_keys(signals: Seq<ArchitectureRoleRuleSignal>) -> Seq<(TargetV, Seq<char>)>
    decreases signals.len(),
{
    if signals.len() == 0 {
        Seq::empty()
    } else {
        let prev = first_keys(signals.drop_last());
        if prev.contains(key_of(signals.last())) {
            prev
        } else {
            prev.push(key_of(signals.last()))
        }
    }
}

/// The signals with key `k`, in order.
pub open spec fn keyed(signals: Seq<ArchitectureRoleRuleSignal>, k: (TargetV, Seq<char>)) -> Seq<ArchitectureRoleRuleSignal>
    decreases signals.len(),
{
    if signals.len() == 0 {
        Seq::empty()
    } else if key_of(signals.last()) == k {
        keyed(signals.drop_last(), k).push(signals.last())
    } else {
        keyed(signals.drop_last(), k)
    }
}

/// The scores of the signals of one polarity, in order.
pub open spec fn polarity_scores(ss: Seq<ArchitectureRoleRuleSignal>, polarity: RoleSignalPolarity) -> Seq<u32>
    decreases ss.len(),
{
    if ss.len() == 0 {
        Seq::empty()
    } else if ss.last().polarity == polarity {
        polarity_scores(ss.drop_last(), polarity).push(ss.last().score_permille)
    } else {
        polarity_scores(ss.drop_last(), polarity)
    }
}

/// A score as a chance in thousandths: scores above 1000 count as 1000.
pub open spec fn clamped_score(s: u32) -> nat {
    if s > 1000 {
        1000
    } else {
        s as nat
    }
}

/// The product of the complements `1000 - score` of the scores: the chance
/// that none of them speaks, in units of `1000^len`.
pub open spec fn complement_product(scores: Seq<u32>) -> nat
    decreases scores.len(),
{
    if scores.len() == 0 {
        1
    } else {
        complement_product(scores.drop_last()) * ((1000 - clamped_score(scores.last())) as nat)
    }
}

/// The confidence, in thousandths rounded down once, that positive scores
/// `pos` and negative scores `neg` give: the noisy-or of the positive ones,
/// `1 - prod(1 - p)`, times the chance that no negative one speaks,
/// `prod(1 - n)`, computed exactly.
pub open spec fn confidence_value(pos: Seq<u32>, neg: Seq<u32>) -> int {
    (thousand_pow(pos.len()) - complement_product(pos)) * complement_product(neg) * 1000 / thousand_pow(
        pos.len() + neg.len(),
    ) as int
}

/// The confidence the signals give.
pub open spec fn confidence_of(ss: Seq<ArchitectureRoleRuleSignal>) -> int {
    confidence_value(
        polarity_scores(ss, RoleSignalPolarity::Positive),
        polarity_scores(ss, RoleSignalPolarity::Negative),
    )
}

/// The latest generation of the signals; 0 for none.
pub open spec fn latest_signal_generation(ss: Seq<ArchitectureRoleRuleSignal>) -> u64
    decreases ss.len(),
{
    if ss.len() == 0 {
        0
    } else {
        let prev = latest_signal_generation(ss.drop_last());
        if ss.last().generation_seq > prev {
            ss.last().generation_seq
        } else {
            prev
        }
    }
}

/// A member whose value is the number written `digits`.
pub open spec fn number_member(m: JsonMember, key: Seq<char>, digits: Seq<char>) -> bool {
    &&& m.key@ == key
    &&& m.value matches JsonValue::Number(t) && t@ == digits
}

/// `{"signalId", "ruleId", "ruleVersion", "polarity", "score", "evidence"}`
/// of signal `s`, with a copy of its own evidence.
pub open spec fn signal_evidence(v: JsonValue, s: ArchitectureRoleRuleSignal) -> bool {
    match v {
        JsonValue::Object(ms) => {
            &&& ms@.len() == 6
            &&& text_member(ms@[0], "signalId"@, s.signal_id@)
            &&& text_member(ms@[1], "ruleId"@, s.rule_id@)
            &&& number_member(ms@[2], "ruleVersion"@, signed_decimal(s.rule_version as int))
            &&& text_member(ms@[3], "polarity"@, polarity_text(s.polarity))
            &&& number_member(ms@[4], "score"@, decimal(s.score_permille as nat))
            &&& ms@[5].key@ == "evidence"@
            &&& json_same(s.evidence, ms@[5].value)
        },
        _ => false,
    }
}

/// The signals about one target and one role, gathered.
struct KeyedSignals {
    target: RoleTarget,
    role_id: String,
    positive: Vec<u32>,
    negative: Vec<u32>,
    generation_seq: u64,
    evidence: Vec<JsonValue>,
}

/// `entry` gathers exactly the signals of `ss` with its key.
spec fn gathers(entry: KeyedSignals, ss: Seq<ArchitectureRoleRuleSignal>) -> bool {
    let mine = keyed(ss, (entry.target@, entry.role_id@));
    &&& entry.positive@ == polarity_scores(mine, RoleSignalPolarity::Positive)
    &&& entry.negative@ == polarity_scores(mine, RoleSignalPolarity::Negative)
    &&& entry.generation_seq == latest_signal_generation(mine)
    &&& entry.evidence@.len() == mine.len()
    &&& forall|j: int| 0 <= j < mine.len() ==> signal_evidence(#[trigger] entry.evidence@[j], mine[j])
}

spec fn entry_keys(entries: Seq<KeyedSignals>) -> Seq<(TargetV, Seq<char>)> {
    entries.map_values(|e: KeyedSignals| (e.target@, e.role_id@))
}

fn number_member_of(key: &str, digits: String) -> (r: JsonMember)
    ensures
        number_member(r, key@, digits@),
{
    JsonMember { key: owned(key), value: JsonValue::Number(digits) }
}

fn text_member_from(key: &str, value: String) -> (r: JsonMember)
    ensures
        text_member(r, key@, value@),
{
    JsonMember { key: owned(key), value: JsonValue::Text(value) }
}

/// The evidence item of a signal.
fn signal_evidence_json(signal: &ArchitectureRoleRuleSignal) -> (r: JsonValue)
    ensures
        signal_evidence(r, *signal),
{
    let mut members: Vec<JsonMember> = Vec::new();
    members.push(text_member_from("signalId", signal.signal_id.clone()));
    members.push(text_member_from("ruleId", signal.rule_id.clone()));
    members.push(number_member_of("ruleVersion", i64_to_decimal(signal.rule_version)));
    members.push(text_member_from("polarity", owned(signal.polarity.as_str())));
    members.push(number_member_of("score", u64_to_decimal(signal.score_permille as u64)));
    members.push(JsonMember { key: owned("evidence"), value: json_copy(&signal.evidence) });
    JsonValue::Object(members)
}

proof fn lemma_keys_listed(k: (TargetV, Seq<char>), ss: Seq<ArchitectureRoleRuleSignal>)
    ensures
        first_keys(ss).contains(k) == (keyed(ss, k).len() > 0),
    decreases ss.len(),
{
    if ss.len() > 0 {
        let prev = first_keys(ss.drop_last());
        let last = key_of(ss.last());
        lemma_keys_listed(k, ss.drop_last());
        if !prev.contains(last) {
            assert(prev.push(last)[prev.len() as int] == last);
            if prev.push(last).contains(k) && k != last {
                let m = choose|m: int| 0 <= m < prev.push(last).len() && prev.push(last)[m] == k;
                assert(prev[m] == k);
            }
            if prev.contains(k) {
                let m = choose|m: int| 0 <= m < prev.len() && prev[m] == k;
                assert(prev.push(last)[m] == k);
            }
        }
    }
}

/// Gathers the signals by key, in the order in which the keys first
/// appear; each signal's evidence moves into its entry.
fn gather(signals: &[ArchitectureRoleRuleSignal]) -> (r: Vec<KeyedSignals>)
    ensures
        entry_keys(r@) == first_keys(signals@),
        forall|k: int| 0 <= k < r@.len() ==> gathers(#[trigger] r@[k], signals@),
{
    let ghost all = signals@;
    let mut out: Vec<KeyedSignals> = Vec::new();
    let mut i: usize = 0;
    while i < signals.len()
        invariant
            i <= all.len(),
            all == signals@,
            entry_keys(out@) == first_keys(all.take(i as int)),
            forall|a: int, b: int| 0 <= a < b < out@.len() ==> (out@[a].target@, out@[a].role_id@) != (
                out@[b].target@,
                out@[b].role_id@,
            ),
            forall|k: int| 0 <= k < out@.len() ==> gathers(#[trigger] out@[k], all.take(i as int)),
        decreases all.len() - i,
    {
        let signal = &signals[i];
        assert(*signal == all[i as int]);
        let ghost prefix = all.take(i as int);
        let ghost next = all.take(i + 1);
        assert(next.drop_last() =~= prefix);
        assert(next.last() == *signal);
        let mut k: usize = 0;
        let mut found: Option<usize> = None;
        while k < out.len()
            invariant
                k <= out@.len(),
                forall|m: int| 0 <= m < k ==> (#[trigger] out@[m]).target@ != signal.target@ || out@[m].role_id@
                    != signal.role_id@,
                match found {
                    Some(x) => x < out@.len() && out@[x as int].target@ == signal.target@ && out@[x as int].role_id@
                        == signal.role_id@,
                    None => true,
                },
            ensures
                match found {
                    Some(x) => x < out@.len() && out@[x as int].target@ == signal.target@ && out@[x as int].role_id@
                        == signal.role_id@,
                    None => forall|m: int| 0 <= m < out@.len() ==> (#[trigger] out@[m]).target@ != signal.target@
                        || out@[m].role_id@ != signal.role_id@,
                },
            decreases out@.len() - k,
        {
            if out[k].target.same_as(&signal.target) && str_eq(out[k].role_id.as_str(), signal.role_id.as_str()) {
                found = Some(k);
                break;
            }
            k = k + 1;
        }
        let ghost before = out@;
        let ghost sk = key_of(*signal);
        assert(forall|m: int| 0 <= m < before.len() ==> entry_keys(before)[m] == (#[trigger] before[m].target@, before[m].role_id@));
        match found {
            Some(x) => {
                let mut entry = out.remove(x);
                let ghost old_entry = entry;
                let ghost old_mine = keyed(prefix, sk);
                match signal.polarity {
                    RoleSignalPolarity::Positive => entry.positive.push(signal.score_permille),
                    RoleSignalPolarity::Negative => entry.negative.push(signal.score_permille),
                }
                if signal.generation_seq > entry.generation_seq {
                    entry.generation_seq = signal.generation_seq;
                }
                let ghost s = *signal;
                entry.evidence.push(signal_evidence_json(signal));
                assert(keyed(next, sk) == old_mine.push(s));
                assert(gathers(entry, next)) by {
                    let mine = keyed(next, sk);
                    assert(mine.drop_last() =~= old_mine);
                    assert forall|j: int| 0 <= j < mine.len() implies signal_evidence(#[trigger] entry.evidence@[j], mine[j]) by {
                        if j < old_mine.len() {
                            assert(entry.evidence@[j] == old_entry.evidence@[j]);
                        }
                    }
                }
                out.insert(x, entry);
                assert(out@ =~= before.update(x as int, entry));
                assert forall|a: int, b: int| 0 <= a < b < out@.len() implies (out@[a].target@, out@[a].role_id@) != (
                    out@[b].target@,
                    out@[b].role_id@,
                ) by {
                    assert((before[a].target@, before[a].role_id@) != (before[b].target@, before[b].role_id@));
                }
                assert(first_keys(prefix).contains(sk)) by {
                    assert(entry_keys(before)[x as int] == sk);
                }
                assert(entry_keys(out@) =~= entry_keys(before));
                assert forall|m: int| 0 <= m < out@.len() implies gathers(#[trigger] out@[m], next) by {
                    if m != x {
                        let km = (out@[m].target@, out@[m].role_id@);
                        assert(out@[m] == before[m]);
                        if m < x {
                            assert((before[m].target@, before[m].role_id@) != (before[x as int].target@, before[x as int].role_id@));
                        } else {
                            assert((before[x as int].target@, before[x as int].role_id@) != (before[m].target@, before[m].role_id@));
                        }
                        assert(km != sk);
                        assert(keyed(next, km) == keyed(prefix, km));
                    }
                }
            },
            None => {
                assert(!first_keys(prefix).contains(sk)) by {
                    if first_keys(prefix).contains(sk) {
                        let m = choose|m: int| 0 <= m < entry_keys(before).len() && entry_keys(before)[m] == sk;
                        assert(before[m].target@ == signal.target@ && before[m].role_id@ == signal.role_id@);
                    }
                }
                proof {
                    lemma_keys_listed(sk, prefix);
                }
                assert(keyed(prefix, sk).len() == 0);
                let mut positive: Vec<u32> = Vec::new();
                let mut negative: Vec<u32> = Vec::new();
                match signal.polarity {
                    RoleSignalPolarity::Positive => positive.push(signal.score_permille),
                    RoleSignalPolarity::Negative => negative.push(signal.score_permille),
                }
                let target = signal.target.duplicate();
                let role_id = signal.role_id.clone();
                let generation_seq = signal.generation_seq;
                let ghost s = *signal;
                let mut evidence: Vec<JsonValue> = Vec::new();
                evidence.push(signal_evidence_json(signal));
                let entry = KeyedSignals { target, role_id, positive, negative, generation_seq, evidence };
                assert(keyed(next, sk) =~= seq![s]);
                assert(keyed(next, sk).drop_last() =~= Seq::<ArchitectureRoleRuleSignal>::empty());
                assert(gathers(entry, next)) by {
                    let mine = keyed(next, sk);
                    assert(mine[0] == s);
                    assert(mine.last() == s);
                    assert(polarity_scores(mine.drop_last(), RoleSignalPolarity::Positive) =~= Seq::<u32>::empty());
                    assert(polarity_scores(mine.drop_last(), RoleSignalPolarity::Negative) =~= Seq::<u32>::empty());
                    assert(latest_signal_generation(mine.drop_last()) == 0);
                    assert(entry.positive@ =~= polarity_scores(mine, RoleSignalPolarity::Positive));
                    assert(entry.negative@ =~= polarity_scores(mine, RoleSignalPolarity::Negative));
                    assert(signal_evidence(entry.evidence@[0], mine[0]));
                }
                out.push(entry);
                assert(out@ =~= before.push(entry));
                assert forall|a: int, b: int| 0 <= a < b < out@.len() implies (out@[a].target@, out@[a].role_id@) != (
                    out@[b].target@,
                    out@[b].role_id@,
                ) by {
                    if b < before.len() {
                        assert((before[a].target@, before[a].role_id@) != (before[b].target@, before[b].role_id@));
                    }
                }
                assert(entry_keys(out@) =~= entry_keys(before).push(sk));
                assert forall|m: int| 0 <= m < out@.len() implies gathers(#[trigger] out@[m], next) by {
                    if m < before.len() {
                        let km = (out@[m].target@, out@[m].role_id@);
                        assert(km != sk);
                        assert(keyed(next, km) == keyed(prefix, km));
                    }
                }
            },
        }
        i = i + 1;
    }
    assert(all.take(i as int) =~= all);
    out
}

// ---------------------------------------------------------------------------
// Ranking the roles of a target
// ---------------------------------------------------------------------------

/// The targets of the keys, each once, in ascending target order.
pub open spec fn key_targets(keys: Seq<(TargetV, Seq<char>)>) -> Seq<TargetV>
    decreases keys.len(),
{
    if keys.len() == 0 {
        Seq::empty()
    } else {
        let prev = key_targets(keys.drop_last());
        if prev.contains(keys.last().0) {
            prev
        } else {
            insert_target(prev, keys.last().0)
        }
    }
}

/// The targets of the keys are strictly ascending, so none occurs twice.
proof fn lemma_key_targets_sorted(keys: Seq<(TargetV, Seq<char>)>)
    ensures
        targets_sorted(key_targets(keys)),
        targets_distinct(key_targets(keys)),
    decreases keys.len(),
{
    if keys.len() > 0 {
        lemma_key_targets_sorted(keys.drop_last());
        lemma_insert_target(key_targets(keys.drop_last()), keys.last().0);
    }
}

/// The roles keyed with target `t`, in order.
pub open spec fn roles_of(keys: Seq<(TargetV, Seq<char>)>, t: TargetV) -> Seq<Seq<char>>
    decreases keys.len(),
{
    if keys.len() == 0 {
        Seq::empty()
    } else if keys.last().0 == t {
        roles_of(keys.drop_last(), t).push(keys.last().1)
    } else {
        roles_of(keys.drop_last(), t)
    }
}

/// The confidence the signals give role `role` for target `t`.
pub open spec fn role_confidence(signals: Seq<ArchitectureRoleRuleSignal>, t: TargetV, role: Seq<char>) -> int {
    confidence_of(keyed(signals, (t, role)))
}

/// `r1` ranks before `r2`: a higher confidence, or the same confidence
/// and `r1` first in text order.
pub open spec fn ranks_before(signals: Seq<ArchitectureRoleRuleSignal>, t: TargetV, r1: Seq<char>, r2: Seq<char>) -> bool {
    let c1 = role_confidence(signals, t, r1);
    let c2 = role_confidence(signals, t, r2);
    c1 > c2 || (c1 == c2 && crate::order::lex_lt(r1, r2))
}

/// `r` put into the ranked `sorted` before the first role it ranks
/// before.
pub open spec fn insert_ranked(
    signals: Seq<ArchitectureRoleRuleSignal>,
    t: TargetV,
    sorted: Seq<Seq<char>>,
    r: Seq<char>,
) -> Seq<Seq<char>>
    decreases sorted.len(),
{
    if sorted.len() == 0 {
        seq![r]
    } else if ranks_before(signals, t, r, sorted[0]) {
        seq![r] + sorted
    } else {
        seq![sorted[0]] + insert_ranked(signals, t, sorted.drop_first(), r)
    }
}

/// The roles ranked, best first.
pub open spec fn rank_roles(signals: Seq<ArchitectureRoleRuleSignal>, t: TargetV, roles: Seq<Seq<char>>) -> Seq<Seq<char>>
    decreases roles.len(),
{
    if roles.len() == 0 {
        Seq::empty()
    } else {
        insert_ranked(signals, t, rank_roles(signals, t, roles.drop_last()), roles.last())
    }
}

/// The roles with a confidence of at least `review`, in order.
pub open spec fn kept_roles(signals: Seq<ArchitectureRoleRuleSignal>, t: TargetV, ranked: Seq<Seq<char>>, review: int) -> Seq<
    Seq<char>,
>
    decreases ranked.len(),
{
    if ranked.len() == 0 {
        Seq::empty()
    } else if role_confidence(signals, t, ranked.last()) >= review {
        kept_roles(signals, t, ranked.drop_last(), review).push(ranked.last())
    } else {
        kept_roles(signals, t, ranked.drop_last(), review)
    }
}

/// How many of the roles are within `margin` of the `top` confidence.
pub open spec fn count_within(signals: Seq<ArchitectureRoleRuleSignal>, t: TargetV, roles: Seq<Seq<char>>, top: int, margin: int) -> nat
    decreases roles.len(),
{
    if roles.len() == 0 {
        0
    } else {
        count_within(signals, t, roles.drop_last(), top, margin) + if top - role_confidence(signals, t, roles.last())
            <= margin {
            1nat
        } else {
            0nat
        }
    }
}

// ---------------------------------------------------------------------------
// Assignments
// ---------------------------------------------------------------------------

/// Whether an assignment is a target's main role.
#[derive(Debug, Clone, Copy, PartialEq, Eq, Structural)]
pub enum AssignmentPriority {
    Primary,
    Secondary,
}

/// Whether an assignment holds or waits for a review.
#[derive(Debug, Clone, Copy, PartialEq, Eq, Structural)]
pub enum AssignmentStatus {
    Active,
    NeedsReview,
    Stale,
}

/// Who made an assignment.
#[derive(Debug, Clone, Copy, PartialEq, Eq, Structural)]
pub enum AssignmentSource {
    Rule,
    Llm,
}

pub open spec fn source_text(s: AssignmentSource) -> Seq<char> {
    match s {
        AssignmentSource::Rule => "rule"@,
        AssignmentSource::Llm => "llm"@,
    }
}

impl AssignmentSource {
    pub fn as_db(&self) -> (r: &'static str)
        ensures
            r@ == source_text(*self),
    {
        match self {
            AssignmentSource::Rule => "rule",
            AssignmentSource::Llm => "llm",
        }
    }
}

/// The thresholds of the aggregation, in thousandths: a role is kept from
/// `review_threshold`, and is active from `active_threshold` unless
/// another kept role is within `conflict_margin` of the best.
pub struct AssignmentAggregationConfig {
    pub active_threshold_permille: u32,
    pub review_threshold_permille: u32,
    pub conflict_margin_permille: u32,
}

impl Default for AssignmentAggregationConfig {
    fn default() -> (r: Self)
        ensures
            r.active_threshold_permille == 800,
            r.review_threshold_permille == 500,
            r.conflict_margin_permille == 50,
    {
        AssignmentAggregationConfig {
            active_threshold_permille: 800,
            review_threshold_permille: 500,
            conflict_margin_permille: 50,
        }
    }
}

/// A role assigned to a target.
pub struct ArchitectureRoleAssignment {
    pub repo_id: String,
    pub assignment_id: String,
    pub role_id: String,
    pub target: RoleTarget,
    pub priority: AssignmentPriority,
    pub status: AssignmentStatus,
    pub source: AssignmentSource,
    pub confidence_permille: u32,
    pub evidence: JsonValue,
    pub provenance: JsonValue,
    pub classifier_version: String,
    pub rule_version: Option<i64>,
    pub generation_seq: u64,
}

/// An assignment to be made.
pub struct AssignmentPlan {
    pub target: TargetV,
    pub role: Seq<char>,
    pub confidence: int,
    pub priority: AssignmentPriority,
    pub status: AssignmentStatus,
}

/// The assignments for target `t`: its kept roles, best first; the first
/// is primary; a role is active when confident enough and not in a
/// conflict at the top (two or more kept roles within the margin of the
/// best).
pub open spec fn target_assignment_plan(
    signals: Seq<ArchitectureRoleRuleSignal>,
    config: AssignmentAggregationConfig,
    t: TargetV,
) -> Seq<AssignmentPlan> {
    let kept = kept_roles(
        signals,
        t,
        rank_roles(signals, t, roles_of(first_keys(signals), t)),
        config.review_threshold_permille as int,
    );
    let margin = config.conflict_margin_permille as int;
    let top = if kept.len() > 0 {
        role_confidence(signals, t, kept[0])
    } else {
        0
    };
    let conflict = kept.len() > 0 && count_within(signals, t, kept, top, margin) > 1;
    Seq::new(
        kept.len(),
        |i: int|
            {
                let c = role_confidence(signals, t, kept[i]);
                AssignmentPlan {
                    target: t,
                    role: kept[i],
                    confidence: c,
                    priority: if i == 0 {
                        AssignmentPriority::Primary
                    } else {
                        AssignmentPriority::Secondary
                    },
                    status: if c >= config.active_threshold_permille && !(conflict && top - c <= margin) {
                        AssignmentStatus::Active
                    } else {
                        AssignmentStatus::NeedsReview
                    },
                }
            },
    )
}

/// The assignments for the targets from `i` on, target by target.
pub open spec fn plan_from(
    signals: Seq<ArchitectureRoleRuleSignal>,
    config: AssignmentAggregationConfig,
    ts: Seq<TargetV>,
    i: nat,
) -> Seq<AssignmentPlan>
    decreases ts.len() - i,
{
    if i >= ts.len() {
        Seq::empty()
    } else {
        target_assignment_plan(signals, config, ts[i as int]) + plan_from(signals, config, ts, i + 1)
    }
}

/// The assignments the signals call for: target by target, in ascending
/// target order.
pub open spec fn assignment_plan(signals: Seq<ArchitectureRoleRuleSignal>, config: AssignmentAggregationConfig) -> Seq<
    AssignmentPlan,
> {
    plan_from(signals, config, key_targets(first_keys(signals)), 0)
}

/// The identity of an assignment: a digest of its repository, role and
/// target.
pub open spec fn assignment_id_of(repo_id: Seq<char>, role_id: Seq<char>, t: TargetV) -> Seq<char> {
    crate::hashing::sha256_hex_of(
        "architecture_graph|role_assignment|"@ + repo_id + "|"@ + role_id + "|"@ + crate::rule_preview::preview_key_of(t),
    )
}

/// `[{"source": "rule_signal_aggregation"}, ..]` followed by the evidence
/// of each signal.
pub open spec fn aggregation_evidence(v: JsonValue, ss: Seq<ArchitectureRoleRuleSignal>) -> bool {
    match v {
        JsonValue::Array(items) => {
            &&& items@.len() == ss.len() + 1
            &&& items@[0] matches JsonValue::Object(head) && head@.len() == 1 && text_member(
                head@[0],
                "source"@,
                "rule_signal_aggregation"@,
            )
            &&& forall|j: int| 0 <= j < ss.len() ==> signal_evidence(#[trigger] items@[j + 1], ss[j])
        },
        _ => false,
    }
}

pub open spec fn classifier_version_text() -> Seq<char> {
    "architecture_roles.deterministic.contract.v1"@
}

/// `{"classifierVersion": .., "source": "deterministic_rules"}`.
pub open spec fn classifier_provenance(v: JsonValue) -> bool {
    match v {
        JsonValue::Object(ms) => {
            &&& ms@.len() == 2
            &&& text_member(ms@[0], "classifierVersion"@, classifier_version_text())
            &&& text_member(ms@[1], "source"@, "deterministic_rules"@)
        },
        _ => false,
    }
}

/// Assignment `a` is the one `p` calls for.
pub open spec fn assignment_holds(
    a: ArchitectureRoleAssignment,
    repo_id: Seq<char>,
    signals: Seq<ArchitectureRoleRuleSignal>,
    p: AssignmentPlan,
) -> bool {
    let mine = keyed(signals, (p.target, p.role));
    &&& a.repo_id@ == repo_id
    &&& a.assignment_id@ == assignment_id_of(repo_id, p.role, p.target)
    &&& a.role_id@ == p.role
    &&& a.target@ == p.target
    &&& a.priority == p.priority
    &&& a.status == p.status
    &&& a.source == AssignmentSource::Rule
    &&& a.confidence_permille == p.confidence
    &&& aggregation_evidence(a.evidence, mine)
    &&& classifier_provenance(a.provenance)
    &&& a.classifier_version@ == classifier_version_text()
    &&& a.rule_version is None
    &&& a.generation_seq == latest_signal_generation(mine)
}

// ---------------------------------------------------------------------------
// Facts used by the aggregation
// ---------------------------------------------------------------------------

proof fn lemma_plan_from_push(
    signals: Seq<ArchitectureRoleRuleSignal>,
    config: AssignmentAggregationConfig,
    ts: Seq<TargetV>,
    t: TargetV,
    i: nat,
)
    requires
        i <= ts.len(),
    ensures
        plan_from(signals, config, ts.push(t), i) == plan_from(signals, config, ts, i) + target_assignment_plan(
            signals,
            config,
            t,
        ),
    decreases ts.len() - i,
{
    if i < ts.len() {
        lemma_plan_from_push(signals, config, ts, t, i + 1);
        assert(ts.push(t)[i as int] == ts[i as int]);
        assert(target_assignment_plan(signals, config, ts[i as int]) + (plan_from(signals, config, ts, i + 1)
            + target_assignment_plan(signals, config, t)) =~= target_assignment_plan(signals, config, ts[i as int])
            + plan_from(signals, config, ts, i + 1) + target_assignment_plan(signals, config, t));
    } else {
        assert(ts.push(t)[i as int] == t);
        assert(plan_from(signals, config, ts.push(t), i + 1) =~= Seq::<AssignmentPlan>::empty());
        assert(target_assignment_plan(signals, config, t) + Seq::<AssignmentPlan>::empty() =~= target_assignment_plan(
            signals,
            config,
            t,
        ));
        assert(Seq::<AssignmentPlan>::empty() + target_assignment_plan(signals, config, t) =~= target_assignment_plan(
            signals,
            config,
            t,
        ));
    }
}

proof fn lemma_key_targets_listed(ks: Seq<(TargetV, Seq<char>)>, t: TargetV)
    ensures
        key_targets(ks).contains(t) == (exists|j: int| 0 <= j < ks.len() && (#[trigger] ks[j]).0 == t),
    decreases ks.len(),
{
    if ks.len() > 0 {
        let prev = key_targets(ks.drop_last());
        let last = ks.last().0;
        lemma_key_targets_listed(ks.drop_last(), t);
        if exists|j: int| 0 <= j < ks.drop_last().len() && (#[trigger] ks.drop_last()[j]).0 == t {
            let j = choose|j: int| 0 <= j < ks.drop_last().len() && (#[trigger] ks.drop_last()[j]).0 == t;
            assert(ks[j].0 == t);
        }
        if exists|j: int| 0 <= j < ks.len() && (#[trigger] ks[j]).0 == t {
            let j = choose|j: int| 0 <= j < ks.len() && (#[trigger] ks[j]).0 == t;
            if j < ks.len() - 1 {
                assert(ks.drop_last()[j].0 == t);
            }
        }
        lemma_insert_target(prev, last);
    }
}

proof fn lemma_insert_ranked_at(
    signals: Seq<ArchitectureRoleRuleSignal>,
    t: TargetV,
    s: Seq<Seq<char>>,
    r: Seq<char>,
    p: int,
)
    requires
        0 <= p <= s.len(),
        forall|q: int| 0 <= q < p ==> !ranks_before(signals, t, r, #[trigger] s[q]),
        p < s.len() ==> ranks_before(signals, t, r, s[p]),
    ensures
        insert_ranked(signals, t, s, r) == s.take(p).push(r) + s.skip(p),
    decreases s.len(),
{
    if s.len() == 0 {
        assert(s.take(p).push(r) + s.skip(p) =~= seq![r]);
    } else if p == 0 {
        assert(s.take(p).push(r) + s.skip(p) =~= seq![r] + s);
    } else {
        assert forall|q: int| 0 <= q < p - 1 implies !ranks_before(signals, t, r, #[trigger] s.drop_first()[q]) by {
            assert(s.drop_first()[q] == s[q + 1]);
        }
        if p - 1 < s.drop_first().len() {
            assert(s.drop_first()[p - 1] == s[p]);
        }
        lemma_insert_ranked_at(signals, t, s.drop_first(), r, p - 1);
        assert(!ranks_before(signals, t, r, s[0]));
        assert(seq![s[0]] + (s.drop_first().take(p - 1).push(r) + s.drop_first().skip(p - 1)) =~= s.take(p).push(r)
            + s.skip(p));
    }
}

// ---------------------------------------------------------------------------
// Computing the assignments
// ---------------------------------------------------------------------------

proof fn lemma_complement_product_bound(scores: Seq<u32>)
    ensures
        complement_product(scores) <= thousand_pow(scores.len()),
    decreases scores.len(),
{
    if scores.len() > 0 {
        lemma_complement_product_bound(scores.drop_last());
        let c = complement_product(scores.drop_last()) as int;
        let p = thousand_pow((scores.len() - 1) as nat) as int;
        let f = (1000 - clamped_score(scores.last())) as int;
        assert(c * f <= p * 1000) by (nonlinear_arith)
            requires
                0 <= c <= p,
                0 <= f <= 1000,
        ;
    }
}

proof fn lemma_complement_product_remove(b: Seq<u32>, j: int)
    requires
        0 <= j < b.len(),
    ensures
        complement_product(b) == complement_product(b.remove(j)) * ((1000 - clamped_score(b[j])) as nat),
    decreases b.len(),
{
    let dl = b.drop_last();
    if j == b.len() - 1 {
        assert(b.remove(j) =~= dl);
    } else {
        lemma_complement_product_remove(dl, j);
        assert(b.remove(j).drop_last() =~= dl.remove(j));
        assert(b.remove(j).last() == b.last());
        assert(dl[j] == b[j]);
        let a = complement_product(dl.remove(j)) as int;
        let fj = (1000 - clamped_score(b[j])) as int;
        let fl = (1000 - clamped_score(b.last())) as int;
        assert((a * fj) * fl == (a * fl) * fj) by (nonlinear_arith);
    }
}

proof fn lemma_complement_product_permutation(a: Seq<u32>, b: Seq<u32>)
    requires
        a.to_multiset() == b.to_multiset(),
    ensures
        complement_product(a) == complement_product(b),
        a.len() == b.len(),
    decreases a.len(),
{
    broadcast use vstd::seq_lib::group_to_multiset_ensures;
    broadcast use vstd::multiset::group_multiset_axioms;

    if a.len() == 0 {
        assert(b.len() == b.to_multiset().len());
        assert(a =~= b);
    } else {
        let x = a.last();
        assert(a.contains(x)) by {
            assert(a[a.len() - 1] == x);
        }
        assert(a.to_multiset().count(x) > 0);
        assert(b.contains(x));
        let j = choose|j: int| 0 <= j < b.len() && b[j] == x;
        assert(a.drop_last() =~= a.remove(a.len() - 1));
        assert(a.drop_last().to_multiset() == b.remove(j).to_multiset());
        lemma_complement_product_permutation(a.drop_last(), b.remove(j));
        lemma_complement_product_remove(b, j);
    }
}

/// The confidence does not depend on the order in which the scores come:
/// the same positive and the same negative scores, in any order, give the
/// same confidence.
pub proof fn lemma_confidence_ignores_score_order(p1: Seq<u32>, p2: Seq<u32>, n1: Seq<u32>, n2: Seq<u32>)
    requires
        p1.to_multiset() == p2.to_multiset(),
        n1.to_multiset() == n2.to_multiset(),
    ensures
        confidence_value(p1, n1) == confidence_value(p2, n2),
{
    lemma_complement_product_permutation(p1, p2);
    lemma_complement_product_permutation(n1, n2);
}

/// `(a * 1000) / (1000 * p) == a / p`.
proof fn lemma_div_scaled(a: nat, p: nat)
    requires
        p > 0,
    ensures
        (a * 1000) / (1000 * p) == a / p,
{
    let q = (a / p) as int;
    let r = (a % p) as int;
    vstd::arithmetic::div_mod::lemma_fundamental_div_mod(a as int, p as int);
    assert((a * 1000) as int == q * (1000 * p) + 1000 * r) by (nonlinear_arith)
        requires
            a == p * q + r,
    ;
    assert(0 <= 1000 * r < 1000 * p) by (nonlinear_arith)
        requires
            0 <= r < p,
    ;
    lemma_fundamental_div_mod_converse((a * 1000) as int, (1000 * p) as int, q, 1000 * r);
}

/// The confidence of the positive scores `positive` and the negative
/// scores `negative`, computed exactly in base-1000 digits and rounded
/// down once.
fn confidence_from(positive: &Vec<u32>, negative: &Vec<u32>) -> (r: u32)
    ensures
        r == confidence_value(positive@, negative@),
        r <= 1000,
{
    let ghost pos = positive@;
    let ghost neg = negative@;
    let n = positive.len();
    let m = negative.len();
    if n == 0 {
        proof {
            assert(thousand_pow(0) == 1);
            assert(complement_product(pos) == 1);
            lemma_pow_pos(m as nat);
            assert(pos.len() + neg.len() == m);
            let z = (thousand_pow(pos.len()) - complement_product(pos)) * complement_product(neg) * 1000;
            assert(z == 0);
            vstd::arithmetic::div_mod::lemma_basic_div(0, thousand_pow(m as nat) as int);
        }
        return 0;
    }
    // `u` is `1000^i - prod(1000 - p)` and `q` is `prod(1000 - p)`, over
    // the first `i` positive scores.
    let mut q: Vec<u32> = Vec::new();
    q.push(1);
    let mut u: Vec<u32> = Vec::new();
    proof {
        assert(q@.drop_last() =~= Seq::<u32>::empty());
        assert(big_value(q@) == big_value(Seq::<u32>::empty()) + thousand_pow(0) * 1);
        assert(big_value(u@) == 0);
        assert(pos.take(0) =~= Seq::<u32>::empty());
    }
    let mut i: usize = 0;
    while i < n
        invariant
            i <= n,
            n == pos.len(),
            pos == positive@,
            digits_ok(q@),
            digits_ok(u@),
            big_value(q@) == complement_product(pos.take(i as int)),
            big_value(u@) + complement_product(pos.take(i as int)) == thousand_pow(i as nat),
        decreases n - i,
    {
        let x: u32 = if positive[i] > 1000 {
            1000
        } else {
            positive[i]
        };
        let shifted = mul_small(&u, 1000);
        let part = mul_small(&q, x);
        let next_u = add_big(&shifted, &part);
        let next_q = mul_small(&q, 1000 - x);
        proof {
            let t = pos.take(i + 1);
            assert(t.drop_last() =~= pos.take(i as int));
            assert(t.last() == pos[i as int]);
            assert(x == clamped_score(pos[i as int]));
            let c = complement_product(pos.take(i as int)) as int;
            let uu = big_value(u@) as int;
            assert(complement_product(t) == c * (1000 - x));
            assert(thousand_pow((i + 1) as nat) == 1000 * thousand_pow(i as nat));
            assert(uu * 1000 + c * x + c * (1000 - x) == 1000 * (uu + c)) by (nonlinear_arith);
        }
        u = next_u;
        q = next_q;
        i = i + 1;
    }
    assert(pos.take(n as int) =~= pos);
    // Times the chance that no negative score speaks.
    let mut j: usize = 0;
    assert(neg.take(0) =~= Seq::<u32>::empty());
    while j < m
        invariant
            j <= m,
            m == neg.len(),
            neg == negative@,
            digits_ok(u@),
            big_value(u@) == (thousand_pow(n as nat) - complement_product(pos)) * complement_product(
                neg.take(j as int),
            ),
        decreases m - j,
    {
        let y: u32 = if negative[j] > 1000 {
            1000
        } else {
            negative[j]
        };
        let next_u = mul_small(&u, 1000 - y);
        proof {
            let t = neg.take(j + 1);
            assert(t.drop_last() =~= neg.take(j as int));
            assert(t.last() == neg[j as int]);
            let a = thousand_pow(n as nat) - complement_product(pos);
            let c = complement_product(neg.take(j as int)) as int;
            assert(complement_product(t) == c * (1000 - y));
            assert(a * c * (1000 - y) == a * (c * (1000 - y))) by (nonlinear_arith);
        }
        u = next_u;
        j = j + 1;
    }
    assert(neg.take(m as int) =~= neg);
    let ghost total = big_value(u@);
    let ghost k = (n - 1 + m) as nat;
    proof {
        lemma_complement_product_bound(pos);
        lemma_complement_product_bound(neg);
        lemma_pow_add(n as nat, m as nat);
        lemma_pow_pos(k);
        let a = (thousand_pow(n as nat) - complement_product(pos)) as int;
        let b = complement_product(neg) as int;
        assert(0 <= a <= thousand_pow(n as nat));
        assert(a * b <= thousand_pow(n as nat) * thousand_pow(m as nat)) by (nonlinear_arith)
            requires
                0 <= a <= thousand_pow(n as nat),
                0 <= b <= thousand_pow(m as nat),
        ;
        assert(n + m == k + 1);
        assert(thousand_pow(k + 1) == 1000 * thousand_pow(k));
        assert(total <= 1000 * thousand_pow(k));
        lemma_div_scaled(total, thousand_pow(k));
        assert(confidence_value(pos, neg) == total / thousand_pow(k));
        assert(total / thousand_pow(k) <= 1000) by (nonlinear_arith)
            requires
                total <= 1000 * thousand_pow(k),
                thousand_pow(k) > 0,
        ;
    }
    let len = u.len();
    match (n - 1).checked_add(m) {
        Some(kk) => {
            if kk <= len {
                let top = skip_digits(&u, kk);
                proof {
                    lemma_value_shift(u@, k);
                    assert(digits_ok(top@)) by {
                        assert forall|z: int| 0 <= z < top@.len() implies #[trigger] top@[z] < 1000 by {
                            assert(top@[z] == u@[z + kk]);
                        }
                    }
                }
                small_value(&top)
            } else {
                proof {
                    lemma_value_bound(u@);
                    assert(thousand_pow(len as nat) <= thousand_pow(k)) by {
                        lemma_pow_add(len as nat, (k - len) as nat);
                        lemma_pow_pos((k - len) as nat);
                        let a = thousand_pow(len as nat) as int;
                        let b = thousand_pow((k - len) as nat) as int;
                        assert(a <= a * b) by (nonlinear_arith)
                            requires
                                a >= 0,
                                b >= 1,
                        ;
                    }
                    vstd::arithmetic::div_mod::lemma_basic_div(total as int, thousand_pow(k) as int);
                }
                0
            }
        },
        None => {
            proof {
                lemma_value_bound(u@);
                assert(k > usize::MAX);
                assert(thousand_pow(len as nat) <= thousand_pow(k)) by {
                    lemma_pow_add(len as nat, (k - len) as nat);
                    lemma_pow_pos((k - len) as nat);
                    let a = thousand_pow(len as nat) as int;
                    let b = thousand_pow((k - len) as nat) as int;
                    assert(a <= a * b) by (nonlinear_arith)
                        requires
                            a >= 0,
                            b >= 1,
                    ;
                }
                vstd::arithmetic::div_mod::lemma_basic_div(total as int, thousand_pow(k) as int);
            }
            0
        },
    }
}

/// The roles of the entries at positions `idx`.
spec fn roles_at(keys: Seq<(TargetV, Seq<char>)>, idx: Seq<usize>) -> Seq<Seq<char>> {
    idx.map_values(|j: usize| keys[j as int].1)
}

spec fn distinct(idx: Seq<usize>) -> bool {
    forall|a: int, b: int| 0 <= a < b < idx.len() ==> idx[a] != idx[b]
}

/// What the aggregation reads of the gathered entries.
spec fn entries_ready(
    entries: Seq<KeyedSignals>,
    conf: Seq<u32>,
    all: Seq<ArchitectureRoleRuleSignal>,
) -> bool {
    &&& entry_keys(entries) == first_keys(all)
    &&& conf.len() == entries.len()
    &&& forall|a: int, b: int| 0 <= a < b < entries.len() ==> (entries[a].target@, entries[a].role_id@) != (
        entries[b].target@,
        entries[b].role_id@,
    )
    &&& forall|m: int| 0 <= m < entries.len() ==> conf[m] == role_confidence(
        all,
        (#[trigger] entries[m]).target@,
        entries[m].role_id@,
    )
}

fn ranks_ahead(entries: &Vec<KeyedSignals>, conf: &Vec<u32>, a: usize, b: usize, Ghost(all): Ghost<Seq<ArchitectureRoleRuleSignal>>, Ghost(t): Ghost<TargetV>) -> (r: bool)
    requires
        a < entries@.len(),
        b < entries@.len(),
        conf@.len() == entries@.len(),
        conf@[a as int] == role_confidence(all, t, entries@[a as int].role_id@),
        conf@[b as int] == role_confidence(all, t, entries@[b as int].role_id@),
    ensures
        r == ranks_before(all, t, entries@[a as int].role_id@, entries@[b as int].role_id@),
{
    if conf[a] > conf[b] {
        return true;
    }
    if conf[a] < conf[b] {
        return false;
    }
    let ra = crate::text::chars_of(entries[a].role_id.as_str());
    let rb = crate::text::chars_of(entries[b].role_id.as_str());
    proof {
        crate::order::lemma_lex_irreflexive(ra@);
    }
    match crate::order::compare_chars(ra.as_slice(), rb.as_slice()) {
        crate::order::Order::Less => true,
        _ => false,
    }
}

fn assignment_id(repo_id: &str, role_id: &str, target: &RoleTarget) -> (r: String)
    ensures
        r@ == assignment_id_of(repo_id@, role_id@, target@),
{
    let mut out: Vec<char> = Vec::new();
    crate::text::append_chars(&mut out, "architecture_graph|role_assignment|");
    crate::text::append_chars(&mut out, repo_id);
    crate::text::append_chars(&mut out, "|");
    crate::text::append_chars(&mut out, role_id);
    crate::text::append_chars(&mut out, "|");
    let key = crate::rule_preview::preview_target_key(target);
    crate::text::append_chars(&mut out, key.as_str());
    let text = crate::text::string_from_chars(out.as_slice());
    crate::hashing::sha256_hex(text.as_str())
}

fn provenance_json() -> (r: JsonValue)
    ensures
        classifier_provenance(r),
{
    let mut members: Vec<JsonMember> = Vec::new();
    members.push(text_member_from("classifierVersion", owned("architecture_roles.deterministic.contract.v1")));
    members.push(text_member_from("source", owned("deterministic_rules")));
    proof {
        reveal_strlit("architecture_roles.deterministic.contract.v1");
    }
    JsonValue::Object(members)
}

/// The assignments for target `t`, whose entries give up their evidence
/// to them.
fn assign_target(
    repo_id: &str,
    entries: &mut Vec<KeyedSignals>,
    conf: &Vec<u32>,
    t: &RoleTarget,
    config: &AssignmentAggregationConfig,
    Ghost(all): Ghost<Seq<ArchitectureRoleRuleSignal>>,
    Ghost(orig): Ghost<Seq<KeyedSignals>>,
) -> (r: Vec<ArchitectureRoleAssignment>)
    requires
        entries_ready(orig, conf@, all),
        forall|m: int| 0 <= m < orig.len() ==> gathers(#[trigger] orig[m], all),
        old(entries)@.len() == orig.len(),
        forall|m: int| 0 <= m < orig.len() ==> (#[trigger] old(entries)@[m]).target@ == orig[m].target@
            && old(entries)@[m].role_id@ == orig[m].role_id@,
        forall|m: int| 0 <= m < orig.len() && orig[m].target@ == t@ ==> #[trigger] old(entries)@[m] == orig[m],
    ensures
        final(entries)@.len() == orig.len(),
        forall|m: int| 0 <= m < orig.len() ==> (#[trigger] final(entries)@[m]).target@ == orig[m].target@
            && final(entries)@[m].role_id@ == orig[m].role_id@,
        forall|m: int| 0 <= m < orig.len() && orig[m].target@ != t@ ==> #[trigger] final(entries)@[m] == old(entries)@[m],
        r@.len() == target_assignment_plan(all, *config, t@).len(),
        forall|i: int| 0 <= i < r@.len() ==> assignment_holds(
            #[trigger] r@[i],
            repo_id@,
            all,
            target_assignment_plan(all, *config, t@)[i],
        ),
{
    let ghost keys = entry_keys(orig);
    let n = entries.len();
    assert(forall|m: int| 0 <= m < orig.len() ==> #[trigger] keys[m] == (orig[m].target@, orig[m].role_id@));
    // The entries of the target, in order.
    let mut cands: Vec<usize> = Vec::new();
    let mut j: usize = 0;
    while j < n
        invariant
            j <= n,
            n == orig.len(),
            n == entries@.len(),
            keys == entry_keys(orig),
            forall|m: int| 0 <= m < orig.len() ==> #[trigger] keys[m] == (orig[m].target@, orig[m].role_id@),
            forall|m: int| 0 <= m < orig.len() ==> (#[trigger] entries@[m]).target@ == orig[m].target@
                && entries@[m].role_id@ == orig[m].role_id@,
            roles_at(keys, cands@) == roles_of(keys.take(j as int), t@),
            forall|a: int| 0 <= a < cands@.len() ==> #[trigger] cands@[a] < j && orig[cands@[a] as int].target@ == t@,
            forall|a: int, b: int| 0 <= a < b < cands@.len() ==> cands@[a] < cands@[b],
        decreases n - j,
    {
        assert(keys.take(j + 1).drop_last() =~= keys.take(j as int));
        assert(keys.take(j + 1).last() == keys[j as int]);
        if entries[j].target.same_as(t) {
            cands.push(j);
            assert(roles_at(keys, cands@) =~= roles_at(keys, cands@.drop_last()).push(keys[j as int].1));
        }
        j = j + 1;
    }
    assert(keys.take(n as int) =~= keys);
    let ghost roles = roles_of(keys, t@);
    assert(roles_at(keys, cands@) == roles);
    // Ranked, best first.
    let mut ranked: Vec<usize> = Vec::new();
    let mut q: usize = 0;
    assert(roles.take(0) =~= Seq::<Seq<char>>::empty());
    while q < cands.len()
        invariant
            q <= cands@.len(),
            n == orig.len(),
            n == entries@.len(),
            conf@.len() == n,
            entries_ready(orig, conf@, all),
            keys == entry_keys(orig),
            forall|m: int| 0 <= m < orig.len() ==> #[trigger] keys[m] == (orig[m].target@, orig[m].role_id@),
            forall|m: int| 0 <= m < orig.len() ==> (#[trigger] entries@[m]).target@ == orig[m].target@
                && entries@[m].role_id@ == orig[m].role_id@,
            roles_at(keys, cands@) == roles,
            forall|a: int| 0 <= a < cands@.len() ==> #[trigger] cands@[a] < n && orig[cands@[a] as int].target@ == t@,
            forall|a: int, b: int| 0 <= a < b < cands@.len() ==> cands@[a] < cands@[b],
            roles_at(keys, ranked@) == rank_roles(all, t@, roles.take(q as int)),
            distinct(ranked@),
            forall|a: int| 0 <= a < ranked@.len() ==> exists|b: int| 0 <= b < q && #[trigger] ranked@[a] == cands@[b],
        decreases cands@.len() - q,
    {
        let c = cands[q];
        assert(roles[q as int] == keys[c as int].1);
        assert(conf@[c as int] == role_confidence(all, t@, entries@[c as int].role_id@));
        let mut p: usize = 0;
        let mut placed = false;
        while p < ranked.len() && !placed
            invariant
                p <= ranked@.len(),
                n == entries@.len(),
                conf@.len() == n,
                c < n,
                entries_ready(orig, conf@, all),
                forall|m: int| 0 <= m < orig.len() ==> (#[trigger] entries@[m]).target@ == orig[m].target@
                    && entries@[m].role_id@ == orig[m].role_id@,
                orig[c as int].target@ == t@,
                forall|a: int| 0 <= a < ranked@.len() ==> #[trigger] ranked@[a] < n && orig[ranked@[a] as int].target@ == t@,
                forall|qq: int| 0 <= qq < p ==> !ranks_before(all, t@, keys[c as int].1, #[trigger] roles_at(keys, ranked@)[qq]),
                placed ==> p < ranked@.len() && ranks_before(all, t@, keys[c as int].1, roles_at(keys, ranked@)[p as int]),
                keys == entry_keys(orig),
                forall|m: int| 0 <= m < orig.len() ==> #[trigger] keys[m] == (orig[m].target@, orig[m].role_id@),
            decreases ranked@.len() - p + if placed { 0int } else { 1int },
        {
            let other = ranked[p];
            assert(conf@[other as int] == role_confidence(all, t@, entries@[other as int].role_id@));
            if ranks_ahead(entries, conf, c, other, Ghost(all), Ghost(t@)) {
                placed = true;
            } else {
                p = p + 1;
            }
        }
        proof {
            lemma_insert_ranked_at(all, t@, roles_at(keys, ranked@), keys[c as int].1, p as int);
            assert(roles.take(q + 1).drop_last() =~= roles.take(q as int));
            assert(roles.take(q + 1).last() == keys[c as int].1);
        }
        let ghost before = ranked@;
        ranked.insert(p, c);
        assert(ranked@ =~= before.take(p as int).push(c) + before.skip(p as int));
        assert(roles_at(keys, ranked@) =~= roles_at(keys, before).take(p as int).push(keys[c as int].1) + roles_at(
            keys,
            before,
        ).skip(p as int));
        assert forall|a: int| 0 <= a < ranked@.len() implies exists|b: int| 0 <= b < q + 1 && #[trigger] ranked@[a] == cands@[b] by {
            if a < p {
                assert(ranked@[a] == before[a]);
            } else if a > p {
                assert(ranked@[a] == before[a - 1]);
            } else {
                assert(ranked@[a] == cands@[q as int]);
            }
        }
        assert(distinct(ranked@)) by {
            assert forall|a: int, b: int| 0 <= a < b < ranked@.len() implies ranked@[a] != ranked@[b] by {
                if a != p && b != p {
                    let a0 = if a < p { a } else { a - 1 };
                    let b0 = if b < p { b } else { b - 1 };
                    assert(ranked@[a] == before[a0]);
                    assert(ranked@[b] == before[b0]);
                } else {
                    let other = if a == p { b } else { a };
                    let o0 = if other < p { other } else { other - 1 };
                    assert(ranked@[other] == before[o0]);
                    let w = choose|w: int| 0 <= w < q && #[trigger] before[o0] == cands@[w];
                    assert(cands@[w] < cands@[q as int]);
                }
            }
        }
        q = q + 1;
    }
    assert(roles.take(q as int) =~= roles);
    let ghost ranked_roles = rank_roles(all, t@, roles);
    // Kept: confident enough.
    let review = config.review_threshold_permille;
    let mut kept: Vec<usize> = Vec::new();
    let mut q2: usize = 0;
    while q2 < ranked.len()
        invariant
            q2 <= ranked@.len(),
            n == orig.len(),
            conf@.len() == n,
            entries_ready(orig, conf@, all),
            keys == entry_keys(orig),
            forall|m: int| 0 <= m < orig.len() ==> #[trigger] keys[m] == (orig[m].target@, orig[m].role_id@),
            roles_at(keys, ranked@) == ranked_roles,
            distinct(ranked@),
            forall|a: int| 0 <= a < ranked@.len() ==> #[trigger] ranked@[a] < n && orig[ranked@[a] as int].target@ == t@,
            roles_at(keys, kept@) == kept_roles(all, t@, ranked_roles.take(q2 as int), review as int),
            distinct(kept@),
            forall|a: int| 0 <= a < kept@.len() ==> exists|b: int| 0 <= b < q2 && #[trigger] kept@[a] == ranked@[b],
        decreases ranked@.len() - q2,
    {
        let c = ranked[q2];
        assert(ranked_roles.take(q2 + 1).drop_last() =~= ranked_roles.take(q2 as int));
        assert(ranked_roles.take(q2 + 1).last() == keys[c as int].1);
        assert(conf@[c as int] == role_confidence(all, t@, keys[c as int].1));
        if conf[c] >= review {
            let ghost before = kept@;
            kept.push(c);
            assert(roles_at(keys, kept@) =~= roles_at(keys, before).push(keys[c as int].1));
            assert(distinct(kept@)) by {
                assert forall|a: int, b: int| 0 <= a < b < kept@.len() implies kept@[a] != kept@[b] by {
                    if b == before.len() {
                        let w = choose|w: int| 0 <= w < q2 && #[trigger] before[a] == ranked@[w];
                        assert(ranked@[w] != ranked@[q2 as int]);
                    } else {
                        assert(before[a] != before[b]);
                    }
                }
            }
            assert forall|a: int| 0 <= a < kept@.len() implies exists|b: int| 0 <= b < q2 + 1 && #[trigger] kept@[a] == ranked@[b] by {
                if a < before.len() {
                    assert(kept@[a] == before[a]);
                } else {
                    assert(kept@[a] == ranked@[q2 as int]);
                }
            }
        }
        q2 = q2 + 1;
    }
    assert(ranked_roles.take(q2 as int) =~= ranked_roles);
    let ghost kept_r = kept_roles(all, t@, ranked_roles, review as int);
    assert(forall|a: int| 0 <= a < kept@.len() ==> #[trigger] kept@[a] < n && orig[kept@[a] as int].target@ == t@) by {
        assert forall|a: int| 0 <= a < kept@.len() implies #[trigger] kept@[a] < n && orig[kept@[a] as int].target@ == t@ by {
            let w = choose|w: int| 0 <= w < ranked@.len() && #[trigger] kept@[a] == ranked@[w];
        }
    }
    // The conflict at the top.
    let margin = config.conflict_margin_permille;
    let top: u32 = if kept.len() > 0 {
        conf[kept[0]]
    } else {
        0
    };
    proof {
        if kept@.len() > 0 {
            assert(roles_at(keys, kept@)[0] == keys[kept@[0] as int].1);
        }
    }
    let mut within: usize = 0;
    let mut q3: usize = 0;
    while q3 < kept.len()
        invariant
            q3 <= kept@.len(),
            n == orig.len(),
            conf@.len() == n,
            entries_ready(orig, conf@, all),
            keys == entry_keys(orig),
            forall|m: int| 0 <= m < orig.len() ==> #[trigger] keys[m] == (orig[m].target@, orig[m].role_id@),
            forall|a: int| 0 <= a < kept@.len() ==> #[trigger] kept@[a] < n && orig[kept@[a] as int].target@ == t@,
            roles_at(keys, kept@) == kept_r,
            within == count_within(all, t@, kept_r.take(q3 as int), top as int, margin as int),
            within <= q3,
        decreases kept@.len() - q3,
    {
        let c = kept[q3];
        assert(kept_r.take(q3 + 1).drop_last() =~= kept_r.take(q3 as int));
        assert(kept_r.take(q3 + 1).last() == keys[c as int].1);
        assert(conf@[c as int] == role_confidence(all, t@, keys[c as int].1));
        if conf[c] as u64 + margin as u64 >= top as u64 {
            within = within + 1;
        }
        q3 = q3 + 1;
    }
    assert(kept_r.take(q3 as int) =~= kept_r);
    let conflict = kept.len() > 0 && within > 1;
    // The assignments, each taking its entry's evidence.
    let ghost plan = target_assignment_plan(all, *config, t@);
    assert(plan.len() == kept@.len());
    let mut out: Vec<ArchitectureRoleAssignment> = Vec::new();
    let mut idx: usize = 0;
    while idx < kept.len()
        invariant
            idx <= kept@.len(),
            n == orig.len(),
            n == entries@.len(),
            conf@.len() == n,
            entries_ready(orig, conf@, all),
            forall|m: int| 0 <= m < orig.len() ==> gathers(#[trigger] orig[m], all),
            keys == entry_keys(orig),
            forall|m: int| 0 <= m < orig.len() ==> #[trigger] keys[m] == (orig[m].target@, orig[m].role_id@),
            forall|a: int| 0 <= a < kept@.len() ==> #[trigger] kept@[a] < n && orig[kept@[a] as int].target@ == t@,
            distinct(kept@),
            roles_at(keys, kept@) == kept_r,
            plan == target_assignment_plan(all, *config, t@),
            plan.len() == kept@.len(),
            kept_r == kept_roles(all, t@, rank_roles(all, t@, roles_of(first_keys(all), t@)), config.review_threshold_permille as int),
            top == (if kept@.len() > 0 { role_confidence(all, t@, kept_r[0]) } else { 0 }),
            conflict == (kept_r.len() > 0 && count_within(all, t@, kept_r, top as int, margin as int) > 1),
            margin == config.conflict_margin_permille,
            forall|m: int| 0 <= m < orig.len() ==> (#[trigger] entries@[m]).target@ == orig[m].target@
                && entries@[m].role_id@ == orig[m].role_id@,
            forall|m: int| 0 <= m < orig.len() && orig[m].target@ != t@ ==> #[trigger] entries@[m] == old(entries)@[m],
            forall|a: int| idx <= a < kept@.len() ==> entries@[#[trigger] kept@[a] as int] == orig[kept@[a] as int],
            out@.len() == idx,
            forall|i: int| 0 <= i < idx ==> assignment_holds(#[trigger] out@[i], repo_id@, all, plan[i]),
        decreases kept@.len() - idx,
    {
        let c = kept[idx];
        assert(entries@[c as int] == orig[c as int]);
        let ghost mine = keyed(all, (orig[c as int].target@, orig[c as int].role_id@));
        assert(gathers(orig[c as int], all));
        assert(kept_r[idx as int] == keys[c as int].1);
        assert(conf@[c as int] == role_confidence(all, t@, keys[c as int].1));
        let confidence = conf[c];
        let priority = if idx == 0 {
            AssignmentPriority::Primary
        } else {
            AssignmentPriority::Secondary
        };
        let near_top = confidence as u64 + margin as u64 >= top as u64;
        let status = if confidence >= config.active_threshold_permille && !(conflict && near_top) {
            AssignmentStatus::Active
        } else {
            AssignmentStatus::NeedsReview
        };
        let mut taken: Vec<JsonValue> = Vec::new();
        std::mem::swap(&mut entries[c].evidence, &mut taken);
        assert(taken@ == orig[c as int].evidence@);
        let mut head: Vec<JsonMember> = Vec::new();
        head.push(text_member_from("source", owned("rule_signal_aggregation")));
        let mut items: Vec<JsonValue> = Vec::new();
        items.push(JsonValue::Object(head));
        let ghost first = items@;
        items.append(&mut taken);
        assert(aggregation_evidence(JsonValue::Array(items), mine)) by {
            assert forall|j2: int| 0 <= j2 < mine.len() implies signal_evidence(#[trigger] items@[j2 + 1], mine[j2]) by {
                assert(items@[j2 + 1] == orig[c as int].evidence@[j2]);
            }
        }
        let a = ArchitectureRoleAssignment {
            repo_id: owned(repo_id),
            assignment_id: assignment_id(repo_id, entries[c].role_id.as_str(), &entries[c].target),
            role_id: entries[c].role_id.clone(),
            target: entries[c].target.duplicate(),
            priority,
            status,
            source: AssignmentSource::Rule,
            confidence_permille: confidence,
            evidence: JsonValue::Array(items),
            provenance: provenance_json(),
            classifier_version: owned("architecture_roles.deterministic.contract.v1"),
            rule_version: None,
            generation_seq: entries[c].generation_seq,
        };
        assert(assignment_holds(a, repo_id@, all, plan[idx as int]));
        out.push(a);
        assert forall|a2: int| idx + 1 <= a2 < kept@.len() implies entries@[#[trigger] kept@[a2] as int] == orig[kept@[a2] as int] by {
            assert(kept@[a2] != kept@[idx as int]);
        }
        idx = idx + 1;
    }
    out
}



/// best first.
pub fn aggregate_role_assignments(
    repo_id: &str,
    signals: &[ArchitectureRoleRuleSignal],
    config: &AssignmentAggregationConfig,
) -> (r: Vec<ArchitectureRoleAssignment>)
    ensures
        r@.len() == assignment_plan(signals@, *config).len(),
        forall|i: int| 0 <= i < r@.len() ==> assignment_holds(
            #[trigger] r@[i],
            repo_id@,
            signals@,
            assignment_plan(signals@, *config)[i],
        ),
{
    let ghost all = signals@;
    let mut entries = gather(signals);
    let ghost orig = entries@;
    let ghost keys = entry_keys(orig);
    let n = entries.len();
    assert(forall|m: int| 0 <= m < orig.len() ==> #[trigger] keys[m] == (orig[m].target@, orig[m].role_id@));
    let mut conf: Vec<u32> = Vec::new();
    let mut k: usize = 0;
    while k < n
        invariant
            k <= n,
            n == entries@.len(),
            entries@ == orig,
            conf@.len() == k,
            forall|m: int| 0 <= m < orig.len() ==> gathers(#[trigger] orig[m], all),
            forall|m: int| 0 <= m < k ==> conf@[m] == role_confidence(all, (#[trigger] orig[m]).target@, orig[m].role_id@),
        decreases n - k,
    {
        assert(gathers(orig[k as int], all));
        conf.push(confidence_from(&entries[k].positive, &entries[k].negative));
        k = k + 1;
    }
    assert(entries_ready(orig, conf@, all)) by {
        assert forall|a: int, b: int| 0 <= a < b < orig.len() implies (orig[a].target@, orig[a].role_id@) != (
            orig[b].target@,
            orig[b].role_id@,
        ) by {
            lemma_first_keys_distinct(all);
            assert(keys[a] == first_keys(all)[a]);
            assert(keys[b] == first_keys(all)[b]);
        }
    }
    // The targets, each once, in ascending order.
    let mut ts: Vec<RoleTarget> = Vec::new();
    let mut k: usize = 0;
    assert(key_targets(keys.take(0)) =~= Seq::<TargetV>::empty());
    assert(target_views(ts@) =~= Seq::<TargetV>::empty());
    while k < n
        invariant
            k <= n,
            n == entries@.len(),
            n == orig.len(),
            entries@ == orig,
            keys == entry_keys(orig),
            forall|m: int| 0 <= m < orig.len() ==> #[trigger] keys[m] == (orig[m].target@, orig[m].role_id@),
            target_views(ts@) == key_targets(keys.take(k as int)),
        decreases n - k,
    {
        let t = entries[k].target.duplicate();
        let seen = crate::unknown_policy::lists_target(ts.as_slice(), &t);
        proof {
            assert(keys.take(k + 1).drop_last() =~= keys.take(k as int));
            assert(keys.take(k + 1).last() == keys[k as int]);
            assert(seen == target_views(ts@).contains(t@)) by {
                if seen {
                    let i = choose|i: int| 0 <= i < ts@.len() && #[trigger] ts@[i]@ == t@;
                    assert(target_views(ts@)[i] == t@);
                }
                if target_views(ts@).contains(t@) {
                    let i = choose|i: int| 0 <= i < target_views(ts@).len() && target_views(ts@)[i] == t@;
                    assert(ts@[i]@ == t@);
                }
            }
        }
        if !seen {
            insert_target_in_order(&mut ts, t);
        }
        k = k + 1;
    }
    assert(keys.take(n as int) =~= keys);
    let ghost tv = target_views(ts@);
    proof {
        lemma_key_targets_sorted(keys);
    }
    let mut out: Vec<ArchitectureRoleAssignment> = Vec::new();
    let mut q: usize = 0;
    assert(tv.take(0) =~= Seq::<TargetV>::empty());
    while q < ts.len()
        invariant
            q <= ts@.len(),
            tv == target_views(ts@),
            tv == key_targets(keys),
            targets_distinct(tv),
            n == entries@.len(),
            n == orig.len(),
            entries_ready(orig, conf@, all),
            forall|m: int| 0 <= m < orig.len() ==> gathers(#[trigger] orig[m], all),
            forall|m: int| 0 <= m < orig.len() ==> (#[trigger] entries@[m]).target@ == orig[m].target@
                && entries@[m].role_id@ == orig[m].role_id@,
            forall|m: int| 0 <= m < orig.len() && !tv.take(q as int).contains(orig[m].target@) ==> #[trigger] entries@[m]
                == orig[m],
            out@.len() == plan_from(all, *config, tv.take(q as int), 0).len(),
            forall|i: int| 0 <= i < out@.len() ==> assignment_holds(
                #[trigger] out@[i],
                repo_id@,
                all,
                plan_from(all, *config, tv.take(q as int), 0)[i],
            ),
        decreases ts@.len() - q,
    {
        let ghost old_out = out@;
        let ghost before_entries = entries@;
        let ghost done_targets = tv.take(q as int);
        let ghost t = tv[q as int];
        assert(!done_targets.contains(t)) by {
            if done_targets.contains(t) {
                let w = choose|w: int| 0 <= w < done_targets.len() && done_targets[w] == t;
                assert(tv[w] == tv[q as int]);
            }
        }
        assert forall|m: int| 0 <= m < orig.len() && orig[m].target@ == t implies #[trigger] entries@[m] == orig[m] by {}
        assert(ts@[q as int]@ == t);
        let mut made = assign_target(repo_id, &mut entries, &conf, &ts[q], config, Ghost(all), Ghost(orig));
        proof {
            lemma_plan_from_push(all, *config, done_targets, t, 0);
            assert(tv.take(q + 1) =~= done_targets.push(t));
        }
        let ghost made_v = made@;
        out.append(&mut made);
        assert forall|i: int| 0 <= i < out@.len() implies assignment_holds(
            #[trigger] out@[i],
            repo_id@,
            all,
            plan_from(all, *config, tv.take(q + 1), 0)[i],
        ) by {
            if i < old_out.len() {
                assert(out@[i] == old_out[i]);
            } else {
                assert(out@[i] == made_v[i - old_out.len()]);
            }
        }
        assert forall|m: int| 0 <= m < orig.len() && !tv.take(q + 1).contains(orig[m].target@) implies #[trigger] entries@[m]
            == orig[m] by {
            assert(done_targets.push(t)[done_targets.len() as int] == t);
            if done_targets.contains(orig[m].target@) {
                let w = choose|w: int| 0 <= w < done_targets.len() && done_targets[w] == orig[m].target@;
                assert(done_targets.push(t)[w] == orig[m].target@);
            }
            assert(orig[m].target@ != t);
            assert(entries@[m] == before_entries[m]);
        }
        q = q + 1;
    }
    assert(tv.take(ts@.len() as int) =~= tv);
    out
}

proof fn lemma_first_keys_distinct(ss: Seq<ArchitectureRoleRuleSignal>)
    ensures
        forall|a: int, b: int| 0 <= a < b < first_keys(ss).len() ==> first_keys(ss)[a] != first_keys(ss)[b],
    decreases ss.len(),
{
    if ss.len() > 0 {
        lemma_first_keys_distinct(ss.drop_last());
        let prev = first_keys(ss.drop_last());
        if !prev.contains(key_of(ss.last())) {
            assert forall|a: int, b: int| 0 <= a < b < first_keys(ss).len() implies first_keys(ss)[a] != first_keys(ss)[b] by {
                if b == prev.len() {
                    assert(first_keys(ss)[a] == prev[a]);
                }
            }
        }
    }
}

// ---------------------------------------------------------------------------
// Kept roles come best first
// ---------------------------------------------------------------------------

/// Each role ranks before every later one.
pub open spec fn ranked_in_order(signals: Seq<ArchitectureRoleRuleSignal>, t: TargetV, s: Seq<Seq<char>>) -> bool {
    forall|i: int, j: int| 0 <= i < j < s.len() ==> ranks_before(signals, t, #[trigger] s[i], #[trigger] s[j])
}

proof fn lemma_ranks_order(signals: Seq<ArchitectureRoleRuleSignal>, t: TargetV, a: Seq<char>, b: Seq<char>, c: Seq<char>)
    ensures
        ranks_before(signals, t, a, b) && ranks_before(signals, t, b, c) ==> ranks_before(signals, t, a, c),
        a != b ==> ranks_before(signals, t, a, b) || ranks_before(signals, t, b, a),
        ranks_before(signals, t, a, b) ==> !ranks_before(signals, t, b, a),
{
    crate::order::lemma_lex_total(a, b);
    crate::order::lemma_lex_irreflexive(a);
    if crate::order::lex_lt(a, b) {
        crate::order::lemma_lex_asym(a, b);
        if crate::order::lex_lt(b, c) {
            crate::order::lemma_lex_trans(a, b, c);
        }
    }
}

proof fn lemma_insert_ranked_keeps_order(
    signals: Seq<ArchitectureRoleRuleSignal>,
    t: TargetV,
    s: Seq<Seq<char>>,
    r: Seq<char>,
)
    requires
        ranked_in_order(signals, t, s),
        !s.contains(r),
    ensures
        ranked_in_order(signals, t, insert_ranked(signals, t, s, r)),
        forall|x: Seq<char>| insert_ranked(signals, t, s, r).contains(x) == (s.contains(x) || x == r),
        insert_ranked(signals, t, s, r).len() == s.len() + 1,
    decreases s.len(),
{
    let out = insert_ranked(signals, t, s, r);
    if s.len() == 0 {
        assert forall|x: Seq<char>| out.contains(x) == (s.contains(x) || x == r) by {
            if out.contains(x) {
                assert(out[0] == r);
            }
            if x == r {
                assert(out[0] == r);
            }
        }
    } else if ranks_before(signals, t, r, s[0]) {
        assert forall|i: int, j: int| 0 <= i < j < out.len() implies ranks_before(signals, t, #[trigger] out[i], #[trigger] out[j]) by {
            if i == 0 {
                assert(out[j] == s[j - 1]);
                if j - 1 > 0 {
                    lemma_ranks_order(signals, t, r, s[0], s[j - 1]);
                }
            } else {
                assert(out[i] == s[i - 1]);
                assert(out[j] == s[j - 1]);
            }
        }
        assert forall|x: Seq<char>| out.contains(x) == (s.contains(x) || x == r) by {
            if out.contains(x) {
                let i = choose|i: int| 0 <= i < out.len() && out[i] == x;
                if i > 0 {
                    assert(s[i - 1] == x);
                }
            }
            if s.contains(x) {
                let i = choose|i: int| 0 <= i < s.len() && s[i] == x;
                assert(out[i + 1] == x);
            }
            if x == r {
                assert(out[0] == x);
            }
        }
    } else {
        let rest = s.drop_first();
        assert(ranked_in_order(signals, t, rest)) by {
            assert forall|i: int, j: int| 0 <= i < j < rest.len() implies ranks_before(signals, t, #[trigger] rest[i], #[trigger] rest[j]) by {
                assert(rest[i] == s[i + 1]);
                assert(rest[j] == s[j + 1]);
            }
        }
        assert(!rest.contains(r)) by {
            if rest.contains(r) {
                let i = choose|i: int| 0 <= i < rest.len() && rest[i] == r;
                assert(s[i + 1] == r);
            }
        }
        lemma_insert_ranked_keeps_order(signals, t, rest, r);
        let inner = insert_ranked(signals, t, rest, r);
        assert(s[0] != r) by {
            assert(s.contains(s[0]));
        }
        lemma_ranks_order(signals, t, s[0], r, r);
        assert(ranks_before(signals, t, s[0], r));
        assert forall|i: int, j: int| 0 <= i < j < out.len() implies ranks_before(signals, t, #[trigger] out[i], #[trigger] out[j]) by {
            if i == 0 {
                let y = inner[j - 1];
                assert(out[i] == s[0]);
                assert(out[j] == y);
                assert(inner.contains(y));
                assert(inner.contains(y) == (rest.contains(y) || y == r));
                if y != r {
                    assert(rest.contains(y));
                    let w = choose|w: int| 0 <= w < rest.len() && rest[w] == y;
                    assert(s[w + 1] == y);
                    assert(ranks_before(signals, t, s[0], s[w + 1]));
                }
            } else {
                assert(out[i] == inner[i - 1]);
                assert(out[j] == inner[j - 1]);
            }
        }
        assert forall|x: Seq<char>| out.contains(x) == (s.contains(x) || x == r) by {
            if out.contains(x) {
                let i = choose|i: int| 0 <= i < out.len() && out[i] == x;
                if i > 0 {
                    assert(inner[i - 1] == x);
                    assert(inner.contains(x));
                    if rest.contains(x) {
                        let w = choose|w: int| 0 <= w < rest.len() && rest[w] == x;
                        assert(s[w + 1] == x);
                    }
                }
            }
            if s.contains(x) {
                let i = choose|i: int| 0 <= i < s.len() && s[i] == x;
                if i == 0 {
                    assert(out[0] == x);
                } else {
                    assert(rest[i - 1] == x);
                    assert(rest.contains(x));
                    assert(inner.contains(x) == (rest.contains(x) || x == r));
                    assert(inner.contains(x));
                    let w = choose|w: int| 0 <= w < inner.len() && inner[w] == x;
                    assert(out[w + 1] == x);
                }
            }
            if x == r {
                assert(inner.contains(x) == (rest.contains(x) || x == r));
                assert(inner.contains(x));
                let w = choose|w: int| 0 <= w < inner.len() && inner[w] == x;
                assert(out[w + 1] == x);
            }
        }
    }
}

proof fn lemma_rank_roles_in_order(signals: Seq<ArchitectureRoleRuleSignal>, t: TargetV, roles: Seq<Seq<char>>)
    requires
        forall|i: int, j: int| 0 <= i < j < roles.len() ==> roles[i] != roles[j],
    ensures
        ranked_in_order(signals, t, rank_roles(signals, t, roles)),
        forall|x: Seq<char>| rank_roles(signals, t, roles).contains(x) == roles.contains(x),
    decreases roles.len(),
{
    if roles.len() > 0 {
        let front = roles.drop_last();
        lemma_rank_roles_in_order(signals, t, front);
        assert(!front.contains(roles.last())) by {
            if front.contains(roles.last()) {
                let i = choose|i: int| 0 <= i < front.len() && front[i] == roles.last();
                assert(roles[i] == roles[roles.len() - 1]);
            }
        }
        lemma_insert_ranked_keeps_order(signals, t, rank_roles(signals, t, front), roles.last());
        assert forall|x: Seq<char>| rank_roles(signals, t, roles).contains(x) == roles.contains(x) by {
            if roles.contains(x) {
                let i = choose|i: int| 0 <= i < roles.len() && roles[i] == x;
                if i < roles.len() - 1 {
                    assert(front[i] == x);
                }
            }
            if front.contains(x) {
                let i = choose|i: int| 0 <= i < front.len() && front[i] == x;
                assert(roles[i] == x);
            }
        }
    }
}

proof fn lemma_kept_in_order(signals: Seq<ArchitectureRoleRuleSignal>, t: TargetV, ranked: Seq<Seq<char>>, review: int)
    requires
        ranked_in_order(signals, t, ranked),
    ensures
        ranked_in_order(signals, t, kept_roles(signals, t, ranked, review)),
        forall|i: int| 0 <= i < kept_roles(signals, t, ranked, review).len() ==> role_confidence(
            signals,
            t,
            #[trigger] kept_roles(signals, t, ranked, review)[i],
        ) >= review,
        forall|x: Seq<char>| kept_roles(signals, t, ranked, review).contains(x) ==> ranked.contains(x),
    decreases ranked.len(),
{
    if ranked.len() > 0 {
        let front = ranked.drop_last();
        assert(ranked_in_order(signals, t, front)) by {
            assert forall|i: int, j: int| 0 <= i < j < front.len() implies ranks_before(signals, t, #[trigger] front[i], #[trigger] front[j]) by {
                assert(front[i] == ranked[i]);
                assert(front[j] == ranked[j]);
            }
        }
        lemma_kept_in_order(signals, t, front, review);
        let k0 = kept_roles(signals, t, front, review);
        assert forall|x: Seq<char>| k0.contains(x) implies ranked.contains(x) by {
            assert(front.contains(x));
            let i = choose|i: int| 0 <= i < front.len() && front[i] == x;
            assert(ranked[i] == x);
        }
        if role_confidence(signals, t, ranked.last()) >= review {
            let k1 = k0.push(ranked.last());
            assert forall|i: int, j: int| 0 <= i < j < k1.len() implies ranks_before(signals, t, #[trigger] k1[i], #[trigger] k1[j]) by {
                if j == k0.len() {
                    assert(k1[i] == k0[i]);
                    assert(k0.contains(k1[i]));
                    assert(front.contains(k1[i]));
                    let w = choose|w: int| 0 <= w < front.len() && front[w] == k1[i];
                    assert(ranked[w] == k1[i]);
                    assert(k1[j] == ranked[ranked.len() - 1]);
                } else {
                    assert(k1[i] == k0[i]);
                    assert(k1[j] == k0[j]);
                }
            }
            assert(ranked.contains(ranked.last()));
        }
    }
}

proof fn lemma_roles_of_distinct(keys: Seq<(TargetV, Seq<char>)>, t: TargetV)
    requires
        forall|a: int, b: int| 0 <= a < b < keys.len() ==> keys[a] != keys[b],
    ensures
        forall|i: int, j: int| 0 <= i < j < roles_of(keys, t).len() ==> roles_of(keys, t)[i] != roles_of(keys, t)[j],
        forall|x: Seq<char>| roles_of(keys, t).contains(x) ==> keys.contains((t, x)),
    decreases keys.len(),
{
    if keys.len() > 0 {
        let front = keys.drop_last();
        lemma_roles_of_distinct(front, t);
        let r0 = roles_of(front, t);
        assert forall|x: Seq<char>| r0.contains(x) implies keys.contains((t, x)) by {
            let w = choose|w: int| 0 <= w < front.len() && front[w] == (t, x);
            assert(keys[w] == (t, x));
        }
        if keys.last().0 == t {
            let r1 = r0.push(keys.last().1);
            assert forall|i: int, j: int| 0 <= i < j < r1.len() implies r1[i] != r1[j] by {
                if j == r0.len() {
                    assert(r0.contains(r1[i]));
                    let w = choose|w: int| 0 <= w < front.len() && front[w] == (t, r1[i]);
                    assert(keys[w] != keys[keys.len() - 1]);
                }
            }
            assert forall|x: Seq<char>| r1.contains(x) implies keys.contains((t, x)) by {
                if x == keys.last().1 {
                    assert(keys[keys.len() - 1] == (t, x));
                } else {
                    let i = choose|i: int| 0 <= i < r1.len() && r1[i] == x;
                    assert(r0[i] == x);
                    assert(r0.contains(x));
                }
            }
        }
    }
}

/// The assignments of a target come best first: each role ranks before
/// every later one (a higher confidence, or the same confidence and first
/// in text order), so confidences never rise; only the first is primary;
/// and every one reaches the review threshold.
pub proof fn lemma_assignments_best_first(
    signals: Seq<ArchitectureRoleRuleSignal>,
    config: AssignmentAggregationConfig,
    t: TargetV,
)
    ensures
        forall|i: int, j: int|
            0 <= i < j < target_assignment_plan(signals, config, t).len() ==> ranks_before(
                signals,
                t,
                #[trigger] target_assignment_plan(signals, config, t)[i].role,
                #[trigger] target_assignment_plan(signals, config, t)[j].role,
            ) && target_assignment_plan(signals, config, t)[i].confidence >= target_assignment_plan(
                signals,
                config,
                t,
            )[j].confidence,
        forall|i: int|
            0 <= i < target_assignment_plan(signals, config, t).len() ==> ((#[trigger] target_assignment_plan(
                signals,
                config,
                t,
            )[i]).priority == AssignmentPriority::Primary) == (i == 0) && target_assignment_plan(
                signals,
                config,
                t,
            )[i].confidence >= config.review_threshold_permille,
{
    let keys = first_keys(signals);
    lemma_first_keys_distinct(signals);
    lemma_roles_of_distinct(keys, t);
    let roles = roles_of(keys, t);
    lemma_rank_roles_in_order(signals, t, roles);
    let ranked = rank_roles(signals, t, roles);
    lemma_kept_in_order(signals, t, ranked, config.review_threshold_permille as int);
}

proof fn lemma_count_within_one(
    signals: Seq<ArchitectureRoleRuleSignal>,
    t: TargetV,
    roles: Seq<Seq<char>>,
    top: int,
    margin: int,
    a: int,
)
    requires
        0 <= a < roles.len(),
        top - role_confidence(signals, t, roles[a]) <= margin,
    ensures
        count_within(signals, t, roles, top, margin) >= 1,
    decreases roles.len(),
{
    if a < roles.len() - 1 {
        assert(roles.drop_last()[a] == roles[a]);
        lemma_count_within_one(signals, t, roles.drop_last(), top, margin, a);
    }
}

proof fn lemma_count_within_two(
    signals: Seq<ArchitectureRoleRuleSignal>,
    t: TargetV,
    roles: Seq<Seq<char>>,
    top: int,
    margin: int,
    a: int,
    b: int,
)
    requires
        0 <= a < b < roles.len(),
        top - role_confidence(signals, t, roles[a]) <= margin,
        top - role_confidence(signals, t, roles[b]) <= margin,
    ensures
        count_within(signals, t, roles, top, margin) >= 2,
    decreases roles.len(),
{
    assert(roles.drop_last()[a] == roles[a]);
    if b == roles.len() - 1 {
        lemma_count_within_one(signals, t, roles.drop_last(), top, margin, a);
    } else {
        assert(roles.drop_last()[b] == roles[b]);
        lemma_count_within_two(signals, t, roles.drop_last(), top, margin, a, b);
    }
}

/// Only the roles near the top can be held back by a conflict: a role of a
/// target that reaches the active threshold and lies more than the margin
/// below another role of that target is active. Below the active threshold
/// a role always needs review; and when the best role and another one lie
/// within the margin of each other, every role within the margin of the
/// best needs review.
pub proof fn lemma_far_below_top_is_active(
    signals: Seq<ArchitectureRoleRuleSignal>,
    config: AssignmentAggregationConfig,
    t: TargetV,
)
    ensures
        forall|i: int, j: int|
            0 <= i < target_assignment_plan(signals, config, t).len() && 0 <= j < target_assignment_plan(
                signals,
                config,
                t,
            ).len() && #[trigger] target_assignment_plan(signals, config, t)[i].confidence
                >= config.active_threshold_permille && #[trigger] target_assignment_plan(signals, config, t)[j].confidence
                - target_assignment_plan(signals, config, t)[i].confidence > config.conflict_margin_permille
                ==> target_assignment_plan(signals, config, t)[i].status == AssignmentStatus::Active,
        forall|i: int|
            0 <= i < target_assignment_plan(signals, config, t).len() && (#[trigger] target_assignment_plan(
                signals,
                config,
                t,
            )[i]).confidence < config.active_threshold_permille ==> target_assignment_plan(signals, config, t)[i].status
                == AssignmentStatus::NeedsReview,
        forall|i: int, j: int|
            0 <= i < target_assignment_plan(signals, config, t).len() && 0 < j < target_assignment_plan(
                signals,
                config,
                t,
            ).len() && target_assignment_plan(signals, config, t)[0].confidence - #[trigger] target_assignment_plan(
                signals,
                config,
                t,
            )[j].confidence <= config.conflict_margin_permille && target_assignment_plan(signals, config, t)[0].confidence
                - #[trigger] target_assignment_plan(signals, config, t)[i].confidence <= config.conflict_margin_permille
                ==> target_assignment_plan(signals, config, t)[i].status == AssignmentStatus::NeedsReview,
{
    let plan = target_assignment_plan(signals, config, t);
    lemma_assignments_best_first(signals, config, t);
    assert forall|i: int, j: int|
        0 <= i < plan.len() && 0 <= j < plan.len() && #[trigger] plan[i].confidence >= config.active_threshold_permille
            && #[trigger] plan[j].confidence - plan[i].confidence > config.conflict_margin_permille implies plan[i].status
        == AssignmentStatus::Active by {
        if j > 0 {
            let r0 = plan[0].role;
            let rj = plan[j].role;
            assert(plan[0].confidence >= plan[j].confidence);
        }
    }
    let kept = kept_roles(
        signals,
        t,
        rank_roles(signals, t, roles_of(first_keys(signals), t)),
        config.review_threshold_permille as int,
    );
    let margin = config.conflict_margin_permille as int;
    assert forall|i: int, j: int|
        0 <= i < plan.len() && 0 < j < plan.len() && plan[0].confidence - #[trigger] plan[j].confidence <= margin
            && plan[0].confidence - #[trigger] plan[i].confidence <= margin implies plan[i].status
        == AssignmentStatus::NeedsReview by {
        let top = role_confidence(signals, t, kept[0]);
        lemma_count_within_two(signals, t, kept, top, margin, 0, j);
    }
}

// ---------------------------------------------------------------------------
// Assignments that need a review become adjudication requests
// ---------------------------------------------------------------------------

/// Positions as integers.
pub open spec fn ints(v: Seq<usize>) -> Seq<int> {
    v.map_values(|x: usize| x as int)
}

/// Assignment `i` comes before assignment `j`: a higher confidence, or the
/// same confidence and its role first in text order.
pub open spec fn review_before(asg: Seq<ArchitectureRoleAssignment>, i: int, j: int) -> bool {
    asg[i].confidence_permille > asg[j].confidence_permille || (asg[i].confidence_permille
        == asg[j].confidence_permille && crate::order::lex_lt(asg[i].role_id@, asg[j].role_id@))
}

/// Position `i` put into `sorted` before the first it comes before.
pub open spec fn insert_review(asg: Seq<ArchitectureRoleAssignment>, sorted: Seq<int>, i: int) -> Seq<int>
    decreases sorted.len(),
{
    if sorted.len() == 0 {
        seq![i]
    } else if review_before(asg, i, sorted[0]) {
        seq![i] + sorted
    } else {
        seq![sorted[0]] + insert_review(asg, sorted.drop_first(), i)
    }
}

/// The positions sorted, best first; equal ones keep their order.
pub open spec fn sort_review(asg: Seq<ArchitectureRoleAssignment>, idx: Seq<int>) -> Seq<int>
    decreases idx.len(),
{
    if idx.len() == 0 {
        Seq::empty()
    } else {
        insert_review(asg, sort_review(asg, idx.drop_last()), idx.last())
    }
}

/// The positions before `n` of the assignments about `t` that need a
/// review, in order.
pub open spec fn review_positions(asg: Seq<ArchitectureRoleAssignment>, t: TargetV, n: int) -> Seq<int>
    decreases n,
{
    if n <= 0 {
        Seq::empty()
    } else if asg[n - 1].status == AssignmentStatus::NeedsReview && asg[n - 1].target@ == t {
        review_positions(asg, t, n - 1).push(n - 1)
    } else {
        review_positions(asg, t, n - 1)
    }
}

/// The targets of the assignments before `n` that need a review, each
/// once, in ascending target order.
pub open spec fn review_targets(asg: Seq<ArchitectureRoleAssignment>, n: int) -> Seq<TargetV>
    decreases n,
{
    if n <= 0 {
        Seq::empty()
    } else {
        let prev = review_targets(asg, n - 1);
        if asg[n - 1].status == AssignmentStatus::NeedsReview && !prev.contains(asg[n - 1].target@) {
            insert_target(prev, asg[n - 1].target@)
        } else {
            prev
        }
    }
}

/// Request `r` asks about target `t`, whose assignments are at `sorted`,
/// best first: the best is the current assignment; the reason is a
/// conflict when another is within 50 thousandths of it, else a low
/// confidence.
pub open spec fn review_request_holds(
    r: crate::contracts::RoleAdjudicationRequest,
    asg: Seq<ArchitectureRoleAssignment>,
    t: TargetV,
    sorted: Seq<int>,
) -> bool {
    let p = asg[sorted[0]];
    let conflict = exists|k: int|
        1 <= k < sorted.len() && p.confidence_permille - asg[#[trigger] sorted[k]].confidence_permille <= 50;
    &&& sorted.len() > 0
    &&& r.repo_id@ == p.repo_id@
    &&& r.generation == p.generation_seq
    &&& r.stable_request_key@ == crate::contracts::stable_request_key_of(
        Some(crate::model::target_kind_db(t.kind)),
        t.artefact_id,
        t.symbol_id,
        Some(t.path),
    )
    &&& r.facts_hash@ == crate::contracts::placeholder_hash_text()
    &&& r.rules_hash@ == crate::contracts::placeholder_hash_text()
    &&& r.cluster_key is None
    &&& crate::model::opt_view(r.target_kind) == Some(crate::model::target_kind_db(t.kind))
    &&& crate::model::opt_view(r.artefact_id) == t.artefact_id
    &&& crate::model::opt_view(r.symbol_id) == t.symbol_id
    &&& crate::model::opt_view(r.path) == Some(t.path)
    &&& r.language is None
    &&& r.canonical_kind is None
    &&& r.reason == if conflict {
        crate::contracts::AdjudicationReason::Conflict
    } else {
        crate::contracts::AdjudicationReason::LowConfidence
    }
    &&& r.deterministic_confidence_permille == Some(p.confidence_permille)
    &&& r.candidate_role_ids@.len() == sorted.len()
    &&& forall|k: int| 0 <= k < sorted.len() ==> (#[trigger] r.candidate_role_ids@[k])@ == asg[sorted[k]].role_id@
    &&& r.current_assignment matches Some(c) && c.role_id@ == p.role_id@ && c.confidence_permille == Some(
        p.confidence_permille,
    ) && crate::model::opt_view(c.source) == Some(source_text(p.source))
}

proof fn lemma_insert_review_at(asg: Seq<ArchitectureRoleAssignment>, s: Seq<int>, i: int, p: int)
    requires
        0 <= p <= s.len(),
        forall|q: int| 0 <= q < p ==> !review_before(asg, i, #[trigger] s[q]),
        p < s.len() ==> review_before(asg, i, s[p]),
    ensures
        insert_review(asg, s, i) == s.take(p).push(i) + s.skip(p),
    decreases s.len(),
{
    if s.len() == 0 {
        assert(s.take(p).push(i) + s.skip(p) =~= seq![i]);
    } else if p == 0 {
        assert(s.take(p).push(i) + s.skip(p) =~= seq![i] + s);
    } else {
        assert forall|q: int| 0 <= q < p - 1 implies !review_before(asg, i, #[trigger] s.drop_first()[q]) by {
            assert(s.drop_first()[q] == s[q + 1]);
        }
        if p - 1 < s.drop_first().len() {
            assert(s.drop_first()[p - 1] == s[p]);
        }
        lemma_insert_review_at(asg, s.drop_first(), i, p - 1);
        assert(!review_before(asg, i, s[0]));
        assert(seq![s[0]] + (s.drop_first().take(p - 1).push(i) + s.drop_first().skip(p - 1)) =~= s.take(p).push(i)
            + s.skip(p));
    }
}

proof fn lemma_insert_review_members(asg: Seq<ArchitectureRoleAssignment>, s: Seq<int>, i: int)
    ensures
        insert_review(asg, s, i).len() == s.len() + 1,
        forall|x: int| #[trigger] insert_review(asg, s, i).contains(x) == (s.contains(x) || x == i),
    decreases s.len(),
{
    let out = insert_review(asg, s, i);
    if s.len() == 0 {
        assert(out[0] == i);
    } else if review_before(asg, i, s[0]) {
        assert(out[0] == i);
        assert forall|x: int| out.contains(x) == (s.contains(x) || x == i) by {
            if out.contains(x) {
                let k = choose|k: int| 0 <= k < out.len() && out[k] == x;
                if k > 0 {
                    assert(s[k - 1] == x);
                }
            }
            if s.contains(x) {
                let k = choose|k: int| 0 <= k < s.len() && s[k] == x;
                assert(out[k + 1] == x);
            }
        }
    } else {
        let rest = s.drop_first();
        lemma_insert_review_members(asg, rest, i);
        let inner = insert_review(asg, rest, i);
        assert(out[0] == s[0]);
        assert forall|x: int| out.contains(x) == (s.contains(x) || x == i) by {
            if out.contains(x) {
                let k = choose|k: int| 0 <= k < out.len() && out[k] == x;
                if k > 0 {
                    assert(inner[k - 1] == x);
                    assert(inner.contains(x));
                    if rest.contains(x) {
                        let w = choose|w: int| 0 <= w < rest.len() && rest[w] == x;
                        assert(s[w + 1] == x);
                    }
                }
            }
            if s.contains(x) {
                let k = choose|k: int| 0 <= k < s.len() && s[k] == x;
                if k > 0 {
                    assert(rest[k - 1] == x);
                    assert(rest.contains(x));
                    assert(inner.contains(x) == (rest.contains(x) || x == i));
                    assert(inner.contains(x));
                    let w = choose|w: int| 0 <= w < inner.len() && inner[w] == x;
                    assert(out[w + 1] == x);
                }
            }
            if x == i {
                assert(inner.contains(x) == (rest.contains(x) || x == i));
                assert(inner.contains(x));
                let w = choose|w: int| 0 <= w < inner.len() && inner[w] == x;
                assert(out[w + 1] == x);
            }
        }
    }
}

proof fn lemma_review_targets_listed(asg: Seq<ArchitectureRoleAssignment>, t: TargetV, n: int)
    requires
        0 <= n <= asg.len(),
    ensures
        review_targets(asg, n).contains(t) == (review_positions(asg, t, n).len() > 0),
    decreases n,
{
    if n > 0 {
        lemma_review_targets_listed(asg, t, n - 1);
        let prev = review_targets(asg, n - 1);
        let last = asg[n - 1].target@;
        lemma_insert_target(prev, last);
    }
}

proof fn lemma_review_positions_bounded(asg: Seq<ArchitectureRoleAssignment>, t: TargetV, n: int)
    requires
        0 <= n <= asg.len(),
    ensures
        forall|k: int| 0 <= k < review_positions(asg, t, n).len() ==> 0 <= #[trigger] review_positions(asg, t, n)[k] < n,
    decreases n,
{
    if n > 0 {
        lemma_review_positions_bounded(asg, t, n - 1);
        let prev = review_positions(asg, t, n - 1);
        assert forall|k: int| 0 <= k < review_positions(asg, t, n).len() implies 0 <= #[trigger] review_positions(asg, t, n)[k] < n by {
            if k < prev.len() {
                assert(review_positions(asg, t, n)[k] == prev[k]);
            }
        }
    }
}

/// One request for the target of `asg[first]`, which needs a review and is
/// listed for the first time there.
fn review_request_for(assignments: &[ArchitectureRoleAssignment], first: usize) -> (r: crate::contracts::RoleAdjudicationRequest)
    requires
        first < assignments@.len(),
        assignments@[first as int].status == AssignmentStatus::NeedsReview,
    ensures
        review_request_holds(
            r,
            assignments@,
            assignments@[first as int].target@,
            sort_review(assignments@, review_positions(assignments@, assignments@[first as int].target@, assignments@.len() as int)),
        ),
{
    let ghost asg = assignments@;
    let t = &assignments[first].target;
    let n = assignments.len();
    // Its assignments, in order.
    let mut positions: Vec<usize> = Vec::new();
    let mut j: usize = 0;
    while j < n
        invariant
            j <= n,
            n == asg.len(),
            asg == assignments@,
            t@ == asg[first as int].target@,
            ints(positions@) == review_positions(asg, t@, j as int),
            forall|a: int| 0 <= a < positions@.len() ==> #[trigger] positions@[a] < j,
        decreases n - j,
    {
        let is_review = match assignments[j].status {
            AssignmentStatus::NeedsReview => true,
            _ => false,
        };
        if is_review && assignments[j].target.same_as(t) {
            let ghost before = positions@;
            positions.push(j);
            assert(ints(positions@) =~= ints(before).push(j as int));
        }
        j = j + 1;
    }
    let ghost pos = review_positions(asg, t@, n as int);
    assert(pos.len() > 0) by {
        lemma_review_positions_bounded(asg, t@, n as int);
        assert(review_positions(asg, t@, first as int + 1).len() > 0);
        lemma_review_targets_listed(asg, t@, first as int + 1);
        lemma_review_targets_listed(asg, t@, n as int);
        lemma_review_targets_grow(asg, t@, first as int + 1, n as int);
    }
    // Sorted, best first.
    let mut sorted: Vec<usize> = Vec::new();
    let mut q: usize = 0;
    while q < positions.len()
        invariant
            q <= positions@.len(),
            n == asg.len(),
            asg == assignments@,
            ints(positions@) == pos,
            forall|a: int| 0 <= a < positions@.len() ==> #[trigger] positions@[a] < n,
            ints(sorted@) == sort_review(asg, pos.take(q as int)),
            forall|a: int| 0 <= a < sorted@.len() ==> #[trigger] sorted@[a] < n,
        decreases positions@.len() - q,
    {
        let c = positions[q];
        assert(pos[q as int] == c as int);
        let mut p: usize = 0;
        let mut placed = false;
        while p < sorted.len() && !placed
            invariant
                p <= sorted@.len(),
                n == asg.len(),
                asg == assignments@,
                c < n,
                forall|a: int| 0 <= a < sorted@.len() ==> #[trigger] sorted@[a] < n,
                forall|qq: int| 0 <= qq < p ==> !review_before(asg, c as int, #[trigger] ints(sorted@)[qq]),
                placed ==> p < sorted@.len() && review_before(asg, c as int, ints(sorted@)[p as int]),
            decreases sorted@.len() - p + if placed { 0int } else { 1int },
        {
            let other = sorted[p];
            let ahead = if assignments[c].confidence_permille > assignments[other].confidence_permille {
                true
            } else if assignments[c].confidence_permille < assignments[other].confidence_permille {
                false
            } else {
                let ra = crate::text::chars_of(assignments[c].role_id.as_str());
                let rb = crate::text::chars_of(assignments[other].role_id.as_str());
                proof {
                    crate::order::lemma_lex_irreflexive(ra@);
                }
                match crate::order::compare_chars(ra.as_slice(), rb.as_slice()) {
                    crate::order::Order::Less => true,
                    _ => false,
                }
            };
            assert(ahead == review_before(asg, c as int, other as int));
            if ahead {
                placed = true;
            } else {
                p = p + 1;
            }
        }
        proof {
            lemma_insert_review_at(asg, ints(sorted@), c as int, p as int);
            assert(pos.take(q + 1).drop_last() =~= pos.take(q as int));
            assert(pos.take(q + 1).last() == c as int);
        }
        let ghost before = sorted@;
        sorted.insert(p, c);
        assert(sorted@ =~= before.take(p as int).push(c) + before.skip(p as int));
        assert(ints(sorted@) =~= ints(before).take(p as int).push(c as int)
            + ints(before).skip(p as int));
        q = q + 1;
    }
    assert(pos.take(q as int) =~= pos);
    let ghost order = sort_review(asg, pos);
    proof {
        lemma_sort_review_len(asg, pos);
    }
    let best = sorted[0];
    let top = assignments[best].confidence_permille;
    let mut conflict = false;
    let mut k: usize = 1;
    while k < sorted.len()
        invariant
            1 <= k <= sorted@.len(),
            n == asg.len(),
            asg == assignments@,
            ints(sorted@) == order,
            forall|a: int| 0 <= a < sorted@.len() ==> #[trigger] sorted@[a] < n,
            best == sorted@[0],
            top == asg[best as int].confidence_permille,
            conflict == exists|kk: int| 1 <= kk < k && top - asg[#[trigger] order[kk]].confidence_permille <= 50,
        decreases sorted@.len() - k,
    {
        let other = sorted[k];
        assert(order[k as int] == other as int);
        if assignments[other].confidence_permille as u64 + 50 >= top as u64 {
            conflict = true;
        }
        k = k + 1;
    }
    let mut roles: Vec<String> = Vec::new();
    let mut m: usize = 0;
    while m < sorted.len()
        invariant
            m <= sorted@.len(),
            n == asg.len(),
            asg == assignments@,
            ints(sorted@) == order,
            forall|a: int| 0 <= a < sorted@.len() ==> #[trigger] sorted@[a] < n,
            roles@.len() == m,
            forall|a: int| 0 <= a < m ==> (#[trigger] roles@[a])@ == asg[order[a]].role_id@,
        decreases sorted@.len() - m,
    {
        assert(order[m as int] == sorted@[m as int] as int);
        roles.push(assignments[sorted[m]].role_id.clone());
        m = m + 1;
    }
    let primary = &assignments[best];
    let target = &primary.target;
    assert(order[0] == best as int);
    let reason = if conflict {
        crate::contracts::AdjudicationReason::Conflict
    } else {
        crate::contracts::AdjudicationReason::LowConfidence
    };
    proof {
        lemma_sort_review_members(asg, pos);
        assert(pos.contains(order[0]));
        let w = choose|w: int| 0 <= w < pos.len() && pos[w] == order[0];
        lemma_review_positions_target(asg, t@, n as int);
    }
    let target_kind = Some(owned(target.target_kind.as_db()));
    let artefact_id = crate::model::clone_opt(&target.artefact_id);
    let symbol_id = crate::model::clone_opt(&target.symbol_id);
    let stable_request_key = crate::contracts::role_adjudication_stable_request_key(
        crate::contracts::opt_str(&target_kind),
        crate::contracts::opt_str(&artefact_id),
        crate::contracts::opt_str(&symbol_id),
        Some(target.path.as_str()),
    );
    crate::contracts::RoleAdjudicationRequest {
        repo_id: primary.repo_id.clone(),
        generation: primary.generation_seq,
        stable_request_key,
        facts_hash: crate::contracts::placeholder_request_hash(),
        rules_hash: crate::contracts::placeholder_request_hash(),
        cluster_key: None,
        target_kind,
        artefact_id,
        symbol_id,
        path: Some(target.path.clone()),
        language: None,
        canonical_kind: None,
        reason,
        deterministic_confidence_permille: Some(top),
        candidate_role_ids: roles,
        current_assignment: Some(
            crate::contracts::RoleCurrentAssignmentSnapshot {
                role_id: primary.role_id.clone(),
                confidence_permille: Some(top),
                source: Some(owned(primary.source.as_db())),
            },
        ),
    }
}

proof fn lemma_review_targets_grow(asg: Seq<ArchitectureRoleAssignment>, t: TargetV, a: int, b: int)
    requires
        0 <= a <= b <= asg.len(),
        review_positions(asg, t, a).len() > 0,
    ensures
        review_positions(asg, t, b).len() > 0,
    decreases b - a,
{
    if a < b {
        lemma_review_targets_grow(asg, t, a, b - 1);
    }
}

proof fn lemma_review_positions_target(asg: Seq<ArchitectureRoleAssignment>, t: TargetV, n: int)
    requires
        0 <= n <= asg.len(),
    ensures
        forall|k: int| 0 <= k < review_positions(asg, t, n).len() ==> asg[#[trigger] review_positions(asg, t, n)[k]].target@ == t,
    decreases n,
{
    if n > 0 {
        lemma_review_positions_target(asg, t, n - 1);
        let prev = review_positions(asg, t, n - 1);
        assert forall|k: int| 0 <= k < review_positions(asg, t, n).len() implies asg[#[trigger] review_positions(asg, t, n)[k]].target@ == t by {
            if k < prev.len() {
                assert(review_positions(asg, t, n)[k] == prev[k]);
            }
        }
    }
}

proof fn lemma_sort_review_len(asg: Seq<ArchitectureRoleAssignment>, idx: Seq<int>)
    ensures
        sort_review(asg, idx).len() == idx.len(),
    decreases idx.len(),
{
    if idx.len() > 0 {
        lemma_sort_review_len(asg, idx.drop_last());
        lemma_insert_review_members(asg, sort_review(asg, idx.drop_last()), idx.last());
    }
}

proof fn lemma_sort_review_members(asg: Seq<ArchitectureRoleAssignment>, idx: Seq<int>)
    ensures
        forall|x: int| sort_review(asg, idx).contains(x) == idx.contains(x),
    decreases idx.len(),
{
    if idx.len() > 0 {
        let front = idx.drop_last();
        lemma_sort_review_members(asg, front);
        lemma_insert_review_members(asg, sort_review(asg, front), idx.last());
        assert forall|x: int| sort_review(asg, idx).contains(x) == idx.contains(x) by {
            if idx.contains(x) {
                let k = choose|k: int| 0 <= k < idx.len() && idx[k] == x;
                if k < idx.len() - 1 {
                    assert(front[k] == x);
                    assert(front.contains(x));
                }
            }
            if front.contains(x) {
                let k = choose|k: int| 0 <= k < front.len() && front[k] == x;
                assert(idx[k] == x);
            }
        }
    }
}

proof fn lemma_review_positions_nonempty(asg: Seq<ArchitectureRoleAssignment>, t: TargetV, n: int)
    requires
        0 <= n <= asg.len(),
    ensures
        (review_positions(asg, t, n).len() > 0) == (exists|j: int|
            0 <= j < n && (#[trigger] asg[j]).status == AssignmentStatus::NeedsReview && asg[j].target@ == t),
    decreases n,
{
    if n > 0 {
        lemma_review_positions_nonempty(asg, t, n - 1);
        if exists|j: int| 0 <= j < n && (#[trigger] asg[j]).status == AssignmentStatus::NeedsReview && asg[j].target@ == t {
            let j = choose|j: int| 0 <= j < n && (#[trigger] asg[j]).status == AssignmentStatus::NeedsReview && asg[j].target@ == t;
            if j < n - 1 {
                assert(review_positions(asg, t, n - 1).len() > 0);
            }
        }
    }
}

/// One adjudication request per target with assignments that need a
/// review, in ascending target order: see
/// `review_request_holds`.
pub fn adjudication_requests_from_assignments(assignments: &[ArchitectureRoleAssignment]) -> (r: Vec<
    crate::contracts::RoleAdjudicationRequest,
>)
    ensures
        r@.len() == review_targets(assignments@, assignments@.len() as int).len(),
        forall|k: int| 0 <= k < r@.len() ==> review_request_holds(
            #[trigger] r@[k],
            assignments@,
            review_targets(assignments@, assignments@.len() as int)[k],
            sort_review(
                assignments@,
                review_positions(
                    assignments@,
                    review_targets(assignments@, assignments@.len() as int)[k],
                    assignments@.len() as int,
                ),
            ),
        ),
{
    let ghost asg = assignments@;
    let n = assignments.len();
    let mut out: Vec<crate::contracts::RoleAdjudicationRequest> = Vec::new();
    let mut ts: Vec<RoleTarget> = Vec::new();
    let mut i: usize = 0;
    assert(target_views(ts@) =~= review_targets(asg, 0));
    while i < n
        invariant
            i <= n,
            n == asg.len(),
            asg == assignments@,
            target_views(ts@) == review_targets(asg, i as int),
            out@.len() == review_targets(asg, i as int).len(),
            forall|k: int| 0 <= k < out@.len() ==> review_request_holds(
                #[trigger] out@[k],
                asg,
                review_targets(asg, i as int)[k],
                sort_review(asg, review_positions(asg, review_targets(asg, i as int)[k], n as int)),
            ),
        decreases n - i,
    {
        let is_review = match assignments[i].status {
            AssignmentStatus::NeedsReview => true,
            _ => false,
        };
        let ghost t = asg[i as int].target@;
        if is_review {
            let mut seen = false;
            let mut j: usize = 0;
            while j < i
                invariant
                    j <= i,
                    i < n,
                    n == asg.len(),
                    asg == assignments@,
                    t == asg[i as int].target@,
                    seen == exists|m: int|
                        0 <= m < j && (#[trigger] asg[m]).status == AssignmentStatus::NeedsReview && asg[m].target@ == t,
                decreases i - j,
            {
                let earlier = match assignments[j].status {
                    AssignmentStatus::NeedsReview => true,
                    _ => false,
                };
                if earlier && assignments[j].target.same_as(&assignments[i].target) {
                    seen = true;
                }
                j = j + 1;
            }
            proof {
                lemma_review_positions_nonempty(asg, t, i as int);
                lemma_review_targets_listed(asg, t, i as int);
            }
            if !seen {
                let request = review_request_for(assignments, i);
                let ghost before = out@;
                let ghost prev = review_targets(asg, i as int);
                let p = target_insert_position(&ts, &assignments[i].target);
                proof {
                    lemma_insert_target(prev, t);
                }
                out.insert(p, request);
                ts.insert(p, assignments[i].target.duplicate());
                assert(review_targets(asg, i + 1) == insert_target(prev, t));
                assert(target_views(ts@) =~= insert_target(prev, t));
                assert forall|k: int| 0 <= k < out@.len() implies review_request_holds(
                    #[trigger] out@[k],
                    asg,
                    review_targets(asg, i + 1)[k],
                    sort_review(asg, review_positions(asg, review_targets(asg, i + 1)[k], n as int)),
                ) by {
                    if k < p {
                        assert(out@[k] == before[k]);
                        assert(review_targets(asg, i + 1)[k] == prev[k]);
                    } else if k > p {
                        assert(out@[k] == before[k - 1]);
                        assert(review_targets(asg, i + 1)[k] == prev[k - 1]);
                    } else {
                        assert(out@[k] == request);
                        assert(review_targets(asg, i + 1)[k] == t);
                    }
                }
            } else {
                assert(review_targets(asg, i + 1) == review_targets(asg, i as int));
            }
        } else {
            assert(review_targets(asg, i + 1) == review_targets(asg, i as int));
        }
        i = i + 1;
    }
    out
}

} // verus!
