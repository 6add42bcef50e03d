//! Detection rules over facts: which targets a rule selects, which of its
//! conditions the facts of a target meet, and the signals it gives.
//! Scores are in thousandths.
use vstd::prelude::*;

use crate::decimal::{decimal_at_most, decimal_le, decimal_of, parse_decimal};
use crate::json_doc::{JsonMember, JsonValue};
use crate::model::{fact_views, ArchitectureArtefactFact, FactV, RoleTarget, TargetKind, TargetV};
use crate::rule_preview::RoleRuleLifecycle;
use crate::unknown_policy::target_listed;
use crate::text::{
    append_chars, contains, ends_with, occurs_at, owned, starts_with, str_contains, str_ends_with, str_eq,
    str_starts_with, string_from_chars,
};

verus! {

/// How a condition compares a fact's value with its own.
#[derive(Debug, Clone, Copy, PartialEq, Eq, Structural)]
pub enum RoleFactConditionOp {
    Eq,
    Contains,
    Prefix,
    Suffix,
    Gte,
    Lte,
}

/// A test on one fact of a target: the fact's kind and key must be these,
/// and its value must compare with `value` by `op`. A met condition adds
/// its score.
#[derive(Debug, Clone, PartialEq, Eq)]
pub struct RoleFactCondition {
    pub kind: String,
    pub key: String,
    pub op: RoleFactConditionOp,
    pub value: String,
    pub score_permille: u32,
}

/// A condition as plain values.
pub struct ConditionV {
    pub kind: Seq<char>,
    pub key: Seq<char>,
    pub op: RoleFactConditionOp,
    pub value: Seq<char>,
    pub score_permille: u32,
}

impl View for RoleFactCondition {
    type V = ConditionV;

    open spec fn view(&self) -> ConditionV {
        ConditionV {
            kind: self.kind@,
            key: self.key@,
            op: self.op,
            value: self.value@,
            score_permille: self.score_permille,
        }
    }
}

pub open spec fn condition_views(v: Seq<RoleFactCondition>) -> Seq<ConditionV> {
    v.map_values(|c: RoleFactCondition| c@)
}

/// Why facts could not be evaluated: a value that a numeric condition
/// compares is not a decimal number.
#[derive(Debug, Clone, PartialEq, Eq)]
pub enum RuleEvaluationError {
    FactValueNotNumeric(String),
    RuleValueNotNumeric(String),
}

/// An evaluation error as plain values.
pub enum EvaluationErrorV {
    FactValue(Seq<char>),
    RuleValue(Seq<char>),
}

impl View for RuleEvaluationError {
    type V = EvaluationErrorV;

    open spec fn view(&self) -> EvaluationErrorV {
        match self {
            RuleEvaluationError::FactValueNotNumeric(v) => EvaluationErrorV::FactValue(v@),
            RuleEvaluationError::RuleValueNotNumeric(v) => EvaluationErrorV::RuleValue(v@),
        }
    }
}

pub open spec fn evaluation_error_text(e: EvaluationErrorV) -> Seq<char> {
    match e {
        EvaluationErrorV::FactValue(v) => "parsing numeric fact value `"@ + v + "`"@,
        EvaluationErrorV::RuleValue(v) => "parsing numeric rule value `"@ + v + "`"@,
    }
}

impl RuleEvaluationError {
    /// The message of the error.
    pub fn message(&self) -> (r: String)
        ensures
            r@ == evaluation_error_text(self@),
    {
        let mut out: Vec<char> = Vec::new();
        match self {
            RuleEvaluationError::FactValueNotNumeric(v) => {
                append_chars(&mut out, "parsing numeric fact value `");
                append_chars(&mut out, v.as_str());
            },
            RuleEvaluationError::RuleValueNotNumeric(v) => {
                append_chars(&mut out, "parsing numeric rule value `");
                append_chars(&mut out, v.as_str());
            },
        }
        append_chars(&mut out, "`");
        string_from_chars(out.as_slice())
    }
}

// ---------------------------------------------------------------------------
// Conditions
// ---------------------------------------------------------------------------

/// A numeric comparison of a fact's value with a condition's value; the
/// fact's value is read first.
pub open spec fn numeric_test(fact_value: Seq<char>, rule_value: Seq<char>, at_least: bool) -> Result<bool, EvaluationErrorV> {
    match decimal_of(fact_value) {
        None => Err(EvaluationErrorV::FactValue(fact_value)),
        Some(left) => match decimal_of(rule_value) {
            None => Err(EvaluationErrorV::RuleValue(rule_value)),
            Some(right) => Ok(
                if at_least {
                    decimal_at_most(right, left)
                } else {
                    decimal_at_most(left, right)
                },
            ),
        },
    }
}

/// Whether fact `f` meets condition `c`. A fact of another kind or key
/// never does, and is not read.
pub open spec fn condition_test(c: ConditionV, f: FactV) -> Result<bool, EvaluationErrorV> {
    if f.kind != c.kind || f.key != c.key {
        Ok(false)
    } else {
        match c.op {
            RoleFactConditionOp::Eq => Ok(f.value == c.value),
            RoleFactConditionOp::Contains => Ok(contains(f.value, c.value)),
            RoleFactConditionOp::Prefix => Ok(starts_with(f.value, c.value)),
            RoleFactConditionOp::Suffix => Ok(ends_with(f.value, c.value)),
            RoleFactConditionOp::Gte => numeric_test(f.value, c.value, true),
            RoleFactConditionOp::Lte => numeric_test(f.value, c.value, false),
        }
    }
}

pub open spec fn result_view<T>(r: Result<T, RuleEvaluationError>) -> Result<T, EvaluationErrorV> {
    match r {
        Ok(v) => Ok(v),
        Err(e) => Err(e@),
    }
}

fn numeric_matches(fact_value: &str, rule_value: &str, at_least: bool) -> (r: Result<bool, RuleEvaluationError>)
    ensures
        result_view(r) == numeric_test(fact_value@, rule_value@, at_least),
{
    let left = match parse_decimal(fact_value) {
        Some(d) => d,
        None => return Err(RuleEvaluationError::FactValueNotNumeric(owned(fact_value))),
    };
    let right = match parse_decimal(rule_value) {
        Some(d) => d,
        None => return Err(RuleEvaluationError::RuleValueNotNumeric(owned(rule_value))),
    };
    if at_least {
        Ok(decimal_le(&right, &left))
    } else {
        Ok(decimal_le(&left, &right))
    }
}

/// Whether `fact` meets `condition`.
pub fn condition_matches(condition: &RoleFactCondition, fact: &ArchitectureArtefactFact) -> (r: Result<bool, RuleEvaluationError>)
    ensures
        result_view(r) == condition_test(condition@, fact@),
{
    if !str_eq(fact.fact_kind.as_str(), condition.kind.as_str()) || !str_eq(fact.fact_key.as_str(), condition.key.as_str()) {
        return Ok(false);
    }
    let value = fact.fact_value.as_str();
    let wanted = condition.value.as_str();
    match condition.op {
        RoleFactConditionOp::Eq => Ok(str_eq(value, wanted)),
        RoleFactConditionOp::Contains => Ok(str_contains(value, wanted)),
        RoleFactConditionOp::Prefix => Ok(str_starts_with(value, wanted)),
        RoleFactConditionOp::Suffix => Ok(str_ends_with(value, wanted)),
        RoleFactConditionOp::Gte => numeric_matches(value, wanted, true),
        RoleFactConditionOp::Lte => numeric_matches(value, wanted, false),
    }
}

/// The text conditions read the fact's value as the text to search and the
/// condition's value as the text sought: `Contains` holds when the sought
/// text occurs somewhere in the fact's value, `Prefix` when the value
/// begins with it, `Suffix` when it ends with it, and `Eq` when the two are
/// the same. A fact of another kind or key meets no condition.
pub proof fn lemma_text_conditions(c: ConditionV, f: FactV)
    ensures
        (f.kind != c.kind || f.key != c.key) ==> condition_test(c, f) == Ok::<bool, EvaluationErrorV>(false),
        (f.kind == c.kind && f.key == c.key && c.op == RoleFactConditionOp::Contains) ==> condition_test(c, f) == Ok::<
            bool,
            EvaluationErrorV,
        >(
            exists|i: int|
                0 <= i && i + c.value.len() <= f.value.len() && #[trigger] f.value.subrange(i, i + c.value.len())
                    == c.value,
        ),
        (f.kind == c.kind && f.key == c.key && c.op == RoleFactConditionOp::Prefix) ==> condition_test(c, f) == Ok::<
            bool,
            EvaluationErrorV,
        >(c.value.len() <= f.value.len() && f.value.subrange(0, c.value.len() as int) == c.value),
        (f.kind == c.kind && f.key == c.key && c.op == RoleFactConditionOp::Suffix) ==> condition_test(c, f) == Ok::<
            bool,
            EvaluationErrorV,
        >(
            c.value.len() <= f.value.len() && f.value.subrange(f.value.len() - c.value.len(), f.value.len() as int)
                == c.value,
        ),
        (f.kind == c.kind && f.key == c.key && c.op == RoleFactConditionOp::Eq) ==> condition_test(c, f) == Ok::<
            bool,
            EvaluationErrorV,
        >(f.value == c.value),
{
    let found = exists|i: int|
        0 <= i && i + c.value.len() <= f.value.len() && #[trigger] f.value.subrange(i, i + c.value.len()) == c.value;
    if contains(f.value, c.value) {
        let i = choose|i: int| occurs_at(f.value, c.value, i);
        assert(f.value.subrange(i, i + c.value.len()) == c.value);
    }
    if found {
        let i = choose|i: int|
            0 <= i && i + c.value.len() <= f.value.len() && #[trigger] f.value.subrange(i, i + c.value.len())
                == c.value;
        assert(occurs_at(f.value, c.value, i));
    }
    assert(contains(f.value, c.value) == found);
}

/// The first of `facts[i..]` that meets `c`; the first error stops the
/// search.
pub open spec fn first_match_from(c: ConditionV, facts: Seq<FactV>, i: nat) -> Result<Option<int>, EvaluationErrorV>
    decreases facts.len() - i,
{
    if i >= facts.len() {
        Ok(None)
    } else {
        match condition_test(c, facts[i as int]) {
            Err(e) => Err(e),
            Ok(true) => Ok(Some(i as int)),
            Ok(false) => first_match_from(c, facts, i + 1),
        }
    }
}

/// The position of the first fact that meets `c`.
pub open spec fn first_match(c: ConditionV, facts: Seq<FactV>) -> Result<Option<int>, EvaluationErrorV> {
    first_match_from(c, facts, 0)
}

pub proof fn lemma_first_match_bound(c: ConditionV, facts: Seq<FactV>, i: nat)
    ensures
        first_match_from(c, facts, i) matches Ok(Some(k)) ==> i <= k < facts.len(),
    decreases facts.len() - i,
{
    if i < facts.len() {
        lemma_first_match_bound(c, facts, i + 1);
    }
}

/// The position of the first of `facts` that meets `condition`.
pub fn first_condition_match(condition: &RoleFactCondition, facts: &[ArchitectureArtefactFact]) -> (r: Result<Option<usize>, RuleEvaluationError>)
    ensures
        match r {
            Ok(Some(k)) => k < facts@.len() && first_match(condition@, fact_views(facts@)) == Ok::<
                Option<int>,
                EvaluationErrorV,
            >(Some(k as int)),
            Ok(None) => first_match(condition@, fact_views(facts@)) == Ok::<Option<int>, EvaluationErrorV>(None),
            Err(e) => first_match(condition@, fact_views(facts@)) == Err::<Option<int>, EvaluationErrorV>(e@),
        },
{
    let ghost fv = fact_views(facts@);
    proof {
        lemma_first_match_bound(condition@, fv, 0);
    }
    let mut i: usize = 0;
    while i < facts.len()
        invariant
            i <= facts@.len(),
            fv == fact_views(facts@),
            first_match(condition@, fv) == first_match_from(condition@, fv, i as nat),
        decreases facts@.len() - i,
    {
        let m = condition_matches(condition, &facts[i]);
        assert(fv[i as int] == facts@[i as int]@);
        match m {
            Err(e) => return Err(e),
            Ok(true) => return Ok(Some(i)),
            Ok(false) => {},
        }
        i = i + 1;
    }
    Ok(None)
}

/// The conditions of `conds[i..]` that some fact meets: the sum of their
/// scores, and for each the first fact that meets it; the first error
/// stops the evaluation.
pub open spec fn matched_from(conds: Seq<ConditionV>, facts: Seq<FactV>, i: nat) -> Result<(int, Seq<FactV>), EvaluationErrorV>
    decreases conds.len() - i,
{
    if i >= conds.len() {
        Ok((0, Seq::empty()))
    } else {
        match first_match(conds[i as int], facts) {
            Err(e) => Err(e),
            Ok(m) => match matched_from(conds, facts, i + 1) {
                Err(e) => Err(e),
                Ok(rest) => match m {
                    Some(k) => Ok((conds[i as int].score_permille + rest.0, seq![facts[k]] + rest.1)),
                    None => Ok(rest),
                },
            },
        }
    }
}

/// What the conditions met by `facts` add up to.
pub open spec fn matched(conds: Seq<ConditionV>, facts: Seq<FactV>) -> Result<(int, Seq<FactV>), EvaluationErrorV> {
    matched_from(conds, facts, 0)
}

/// `r` with a score and facts found before it put in front.
pub open spec fn after_found(score: int, found: Seq<FactV>, r: Result<(int, Seq<FactV>), EvaluationErrorV>) -> Result<
    (int, Seq<FactV>),
    EvaluationErrorV,
> {
    match r {
        Ok(rest) => Ok((score + rest.0, found + rest.1)),
        Err(e) => Err(e),
    }
}

/// The conditions met: the sum of their scores and the facts that met them.
pub struct MatchedRoleFacts {
    pub score_permille: u128,
    pub facts: Vec<ArchitectureArtefactFact>,
}

/// Which of `conditions` the facts meet.
pub fn matched_facts(conditions: &[RoleFactCondition], facts: &[ArchitectureArtefactFact]) -> (r: Result<MatchedRoleFacts, RuleEvaluationError>)
    ensures
        match r {
            Ok(m) => matched(condition_views(conditions@), fact_views(facts@)) == Ok::<(int, Seq<FactV>), EvaluationErrorV>(
                (m.score_permille as int, fact_views(m.facts@)),
            ),
            Err(e) => matched(condition_views(conditions@), fact_views(facts@)) == Err::<(int, Seq<FactV>), EvaluationErrorV>(e@),
        },
        r matches Ok(m) ==> m.score_permille <= conditions@.len() * 0xffff_ffffu128,
{
    let ghost cv = condition_views(conditions@);
    let ghost fv = fact_views(facts@);
    let mut score: u128 = 0;
    let mut found: Vec<ArchitectureArtefactFact> = Vec::new();
    let mut i: usize = 0;
    assert(after_found(0, Seq::empty(), matched_from(cv, fv, 0)) == matched_from(cv, fv, 0)) by {
        match matched_from(cv, fv, 0) {
            Ok(rest) => {
                assert(Seq::<FactV>::empty() + rest.1 =~= rest.1);
            },
            Err(_) => {},
        }
    }
    while i < conditions.len()
        invariant
            i <= conditions@.len(),
            cv == condition_views(conditions@),
            fv == fact_views(facts@),
            score <= i * 0xffff_ffffu128,
            matched(cv, fv) == after_found(score as int, fact_views(found@), matched_from(cv, fv, i as nat)),
        decreases conditions@.len() - i,
    {
        let m = first_condition_match(&conditions[i], facts);
        assert(cv[i as int] == conditions@[i as int]@);
        let ghost before_score = score as int;
        let ghost before_found = fact_views(found@);
        match m {
            Err(e) => {
                assert(matched_from(cv, fv, i as nat) == Err::<(int, Seq<FactV>), EvaluationErrorV>(e@));
                return Err(e);
            },
            Ok(Some(k)) => {
                let c = conditions[i].score_permille;
                assert(score + c <= (i + 1) * 0xffff_ffffu128) by (nonlinear_arith)
                    requires
                        score <= i * 0xffff_ffffu128,
                        c <= 0xffff_ffffu32,
                ;
                score = score + c as u128;
                found.push(facts[k].duplicate());
                assert(fact_views(found@) =~= before_found.push(fv[k as int]));
                proof {
                    match matched_from(cv, fv, (i + 1) as nat) {
                        Ok(rest) => {
                            assert(before_found + (seq![fv[k as int]] + rest.1) =~= before_found.push(fv[k as int])
                                + rest.1);
                        },
                        Err(_) => {},
                    }
                }
            },
            Ok(None) => {
                assert(score <= (i + 1) * 0xffff_ffffu128) by (nonlinear_arith)
                    requires
                        score <= i * 0xffff_ffffu128,
                ;
            },
        }
        i = i + 1;
    }
    assert(matched_from(cv, fv, i as nat) == Ok::<(int, Seq<FactV>), EvaluationErrorV>((0, Seq::empty())));
    assert(fact_views(found@) + Seq::<FactV>::empty() =~= fact_views(found@));
    Ok(MatchedRoleFacts { score_permille: score, facts: found })
}

// ---------------------------------------------------------------------------
// Selectors
// ---------------------------------------------------------------------------

/// Which targets a rule looks at: of these kinds, under one of these path
/// prefixes, ending in one of these suffixes (an empty list allows all),
/// with facts meeting every required condition and at least one condition
/// of every non-empty group.
#[derive(Debug, Clone, PartialEq, Eq)]
pub struct RoleCandidateSelector {
    pub target_kinds: Vec<TargetKind>,
    pub path_prefixes: Vec<String>,
    pub path_suffixes: Vec<String>,
    pub required_facts: Vec<RoleFactCondition>,
    pub required_fact_any_groups: Vec<Vec<RoleFactCondition>>,
}

/// A selector as plain values.
pub struct SelectorV {
    pub target_kinds: Seq<TargetKind>,
    pub path_prefixes: Seq<Seq<char>>,
    pub path_suffixes: Seq<Seq<char>>,
    pub required_facts: Seq<ConditionV>,
    pub any_groups: Seq<Seq<ConditionV>>,
}

pub open spec fn string_views(v: Seq<String>) -> Seq<Seq<char>> {
    v.map_values(|s: String| s@)
}

pub open spec fn group_views(v: Seq<Vec<RoleFactCondition>>) -> Seq<Seq<ConditionV>> {
    v.map_values(|g: Vec<RoleFactCondition>| condition_views(g@))
}

impl View for RoleCandidateSelector {
    type V = SelectorV;

    open spec fn view(&self) -> SelectorV {
        SelectorV {
            target_kinds: self.target_kinds@,
            path_prefixes: string_views(self.path_prefixes@),
            path_suffixes: string_views(self.path_suffixes@),
            required_facts: condition_views(self.required_facts@),
            any_groups: group_views(self.required_fact_any_groups@),
        }
    }
}

/// Whether the kinds allow `k`: none listed, or `k` among them.
pub open spec fn kinds_allow(kinds: Seq<TargetKind>, k: TargetKind) -> bool {
    kinds.len() == 0 || kinds.contains(k)
}

/// Whether the prefixes allow `path`: none listed, or one begins it.
pub open spec fn prefixes_allow(prefixes: Seq<Seq<char>>, path: Seq<char>) -> bool {
    prefixes.len() == 0 || exists|i: int| 0 <= i < prefixes.len() && starts_with(path, #[trigger] prefixes[i])
}

/// Whether the suffixes allow `path`: none listed, or one ends it.
pub open spec fn suffixes_allow(suffixes: Seq<Seq<char>>, path: Seq<char>) -> bool {
    suffixes.len() == 0 || exists|i: int| 0 <= i < suffixes.len() && ends_with(path, #[trigger] suffixes[i])
}

/// Whether every condition of `reqs[i..]` is met by some fact; the first
/// unmet condition or error ends the test.
pub open spec fn required_from(reqs: Seq<ConditionV>, facts: Seq<FactV>, i: nat) -> Result<bool, EvaluationErrorV>
    decreases reqs.len() - i,
{
    if i >= reqs.len() {
        Ok(true)
    } else {
        match first_match(reqs[i as int], facts) {
            Err(e) => Err(e),
            Ok(None) => Ok(false),
            Ok(Some(_)) => required_from(reqs, facts, i + 1),
        }
    }
}

/// Whether some condition of `group[k..]` is met by some fact; the first
/// met condition or error ends the test.
pub open spec fn any_from(group: Seq<ConditionV>, facts: Seq<FactV>, k: nat) -> Result<bool, EvaluationErrorV>
    decreases group.len() - k,
{
    if k >= group.len() {
        Ok(false)
    } else {
        match first_match(group[k as int], facts) {
            Err(e) => Err(e),
            Ok(Some(_)) => Ok(true),
            Ok(None) => any_from(group, facts, k + 1),
        }
    }
}

/// Whether every non-empty group of `groups[j..]` has a condition met.
pub open spec fn groups_from(groups: Seq<Seq<ConditionV>>, facts: Seq<FactV>, j: nat) -> Result<bool, EvaluationErrorV>
    decreases groups.len() - j,
{
    if j >= groups.len() {
        Ok(true)
    } else if groups[j as int].len() == 0 {
        groups_from(groups, facts, j + 1)
    } else {
        match any_from(groups[j as int], facts, 0) {
            Err(e) => Err(e),
            Ok(false) => Ok(false),
            Ok(true) => groups_from(groups, facts, j + 1),
        }
    }
}

/// Whether a selector takes target `t`, whose facts are `facts`.
pub open spec fn selector_test(sel: SelectorV, t: TargetV, facts: Seq<FactV>) -> Result<bool, EvaluationErrorV> {
    if !kinds_allow(sel.target_kinds, t.kind) || !prefixes_allow(sel.path_prefixes, t.path) || !suffixes_allow(
        sel.path_suffixes,
        t.path,
    ) {
        Ok(false)
    } else {
        match required_from(sel.required_facts, facts, 0) {
            Err(e) => Err(e),
            Ok(false) => Ok(false),
            Ok(true) => groups_from(sel.any_groups, facts, 0),
        }
    }
}

fn same_kind(a: TargetKind, b: TargetKind) -> (r: bool)
    ensures
        r == (a == b),
{
    match (a, b) {
        (TargetKind::File, TargetKind::File) => true,
        (TargetKind::Artefact, TargetKind::Artefact) => true,
        (TargetKind::Symbol, TargetKind::Symbol) => true,
        _ => false,
    }
}

fn kinds_allow_target(kinds: &Vec<TargetKind>, k: TargetKind) -> (r: bool)
    ensures
        r == kinds_allow(kinds@, k),
{
    if kinds.len() == 0 {
        return true;
    }
    let mut i: usize = 0;
    while i < kinds.len()
        invariant
            i <= kinds@.len(),
            forall|j: int| 0 <= j < i ==> kinds@[j] != k,
        decreases kinds@.len() - i,
    {
        if same_kind(kinds[i], k) {
            assert(kinds@[i as int] == k);
            return true;
        }
        i = i + 1;
    }
    false
}

fn affixes_allow_path(affixes: &Vec<String>, path: &str, prefix: bool) -> (r: bool)
    ensures
        r == if prefix {
            prefixes_allow(string_views(affixes@), path@)
        } else {
            suffixes_allow(string_views(affixes@), path@)
        },
{
    let ghost sv = string_views(affixes@);
    if affixes.len() == 0 {
        return true;
    }
    let mut i: usize = 0;
    while i < affixes.len()
        invariant
            i <= affixes@.len(),
            sv == string_views(affixes@),
            forall|j: int| 0 <= j < i ==> !(if prefix { starts_with(path@, #[trigger] sv[j]) } else { ends_with(path@, sv[j]) }),
        decreases affixes@.len() - i,
    {
        assert(sv[i as int] == affixes@[i as int]@);
        let hit = if prefix {
            str_starts_with(path, affixes[i].as_str())
        } else {
            str_ends_with(path, affixes[i].as_str())
        };
        if hit {
            return true;
        }
        i = i + 1;
    }
    false
}

fn all_required(reqs: &Vec<RoleFactCondition>, facts: &[ArchitectureArtefactFact]) -> (r: Result<bool, RuleEvaluationError>)
    ensures
        result_view(r) == required_from(condition_views(reqs@), fact_views(facts@), 0),
{
    let ghost cv = condition_views(reqs@);
    let mut i: usize = 0;
    while i < reqs.len()
        invariant
            i <= reqs@.len(),
            cv == condition_views(reqs@),
            required_from(cv, fact_views(facts@), 0) == required_from(cv, fact_views(facts@), i as nat),
        decreases reqs@.len() - i,
    {
        assert(cv[i as int] == reqs@[i as int]@);
        match first_condition_match(&reqs[i], facts) {
            Err(e) => return Err(e),
            Ok(None) => return Ok(false),
            Ok(Some(_)) => {},
        }
        i = i + 1;
    }
    Ok(true)
}

fn any_met(group: &Vec<RoleFactCondition>, facts: &[ArchitectureArtefactFact]) -> (r: Result<bool, RuleEvaluationError>)
    ensures
        result_view(r) == any_from(condition_views(group@), fact_views(facts@), 0),
{
    let ghost cv = condition_views(group@);
    let mut k: usize = 0;
    while k < group.len()
        invariant
            k <= group@.len(),
            cv == condition_views(group@),
            any_from(cv, fact_views(facts@), 0) == any_from(cv, fact_views(facts@), k as nat),
        decreases group@.len() - k,
    {
        assert(cv[k as int] == group@[k as int]@);
        match first_condition_match(&group[k], facts) {
            Err(e) => return Err(e),
            Ok(Some(_)) => return Ok(true),
            Ok(None) => {},
        }
        k = k + 1;
    }
    Ok(false)
}

fn all_groups_met(groups: &Vec<Vec<RoleFactCondition>>, facts: &[ArchitectureArtefactFact]) -> (r: Result<bool, RuleEvaluationError>)
    ensures
        result_view(r) == groups_from(group_views(groups@), fact_views(facts@), 0),
{
    let ghost gv = group_views(groups@);
    let mut j: usize = 0;
    while j < groups.len()
        invariant
            j <= groups@.len(),
            gv == group_views(groups@),
            groups_from(gv, fact_views(facts@), 0) == groups_from(gv, fact_views(facts@), j as nat),
        decreases groups@.len() - j,
    {
        assert(gv[j as int] == condition_views(groups@[j as int]@));
        if groups[j].len() != 0 {
            match any_met(&groups[j], facts) {
                Err(e) => return Err(e),
                Ok(false) => return Ok(false),
                Ok(true) => {},
            }
        }
        j = j + 1;
    }
    Ok(true)
}

/// Whether `selector` takes `target`, whose facts are `facts`.
pub fn selector_matches(selector: &RoleCandidateSelector, target: &RoleTarget, facts: &[ArchitectureArtefactFact]) -> (r: Result<bool, RuleEvaluationError>)
    ensures
        result_view(r) == selector_test(selector@, target@, fact_views(facts@)),
{
    if !kinds_allow_target(&selector.target_kinds, target.target_kind) {
        return Ok(false);
    }
    if !affixes_allow_path(&selector.path_prefixes, target.path.as_str(), true) {
        return Ok(false);
    }
    if !affixes_allow_path(&selector.path_suffixes, target.path.as_str(), false) {
        return Ok(false);
    }
    match all_required(&selector.required_facts, facts) {
        Err(e) => Err(e),
        Ok(false) => Ok(false),
        Ok(true) => all_groups_met(&selector.required_fact_any_groups, facts),
    }
}

// ---------------------------------------------------------------------------
// Rules and their signals
// ---------------------------------------------------------------------------

/// A detection rule as stored: its selector and conditions are JSON.
pub struct ArchitectureRoleDetectionRule {
    pub repo_id: String,
    pub rule_id: String,
    pub role_id: String,
    pub version: i64,
    pub lifecycle: RoleRuleLifecycle,
    pub priority: i64,
    pub score_permille: u32,
    pub min_positive_ratio_permille: u32,
    pub candidate_selector: JsonValue,
    pub positive_conditions: JsonValue,
    pub negative_conditions: JsonValue,
    pub provenance: JsonValue,
}

/// A rule with its selector and conditions read.
pub struct CompiledArchitectureRoleRule {
    pub rule: ArchitectureRoleDetectionRule,
    pub selector: RoleCandidateSelector,
    pub positive_conditions: Vec<RoleFactCondition>,
    pub negative_conditions: Vec<RoleFactCondition>,
}

/// Whether a signal speaks for or against a role.
#[derive(Debug, Clone, Copy, PartialEq, Eq, Structural)]
pub enum RoleSignalPolarity {
    Positive,
    Negative,
}

pub open spec fn polarity_text(p: RoleSignalPolarity) -> Seq<char> {
    match p {
        RoleSignalPolarity::Positive => "positive"@,
        RoleSignalPolarity::Negative => "negative"@,
    }
}

impl RoleSignalPolarity {
    pub fn as_str(&self) -> (r: &'static str)
        ensures
            r@ == polarity_text(*self),
    {
        match self {
            RoleSignalPolarity::Positive => "positive",
            RoleSignalPolarity::Negative => "negative",
        }
    }
}

/// What one rule says of one target: the facts that met its conditions
/// are the evidence.
pub struct ArchitectureRoleRuleSignal {
    pub repo_id: String,
    pub signal_id: String,
    pub rule_id: String,
    pub rule_version: i64,
    pub role_id: String,
    pub target: RoleTarget,
    pub polarity: RoleSignalPolarity,
    pub score_permille: u32,
    pub evidence: JsonValue,
    pub generation_seq: u64,
}

/// The signals of an evaluation, in order.
pub struct RuleEvaluationResult {
    pub signals: Vec<ArchitectureRoleRuleSignal>,
}

/// A signal to be given: by the rule at position `rule`, about `target`,
/// with the summed score of the met conditions and the facts that met
/// them.
pub struct SignalPlan {
    pub rule: int,
    pub target: TargetV,
    pub polarity: RoleSignalPolarity,
    pub matched_score: int,
    pub facts: Seq<FactV>,
}

/// The signal's score: the rule's score times the matched score, both in
/// thousandths, at most 1000.
pub open spec fn signal_score(rule_score: u32, matched_score: int) -> int {
    let s = rule_score * matched_score / 1000;
    if s > 1000 {
        1000
    } else {
        s
    }
}

/// The identity of a signal: a digest of its repository, rule, version,
/// role, target and polarity.
pub open spec fn signal_id_of(
    repo_id: Seq<char>,
    rule_id: Seq<char>,
    version: i64,
    role_id: Seq<char>,
    t: TargetV,
    polarity: RoleSignalPolarity,
) -> Seq<char> {
    crate::hashing::sha256_hex_of(
        "architecture_graph|role_signal|"@ + repo_id + "|"@ + rule_id + "|"@ + crate::text::signed_decimal(
            version as int,
        ) + "|"@ + role_id + "|"@ + crate::rule_preview::preview_key_of(t) + "|"@ + polarity_text(polarity),
    )
}

/// The latest generation among the facts; 0 for none.
pub open spec fn latest_generation(facts: Seq<FactV>) -> u64
    decreases facts.len(),
{
    if facts.len() == 0 {
        0
    } else {
        let prev = latest_generation(facts.drop_last());
        if facts.last().generation_seq > prev {
            facts.last().generation_seq
        } else {
            prev
        }
    }
}

/// A member whose value is the text `value`.
pub open spec fn text_member(m: JsonMember, key: Seq<char>, value: Seq<char>) -> bool {
    &&& m.key@ == key
    &&& m.value matches JsonValue::Text(t) && t@ == value
}

/// `{"factId": .., "kind": .., "key": .., "value": ..}` for fact `f`.
pub open spec fn fact_evidence(v: JsonValue, f: FactV) -> bool {
    match v {
        JsonValue::Object(ms) => {
            &&& ms@.len() == 4
            &&& text_member(ms@[0], "factId"@, f.fact_id)
            &&& text_member(ms@[1], "kind"@, f.kind)
            &&& text_member(ms@[2], "key"@, f.key)
            &&& text_member(ms@[3], "value"@, f.value)
        },
        _ => false,
    }
}

/// An array with the evidence of each fact, in order.
pub open spec fn evidence_lists(v: JsonValue, facts: Seq<FactV>) -> bool {
    match v {
        JsonValue::Array(items) => items@.len() == facts.len() && forall|i: int|
            0 <= i < facts.len() ==> fact_evidence(#[trigger] items@[i], facts[i]),
        _ => false,
    }
}

/// Signal `s` is the one `p` plans for `rule`.
pub open spec fn signal_holds(s: ArchitectureRoleRuleSignal, rule: CompiledArchitectureRoleRule, p: SignalPlan) -> bool {
    &&& s.repo_id@ == rule.rule.repo_id@
    &&& s.signal_id@ == signal_id_of(
        rule.rule.repo_id@,
        rule.rule.rule_id@,
        rule.rule.version,
        rule.rule.role_id@,
        p.target,
        p.polarity,
    )
    &&& s.rule_id@ == rule.rule.rule_id@
    &&& s.rule_version == rule.rule.version
    &&& s.role_id@ == rule.rule.role_id@
    &&& s.target@ == p.target
    &&& s.polarity == p.polarity
    &&& s.score_permille == signal_score(rule.rule.score_permille, p.matched_score)
    &&& evidence_lists(s.evidence, p.facts)
    &&& s.generation_seq == latest_generation(p.facts)
}

/// The signals follow the plan, one for one.
pub open spec fn signals_follow(signals: Seq<ArchitectureRoleRuleSignal>, rules: Seq<CompiledArchitectureRoleRule>, plan: Seq<SignalPlan>) -> bool {
    &&& signals.len() == plan.len()
    &&& forall|i: int| 0 <= i < plan.len() ==> 0 <= #[trigger] plan[i].rule < rules.len()
    &&& forall|i: int| 0 <= i < plan.len() ==> signal_holds(#[trigger] signals[i], rules[plan[i].rule], plan[i])
}

/// The signal a match gives, if its score is above zero.
pub open spec fn plans_of(rule: int, t: TargetV, polarity: RoleSignalPolarity, m: (int, Seq<FactV>)) -> Seq<SignalPlan> {
    if m.0 > 0 {
        seq![SignalPlan { rule, target: t, polarity, matched_score: m.0, facts: m.1 }]
    } else {
        Seq::empty()
    }
}

/// What rule `rule` (at position `ri`) says of target `t`: nothing when
/// its selector does not take `t`; else a positive signal when its
/// positive conditions score above zero, then a negative one when its
/// negative conditions do.
pub open spec fn rule_target_plan(ri: int, rule: CompiledArchitectureRoleRule, t: TargetV, facts: Seq<FactV>) -> Result<
    Seq<SignalPlan>,
    EvaluationErrorV,
> {
    match selector_test(rule.selector@, t, facts) {
        Err(e) => Err(e),
        Ok(false) => Ok(Seq::empty()),
        Ok(true) => match matched(condition_views(rule.positive_conditions@), facts) {
            Err(e) => Err(e),
            Ok(p) => match matched(condition_views(rule.negative_conditions@), facts) {
                Err(e) => Err(e),
                Ok(n) => Ok(
                    plans_of(ri, t, RoleSignalPolarity::Positive, p) + plans_of(ri, t, RoleSignalPolarity::Negative, n),
                ),
            },
        },
    }
}

/// The targets with their facts, in ascending target order.
pub open spec fn target_groups(facts: Seq<FactV>) -> Seq<(TargetV, Seq<FactV>)> {
    crate::unknown_policy::fact_targets(facts).map_values(
        |t: TargetV| (t, crate::unknown_policy::facts_about(t, facts)),
    )
}

/// What one rule says of the groups from `j` on; the first error stops it.
pub open spec fn targets_plan(ri: int, rule: CompiledArchitectureRoleRule, groups: Seq<(TargetV, Seq<FactV>)>, j: nat) -> Result<
    Seq<SignalPlan>,
    EvaluationErrorV,
>
    decreases groups.len() - j,
{
    if j >= groups.len() {
        Ok(Seq::empty())
    } else {
        match rule_target_plan(ri, rule, groups[j as int].0, groups[j as int].1) {
            Err(e) => Err(e),
            Ok(s) => match targets_plan(ri, rule, groups, j + 1) {
                Err(e) => Err(e),
                Ok(rest) => Ok(s + rest),
            },
        }
    }
}

/// What the rules from `i` on say, rule by rule; the first error stops it.
pub open spec fn rules_plan(rules: Seq<CompiledArchitectureRoleRule>, groups: Seq<(TargetV, Seq<FactV>)>, i: nat) -> Result<
    Seq<SignalPlan>,
    EvaluationErrorV,
>
    decreases rules.len() - i,
{
    if i >= rules.len() {
        Ok(Seq::empty())
    } else {
        match targets_plan(i as int, rules[i as int], groups, 0) {
            Err(e) => Err(e),
            Ok(s) => match rules_plan(rules, groups, i + 1) {
                Err(e) => Err(e),
                Ok(rest) => Ok(s + rest),
            },
        }
    }
}

/// `r` with the signals planned before it put in front.
pub open spec fn after_planned(done: Seq<SignalPlan>, r: Result<Seq<SignalPlan>, EvaluationErrorV>) -> Result<
    Seq<SignalPlan>,
    EvaluationErrorV,
> {
    match r {
        Ok(rest) => Ok(done + rest),
        Err(e) => Err(e),
    }
}

fn text_member_of(key: &str, value: &String) -> (r: JsonMember)
    ensures
        text_member(r, key@, value@),
{
    JsonMember { key: owned(key), value: JsonValue::Text(value.clone()) }
}

fn fact_evidence_json(fact: &ArchitectureArtefactFact) -> (r: JsonValue)
    ensures
        fact_evidence(r, fact@),
{
    let mut members: Vec<JsonMember> = Vec::new();
    members.push(text_member_of("factId", &fact.fact_id));
    members.push(text_member_of("kind", &fact.fact_kind));
    members.push(text_member_of("key", &fact.fact_key));
    members.push(text_member_of("value", &fact.fact_value));
    JsonValue::Object(members)
}

fn evidence_json(facts: &Vec<ArchitectureArtefactFact>) -> (r: JsonValue)
    ensures
        evidence_lists(r, fact_views(facts@)),
{
    let mut items: Vec<JsonValue> = Vec::new();
    let mut i: usize = 0;
    while i < facts.len()
        invariant
            i <= facts@.len(),
            items@.len() == i,
            forall|k: int| 0 <= k < i ==> fact_evidence(#[trigger] items@[k], facts@[k]@),
        decreases facts@.len() - i,
    {
        items.push(fact_evidence_json(&facts[i]));
        i = i + 1;
    }
    JsonValue::Array(items)
}

fn latest_generation_of(facts: &Vec<ArchitectureArtefactFact>) -> (r: u64)
    ensures
        r == latest_generation(fact_views(facts@)),
{
    let ghost fv = fact_views(facts@);
    let mut latest: u64 = 0;
    let mut i: usize = 0;
    while i < facts.len()
        invariant
            i <= facts@.len(),
            fv == fact_views(facts@),
            latest == latest_generation(fv.take(i as int)),
        decreases facts@.len() - i,
    {
        assert(fv.take(i + 1).drop_last() =~= fv.take(i as int));
        assert(fv.take(i + 1).last() == facts@[i as int]@);
        if facts[i].generation_seq > latest {
            latest = facts[i].generation_seq;
        }
        i = i + 1;
    }
    assert(fv.take(i as int) =~= fv);
    latest
}

/// The identity of a signal.
pub fn rule_signal_id(
    repo_id: &str,
    rule_id: &str,
    version: i64,
    role_id: &str,
    target: &RoleTarget,
    polarity: RoleSignalPolarity,
) -> (r: String)
    ensures
        r@ == signal_id_of(repo_id@, rule_id@, version, role_id@, target@, polarity),
{
    let mut out: Vec<char> = Vec::new();
    append_chars(&mut out, "architecture_graph|role_signal|");
    append_chars(&mut out, repo_id);
    append_chars(&mut out, "|");
    append_chars(&mut out, rule_id);
    append_chars(&mut out, "|");
    let v = crate::text::i64_to_decimal(version);
    append_chars(&mut out, v.as_str());
    append_chars(&mut out, "|");
    append_chars(&mut out, role_id);
    append_chars(&mut out, "|");
    let key = crate::rule_preview::preview_target_key(target);
    append_chars(&mut out, key.as_str());
    append_chars(&mut out, "|");
    append_chars(&mut out, polarity.as_str());
    let text = string_from_chars(out.as_slice());
    crate::hashing::sha256_hex(text.as_str())
}

fn signal_for(
    rule: &CompiledArchitectureRoleRule,
    target: &RoleTarget,
    polarity: RoleSignalPolarity,
    found: &MatchedRoleFacts,
    Ghost(p): Ghost<SignalPlan>,
) -> (r: ArchitectureRoleRuleSignal)
    requires
        found.score_permille <= 0xffff_ffff_ffff_ffffu128 * 0xffff_ffffu128,
        p.target == target@,
        p.polarity == polarity,
        p.matched_score == found.score_permille as int,
        p.facts == fact_views(found.facts@),
    ensures
        signal_holds(r, *rule, p),
{
    let r_score = rule.rule.score_permille as u128;
    assert(r_score * found.score_permille <= 0xffff_ffffu128 * (0xffff_ffff_ffff_ffffu128 * 0xffff_ffffu128))
        by (nonlinear_arith)
        requires
            r_score <= 0xffff_ffffu128,
            found.score_permille <= 0xffff_ffff_ffff_ffffu128 * 0xffff_ffffu128,
    ;
    let product = r_score * found.score_permille / 1000;
    let score: u32 = if product > 1000 {
        1000
    } else {
        product as u32
    };
    ArchitectureRoleRuleSignal {
        repo_id: rule.rule.repo_id.clone(),
        signal_id: rule_signal_id(
            rule.rule.repo_id.as_str(),
            rule.rule.rule_id.as_str(),
            rule.rule.version,
            rule.rule.role_id.as_str(),
            target,
            polarity,
        ),
        rule_id: rule.rule.rule_id.clone(),
        rule_version: rule.rule.version,
        role_id: rule.rule.role_id.clone(),
        target: target.duplicate(),
        polarity,
        score_permille: score,
        evidence: evidence_json(&found.facts),
        generation_seq: latest_generation_of(&found.facts),
    }
}

/// Signals that follow two plans, one after the other, follow the two
/// plans put together.
proof fn lemma_follow_concat(
    a: Seq<ArchitectureRoleRuleSignal>,
    b: Seq<ArchitectureRoleRuleSignal>,
    rules: Seq<CompiledArchitectureRoleRule>,
    pa: Seq<SignalPlan>,
    pb: Seq<SignalPlan>,
)
    requires
        signals_follow(a, rules, pa),
        signals_follow(b, rules, pb),
    ensures
        signals_follow(a + b, rules, pa + pb),
{
    assert forall|i: int| 0 <= i < (pa + pb).len() implies 0 <= #[trigger] (pa + pb)[i].rule < rules.len() by {
        if i >= pa.len() {
            assert((pa + pb)[i] == pb[i - pa.len()]);
        }
    }
    assert forall|i: int| 0 <= i < (pa + pb).len() implies signal_holds(
        #[trigger] (a + b)[i],
        rules[(pa + pb)[i].rule],
        (pa + pb)[i],
    ) by {
        if i >= pa.len() {
            assert((pa + pb)[i] == pb[i - pa.len()]);
            assert((a + b)[i] == b[i - a.len()]);
        }
    }
}

fn evaluate_rule_target(
    rules: &[CompiledArchitectureRoleRule],
    ri: usize,
    target: &RoleTarget,
    facts: &[ArchitectureArtefactFact],
) -> (r: Result<Vec<ArchitectureRoleRuleSignal>, RuleEvaluationError>)
    requires
        ri < rules@.len(),
    ensures
        match r {
            Ok(v) => rule_target_plan(ri as int, rules@[ri as int], target@, fact_views(facts@)) matches Ok(p)
                && signals_follow(v@, rules@, p),
            Err(e) => rule_target_plan(ri as int, rules@[ri as int], target@, fact_views(facts@)) == Err::<
                Seq<SignalPlan>,
                EvaluationErrorV,
            >(e@),
        },
{
    let rule = &rules[ri];
    let ghost fv = fact_views(facts@);
    match selector_matches(&rule.selector, target, facts) {
        Err(e) => return Err(e),
        Ok(false) => {
            let out: Vec<ArchitectureRoleRuleSignal> = Vec::new();
            assert(signals_follow(out@, rules@, Seq::<SignalPlan>::empty()));
            return Ok(out);
        },
        Ok(true) => {},
    }
    let positive = match matched_facts(rule.positive_conditions.as_slice(), facts) {
        Err(e) => return Err(e),
        Ok(m) => m,
    };
    let negative = match matched_facts(rule.negative_conditions.as_slice(), facts) {
        Err(e) => return Err(e),
        Ok(m) => m,
    };
    let positive_count = rule.positive_conditions.len();
    let negative_count = rule.negative_conditions.len();
    assert(rule.positive_conditions@.len() * 0xffff_ffffu128 <= 0xffff_ffff_ffff_ffffu128 * 0xffff_ffffu128)
        by (nonlinear_arith)
        requires
            rule.positive_conditions@.len() == positive_count,
            positive_count <= 0xffff_ffff_ffff_ffffu128,
    ;
    assert(rule.negative_conditions@.len() * 0xffff_ffffu128 <= 0xffff_ffff_ffff_ffffu128 * 0xffff_ffffu128)
        by (nonlinear_arith)
        requires
            rule.negative_conditions@.len() == negative_count,
            negative_count <= 0xffff_ffff_ffff_ffffu128,
    ;
    let ghost pp = plans_of(
        ri as int,
        target@,
        RoleSignalPolarity::Positive,
        (positive.score_permille as int, fact_views(positive.facts@)),
    );
    let ghost np = plans_of(
        ri as int,
        target@,
        RoleSignalPolarity::Negative,
        (negative.score_permille as int, fact_views(negative.facts@)),
    );
    let mut out: Vec<ArchitectureRoleRuleSignal> = Vec::new();
    if positive.score_permille > 0 {
        let s = signal_for(
            rule,
            target,
            RoleSignalPolarity::Positive,
            &positive,
            Ghost(
                SignalPlan {
                    rule: ri as int,
                    target: target@,
                    polarity: RoleSignalPolarity::Positive,
                    matched_score: positive.score_permille as int,
                    facts: fact_views(positive.facts@),
                },
            ),
        );
        out.push(s);
    }
    assert(signals_follow(out@, rules@, pp));
    let ghost first = out@;
    let mut second: Vec<ArchitectureRoleRuleSignal> = Vec::new();
    if negative.score_permille > 0 {
        let s = signal_for(
            rule,
            target,
            RoleSignalPolarity::Negative,
            &negative,
            Ghost(
                SignalPlan {
                    rule: ri as int,
                    target: target@,
                    polarity: RoleSignalPolarity::Negative,
                    matched_score: negative.score_permille as int,
                    facts: fact_views(negative.facts@),
                },
            ),
        );
        second.push(s);
    }
    assert(signals_follow(second@, rules@, np));
    proof {
        lemma_follow_concat(first, second@, rules@, pp, np);
    }
    out.append(&mut second);
    Ok(out)
}

/// Evaluates each rule over the facts of each target, rule by rule and
/// target by target in ascending target order.
pub fn evaluate_rules_over_facts(
    rules: &[CompiledArchitectureRoleRule],
    facts: &[ArchitectureArtefactFact],
) -> (r: Result<RuleEvaluationResult, RuleEvaluationError>)
    ensures
        match r {
            Ok(res) => rules_plan(rules@, target_groups(fact_views(facts@)), 0) matches Ok(p) && signals_follow(
                res.signals@,
                rules@,
                p,
            ),
            Err(e) => rules_plan(rules@, target_groups(fact_views(facts@)), 0) == Err::<
                Seq<SignalPlan>,
                EvaluationErrorV,
            >(e@),
        },
{
    let ghost fv = fact_views(facts@);
    let groups = crate::unknown_policy::facts_by_target(facts);
    let ghost tg = target_groups(fv);
    assert(tg.len() == groups@.len()) by {
        assert(crate::unknown_policy::group_targets(groups@).len() == groups@.len());
    }
    assert forall|j: int| 0 <= j < groups@.len() implies #[trigger] tg[j] == (
        groups@[j].target@,
        fact_views(groups@[j].facts@),
    ) by {
        assert(crate::unknown_policy::group_targets(groups@)[j] == groups@[j].target@);
    }
    let mut signals: Vec<ArchitectureRoleRuleSignal> = Vec::new();
    let ghost mut done: Seq<SignalPlan> = Seq::empty();
    assert(after_planned(done, rules_plan(rules@, tg, 0)) == rules_plan(rules@, tg, 0)) by {
        match rules_plan(rules@, tg, 0) {
            Ok(rest) => assert(Seq::<SignalPlan>::empty() + rest =~= rest),
            Err(_) => {},
        }
    }
    let mut i: usize = 0;
    while i < rules.len()
        invariant
            i <= rules@.len(),
            fv == fact_views(facts@),
            tg == target_groups(fv),
            tg.len() == groups@.len(),
            forall|j: int| 0 <= j < groups@.len() ==> #[trigger] tg[j] == (
                groups@[j].target@,
                fact_views(groups@[j].facts@),
            ),
            rules_plan(rules@, tg, 0) == after_planned(done, rules_plan(rules@, tg, i as nat)),
            signals_follow(signals@, rules@, done),
        decreases rules@.len() - i,
    {
        let ghost rule = rules@[i as int];
        let ghost mut inner: Seq<SignalPlan> = Seq::empty();
        let ghost done_before = done;
        assert(after_planned(inner, targets_plan(i as int, rule, tg, 0)) == targets_plan(i as int, rule, tg, 0)) by {
            match targets_plan(i as int, rule, tg, 0) {
                Ok(rest) => assert(Seq::<SignalPlan>::empty() + rest =~= rest),
                Err(_) => {},
            }
        }
        assert(done + inner =~= done);
        let mut j: usize = 0;
        while j < groups.len()
            invariant
                i < rules@.len(),
                j <= groups@.len(),
                rule == rules@[i as int],
                tg.len() == groups@.len(),
                forall|k: int| 0 <= k < groups@.len() ==> #[trigger] tg[k] == (
                    groups@[k].target@,
                    fact_views(groups@[k].facts@),
                ),
                targets_plan(i as int, rule, tg, 0) == after_planned(inner, targets_plan(i as int, rule, tg, j as nat)),
                signals_follow(signals@, rules@, done_before + inner),
                done == done_before,
                fv == fact_views(facts@),
                tg == target_groups(fv),
                rules_plan(rules@, tg, 0) == after_planned(done, rules_plan(rules@, tg, i as nat)),
            decreases groups@.len() - j,
        {
            assert(tg[j as int] == (groups@[j as int].target@, fact_views(groups@[j as int].facts@)));
            match evaluate_rule_target(rules, i, &groups[j].target, groups[j].facts.as_slice()) {
                Err(e) => {
                    assert(targets_plan(i as int, rule, tg, 0) == Err::<Seq<SignalPlan>, EvaluationErrorV>(e@));
                    assert(rules_plan(rules@, tg, i as nat) == Err::<Seq<SignalPlan>, EvaluationErrorV>(e@));
                    return Err(e);
                },
                Ok(mut part) => {
                    let ghost p = rule_target_plan(i as int, rule, tg[j as int].0, tg[j as int].1)->Ok_0;
                    proof {
                        lemma_follow_concat(signals@, part@, rules@, done_before + inner, p);
                        assert(done_before + inner + p =~= done_before + (inner + p));
                        match targets_plan(i as int, rule, tg, (j + 1) as nat) {
                            Ok(rest) => assert(inner + (p + rest) =~= inner + p + rest),
                            Err(_) => {},
                        }
                        inner = inner + p;
                    }
                    signals.append(&mut part);
                },
            }
            j = j + 1;
        }
        proof {
            assert(inner + Seq::<SignalPlan>::empty() =~= inner);
            assert(targets_plan(i as int, rule, tg, 0) == Ok::<Seq<SignalPlan>, EvaluationErrorV>(inner));
            match rules_plan(rules@, tg, (i + 1) as nat) {
                Ok(rest) => assert(done + (inner + rest) =~= done + inner + rest),
                Err(_) => {},
            }
            done = done + inner;
        }
        i = i + 1;
    }
    assert(done + Seq::<SignalPlan>::empty() =~= done);
    Ok(RuleEvaluationResult { signals })
}

/// Whether the plan gives a signal of this polarity about `t`.
pub open spec fn planned_about(plan: Seq<SignalPlan>, t: TargetV, polarity: RoleSignalPolarity) -> bool {
    exists|i: int| 0 <= i < plan.len() && (#[trigger] plan[i]).target == t && plan[i].polarity == polarity
}

/// Whether one of the first `n` signals has this polarity and is about `t`.
pub open spec fn signaled(signals: Seq<ArchitectureRoleRuleSignal>, n: int, t: TargetV, polarity: RoleSignalPolarity) -> bool {
    exists|i: int| 0 <= i < n && (#[trigger] signals[i]).target@ == t && signals[i].polarity == polarity
}

fn signaled_about(
    signals: &Vec<ArchitectureRoleRuleSignal>,
    t: &RoleTarget,
    polarity: RoleSignalPolarity,
) -> (r: bool)
    ensures
        r == signaled(signals@, signals@.len() as int, t@, polarity),
{
    let mut i: usize = 0;
    while i < signals.len()
        invariant
            i <= signals@.len(),
            forall|k: int| 0 <= k < i ==> !((#[trigger] signals@[k]).target@ == t@ && signals@[k].polarity == polarity),
        decreases signals@.len() - i,
    {
        let same_polarity = match (signals[i].polarity, polarity) {
            (RoleSignalPolarity::Positive, RoleSignalPolarity::Positive) => true,
            (RoleSignalPolarity::Negative, RoleSignalPolarity::Negative) => true,
            _ => false,
        };
        if same_polarity && signals[i].target.same_as(t) {
            return true;
        }
        i = i + 1;
    }
    false
}

/// The targets a single rule takes: those it gives a positive signal and
/// no negative one, each once.
pub fn evaluate_detection_rule_targets(
    facts: &[ArchitectureArtefactFact],
    rule: CompiledArchitectureRoleRule,
) -> (r: Result<Vec<RoleTarget>, RuleEvaluationError>)
    ensures
        match r {
            Ok(targets) => rules_plan(seq![rule], target_groups(fact_views(facts@)), 0) matches Ok(p) && forall|t: TargetV|
                #[trigger] target_listed(targets@, t) == (planned_about(p, t, RoleSignalPolarity::Positive)
                    && !planned_about(p, t, RoleSignalPolarity::Negative)),
            Err(e) => rules_plan(seq![rule], target_groups(fact_views(facts@)), 0) == Err::<
                Seq<SignalPlan>,
                EvaluationErrorV,
            >(e@),
        },
        r matches Ok(targets) ==> forall|i: int, j: int|
            0 <= i < j < targets@.len() ==> targets@[i]@ != targets@[j]@,
{
    let ghost original = rule;
    let mut rules: Vec<CompiledArchitectureRoleRule> = Vec::new();
    rules.push(rule);
    assert(rules@ =~= seq![original]);
    let evaluated = match evaluate_rules_over_facts(rules.as_slice(), facts) {
        Err(e) => return Err(e),
        Ok(res) => res,
    };
    let signals = evaluated.signals;
    let ghost p = rules_plan(rules@, target_groups(fact_views(facts@)), 0)->Ok_0;
    let ghost n = signals@.len() as int;
    let mut out: Vec<RoleTarget> = Vec::new();
    let mut i: usize = 0;
    while i < signals.len()
        invariant
            i <= signals@.len(),
            n == signals@.len(),
            signals_follow(signals@, rules@, p),
            forall|a: int, b: int| 0 <= a < b < out@.len() ==> out@[a]@ != out@[b]@,
            forall|t: TargetV| #[trigger] target_listed(out@, t) == (signaled(signals@, i as int, t, RoleSignalPolarity::Positive)
                && !signaled(signals@, n, t, RoleSignalPolarity::Negative)),
        decreases signals@.len() - i,
    {
        let ghost before = out@;
        let ghost st = signals@[i as int].target@;
        let is_positive = match signals[i].polarity {
            RoleSignalPolarity::Positive => true,
            RoleSignalPolarity::Negative => false,
        };
        let mut pushed = false;
        if is_positive && !signaled_about(&signals, &signals[i].target, RoleSignalPolarity::Negative) {
            let mut listed = false;
            let mut k: usize = 0;
            while k < out.len()
                invariant
                    k <= out@.len(),
                    listed == exists|m: int| 0 <= m < k && (#[trigger] out@[m])@ == st,
                    st == signals@[i as int].target@,
                    i < signals@.len(),
                decreases out@.len() - k,
            {
                if out[k].same_as(&signals[i].target) {
                    listed = true;
                }
                k = k + 1;
            }
            if !listed {
                out.push(signals[i].target.duplicate());
                pushed = true;
                assert forall|a: int, b: int| 0 <= a < b < out@.len() implies out@[a]@ != out@[b]@ by {
                    if b == before.len() {
                        assert(out@[a] == before[a]);
                    }
                }
            }
        }
        assert forall|t: TargetV| #[trigger] target_listed(out@, t) == (signaled(signals@, i + 1, t, RoleSignalPolarity::Positive)
            && !signaled(signals@, n, t, RoleSignalPolarity::Negative)) by {
            if signaled(signals@, i + 1, t, RoleSignalPolarity::Positive) && !signaled(signals@, i as int, t, RoleSignalPolarity::Positive) {
                let k = choose|k: int| 0 <= k < i + 1 && (#[trigger] signals@[k]).target@ == t && signals@[k].polarity
                    == RoleSignalPolarity::Positive;
                assert(k == i);
            }
            if signaled(signals@, i as int, t, RoleSignalPolarity::Positive) {
                let k = choose|k: int| 0 <= k < i && (#[trigger] signals@[k]).target@ == t && signals@[k].polarity
                    == RoleSignalPolarity::Positive;
                assert(signaled(signals@, i + 1, t, RoleSignalPolarity::Positive));
            }
            if is_positive && t == st {
                assert(signaled(signals@, i + 1, t, RoleSignalPolarity::Positive));
            }
            if target_listed(out@, t) {
                let m = choose|m: int| 0 <= m < out@.len() && #[trigger] out@[m]@ == t;
                if m < before.len() {
                    assert(before[m]@ == t);
                    assert(target_listed(before, t));
                }
            }
            if target_listed(before, t) {
                let m = choose|m: int| 0 <= m < before.len() && #[trigger] before[m]@ == t;
                assert(out@[m]@ == t);
            }
            if pushed && t == st {
                assert(out@[before.len() as int]@ == t);
            }
            if !pushed && is_positive && t == st && !signaled(signals@, n, t, RoleSignalPolarity::Negative) {
                let m = choose|m: int| 0 <= m < before.len() && (#[trigger] before[m])@ == st;
                assert(target_listed(before, t));
            }
        }
        i = i + 1;
    }
    proof {
        assert forall|t: TargetV| #[trigger] target_listed(out@, t) == (planned_about(p, t, RoleSignalPolarity::Positive)
            && !planned_about(p, t, RoleSignalPolarity::Negative)) by {
            assert forall|pol: RoleSignalPolarity| planned_about(p, t, pol) == signaled(signals@, n, t, pol) by {
                if planned_about(p, t, pol) {
                    let k = choose|k: int| 0 <= k < p.len() && (#[trigger] p[k]).target == t && p[k].polarity == pol;
                    assert(signal_holds(signals@[k], rules@[p[k].rule], p[k]));
                }
                if signaled(signals@, n, t, pol) {
                    let k = choose|k: int| 0 <= k < n && (#[trigger] signals@[k]).target@ == t && signals@[k].polarity
                        == pol;
                    assert(signal_holds(signals@[k], rules@[p[k].rule], p[k]));
                    assert(p[k].target == t);
                }
            }
            assert(planned_about(p, t, RoleSignalPolarity::Positive) == signaled(signals@, n, t, RoleSignalPolarity::Positive));
            assert(planned_about(p, t, RoleSignalPolarity::Negative) == signaled(signals@, n, t, RoleSignalPolarity::Negative));
        }
    }
    Ok(out)
}

// ---------------------------------------------------------------------------
// Evidence cites only facts that met a condition
// ---------------------------------------------------------------------------

/// The conditions of a rule that give signals of this polarity.
pub open spec fn conditions_of(rule: CompiledArchitectureRoleRule, polarity: RoleSignalPolarity) -> Seq<ConditionV> {
    match polarity {
        RoleSignalPolarity::Positive => condition_views(rule.positive_conditions@),
        RoleSignalPolarity::Negative => condition_views(rule.negative_conditions@),
    }
}

/// Fact `f` is about `t` and meets one of `conds`.
pub open spec fn cited_fairly(conds: Seq<ConditionV>, facts: Seq<FactV>, f: FactV) -> bool {
    &&& facts.contains(f)
    &&& exists|j: int| 0 <= j < conds.len() && condition_test(#[trigger] conds[j], f) == Ok::<bool, EvaluationErrorV>(true)
}

/// Every fact a planned signal cites is about its target and meets a
/// condition of its rule with its polarity.
pub open spec fn plan_entry_cites_fairly(rules: Seq<CompiledArchitectureRoleRule>, facts: Seq<FactV>, e: SignalPlan) -> bool {
    &&& 0 <= e.rule < rules.len()
    &&& forall|k: int| 0 <= k < e.facts.len() ==> cited_fairly(
        conditions_of(rules[e.rule], e.polarity),
        crate::unknown_policy::facts_about(e.target, facts),
        #[trigger] e.facts[k],
    )
}

proof fn lemma_first_match_meets(c: ConditionV, fs: Seq<FactV>, i: nat)
    ensures
        first_match_from(c, fs, i) matches Ok(Some(m)) ==> 0 <= m < fs.len() && condition_test(c, fs[m]) == Ok::<
            bool,
            EvaluationErrorV,
        >(true),
    decreases fs.len() - i,
{
    if i < fs.len() {
        lemma_first_match_meets(c, fs, i + 1);
    }
}

proof fn lemma_matched_cites_fairly(conds: Seq<ConditionV>, fs: Seq<FactV>, i: nat)
    ensures
        matched_from(conds, fs, i) matches Ok(r) ==> forall|k: int| 0 <= k < r.1.len() ==> cited_fairly(conds, fs, #[trigger] r.1[k]),
    decreases conds.len() - i,
{
    if i < conds.len() {
        lemma_matched_cites_fairly(conds, fs, i + 1);
        lemma_first_match_meets(conds[i as int], fs, 0);
        if let Ok(r) = matched_from(conds, fs, i) {
            if let Ok(Some(m)) = first_match(conds[i as int], fs) {
                let rest = matched_from(conds, fs, i + 1)->Ok_0;
                assert forall|k: int| 0 <= k < r.1.len() implies cited_fairly(conds, fs, #[trigger] r.1[k]) by {
                    if k == 0 {
                        assert(r.1[k] == fs[m]);
                        assert(condition_test(conds[i as int], fs[m]) == Ok::<bool, EvaluationErrorV>(true));
                        assert(fs.contains(fs[m]));
                    } else {
                        assert(r.1[k] == rest.1[k - 1]);
                    }
                }
            }
        }
    }
}

proof fn lemma_targets_cite_fairly(
    rules: Seq<CompiledArchitectureRoleRule>,
    ri: int,
    facts: Seq<FactV>,
    j: nat,
)
    requires
        0 <= ri < rules.len(),
    ensures
        targets_plan(ri, rules[ri], target_groups(facts), j) matches Ok(p) ==> forall|k: int|
            0 <= k < p.len() ==> plan_entry_cites_fairly(rules, facts, #[trigger] p[k]),
    decreases target_groups(facts).len() - j,
{
    let groups = target_groups(facts);
    if j < groups.len() {
        lemma_targets_cite_fairly(rules, ri, facts, j + 1);
        let rule = rules[ri];
        let t = groups[j as int].0;
        let fs = groups[j as int].1;
        assert(fs == crate::unknown_policy::facts_about(t, facts));
        lemma_matched_cites_fairly(condition_views(rule.positive_conditions@), fs, 0);
        lemma_matched_cites_fairly(condition_views(rule.negative_conditions@), fs, 0);
        if let Ok(p) = targets_plan(ri, rule, groups, j) {
            let here = rule_target_plan(ri, rule, t, fs)->Ok_0;
            let rest = targets_plan(ri, rule, groups, j + 1)->Ok_0;
            assert(p == here + rest);
            assert forall|k: int| 0 <= k < p.len() implies plan_entry_cites_fairly(rules, facts, #[trigger] p[k]) by {
                if k < here.len() {
                    assert(p[k] == here[k]);
                } else {
                    assert(p[k] == rest[k - here.len()]);
                }
            }
        }
    }
}

proof fn lemma_rules_cite_fairly(rules: Seq<CompiledArchitectureRoleRule>, facts: Seq<FactV>, i: nat)
    ensures
        rules_plan(rules, target_groups(facts), i) matches Ok(p) ==> forall|k: int|
            0 <= k < p.len() ==> plan_entry_cites_fairly(rules, facts, #[trigger] p[k]),
    decreases rules.len() - i,
{
    if i < rules.len() {
        lemma_rules_cite_fairly(rules, facts, i + 1);
        lemma_targets_cite_fairly(rules, i as int, facts, 0);
        if let Ok(p) = rules_plan(rules, target_groups(facts), i) {
            let here = targets_plan(i as int, rules[i as int], target_groups(facts), 0)->Ok_0;
            let rest = rules_plan(rules, target_groups(facts), i + 1)->Ok_0;
            assert forall|k: int| 0 <= k < p.len() implies plan_entry_cites_fairly(rules, facts, #[trigger] p[k]) by {
                if k < here.len() {
                    assert(p[k] == here[k]);
                } else {
                    assert(p[k] == rest[k - here.len()]);
                }
            }
        }
    }
}

/// A signal cites as evidence only facts about its own target, each of
/// which meets a condition of the signal's rule with the signal's
/// polarity.
pub proof fn lemma_signal_evidence_is_matched(
    rules: Seq<CompiledArchitectureRoleRule>,
    facts: Seq<FactV>,
    plan: Seq<SignalPlan>,
    k: int,
)
    requires
        rules_plan(rules, target_groups(facts), 0) == Ok::<Seq<SignalPlan>, EvaluationErrorV>(plan),
        0 <= k < plan.len(),
    ensures
        plan_entry_cites_fairly(rules, facts, plan[k]),
{
    lemma_rules_cite_fairly(rules, facts, 0);
    let p = rules_plan(rules, target_groups(facts), 0)->Ok_0;
    assert(p == plan);
    assert(plan_entry_cites_fairly(rules, facts, p[k]));
}

} // verus!
