//! Assertions about the architecture graph made by hand: normal forms of
//! their vocabulary, their identity, and the record they become.
use vstd::prelude::*;

use crate::hashing::{sha256_hex, sha256_hex_of};
use crate::model::opt_view;
use crate::text::{
    append_chars, chars_of, chars_slice, is_digit, is_lower, is_upper, owned, string_from_chars,
    trim, trim_chars, upper_char, ascii_upper,
};

verus! {

// ---------------------------------------------------------------------------
// Normal forms
// ---------------------------------------------------------------------------

/// Where the normal form of a kind stands: what was written, and whether
/// the last letter was lower-case or a digit.
pub struct KindScanV {
    pub out: Seq<char>,
    pub after_lower_or_digit: bool,
}

pub open spec fn ends_with_underscore(s: Seq<char>) -> bool {
    s.len() > 0 && s.last() == '_'
}

pub open spec fn kind_step(st: KindScanV, c: char) -> KindScanV {
    if c == '-' || c == ' ' || c == '_' {
        KindScanV {
            out: if !ends_with_underscore(st.out) && st.out.len() > 0 {
                st.out.push('_')
            } else {
                st.out
            },
            after_lower_or_digit: false,
        }
    } else if is_upper(c) {
        KindScanV {
            out: if st.after_lower_or_digit && !ends_with_underscore(st.out) {
                st.out.push('_').push(c)
            } else {
                st.out.push(c)
            },
            after_lower_or_digit: false,
        }
    } else {
        KindScanV { out: st.out.push(upper_char(c)), after_lower_or_digit: is_lower(c) || is_digit(c) }
    }
}

pub open spec fn kind_scan(s: Seq<char>) -> KindScanV
    decreases s.len(),
{
    if s.len() == 0 {
        KindScanV { out: Seq::empty(), after_lower_or_digit: false }
    } else {
        kind_step(kind_scan(s.drop_last()), s.last())
    }
}

pub open spec fn strip_underscores_front(s: Seq<char>) -> Seq<char>
    decreases s.len(),
{
    if s.len() > 0 && s[0] == '_' {
        strip_underscores_front(s.drop_first())
    } else {
        s
    }
}

pub open spec fn strip_underscores_back(s: Seq<char>) -> Seq<char>
    decreases s.len(),
{
    if s.len() > 0 && s.last() == '_' {
        strip_underscores_back(s.drop_last())
    } else {
        s
    }
}

/// The normal form of a kind: upper snake case, with `-`, spaces and
/// underscores read as one separator and a separator before each
/// upper-case letter that follows a lower-case letter or a digit.
pub open spec fn fact_kind_of(value: Seq<char>) -> Seq<char> {
    strip_underscores_back(strip_underscores_front(kind_scan(trim(value)).out))
}

pub fn normalise_fact_kind(value: &str) -> (r: String)
    ensures
        r@ == fact_kind_of(value@),
{
    let vc = chars_of(value);
    let t = trim_chars(vc.as_slice());
    let mut out: Vec<char> = Vec::new();
    let mut after: bool = false;
    let mut i: usize = 0;
    while i < t.len()
        invariant
            i <= t@.len(),
            kind_scan(t@.take(i as int)) == (KindScanV { out: out@, after_lower_or_digit: after }),
        decreases t@.len() - i,
    {
        assert(t@.take(i + 1).drop_last() =~= t@.take(i as int));
        assert(t@.take(i + 1).last() == t@[i as int]);
        let c = t[i];
        let ends = out.len() > 0 && out[out.len() - 1] == '_';
        if c == '-' || c == ' ' || c == '_' {
            if !ends && out.len() > 0 {
                out.push('_');
            }
            after = false;
        } else if 'A' <= c && c <= 'Z' {
            if after && !ends {
                out.push('_');
            }
            out.push(c);
            after = false;
        } else {
            out.push(ascii_upper(c));
            after = ('a' <= c && c <= 'z') || ('0' <= c && c <= '9');
        }
        i = i + 1;
    }
    assert(t@.take(i as int) =~= t@);
    let mut a: usize = 0;
    assert(out@.skip(0) =~= out@);
    while a < out.len() && out[a] == '_'
        invariant
            a <= out@.len(),
            strip_underscores_front(out@) == strip_underscores_front(out@.skip(a as int)),
        decreases out@.len() - a,
    {
        assert(out@.skip(a as int).drop_first() =~= out@.skip(a + 1));
        a = a + 1;
    }
    let front = chars_slice(out.as_slice(), a, out.len());
    assert(front@ =~= out@.skip(a as int));
    assert(strip_underscores_front(front@) == front@);
    let mut b: usize = front.len();
    assert(front@.take(b as int) =~= front@);
    while b > 0 && front[b - 1] == '_'
        invariant
            b <= front@.len(),
            strip_underscores_back(front@) == strip_underscores_back(front@.take(b as int)),
        decreases b,
    {
        assert(front@.take(b as int).drop_last() =~= front@.take(b - 1));
        b = b - 1;
    }
    let both = chars_slice(front.as_slice(), 0, b);
    assert(both@ =~= front@.take(b as int));
    string_from_chars(both.as_slice())
}

/// A character a kind may be written with: an ASCII letter, `-`, `_` or a
/// space.
pub open spec fn kind_char(c: char) -> bool {
    is_upper(c) || is_lower(c) || c == '-' || c == '_' || c == ' '
}

/// A normal form: upper-case ASCII letters and single underscores between
/// them.
pub open spec fn clean_kind(o: Seq<char>) -> bool {
    &&& forall|i: int| 0 <= i < o.len() ==> is_upper(#[trigger] o[i]) || o[i] == '_'
    &&& o.len() > 0 ==> o[0] != '_' && o.last() != '_'
    &&& forall|i: int| 0 <= i < o.len() - 1 && #[trigger] o[i] == '_' ==> o[i + 1] != '_'
}

proof fn lemma_kind_scan_shape(t: Seq<char>)
    requires
        forall|i: int| 0 <= i < t.len() ==> kind_char(#[trigger] t[i]),
    ensures
        forall|i: int| 0 <= i < kind_scan(t).out.len() ==> is_upper(#[trigger] kind_scan(t).out[i])
            || kind_scan(t).out[i] == '_',
        kind_scan(t).out.len() > 0 ==> kind_scan(t).out[0] != '_',
        forall|i: int| 0 <= i < kind_scan(t).out.len() - 1 && #[trigger] kind_scan(t).out[i] == '_' ==> kind_scan(t).out[i + 1]
            != '_',
        kind_scan(t).after_lower_or_digit ==> kind_scan(t).out.len() > 0,
    decreases t.len(),
{
    if t.len() > 0 {
        let prev = t.drop_last();
        assert forall|i: int| 0 <= i < prev.len() implies kind_char(#[trigger] prev[i]) by {
            assert(prev[i] == t[i]);
        }
        lemma_kind_scan_shape(prev);
        let c = t.last();
        assert(kind_char(c));
        if is_lower(c) {
            assert(is_upper(upper_char(c)));
        }
    }
}

proof fn lemma_strip_back(o: Seq<char>)
    ensures
        exists|k: int| 0 <= k <= o.len() && strip_underscores_back(o) == o.take(k),
        strip_underscores_back(o).len() > 0 ==> strip_underscores_back(o).last() != '_',
    decreases o.len(),
{
    if o.len() > 0 && o.last() == '_' {
        lemma_strip_back(o.drop_last());
        let k = choose|k: int| 0 <= k <= o.drop_last().len() && strip_underscores_back(o.drop_last()) == o.drop_last().take(k);
        assert(o.drop_last().take(k) =~= o.take(k));
    } else {
        assert(o.take(o.len() as int) =~= o);
    }
}

proof fn lemma_clean_kind_scan(o: Seq<char>, n: int)
    requires
        clean_kind(o),
        0 <= n <= o.len(),
    ensures
        kind_scan(o.take(n)) == (KindScanV { out: o.take(n), after_lower_or_digit: false }),
    decreases n,
{
    if n > 0 {
        lemma_clean_kind_scan(o, n - 1);
        assert(o.take(n).drop_last() =~= o.take(n - 1));
        assert(o.take(n).last() == o[n - 1]);
        let c = o[n - 1];
        if c == '_' {
            assert(n - 1 > 0);
            assert(o[n - 2] != '_');
            assert(o.take(n - 1).last() == o[n - 2]);
        }
        assert(o.take(n - 1).push(c) =~= o.take(n));
    } else {
        assert(o.take(0) =~= Seq::<char>::empty());
    }
}

/// A normal form is its own normal form.
proof fn lemma_clean_kind_fixed(o: Seq<char>)
    requires
        clean_kind(o),
    ensures
        fact_kind_of(o) == o,
{
    if o.len() > 0 {
        crate::text::lemma_trim_unpadded(o);
    } else {
        assert(trim(o) =~= o);
    }
    lemma_clean_kind_scan(o, o.len() as int);
    assert(o.take(o.len() as int) =~= o);
    if o.len() > 0 {
        assert(o.last() != '_');
    }
}

/// Normalising a kind written with ASCII letters, `-`, `_` and spaces
/// gives upper-case letters with single underscores between them, and
/// normalising that again changes nothing.
pub proof fn lemma_fact_kind_idempotent(value: Seq<char>)
    requires
        forall|i: int| 0 <= i < value.len() ==> kind_char(#[trigger] value[i]),
    ensures
        clean_kind(fact_kind_of(value)),
        fact_kind_of(fact_kind_of(value)) == fact_kind_of(value),
{
    let t = trim(value);
    crate::text::lemma_lead_ws_bound(value);
    crate::text::lemma_trail_ws_bound(crate::text::trim_start(value));
    assert forall|i: int| 0 <= i < t.len() implies kind_char(#[trigger] t[i]) by {
        assert(t[i] == value[i + crate::text::lead_ws(value)]);
    }
    lemma_kind_scan_shape(t);
    let o = kind_scan(t).out;
    assert(strip_underscores_front(o) == o);
    lemma_strip_back(o);
    let r = fact_kind_of(value);
    let k = choose|k: int| 0 <= k <= o.len() && strip_underscores_back(o) == o.take(k);
    assert(r == o.take(k));
    assert forall|i: int| 0 <= i < r.len() implies is_upper(#[trigger] r[i]) || r[i] == '_' by {
        assert(r[i] == o[i]);
    }
    assert forall|i: int| 0 <= i < r.len() - 1 && #[trigger] r[i] == '_' implies r[i + 1] != '_' by {
        assert(r[i] == o[i]);
        assert(r[i + 1] == o[i + 1]);
    }
    if r.len() > 0 {
        assert(r[0] == o[0]);
    }
    lemma_clean_kind_fixed(r);
}

/// The trimmed text, unless it is blank.
pub open spec fn non_empty_of(value: Seq<char>) -> Option<Seq<char>> {
    if trim(value).len() == 0 {
        None
    } else {
        Some(trim(value))
    }
}

pub open spec fn non_empty_opt_of(value: Option<Seq<char>>) -> Option<Seq<char>> {
    match value {
        Some(v) => non_empty_of(v),
        None => None,
    }
}

pub fn non_empty_string(value: &str) -> (r: Option<String>)
    ensures
        opt_view(r) == non_empty_of(value@),
{
    let vc = chars_of(value);
    let t = trim_chars(vc.as_slice());
    if t.len() == 0 {
        None
    } else {
        Some(string_from_chars(t.as_slice()))
    }
}

pub fn non_empty_option(value: &Option<String>) -> (r: Option<String>)
    ensures
        opt_view(r) == non_empty_opt_of(opt_view(*value)),
{
    match value {
        Some(v) => non_empty_string(v.as_str()),
        None => None,
    }
}

/// Why an assertion was refused.
#[derive(Debug, Clone, PartialEq, Eq)]
pub enum AssertionError {
    UnsupportedAction(String),
    UnsupportedTargetKind(String),
    EmptyField(String),
    ConfidenceOutOfRange,
    MissingNodeKind,
    MissingNodeLabel,
    MissingEdgeKind,
    MissingFromNode,
    MissingToNode,
}

pub open spec fn assertion_error_text(e: AssertionError) -> Seq<char> {
    match e {
        AssertionError::UnsupportedAction(v) => "unsupported architecture graph assertion action `"@ + v@ + "`"@,
        AssertionError::UnsupportedTargetKind(v) => "unsupported architecture graph target kind `"@ + v@ + "`"@,
        AssertionError::EmptyField(f) => f@ + " must not be empty"@,
        AssertionError::ConfidenceOutOfRange => "confidence must be between 0 and 1"@,
        AssertionError::MissingNodeKind => "node assertions require `nodeKind` when `nodeId` is absent"@,
        AssertionError::MissingNodeLabel => "node assertions without `nodeId` require one of `label`, `path`, `artefactId`, or `symbolId`"@,
        AssertionError::MissingEdgeKind => "edge assertions require `edgeKind` when `edgeId` is absent"@,
        AssertionError::MissingFromNode => "edge assertions without `edgeId` require `fromNodeId`"@,
        AssertionError::MissingToNode => "edge assertions without `edgeId` require `toNodeId`"@,
    }
}

impl AssertionError {
    /// The message of the error.
    pub fn message(&self) -> (r: String)
        ensures
            r@ == assertion_error_text(*self),
    {
        let mut out: Vec<char> = Vec::new();
        match self {
            AssertionError::UnsupportedAction(v) => {
                append_chars(&mut out, "unsupported architecture graph assertion action `");
                append_chars(&mut out, v.as_str());
                append_chars(&mut out, "`");
            },
            AssertionError::UnsupportedTargetKind(v) => {
                append_chars(&mut out, "unsupported architecture graph target kind `");
                append_chars(&mut out, v.as_str());
                append_chars(&mut out, "`");
            },
            AssertionError::EmptyField(f) => {
                append_chars(&mut out, f.as_str());
                append_chars(&mut out, " must not be empty");
            },
            AssertionError::ConfidenceOutOfRange => append_chars(&mut out, "confidence must be between 0 and 1"),
            AssertionError::MissingNodeKind => append_chars(
                &mut out,
                "node assertions require `nodeKind` when `nodeId` is absent",
            ),
            AssertionError::MissingNodeLabel => append_chars(
                &mut out,
                "node assertions without `nodeId` require one of `label`, `path`, `artefactId`, or `symbolId`",
            ),
            AssertionError::MissingEdgeKind => append_chars(
                &mut out,
                "edge assertions require `edgeKind` when `edgeId` is absent",
            ),
            AssertionError::MissingFromNode => append_chars(
                &mut out,
                "edge assertions without `edgeId` require `fromNodeId`",
            ),
            AssertionError::MissingToNode => append_chars(
                &mut out,
                "edge assertions without `edgeId` require `toNodeId`",
            ),
        }
        string_from_chars(out.as_slice())
    }
}

/// What an assertion does.
pub open spec fn known_action(a: Seq<char>) -> bool {
    a == "ASSERT"@ || a == "SUPPRESS"@ || a == "ANNOTATE"@
}

pub fn normalise_action(value: &str) -> (r: Result<String, AssertionError>)
    ensures
        match r {
            Ok(a) => a@ == fact_kind_of(value@) && known_action(a@),
            Err(e) => !known_action(fact_kind_of(value@)) && (e matches AssertionError::UnsupportedAction(v)
                && v@ == value@),
        },
{
    let normalised = normalise_fact_kind(value);
    let n = normalised.as_str();
    if crate::text::str_eq(n, "ASSERT") || crate::text::str_eq(n, "SUPPRESS") || crate::text::str_eq(n, "ANNOTATE") {
        Ok(normalised)
    } else {
        Err(AssertionError::UnsupportedAction(owned(value)))
    }
}


/// What a target kind of an assertion is.
pub open spec fn known_target_kind(k: Seq<char>) -> bool {
    k == "NODE"@ || k == "EDGE"@
}

pub fn normalise_target_kind(value: &str) -> (r: Result<String, AssertionError>)
    ensures
        match r {
            Ok(k) => k@ == fact_kind_of(value@) && known_target_kind(k@),
            Err(e) => !known_target_kind(fact_kind_of(value@)) && (e matches AssertionError::UnsupportedTargetKind(v)
                && v@ == value@),
        },
{
    let normalised = normalise_fact_kind(value);
    let n = normalised.as_str();
    if crate::text::str_eq(n, "NODE") || crate::text::str_eq(n, "EDGE") {
        Ok(normalised)
    } else {
        Err(AssertionError::UnsupportedTargetKind(owned(value)))
    }
}

// ---------------------------------------------------------------------------
// Assertions
// ---------------------------------------------------------------------------

/// An assertion as submitted. The confidence is in thousandths; the
/// provenance, evidence and properties are JSON texts.
#[derive(Debug, Clone, PartialEq, Eq)]
pub struct AssertArchitectureGraphFactPayload {
    pub assertion_id: Option<String>,
    pub action: String,
    pub target_kind: String,
    pub node_id: Option<String>,
    pub node_kind: Option<String>,
    pub edge_id: Option<String>,
    pub edge_kind: Option<String>,
    pub from_node_id: Option<String>,
    pub to_node_id: Option<String>,
    pub label: Option<String>,
    pub artefact_id: Option<String>,
    pub symbol_id: Option<String>,
    pub path: Option<String>,
    pub entry_kind: Option<String>,
    pub reason: String,
    pub source: Option<String>,
    pub confidence_permille: Option<u32>,
    pub provenance: Option<String>,
    pub evidence: Option<String>,
    pub properties: Option<String>,
}

/// An assertion as stored.
#[derive(Debug, Clone, PartialEq, Eq)]
pub struct ArchitectureGraphAssertion {
    pub assertion_id: String,
    pub repo_id: String,
    pub action: String,
    pub target_kind: String,
    pub node_id: Option<String>,
    pub node_kind: Option<String>,
    pub edge_id: Option<String>,
    pub edge_kind: Option<String>,
    pub from_node_id: Option<String>,
    pub to_node_id: Option<String>,
    pub label: Option<String>,
    pub artefact_id: Option<String>,
    pub symbol_id: Option<String>,
    pub path: Option<String>,
    pub entry_kind: Option<String>,
    pub reason: String,
    pub source: String,
    pub confidence_permille: Option<u32>,
    pub provenance: String,
    pub evidence: String,
    pub properties: String,
}

/// Why an assertion is refused, as plain values.
pub enum AssertionFailure {
    UnsupportedAction(Seq<char>),
    UnsupportedTargetKind(Seq<char>),
    EmptyField(Seq<char>),
    ConfidenceOutOfRange,
    MissingNodeKind,
    MissingNodeLabel,
    MissingEdgeKind,
    MissingFromNode,
    MissingToNode,
}

impl View for AssertionError {
    type V = AssertionFailure;

    open spec fn view(&self) -> AssertionFailure {
        match self {
            AssertionError::UnsupportedAction(v) => AssertionFailure::UnsupportedAction(v@),
            AssertionError::UnsupportedTargetKind(v) => AssertionFailure::UnsupportedTargetKind(v@),
            AssertionError::EmptyField(v) => AssertionFailure::EmptyField(v@),
            AssertionError::ConfidenceOutOfRange => AssertionFailure::ConfidenceOutOfRange,
            AssertionError::MissingNodeKind => AssertionFailure::MissingNodeKind,
            AssertionError::MissingNodeLabel => AssertionFailure::MissingNodeLabel,
            AssertionError::MissingEdgeKind => AssertionFailure::MissingEdgeKind,
            AssertionError::MissingFromNode => AssertionFailure::MissingFromNode,
            AssertionError::MissingToNode => AssertionFailure::MissingToNode,
        }
    }
}

pub open spec fn kind_opt_of(value: Option<Seq<char>>) -> Option<Seq<char>> {
    match non_empty_opt_of(value) {
        Some(v) => Some(fact_kind_of(v)),
        None => None,
    }
}

/// The first present and non-blank of the label, path, artefact and
/// symbol.
pub open spec fn node_label_of(p: AssertArchitectureGraphFactPayload) -> Option<Seq<char>> {
    match non_empty_opt_of(opt_view(p.label)) {
        Some(l) => Some(l),
        None => match non_empty_opt_of(opt_view(p.path)) {
            Some(l) => Some(l),
            None => match non_empty_opt_of(opt_view(p.artefact_id)) {
                Some(l) => Some(l),
                None => non_empty_opt_of(opt_view(p.symbol_id)),
            },
        },
    }
}

/// What an assertion is about: a node by its id, else by its kind and
/// label; an edge by its id, else by its kind and ends.
pub open spec fn identity_of(target_kind: Seq<char>, p: AssertArchitectureGraphFactPayload) -> Result<Seq<char>, AssertionFailure> {
    if target_kind == "NODE"@ {
        match non_empty_opt_of(opt_view(p.node_id)) {
            Some(n) => Ok("node:"@ + n),
            None => match kind_opt_of(opt_view(p.node_kind)) {
                None => Err(AssertionFailure::MissingNodeKind),
                Some(k) => match node_label_of(p) {
                    None => Err(AssertionFailure::MissingNodeLabel),
                    Some(l) => Ok("node:"@ + k + ":"@ + l),
                },
            },
        }
    } else if target_kind == "EDGE"@ {
        match non_empty_opt_of(opt_view(p.edge_id)) {
            Some(e) => Ok("edge:"@ + e),
            None => match kind_opt_of(opt_view(p.edge_kind)) {
                None => Err(AssertionFailure::MissingEdgeKind),
                Some(k) => match non_empty_opt_of(opt_view(p.from_node_id)) {
                    None => Err(AssertionFailure::MissingFromNode),
                    Some(f) => match non_empty_opt_of(opt_view(p.to_node_id)) {
                        None => Err(AssertionFailure::MissingToNode),
                        Some(t) => Ok("edge:"@ + k + ":"@ + f + ":"@ + t),
                    },
                },
            },
        }
    } else {
        Err(AssertionFailure::UnsupportedTargetKind(target_kind))
    }
}

/// A field that is missing or blank.
pub open spec fn blank_field(o: Option<String>) -> bool {
    match o {
        None => true,
        Some(s) => trim(s@).len() == 0,
    }
}

/// A field's text, trimmed; nothing when missing.
pub open spec fn field_trimmed(o: Option<String>) -> Seq<char> {
    match o {
        None => Seq::empty(),
        Some(s) => trim(s@),
    }
}

/// A node asserted without an id, but with a kind `k`, is identified by
/// `node:<k>:` and the first non-blank of its label, path, artefact id and
/// symbol id, trimmed, in that order; with none of them it is refused for
/// want of a label.
pub proof fn lemma_node_identity_fallbacks(p: AssertArchitectureGraphFactPayload, k: Seq<char>)
    requires
        blank_field(p.node_id),
        kind_opt_of(opt_view(p.node_kind)) == Some(k),
    ensures
        !blank_field(p.label) ==> identity_of("NODE"@, p) == Ok::<Seq<char>, AssertionFailure>(
            "node:"@ + k + ":"@ + field_trimmed(p.label),
        ),
        blank_field(p.label) && !blank_field(p.path) ==> identity_of("NODE"@, p) == Ok::<Seq<char>, AssertionFailure>(
            "node:"@ + k + ":"@ + field_trimmed(p.path),
        ),
        blank_field(p.label) && blank_field(p.path) && !blank_field(p.artefact_id) ==> identity_of("NODE"@, p) == Ok::<
            Seq<char>,
            AssertionFailure,
        >("node:"@ + k + ":"@ + field_trimmed(p.artefact_id)),
        blank_field(p.label) && blank_field(p.path) && blank_field(p.artefact_id) && !blank_field(p.symbol_id)
            ==> identity_of("NODE"@, p) == Ok::<Seq<char>, AssertionFailure>(
            "node:"@ + k + ":"@ + field_trimmed(p.symbol_id),
        ),
        blank_field(p.label) && blank_field(p.path) && blank_field(p.artefact_id) && blank_field(p.symbol_id)
            ==> identity_of("NODE"@, p) == Err::<Seq<char>, AssertionFailure>(AssertionFailure::MissingNodeLabel),
{
}

fn kind_opt(value: &Option<String>) -> (r: Option<String>)
    ensures
        opt_view(r) == kind_opt_of(opt_view(*value)),
{
    match non_empty_option(value) {
        Some(v) => Some(normalise_fact_kind(v.as_str())),
        None => None,
    }
}

fn join2(a: &str, b: &str) -> (r: String)
    ensures
        r@ == a@ + b@,
{
    let mut out = chars_of(a);
    append_chars(&mut out, b);
    string_from_chars(out.as_slice())
}

fn join3(a: &str, b: &str, c: &str) -> (r: String)
    ensures
        r@ == a@ + b@ + c@,
{
    let mut out = chars_of(a);
    append_chars(&mut out, b);
    append_chars(&mut out, c);
    string_from_chars(out.as_slice())
}

pub fn assertion_identity(target_kind: &str, payload: &AssertArchitectureGraphFactPayload) -> (r: Result<String, AssertionError>)
    ensures
        match r {
            Ok(i) => identity_of(target_kind@, *payload) == Ok::<Seq<char>, AssertionFailure>(i@),
            Err(e) => identity_of(target_kind@, *payload) == Err::<Seq<char>, AssertionFailure>(e@),
        },
{
    if crate::text::str_eq(target_kind, "NODE") {
        if let Some(n) = non_empty_option(&payload.node_id) {
            return Ok(join2("node:", n.as_str()));
        }
        let kind = match kind_opt(&payload.node_kind) {
            Some(k) => k,
            None => return Err(AssertionError::MissingNodeKind),
        };
        let label = match non_empty_option(&payload.label) {
            Some(l) => l,
            None => match non_empty_option(&payload.path) {
                Some(l) => l,
                None => match non_empty_option(&payload.artefact_id) {
                    Some(l) => l,
                    None => match non_empty_option(&payload.symbol_id) {
                        Some(l) => l,
                        None => return Err(AssertionError::MissingNodeLabel),
                    },
                },
            },
        };
        let head = join3("node:", kind.as_str(), ":");
        return Ok(join2(head.as_str(), label.as_str()));
    }
    if crate::text::str_eq(target_kind, "EDGE") {
        if let Some(e) = non_empty_option(&payload.edge_id) {
            return Ok(join2("edge:", e.as_str()));
        }
        let kind = match kind_opt(&payload.edge_kind) {
            Some(k) => k,
            None => return Err(AssertionError::MissingEdgeKind),
        };
        let from = match non_empty_option(&payload.from_node_id) {
            Some(f) => f,
            None => return Err(AssertionError::MissingFromNode),
        };
        let to = match non_empty_option(&payload.to_node_id) {
            Some(t) => t,
            None => return Err(AssertionError::MissingToNode),
        };
        let head = join3("edge:", kind.as_str(), ":");
        let mid = join3(head.as_str(), from.as_str(), ":");
        return Ok(join2(mid.as_str(), to.as_str()));
    }
    Err(AssertionError::UnsupportedTargetKind(owned(target_kind)))
}

/// A stable identity derived from a text: the hex SHA-256 digest of it.
pub open spec fn deterministic_id_of(text: Seq<char>) -> Seq<char> {
    sha256_hex_of(text)
}

pub fn deterministic_id(text: &str) -> (r: String)
    ensures
        r@ == deterministic_id_of(text@),
{
    sha256_hex(text)
}

/// The identity of an assertion made without one: a digest of the
/// repository, action, target kind and key.
pub open spec fn assertion_id_of(repo_id: Seq<char>, action: Seq<char>, target_kind: Seq<char>, key: Seq<char>) -> Seq<char> {
    deterministic_id_of(
        "architecture_graph|assertion|"@ + repo_id + "|"@ + action + "|"@ + target_kind + "|"@ + key,
    )
}

/// An assertion as plain values.
pub struct AssertionV {
    pub assertion_id: Seq<char>,
    pub repo_id: Seq<char>,
    pub action: Seq<char>,
    pub target_kind: Seq<char>,
    pub node_id: Option<Seq<char>>,
    pub node_kind: Option<Seq<char>>,
    pub edge_id: Option<Seq<char>>,
    pub edge_kind: Option<Seq<char>>,
    pub from_node_id: Option<Seq<char>>,
    pub to_node_id: Option<Seq<char>>,
    pub label: Option<Seq<char>>,
    pub artefact_id: Option<Seq<char>>,
    pub symbol_id: Option<Seq<char>>,
    pub path: Option<Seq<char>>,
    pub entry_kind: Option<Seq<char>>,
    pub reason: Seq<char>,
    pub source: Seq<char>,
    pub confidence_permille: Option<u32>,
    pub provenance: Seq<char>,
    pub evidence: Seq<char>,
    pub properties: Seq<char>,
}

impl View for ArchitectureGraphAssertion {
    type V = AssertionV;

    open spec fn view(&self) -> AssertionV {
        AssertionV {
            assertion_id: self.assertion_id@,
            repo_id: self.repo_id@,
            action: self.action@,
            target_kind: self.target_kind@,
            node_id: opt_view(self.node_id),
            node_kind: opt_view(self.node_kind),
            edge_id: opt_view(self.edge_id),
            edge_kind: opt_view(self.edge_kind),
            from_node_id: opt_view(self.from_node_id),
            to_node_id: opt_view(self.to_node_id),
            label: opt_view(self.label),
            artefact_id: opt_view(self.artefact_id),
            symbol_id: opt_view(self.symbol_id),
            path: opt_view(self.path),
            entry_kind: opt_view(self.entry_kind),
            reason: self.reason@,
            source: self.source@,
            confidence_permille: self.confidence_permille,
            provenance: self.provenance@,
            evidence: self.evidence@,
            properties: self.properties@,
        }
    }
}

pub open spec fn or_default(o: Option<Seq<char>>, d: Seq<char>) -> Seq<char> {
    match o {
        Some(v) => v,
        None => d,
    }
}

/// The node an assertion is about: its id, else for a node assertion an
/// id derived from its kind and identity.
pub open spec fn node_id_of(repo_id: Seq<char>, target_kind: Seq<char>, identity: Seq<char>, p: AssertArchitectureGraphFactPayload) -> Option<Seq<char>> {
    match non_empty_opt_of(opt_view(p.node_id)) {
        Some(n) => Some(n),
        None => if target_kind == "NODE"@ {
            match kind_opt_of(opt_view(p.node_kind)) {
                Some(k) => Some(deterministic_id_of("architecture_graph|node|"@ + repo_id + "|"@ + k + "|"@ + identity)),
                None => None,
            }
        } else {
            None
        },
    }
}

/// The edge an assertion is about: its id, else for an edge assertion an
/// id derived from its kind and ends.
pub open spec fn edge_id_of(repo_id: Seq<char>, target_kind: Seq<char>, p: AssertArchitectureGraphFactPayload) -> Option<Seq<char>> {
    match non_empty_opt_of(opt_view(p.edge_id)) {
        Some(e) => Some(e),
        None => if target_kind == "EDGE"@ {
            match (kind_opt_of(opt_view(p.edge_kind)), non_empty_opt_of(opt_view(p.from_node_id)), non_empty_opt_of(opt_view(p.to_node_id))) {
                (Some(k), Some(f), Some(t)) => Some(deterministic_id_of("architecture_graph|edge|"@ + repo_id + "|"@ + k + "|"@ + f + "|"@ + t)),
                _ => None,
            }
        } else {
            None
        },
    }
}

/// The assertion a payload makes, or why it is refused: the action, the
/// target kind, the reason, the confidence (at most 1000) and the identity
/// are checked in that order.
pub open spec fn assertion_of(repo_id: Seq<char>, p: AssertArchitectureGraphFactPayload) -> Result<AssertionV, AssertionFailure> {
    let action = fact_kind_of(p.action@);
    let target_kind = fact_kind_of(p.target_kind@);
    if !known_action(action) {
        Err(AssertionFailure::UnsupportedAction(p.action@))
    } else if !known_target_kind(target_kind) {
        Err(AssertionFailure::UnsupportedTargetKind(p.target_kind@))
    } else if non_empty_of(p.reason@) is None {
        Err(AssertionFailure::EmptyField("reason"@))
    } else if p.confidence_permille matches Some(c) && c > 1000 {
        Err(AssertionFailure::ConfidenceOutOfRange)
    } else {
        match identity_of(target_kind, p) {
            Err(e) => Err(e),
            Ok(identity) => Ok(
                AssertionV {
                    assertion_id: or_default(
                        non_empty_opt_of(opt_view(p.assertion_id)),
                        assertion_id_of(repo_id, action, target_kind, action + "|"@ + identity),
                    ),
                    repo_id,
                    action,
                    target_kind,
                    node_id: node_id_of(repo_id, target_kind, identity, p),
                    node_kind: kind_opt_of(opt_view(p.node_kind)),
                    edge_id: edge_id_of(repo_id, target_kind, p),
                    edge_kind: kind_opt_of(opt_view(p.edge_kind)),
                    from_node_id: non_empty_opt_of(opt_view(p.from_node_id)),
                    to_node_id: non_empty_opt_of(opt_view(p.to_node_id)),
                    label: non_empty_opt_of(opt_view(p.label)),
                    artefact_id: non_empty_opt_of(opt_view(p.artefact_id)),
                    symbol_id: non_empty_opt_of(opt_view(p.symbol_id)),
                    path: non_empty_opt_of(opt_view(p.path)),
                    entry_kind: non_empty_opt_of(opt_view(p.entry_kind)),
                    reason: trim(p.reason@),
                    source: or_default(non_empty_opt_of(opt_view(p.source)), "devql_mutation"@),
                    confidence_permille: p.confidence_permille,
                    provenance: or_default(opt_view(p.provenance), "{\"source\":\"devql_mutation\"}"@),
                    evidence: or_default(opt_view(p.evidence), "[]"@),
                    properties: or_default(opt_view(p.properties), "{}"@),
                },
            ),
        }
    }
}

fn or_default_text(o: &Option<String>, d: &str) -> (r: String)
    ensures
        r@ == or_default(opt_view(*o), d@),
{
    match o {
        Some(v) => v.clone(),
        None => owned(d),
    }
}

fn non_empty_or(o: &Option<String>, d: String) -> (r: String)
    ensures
        r@ == or_default(non_empty_opt_of(opt_view(*o)), d@),
{
    match non_empty_option(o) {
        Some(v) => v,
        None => d,
    }
}

fn assertion_node_id(repo_id: &str, target_kind: &str, identity: &str, payload: &AssertArchitectureGraphFactPayload) -> (r: Option<String>)
    ensures
        opt_view(r) == node_id_of(repo_id@, target_kind@, identity@, *payload),
{
    match non_empty_option(&payload.node_id) {
        Some(n) => Some(n),
        None => {
            if !crate::text::str_eq(target_kind, "NODE") {
                return None;
            }
            match kind_opt(&payload.node_kind) {
                Some(k) => {
                    let a = join3("architecture_graph|node|", repo_id, "|");
                    let b = join3(a.as_str(), k.as_str(), "|");
                    let c = join2(b.as_str(), identity);
                    Some(deterministic_id(c.as_str()))
                },
                None => None,
            }
        },
    }
}

fn assertion_edge_id(repo_id: &str, target_kind: &str, payload: &AssertArchitectureGraphFactPayload) -> (r: Option<String>)
    ensures
        opt_view(r) == edge_id_of(repo_id@, target_kind@, *payload),
{
    match non_empty_option(&payload.edge_id) {
        Some(e) => Some(e),
        None => {
            if !crate::text::str_eq(target_kind, "EDGE") {
                return None;
            }
            let k = match kind_opt(&payload.edge_kind) {
                Some(k) => k,
                None => return None,
            };
            let f = match non_empty_option(&payload.from_node_id) {
                Some(f) => f,
                None => return None,
            };
            let t = match non_empty_option(&payload.to_node_id) {
                Some(t) => t,
                None => return None,
            };
            let a = join3("architecture_graph|edge|", repo_id, "|");
            let b = join3(a.as_str(), k.as_str(), "|");
            let c = join3(b.as_str(), f.as_str(), "|");
            let d = join2(c.as_str(), t.as_str());
            Some(deterministic_id(d.as_str()))
        },
    }
}

pub fn build_assertion(repo_id: &str, payload: &AssertArchitectureGraphFactPayload) -> (r: Result<ArchitectureGraphAssertion, AssertionError>)
    ensures
        match r {
            Ok(a) => assertion_of(repo_id@, *payload) == Ok::<AssertionV, AssertionFailure>(a@),
            Err(e) => assertion_of(repo_id@, *payload) == Err::<AssertionV, AssertionFailure>(e@),
        },
{
    let action = match normalise_action(payload.action.as_str()) {
        Ok(a) => a,
        Err(e) => return Err(e),
    };
    let target_kind = match normalise_target_kind(payload.target_kind.as_str()) {
        Ok(k) => k,
        Err(e) => return Err(e),
    };
    let reason = match non_empty_string(payload.reason.as_str()) {
        Some(r) => r,
        None => return Err(AssertionError::EmptyField(owned("reason"))),
    };
    match payload.confidence_permille {
        Some(c) => if c > 1000 {
            return Err(AssertionError::ConfidenceOutOfRange);
        },
        None => {},
    }
    let identity = match assertion_identity(target_kind.as_str(), payload) {
        Ok(i) => i,
        Err(e) => return Err(e),
    };
    let key = join3(action.as_str(), "|", identity.as_str());
    let a = join3("architecture_graph|assertion|", repo_id, "|");
    let b = join3(a.as_str(), action.as_str(), "|");
    let c = join3(b.as_str(), target_kind.as_str(), "|");
    let d = join2(c.as_str(), key.as_str());
    let derived = deterministic_id(d.as_str());
    let assertion = ArchitectureGraphAssertion {
        assertion_id: non_empty_or(&payload.assertion_id, derived),
        repo_id: owned(repo_id),
        action: action.clone(),
        target_kind: target_kind.clone(),
        node_id: assertion_node_id(repo_id, target_kind.as_str(), identity.as_str(), payload),
        node_kind: kind_opt(&payload.node_kind),
        edge_id: assertion_edge_id(repo_id, target_kind.as_str(), payload),
        edge_kind: kind_opt(&payload.edge_kind),
        from_node_id: non_empty_option(&payload.from_node_id),
        to_node_id: non_empty_option(&payload.to_node_id),
        label: non_empty_option(&payload.label),
        artefact_id: non_empty_option(&payload.artefact_id),
        symbol_id: non_empty_option(&payload.symbol_id),
        path: non_empty_option(&payload.path),
        entry_kind: non_empty_option(&payload.entry_kind),
        reason,
        source: non_empty_or(&payload.source, owned("devql_mutation")),
        confidence_permille: payload.confidence_permille,
        provenance: or_default_text(&payload.provenance, "{\"source\":\"devql_mutation\"}"),
        evidence: or_default_text(&payload.evidence, "[]"),
        properties: or_default_text(&payload.properties, "{}"),
    };
    Ok(assertion)
}

} // verus!
