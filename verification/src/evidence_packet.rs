//! Bounds on the evidence handed to an adjudication model.
use vstd::prelude::*;

use crate::candidate_roles::{candidate_roles_for_request, candidate_roles_of, role_views};
use crate::contracts::{RoleAdjudicationRequest, RoleCandidateDescriptor};
use crate::json_doc::JsonValue;
use crate::order::views_of;
use crate::role_reconcile::{copy_request, request_same};
use crate::text::{chars_of, string_from_chars};

verus! {

/// How much of each kind of evidence a packet may hold.
#[derive(Debug, Clone, PartialEq, Eq)]
pub struct EvidencePacketLimits {
    pub max_facts: usize,
    pub max_rule_signals: usize,
    pub max_dependency_items: usize,
    pub max_related_artefacts: usize,
    pub max_source_snippets: usize,
    pub max_snippet_chars: usize,
    pub max_candidate_roles: usize,
}

impl Default for EvidencePacketLimits {
    fn default() -> (r: Self)
        ensures
            r.max_facts == 64,
            r.max_rule_signals == 64,
            r.max_dependency_items == 64,
            r.max_related_artefacts == 32,
            r.max_source_snippets == 8,
            r.max_snippet_chars == 4096,
            r.max_candidate_roles == 128,
    {
        EvidencePacketLimits {
            max_facts: 64,
            max_rule_signals: 64,
            max_dependency_items: 64,
            max_related_artefacts: 32,
            max_source_snippets: 8,
            max_snippet_chars: 4096,
            max_candidate_roles: 128,
        }
    }
}

/// The number of UTF-8 bytes of a text.
pub open spec fn byte_len(s: Seq<char>) -> nat {
    vstd::utf8::encode_utf8(s).len()
}

/// The number of UTF-8 bytes of a character.
pub open spec fn char_width(c: char) -> nat {
    vstd::utf8::encode_scalar(c as u32).len()
}

pub proof fn lemma_byte_len_push(s: Seq<char>, c: char)
    ensures
        byte_len(s.push(c)) == byte_len(s) + char_width(c),
    decreases s.len(),
{
    if s.len() > 0 {
        lemma_byte_len_push(s.drop_first(), c);
        assert(s.push(c).drop_first() =~= s.drop_first().push(c));
        assert(s.push(c)[0] == s[0]);
        assert(byte_len(s) == char_width(s[0]) + byte_len(s.drop_first()));
        assert(byte_len(s.push(c)) == char_width(s[0]) + byte_len(s.drop_first().push(c)));
    } else {
        assert(s.push(c).drop_first() =~= Seq::<char>::empty());
        assert(s =~= Seq::<char>::empty());
        assert(s.push(c)[0] == c);
        assert(byte_len(s.push(c)) == char_width(c) + byte_len(Seq::<char>::empty()));
    }
}

/// The longest prefix of `s` whose UTF-8 encoding fits in `n` bytes.
pub open spec fn prefix_within(s: Seq<char>, n: int) -> Seq<char>
    decreases s.len(),
{
    if s.len() == 0 {
        s
    } else if char_width(s[0]) <= n {
        seq![s[0]] + prefix_within(s.drop_first(), n - char_width(s[0]))
    } else {
        Seq::empty()
    }
}

/// The snippets kept within a budget of `remaining` bytes: whole while they
/// fit, then the first `remaining` bytes of the next one, then nothing.
pub open spec fn snippets_within(snippets: Seq<Seq<char>>, remaining: nat) -> Seq<Seq<char>>
    decreases snippets.len(),
{
    if snippets.len() == 0 || remaining == 0 {
        Seq::empty()
    } else if byte_len(snippets[0]) <= remaining {
        seq![snippets[0]] + snippets_within(snippets.drop_first(), (remaining - byte_len(snippets[0])) as nat)
    } else {
        seq![prefix_within(snippets[0], remaining as int)]
    }
}

/// Whether the one snippet that is cut, if any, is cut between two
/// characters: cutting inside a character panics.
pub open spec fn cut_on_char_boundary(snippets: Seq<Seq<char>>, remaining: nat) -> bool
    decreases snippets.len(),
{
    if snippets.len() == 0 || remaining == 0 {
        true
    } else if byte_len(snippets[0]) <= remaining {
        cut_on_char_boundary(snippets.drop_first(), (remaining - byte_len(snippets[0])) as nat)
    } else {
        byte_len(prefix_within(snippets[0], remaining as int)) == remaining
    }
}

fn utf8_width(c: char) -> (r: usize)
    ensures
        r == char_width(c),
        1 <= r <= 4,
{
    proof {
        vstd::utf8::char_is_scalar(c);
    }
    let u = c as u32;
    if u < 0x80 {
        1
    } else if u < 0x800 {
        2
    } else if u < 0x10000 {
        3
    } else {
        4
    }
}

/// The first `n` bytes of `snippet`, which end between two characters.
fn byte_prefix(snippet: &str, n: usize) -> (r: String)
    requires
        byte_len(prefix_within(snippet@, n as int)) == n,
    ensures
        r@ == prefix_within(snippet@, n as int),
{
    let chars = chars_of(snippet);
    let mut out: Vec<char> = Vec::new();
    let mut used: usize = 0;
    let mut i: usize = 0;
    assert(chars@.skip(0) =~= chars@);
    assert(chars@.take(0) =~= Seq::<char>::empty());
    while i < chars.len()
        invariant
            i <= chars@.len(),
            chars@ == snippet@,
            out@ == chars@.take(i as int),
            used == byte_len(chars@.take(i as int)),
            used <= n,
            prefix_within(chars@, n as int) == chars@.take(i as int) + prefix_within(chars@.skip(i as int), n - used),
        decreases chars@.len() - i,
    {
        let w = utf8_width(chars[i]);
        assert(chars@.skip(i as int)[0] == chars@[i as int]);
        assert(chars@.skip(i as int).drop_first() =~= chars@.skip(i + 1));
        if w > n - used {
            assert(prefix_within(chars@.skip(i as int), n - used) =~= Seq::<char>::empty());
            assert(chars@.take(i as int) + Seq::<char>::empty() =~= chars@.take(i as int));
            return string_from_chars(out.as_slice());
        }
        proof {
            lemma_byte_len_push(chars@.take(i as int), chars@[i as int]);
            assert(chars@.take(i + 1) =~= chars@.take(i as int).push(chars@[i as int]));
            assert(chars@.take(i as int) + (seq![chars@[i as int]] + prefix_within(chars@.skip(i + 1), n - used - w))
                =~= chars@.take(i + 1) + prefix_within(chars@.skip(i + 1), n - used - w));
        }
        out.push(chars[i]);
        used = used + w;
        i = i + 1;
    }
    assert(chars@.skip(i as int) =~= Seq::<char>::empty());
    assert(chars@.take(i as int) + Seq::<char>::empty() =~= chars@.take(i as int));
    string_from_chars(out.as_slice())
}

/// Keeps whole snippets while they fit in `max_chars` bytes, then the part
/// of the next one that still fits, then stops.
pub fn trim_snippets(snippets: Vec<String>, max_chars: usize) -> (r: Vec<String>)
    requires
        cut_on_char_boundary(views_of(snippets@), max_chars as nat),
    ensures
        views_of(r@) == snippets_within(views_of(snippets@), max_chars as nat),
{
    let ghost sv = views_of(snippets@);
    if max_chars == 0 {
        let out: Vec<String> = Vec::new();
        assert(views_of(out@) =~= Seq::<Seq<char>>::empty());
        return out;
    }
    let mut remaining = max_chars;
    let mut out: Vec<String> = Vec::new();
    let mut i: usize = 0;
    assert(sv.skip(0) =~= sv);
    assert(views_of(out@) + snippets_within(sv, remaining as nat) =~= snippets_within(sv, max_chars as nat));
    while i < snippets.len()
        invariant
            i <= snippets@.len(),
            sv == views_of(snippets@),
            views_of(out@) + snippets_within(sv.skip(i as int), remaining as nat) == snippets_within(sv, max_chars as nat),
            cut_on_char_boundary(sv.skip(i as int), remaining as nat),
        decreases snippets@.len() - i,
    {
        assert(sv.skip(i as int)[0] == snippets@[i as int]@);
        assert(sv.skip(i as int).drop_first() =~= sv.skip(i + 1));
        if remaining == 0 {
            assert(views_of(out@) + Seq::<Seq<char>>::empty() =~= views_of(out@));
            return out;
        }
        let snippet = &snippets[i];
        let bytes = snippet.as_str().as_bytes();
        let len = bytes.len();
        assert(len == byte_len(sv.skip(i as int)[0]));
        if len <= remaining {
            let ghost before = views_of(out@);
            out.push(snippet.clone());
            assert(views_of(out@) =~= before.push(snippet@));
            assert(before + snippets_within(sv.skip(i as int), remaining as nat) =~= before.push(snippet@)
                + snippets_within(sv.skip(i + 1), (remaining - len) as nat));
            remaining = remaining - len;
            i = i + 1;
            continue;
        }
        let ghost before = views_of(out@);
        let cut = byte_prefix(snippet.as_str(), remaining);
        out.push(cut);
        assert(views_of(out@) =~= before.push(cut@));
        return out;
    }
    assert(sv.skip(i as int) =~= Seq::<Seq<char>>::empty());
    assert(views_of(out@) + Seq::<Seq<char>>::empty() =~= views_of(out@));
    out
}

/// The bytes of all the snippets together.
pub open spec fn total_bytes(snippets: Seq<Seq<char>>) -> nat
    decreases snippets.len(),
{
    if snippets.len() == 0 {
        0
    } else {
        byte_len(snippets[0]) + total_bytes(snippets.drop_first())
    }
}

proof fn lemma_byte_len_cons(c: char, s: Seq<char>)
    ensures
        byte_len(seq![c] + s) == char_width(c) + byte_len(s),
{
    assert((seq![c] + s)[0] == c);
    assert((seq![c] + s).drop_first() =~= s);
}

proof fn lemma_prefix_within_fits(s: Seq<char>, n: int)
    requires
        n >= 0,
    ensures
        byte_len(prefix_within(s, n)) <= n,
    decreases s.len(),
{
    if s.len() > 0 && char_width(s[0]) <= n {
        lemma_prefix_within_fits(s.drop_first(), n - char_width(s[0]));
        lemma_byte_len_cons(s[0], prefix_within(s.drop_first(), n - char_width(s[0])));
    } else if s.len() > 0 {
        assert(vstd::utf8::encode_utf8(Seq::<char>::empty()).len() == 0);
    }
}

/// Trimmed snippets never hold more bytes than the budget.
pub proof fn lemma_snippets_within_budget(snippets: Seq<Seq<char>>, remaining: nat)
    ensures
        total_bytes(snippets_within(snippets, remaining)) <= remaining,
    decreases snippets.len(),
{
    let r = snippets_within(snippets, remaining);
    if snippets.len() == 0 || remaining == 0 {
        assert(r.len() == 0);
    } else if byte_len(snippets[0]) <= remaining {
        let rest = snippets_within(snippets.drop_first(), (remaining - byte_len(snippets[0])) as nat);
        lemma_snippets_within_budget(snippets.drop_first(), (remaining - byte_len(snippets[0])) as nat);
        assert(r[0] == snippets[0]);
        assert(r.drop_first() =~= rest);
        assert(total_bytes(r) == byte_len(r[0]) + total_bytes(r.drop_first()));
    } else {
        lemma_prefix_within_fits(snippets[0], remaining as int);
        let p = prefix_within(snippets[0], remaining as int);
        assert(r.drop_first() =~= Seq::<Seq<char>>::empty());
        assert(r[0] == p);
        assert(total_bytes(r.drop_first()) == 0);
        assert(total_bytes(r) == byte_len(r[0]) + total_bytes(r.drop_first()));
    }
}

/// What the facts reader loads for a request; the rule signals already as
/// JSON.
pub struct RoleFactsBundle {
    pub facts: Vec<JsonValue>,
    pub rule_signals: Vec<JsonValue>,
    pub dependency_context: Vec<JsonValue>,
    pub related_artefacts: Vec<JsonValue>,
    pub source_snippets: Vec<String>,
    pub reachability: Option<JsonValue>,
}

/// The evidence handed to the model about one request.
pub struct RoleEvidencePacket {
    pub request: RoleAdjudicationRequest,
    pub candidate_roles: Vec<RoleCandidateDescriptor>,
    pub facts: Vec<JsonValue>,
    pub rule_signals: Vec<JsonValue>,
    pub dependency_context: Vec<JsonValue>,
    pub related_artefacts: Vec<JsonValue>,
    pub source_snippets: Vec<String>,
    pub reachability: Option<JsonValue>,
}

/// The first `n` items of `s`, or all of them when there are fewer.
pub open spec fn first_items<T>(s: Seq<T>, n: nat) -> Seq<T> {
    if n <= s.len() {
        s.take(n as int)
    } else {
        s
    }
}

/// The packet for `request`: its candidate roles among the active ones,
/// and each kind of evidence of the bundle cut to its limit; the snippets
/// kept are then cut to the character budget.
pub fn assemble_evidence_packet(
    request: &RoleAdjudicationRequest,
    active_roles: &[RoleCandidateDescriptor],
    bundle: RoleFactsBundle,
    limits: &EvidencePacketLimits,
) -> (r: RoleEvidencePacket)
    requires
        cut_on_char_boundary(
            views_of(first_items(bundle.source_snippets@, limits.max_source_snippets as nat)),
            limits.max_snippet_chars as nat,
        ),
    ensures
        request_same(*request, r.request),
        role_views(r.candidate_roles@) == candidate_roles_of(
            views_of(request.candidate_role_ids@),
            role_views(active_roles@),
            limits.max_candidate_roles as nat,
        ),
        r.facts@ == first_items(bundle.facts@, limits.max_facts as nat),
        r.rule_signals@ == first_items(bundle.rule_signals@, limits.max_rule_signals as nat),
        r.dependency_context@ == first_items(bundle.dependency_context@, limits.max_dependency_items as nat),
        r.related_artefacts@ == first_items(bundle.related_artefacts@, limits.max_related_artefacts as nat),
        views_of(r.source_snippets@) == snippets_within(
            views_of(first_items(bundle.source_snippets@, limits.max_source_snippets as nat)),
            limits.max_snippet_chars as nat,
        ),
        r.reachability == bundle.reachability,
{
    let candidate_roles = candidate_roles_for_request(request, active_roles, limits.max_candidate_roles);
    let RoleFactsBundle {
        mut facts,
        mut rule_signals,
        mut dependency_context,
        mut related_artefacts,
        mut source_snippets,
        reachability,
    } = bundle;
    facts.truncate(limits.max_facts);
    rule_signals.truncate(limits.max_rule_signals);
    dependency_context.truncate(limits.max_dependency_items);
    related_artefacts.truncate(limits.max_related_artefacts);
    source_snippets.truncate(limits.max_source_snippets);
    let source_snippets = trim_snippets(source_snippets, limits.max_snippet_chars);
    RoleEvidencePacket {
        request: copy_request(request),
        candidate_roles,
        facts,
        rule_signals,
        dependency_context,
        related_artefacts,
        source_snippets,
        reachability,
    }
}

} // verus!
