//! Clusters of rule-mining inputs: inputs with the same signature form one
//! cluster; clusters come in ascending signature order (field by field,
//! as `Ord` compares them), and each names its best-ranked members.
use vstd::prelude::*;

use crate::fact_extraction::{ascending, lemma_ascending};
use crate::fact_order::{compare_opt, compare_str, int_order, kind_rank, lemma_opt_order, opt_order, then};
use crate::hashing::{sha256_hex, sha256_hex_of};
use crate::model::{clone_opt, fact_views, opt_view, target_kind_db, TargetKind};
use crate::order::{order_of, views_of, Order};
use crate::rule_mining::{
    cluster_signature_from_input, compare_members, fact_view_of, member_order, reason_family_of, stable_prefix_of,
    target_id, target_id_of, ClusterSignature, RoleRuleMiningCluster, RoleRuleMiningClusterInput,
};
use crate::text::{append_chars, owned, string_from_chars};

verus! {

/// A signature as plain values.
pub struct SigV {
    pub reason: Seq<char>,
    pub kind: TargetKind,
    pub prefix: Option<Seq<char>>,
    pub language: Option<Seq<char>>,
    pub canonical_kind: Option<Seq<char>>,
    pub file_role: Option<Seq<char>>,
    pub analysis_mode: Option<Seq<char>>,
    pub symbol_suffix: Option<Seq<char>>,
    pub deps: Seq<Seq<char>>,
    pub roles: Seq<Seq<char>>,
}

pub open spec fn sig_view(s: ClusterSignature) -> SigV {
    SigV {
        reason: s.reason_family@,
        kind: s.target_kind,
        prefix: opt_view(s.stable_path_prefix),
        language: opt_view(s.language),
        canonical_kind: opt_view(s.canonical_kind),
        file_role: opt_view(s.file_role),
        analysis_mode: opt_view(s.analysis_mode),
        symbol_suffix: opt_view(s.symbol_suffix),
        deps: s.dependency_kinds@,
        roles: s.candidate_role_ids@,
    }
}

/// The signature of an input: its reason family, target kind and path
/// prefix, what its facts say, its dependency kinds and candidate roles in
/// ascending order.
pub open spec fn input_sig(i: RoleRuleMiningClusterInput) -> SigV {
    let v = fact_view_of(fact_views(i.facts@));
    SigV {
        reason: reason_family_of(i.reason),
        kind: i.target.target_kind,
        prefix: stable_prefix_of(i.target.path@),
        language: v.language,
        canonical_kind: v.canonical_kind,
        file_role: v.file_role,
        analysis_mode: v.analysis_mode,
        symbol_suffix: v.symbol_suffix,
        deps: ascending(v.dependency_kinds),
        roles: ascending(views_of(i.candidate_role_ids@).to_set()),
    }
}

/// Lists of texts in lexicographic order.
pub open spec fn strs_order(a: Seq<Seq<char>>, b: Seq<Seq<char>>) -> Order
    decreases a.len(),
{
    if a.len() == 0 {
        if b.len() == 0 {
            Order::Equal
        } else {
            Order::Less
        }
    } else if b.len() == 0 {
        Order::Greater
    } else {
        then(order_of(a[0], b[0]), strs_order(a.drop_first(), b.drop_first()))
    }
}

/// Signatures compared field by field.
pub open spec fn sig_order(a: SigV, b: SigV) -> Order {
    then(
        order_of(a.reason, b.reason),
        then(
            int_order(kind_rank(a.kind), kind_rank(b.kind)),
            then(
                opt_order(a.prefix, b.prefix),
                then(
                    opt_order(a.language, b.language),
                    then(
                        opt_order(a.canonical_kind, b.canonical_kind),
                        then(
                            opt_order(a.file_role, b.file_role),
                            then(
                                opt_order(a.analysis_mode, b.analysis_mode),
                                then(
                                    opt_order(a.symbol_suffix, b.symbol_suffix),
                                    then(strs_order(a.deps, b.deps), strs_order(a.roles, b.roles)),
                                ),
                            ),
                        ),
                    ),
                ),
            ),
        ),
    )
}

proof fn lemma_strs_order_equal(a: Seq<Seq<char>>, b: Seq<Seq<char>>)
    ensures
        (strs_order(a, b) is Equal) == (a == b),
    decreases a.len(),
{
    if a.len() > 0 && b.len() > 0 {
        lemma_strs_order_equal(a.drop_first(), b.drop_first());
        if a == b {
            assert(a.drop_first() == b.drop_first());
        }
        if a[0] == b[0] && a.drop_first() == b.drop_first() {
            assert(a =~= seq![a[0]] + a.drop_first());
            assert(b =~= seq![b[0]] + b.drop_first());
        }
    } else if a.len() == 0 && b.len() == 0 {
        assert(a =~= b);
    }
}

proof fn lemma_sig_order_equal(a: SigV, b: SigV)
    ensures
        (sig_order(a, b) is Equal) == (a == b),
{
    lemma_opt_order(a.prefix, b.prefix, a.prefix);
    lemma_opt_order(a.language, b.language, a.language);
    lemma_opt_order(a.canonical_kind, b.canonical_kind, a.canonical_kind);
    lemma_opt_order(a.file_role, b.file_role, a.file_role);
    lemma_opt_order(a.analysis_mode, b.analysis_mode, a.analysis_mode);
    lemma_opt_order(a.symbol_suffix, b.symbol_suffix, a.symbol_suffix);
    lemma_strs_order_equal(a.deps, b.deps);
    lemma_strs_order_equal(a.roles, b.roles);
}

// ---------------------------------------------------------------------------
// Grouping
// ---------------------------------------------------------------------------

pub open spec fn sig_position_from(s: Seq<SigV>, x: SigV, i: int) -> int
    decreases s.len() - i,
{
    if i >= s.len() {
        s.len() as int
    } else if sig_order(x, s[i]) is Less {
        i
    } else {
        sig_position_from(s, x, i + 1)
    }
}

/// `x` put into `s` before the first signature it precedes.
pub open spec fn insert_sig(s: Seq<SigV>, x: SigV) -> Seq<SigV> {
    let p = sig_position_from(s, x, 0);
    s.take(p).push(x) + s.skip(p)
}

/// The signatures of the inputs before `n`, each once, in ascending order.
pub open spec fn cluster_sigs(inputs: Seq<RoleRuleMiningClusterInput>, n: int) -> Seq<SigV>
    decreases n,
{
    if n <= 0 {
        Seq::empty()
    } else {
        let prev = cluster_sigs(inputs, n - 1);
        let x = input_sig(inputs[n - 1]);
        if prev.contains(x) {
            prev
        } else {
            insert_sig(prev, x)
        }
    }
}

/// The positions before `n` of the inputs with signature `s`, in order.
pub open spec fn member_positions(inputs: Seq<RoleRuleMiningClusterInput>, s: SigV, n: int) -> Seq<int>
    decreases n,
{
    if n <= 0 {
        Seq::empty()
    } else {
        let prev = member_positions(inputs, s, n - 1);
        if input_sig(inputs[n - 1]) == s {
            prev.push(n - 1)
        } else {
            prev
        }
    }
}

pub open spec fn rank_position_from(inputs: Seq<RoleRuleMiningClusterInput>, s: Seq<int>, k: int, j: int) -> int
    decreases s.len() - j,
{
    if j >= s.len() {
        s.len() as int
    } else if member_order(inputs[k], inputs[s[j]]) is Less {
        j
    } else {
        rank_position_from(inputs, s, k, j + 1)
    }
}

/// Member `k` put into the ranked `s` before the first member it ranks
/// before, so that members that rank alike keep their order.
pub open spec fn rank_insert(inputs: Seq<RoleRuleMiningClusterInput>, s: Seq<int>, k: int) -> Seq<int> {
    let q = rank_position_from(inputs, s, k, 0);
    s.take(q).push(k) + s.skip(q)
}

/// The members at `ps`, ranked by `member_order`, a stable sort.
pub open spec fn rank_positions(inputs: Seq<RoleRuleMiningClusterInput>, ps: Seq<int>) -> Seq<int>
    decreases ps.len(),
{
    if ps.len() == 0 {
        Seq::empty()
    } else {
        rank_insert(inputs, rank_positions(inputs, ps.drop_last()), ps.last())
    }
}

// ---------------------------------------------------------------------------
// The cluster key
// ---------------------------------------------------------------------------

pub open spec fn opt_part(o: Option<Seq<char>>) -> Seq<char> {
    match o {
        Some(v) => "+"@ + v,
        None => "-"@,
    }
}

pub open spec fn strs_part(s: Seq<Seq<char>>) -> Seq<char>
    decreases s.len(),
{
    if s.len() == 0 {
        Seq::empty()
    } else {
        strs_part(s.drop_last()) + "["@ + s.last() + "]"@
    }
}

/// The text a cluster key is hashed from: the repository, then the
/// signature's fields in order, separated by `|`.
pub open spec fn key_text(repo_id: Seq<char>, s: SigV) -> Seq<char> {
    repo_id + ":"@ + s.reason + "|"@ + target_kind_db(s.kind) + "|"@ + opt_part(s.prefix) + "|"@ + opt_part(s.language)
        + "|"@ + opt_part(s.canonical_kind) + "|"@ + opt_part(s.file_role) + "|"@ + opt_part(s.analysis_mode) + "|"@
        + opt_part(s.symbol_suffix) + "|"@ + strs_part(s.deps) + "|"@ + strs_part(s.roles)
}

pub open spec fn cluster_key_of(repo_id: Seq<char>, s: SigV) -> Seq<char> {
    "role-rule-cluster:"@ + sha256_hex_of(key_text(repo_id, s))
}

/// Cluster `c` is the one of signature `s`: its key and signature fields,
/// its member count, and the target identifiers of its best-ranked
/// members, at most `max` of them.
pub open spec fn cluster_holds(
    c: RoleRuleMiningCluster,
    repo_id: Seq<char>,
    inputs: Seq<RoleRuleMiningClusterInput>,
    s: SigV,
    max: int,
) -> bool {
    let ranked = rank_positions(inputs, member_positions(inputs, s, inputs.len() as int));
    let n = if max < ranked.len() {
        max
    } else {
        ranked.len() as int
    };
    &&& c.cluster_key@ == cluster_key_of(repo_id, s)
    &&& c.reason_family@ == s.reason
    &&& c.target_kind == s.kind
    &&& opt_view(c.stable_path_prefix) == s.prefix
    &&& opt_view(c.language) == s.language
    &&& opt_view(c.canonical_kind) == s.canonical_kind
    &&& opt_view(c.file_role) == s.file_role
    &&& opt_view(c.analysis_mode) == s.analysis_mode
    &&& opt_view(c.symbol_suffix) == s.symbol_suffix
    &&& views_of(c.dependency_kinds@) == s.deps
    &&& views_of(c.candidate_role_ids@) == s.roles
    &&& c.member_count == ranked.len()
    &&& c.representative_target_ids@.len() == n
    &&& forall|j: int| 0 <= j < n ==> (#[trigger] c.representative_target_ids@[j])@ == target_id_of(inputs[ranked[j]].target@)
}

// ---------------------------------------------------------------------------
// Facts about the grouping
// ---------------------------------------------------------------------------

proof fn lemma_sig_position_from(s: Seq<SigV>, x: SigV, i: int)
    requires
        0 <= i <= s.len(),
    ensures
        i <= sig_position_from(s, x, i) <= s.len(),
    decreases s.len() - i,
{
    if i < s.len() && !(sig_order(x, s[i]) is Less) {
        lemma_sig_position_from(s, x, i + 1);
    }
}

proof fn lemma_insert_sig(s: Seq<SigV>, x: SigV)
    ensures
        0 <= sig_position_from(s, x, 0) <= s.len(),
        insert_sig(s, x).len() == s.len() + 1,
        insert_sig(s, x)[sig_position_from(s, x, 0)] == x,
        forall|i: int| 0 <= i < sig_position_from(s, x, 0) ==> #[trigger] insert_sig(s, x)[i] == s[i],
        forall|i: int| sig_position_from(s, x, 0) < i < s.len() + 1 ==> #[trigger] insert_sig(s, x)[i] == s[i - 1],
        forall|y: SigV| #[trigger] insert_sig(s, x).contains(y) == (s.contains(y) || y == x),
{
    let p = sig_position_from(s, x, 0);
    let r = insert_sig(s, x);
    lemma_sig_position_from(s, x, 0);
    assert forall|i: int| 0 <= i < p implies #[trigger] r[i] == s[i] by {}
    assert forall|i: int| p < i < s.len() + 1 implies #[trigger] r[i] == s[i - 1] by {}
    assert forall|y: SigV| #[trigger] r.contains(y) == (s.contains(y) || y == x) by {
        if r.contains(y) {
            let k = choose|k: int| 0 <= k < r.len() && r[k] == y;
            if k < p {
                assert(s[k] == y);
            } else if k > p {
                assert(s[k - 1] == y);
            }
        }
        if s.contains(y) {
            let k = choose|k: int| 0 <= k < s.len() && s[k] == y;
            if k < p {
                assert(r[k] == y);
            } else {
                assert(r[k + 1] == y);
            }
        }
        if y == x {
            assert(r[p] == y);
        }
    }
}

/// A signature is listed exactly when some input before `n` has it, and
/// none is listed twice.
proof fn lemma_cluster_sigs(inputs: Seq<RoleRuleMiningClusterInput>, n: int)
    requires
        0 <= n <= inputs.len(),
    ensures
        forall|s: SigV| #[trigger] cluster_sigs(inputs, n).contains(s) == (member_positions(inputs, s, n).len() > 0),
        forall|a: int, b: int| 0 <= a < b < cluster_sigs(inputs, n).len() ==> cluster_sigs(inputs, n)[a] != cluster_sigs(
            inputs,
            n,
        )[b],
    decreases n,
{
    if n > 0 {
        lemma_cluster_sigs(inputs, n - 1);
        let prev = cluster_sigs(inputs, n - 1);
        let x = input_sig(inputs[n - 1]);
        lemma_insert_sig(prev, x);
        if !prev.contains(x) {
            let r = insert_sig(prev, x);
            let p = sig_position_from(prev, x, 0);
            assert forall|a: int, b: int| 0 <= a < b < r.len() implies r[a] != r[b] by {
                if a == p {
                    assert(r[b] == prev[b - 1]);
                } else if b == p {
                    assert(r[a] == prev[a]);
                } else {
                    let a2 = if a < p { a } else { a - 1 };
                    let b2 = if b < p { b } else { b - 1 };
                    assert(r[a] == prev[a2] && r[b] == prev[b2]);
                }
            }
        }
    }
}

proof fn lemma_member_positions_bound(inputs: Seq<RoleRuleMiningClusterInput>, s: SigV, n: int)
    requires
        0 <= n,
    ensures
        forall|j: int| 0 <= j < member_positions(inputs, s, n).len() ==> 0 <= #[trigger] member_positions(inputs, s, n)[j] < n,
    decreases n,
{
    if n > 0 {
        lemma_member_positions_bound(inputs, s, n - 1);
        let prev = member_positions(inputs, s, n - 1);
        if input_sig(inputs[n - 1]) == s {
            assert forall|j: int| 0 <= j < prev.push(n - 1).len() implies 0 <= #[trigger] prev.push(n - 1)[j] < n by {
                if j < prev.len() {
                    assert(prev.push(n - 1)[j] == prev[j]);
                }
            }
        }
    }
}

proof fn lemma_rank_position_from(inputs: Seq<RoleRuleMiningClusterInput>, s: Seq<int>, k: int, j: int)
    requires
        0 <= j <= s.len(),
    ensures
        j <= rank_position_from(inputs, s, k, j) <= s.len(),
    decreases s.len() - j,
{
    if j < s.len() && !(member_order(inputs[k], inputs[s[j]]) is Less) {
        lemma_rank_position_from(inputs, s, k, j + 1);
    }
}

// ---------------------------------------------------------------------------
// The executable parts
// ---------------------------------------------------------------------------

fn signature_of(input: &RoleRuleMiningClusterInput) -> (r: ClusterSignature)
    ensures
        sig_view(r) == input_sig(*input),
{
    let r = cluster_signature_from_input(input);
    r.dependency_kinds.ascending_items();
    r.candidate_role_ids.ascending_items();
    proof {
        let v = fact_view_of(fact_views(input.facts@));
        lemma_ascending(r.dependency_kinds@, v.dependency_kinds);
        lemma_ascending(r.candidate_role_ids@, views_of(input.candidate_role_ids@).to_set());
    }
    r
}

fn compare_strs(a: &Vec<String>, b: &Vec<String>) -> (r: Order)
    ensures
        r == strs_order(views_of(a@), views_of(b@)),
{
    let ghost va = views_of(a@);
    let ghost vb = views_of(b@);
    let mut i: usize = 0;
    assert(va.skip(0) =~= va);
    assert(vb.skip(0) =~= vb);
    loop
        invariant
            i <= a@.len(),
            i <= b@.len(),
            va == views_of(a@),
            vb == views_of(b@),
            strs_order(va, vb) == strs_order(va.skip(i as int), vb.skip(i as int)),
        decreases a@.len() - i,
    {
        if i == a.len() {
            if i == b.len() {
                return Order::Equal;
            }
            return Order::Less;
        }
        if i == b.len() {
            return Order::Greater;
        }
        assert(va.skip(i as int).drop_first() =~= va.skip(i + 1));
        assert(vb.skip(i as int).drop_first() =~= vb.skip(i + 1));
        assert(va.skip(i as int)[0] == a@[i as int]@);
        assert(vb.skip(i as int)[0] == b@[i as int]@);
        let o = compare_str(a[i].as_str(), b[i].as_str());
        if !(o == Order::Equal) {
            return o;
        }
        i = i + 1;
    }
}

fn compare_sigs(a: &ClusterSignature, b: &ClusterSignature) -> (r: Order)
    ensures
        r == sig_order(sig_view(*a), sig_view(*b)),
{
    let o = compare_str(a.reason_family.as_str(), b.reason_family.as_str());
    if !(o == Order::Equal) {
        return o;
    }
    let ka: u8 = match a.target_kind {
        TargetKind::File => 0,
        TargetKind::Artefact => 1,
        TargetKind::Symbol => 2,
    };
    let kb: u8 = match b.target_kind {
        TargetKind::File => 0,
        TargetKind::Artefact => 1,
        TargetKind::Symbol => 2,
    };
    if ka < kb {
        return Order::Less;
    }
    if ka > kb {
        return Order::Greater;
    }
    let o = compare_opt(&a.stable_path_prefix, &b.stable_path_prefix);
    if !(o == Order::Equal) {
        return o;
    }
    let o = compare_opt(&a.language, &b.language);
    if !(o == Order::Equal) {
        return o;
    }
    let o = compare_opt(&a.canonical_kind, &b.canonical_kind);
    if !(o == Order::Equal) {
        return o;
    }
    let o = compare_opt(&a.file_role, &b.file_role);
    if !(o == Order::Equal) {
        return o;
    }
    let o = compare_opt(&a.analysis_mode, &b.analysis_mode);
    if !(o == Order::Equal) {
        return o;
    }
    let o = compare_opt(&a.symbol_suffix, &b.symbol_suffix);
    if !(o == Order::Equal) {
        return o;
    }
    let da = a.dependency_kinds.to_vec();
    let db = b.dependency_kinds.to_vec();
    let o = compare_strs(&da, &db);
    if !(o == Order::Equal) {
        return o;
    }
    let ra = a.candidate_role_ids.to_vec();
    let rb = b.candidate_role_ids.to_vec();
    compare_strs(&ra, &rb)
}

pub open spec fn sig_views(v: Seq<ClusterSignature>) -> Seq<SigV> {
    v.map_values(|s: ClusterSignature| sig_view(s))
}

fn sig_position(gs: &Vec<ClusterSignature>, x: &ClusterSignature) -> (p: usize)
    ensures
        p as int == sig_position_from(sig_views(gs@), sig_view(*x), 0),
{
    let ghost s = sig_views(gs@);
    let mut k: usize = 0;
    while k < gs.len()
        invariant
            k <= gs@.len(),
            s == sig_views(gs@),
            sig_position_from(s, sig_view(*x), 0) == sig_position_from(s, sig_view(*x), k as int),
        ensures
            k <= gs@.len(),
            sig_position_from(s, sig_view(*x), 0) == sig_position_from(s, sig_view(*x), k as int),
            k < gs@.len() ==> (sig_order(sig_view(*x), s[k as int]) is Less),
        decreases gs@.len() - k,
    {
        let o = compare_sigs(x, &gs[k]);
        if o == Order::Less {
            break;
        }
        k = k + 1;
    }
    k
}

fn find_sig(gs: &Vec<ClusterSignature>, x: &ClusterSignature) -> (r: Option<usize>)
    ensures
        match r {
            Some(g) => g < gs@.len() && sig_view(gs@[g as int]) == sig_view(*x),
            None => !sig_views(gs@).contains(sig_view(*x)),
        },
{
    let mut k: usize = 0;
    while k < gs.len()
        invariant
            k <= gs@.len(),
            forall|m: int| 0 <= m < k ==> sig_view(gs@[m]) != sig_view(*x),
        decreases gs@.len() - k,
    {
        let o = compare_sigs(x, &gs[k]);
        proof {
            lemma_sig_order_equal(sig_view(*x), sig_view(gs@[k as int]));
        }
        if o == Order::Equal {
            return Some(k);
        }
        k = k + 1;
    }
    proof {
        if sig_views(gs@).contains(sig_view(*x)) {
            let m = choose|m: int| 0 <= m < sig_views(gs@).len() && sig_views(gs@)[m] == sig_view(*x);
            assert(sig_view(gs@[m]) == sig_view(*x));
        }
    }
    None
}

pub open spec fn ints(v: Seq<usize>) -> Seq<int> {
    v.map_values(|x: usize| x as int)
}

fn rank_members(inputs: &Vec<RoleRuleMiningClusterInput>, ps: &Vec<usize>) -> (r: Vec<usize>)
    requires
        forall|j: int| 0 <= j < ps@.len() ==> #[trigger] ps@[j] < inputs@.len(),
    ensures
        ints(r@) == rank_positions(inputs@, ints(ps@)),
        forall|m: int| 0 <= m < r@.len() ==> #[trigger] r@[m] < inputs@.len(),
{
    let ghost all = inputs@;
    let mut ranked: Vec<usize> = Vec::new();
    let mut j: usize = 0;
    assert(ints(ps@).take(0) =~= Seq::<int>::empty());
    assert(ints(ranked@) =~= Seq::<int>::empty());
    while j < ps.len()
        invariant
            j <= ps@.len(),
            all == inputs@,
            forall|m: int| 0 <= m < ps@.len() ==> #[trigger] ps@[m] < inputs@.len(),
            forall|m: int| 0 <= m < ranked@.len() ==> #[trigger] ranked@[m] < inputs@.len(),
            ints(ranked@) == rank_positions(all, ints(ps@).take(j as int)),
        decreases ps@.len() - j,
    {
        let k = ps[j];
        let ghost s = ints(ranked@);
        let mut q: usize = 0;
        while q < ranked.len()
            invariant
                q <= ranked@.len(),
                s == ints(ranked@),
                k < inputs@.len(),
                all == inputs@,
                forall|m: int| 0 <= m < ranked@.len() ==> #[trigger] ranked@[m] < inputs@.len(),
                rank_position_from(all, s, k as int, 0) == rank_position_from(all, s, k as int, q as int),
            ensures
                q <= ranked@.len(),
                rank_position_from(all, s, k as int, 0) == rank_position_from(all, s, k as int, q as int),
                q < ranked@.len() ==> (member_order(all[k as int], all[s[q as int]]) is Less),
            decreases ranked@.len() - q,
        {
            let o = compare_members(&inputs[k], &inputs[ranked[q]]);
            if o == Order::Less {
                break;
            }
            q = q + 1;
        }
        assert(rank_position_from(all, s, k as int, 0) == q);
        ranked.insert(q, k);
        assert(ints(ps@).take(j + 1).drop_last() =~= ints(ps@).take(j as int));
        assert(ints(ps@).take(j + 1).last() == k as int);
        assert(ints(ranked@) =~= rank_insert(all, s, k as int));
        j = j + 1;
    }
    assert(ints(ps@).take(j as int) =~= ints(ps@));
    ranked
}

fn append_opt_part(out: &mut Vec<char>, o: &Option<String>)
    ensures
        final(out)@ == old(out)@ + opt_part(opt_view(*o)),
{
    match o {
        Some(v) => {
            append_chars(out, "+");
            append_chars(out, v.as_str());
        },
        None => append_chars(out, "-"),
    }
}

fn append_strs_part(out: &mut Vec<char>, items: &Vec<String>)
    ensures
        final(out)@ == old(out)@ + strs_part(views_of(items@)),
{
    let ghost start = out@;
    let ghost v = views_of(items@);
    let mut i: usize = 0;
    assert(v.take(0) =~= Seq::<Seq<char>>::empty());
    assert(start + strs_part(v.take(0)) =~= start);
    while i < items.len()
        invariant
            i <= items@.len(),
            v == views_of(items@),
            out@ == start + strs_part(v.take(i as int)),
        decreases items@.len() - i,
    {
        append_chars(out, "[");
        append_chars(out, items[i].as_str());
        append_chars(out, "]");
        assert(v.take(i + 1).drop_last() =~= v.take(i as int));
        assert(v.take(i + 1).last() == items@[i as int]@);
        assert(out@ =~= start + strs_part(v.take(i + 1)));
        i = i + 1;
    }
    assert(v.take(i as int) =~= v);
}

fn cluster_key(repo_id: &str, sig: &ClusterSignature) -> (r: String)
    ensures
        r@ == cluster_key_of(repo_id@, sig_view(*sig)),
{
    let mut t: Vec<char> = Vec::new();
    append_chars(&mut t, repo_id);
    append_chars(&mut t, ":");
    append_chars(&mut t, sig.reason_family.as_str());
    append_chars(&mut t, "|");
    append_chars(&mut t, sig.target_kind.as_db());
    append_chars(&mut t, "|");
    append_opt_part(&mut t, &sig.stable_path_prefix);
    append_chars(&mut t, "|");
    append_opt_part(&mut t, &sig.language);
    append_chars(&mut t, "|");
    append_opt_part(&mut t, &sig.canonical_kind);
    append_chars(&mut t, "|");
    append_opt_part(&mut t, &sig.file_role);
    append_chars(&mut t, "|");
    append_opt_part(&mut t, &sig.analysis_mode);
    append_chars(&mut t, "|");
    append_opt_part(&mut t, &sig.symbol_suffix);
    append_chars(&mut t, "|");
    let deps = sig.dependency_kinds.to_vec();
    append_strs_part(&mut t, &deps);
    append_chars(&mut t, "|");
    let roles = sig.candidate_role_ids.to_vec();
    append_strs_part(&mut t, &roles);
    assert(t@ == key_text(repo_id@, sig_view(*sig)));
    let text = string_from_chars(t.as_slice());
    let digest = sha256_hex(text.as_str());
    let mut k: Vec<char> = Vec::new();
    append_chars(&mut k, "role-rule-cluster:");
    append_chars(&mut k, digest.as_str());
    string_from_chars(k.as_slice())
}

/// Clusters the inputs by signature, in ascending signature order; each
/// names its members' count and the target identifiers of its
/// best-ranked members, at most `max_representatives` of them.
pub fn build_rule_mining_clusters(
    repo_id: &str,
    inputs: Vec<RoleRuleMiningClusterInput>,
    max_representatives: usize,
) -> (r: Vec<RoleRuleMiningCluster>)
    ensures
        r@.len() == cluster_sigs(inputs@, inputs@.len() as int).len(),
        forall|k: int| 0 <= k < r@.len() ==> cluster_holds(
            #[trigger] r@[k],
            repo_id@,
            inputs@,
            cluster_sigs(inputs@, inputs@.len() as int)[k],
            max_representatives as int,
        ),
{
    let ghost all = inputs@;
    let n = inputs.len();
    let mut gs: Vec<ClusterSignature> = Vec::new();
    let mut ms: Vec<Vec<usize>> = Vec::new();
    let mut i: usize = 0;
    assert(sig_views(gs@) =~= cluster_sigs(all, 0));
    while i < n
        invariant
            i <= n,
            n == all.len(),
            all == inputs@,
            gs@.len() == ms@.len(),
            sig_views(gs@) == cluster_sigs(all, i as int),
            forall|g: int| 0 <= g < ms@.len() ==> ints(#[trigger] ms@[g]@) == member_positions(
                all,
                sig_view(gs@[g]),
                i as int,
            ),
        decreases n - i,
    {
        let sig = signature_of(&inputs[i]);
        let ghost x = sig_view(sig);
        let ghost prev = sig_views(gs@);
        proof {
            lemma_cluster_sigs(all, i as int);
        }
        match find_sig(&gs, &sig) {
            Some(g) => {
                let ghost old_ms = ms@;
                assert(prev[g as int] == x);
                let mut v = ms.remove(g);
                v.push(i);
                ms.insert(g, v);
                assert(cluster_sigs(all, i + 1) == prev);
                assert forall|h: int| 0 <= h < ms@.len() implies ints(#[trigger] ms@[h]@) == member_positions(
                    all,
                    sig_view(gs@[h]),
                    i + 1,
                ) by {
                    if h == g {
                        assert(ints(ms@[h]@) =~= ints(old_ms[h]@).push(i as int));
                    } else {
                        assert(ms@[h] == old_ms[h]);
                        assert(prev[h] != prev[g as int]);
                        assert(prev[h] == sig_view(gs@[h]));
                    }
                }
            },
            None => {
                proof {
                    lemma_insert_sig(prev, x);
                }
                let p = sig_position(&gs, &sig);
                let ghost old_ms = ms@;
                let ghost old_gs = gs@;
                gs.insert(p, sig);
                let mut v: Vec<usize> = Vec::new();
                v.push(i);
                ms.insert(p, v);
                assert(cluster_sigs(all, i + 1) == insert_sig(prev, x));
                assert(sig_views(gs@) =~= insert_sig(prev, x));
                assert(member_positions(all, x, i as int).len() == 0);
                assert forall|h: int| 0 <= h < ms@.len() implies ints(#[trigger] ms@[h]@) == member_positions(
                    all,
                    sig_view(gs@[h]),
                    i + 1,
                ) by {
                    if h < p {
                        assert(ms@[h] == old_ms[h] && gs@[h] == old_gs[h]);
                        assert(prev[h] == sig_view(old_gs[h]));
                    } else if h > p {
                        assert(ms@[h] == old_ms[h - 1] && gs@[h] == old_gs[h - 1]);
                        assert(prev[h - 1] == sig_view(old_gs[h - 1]));
                    } else {
                        assert(ints(ms@[h]@) =~= seq![i as int]);
                        assert(member_positions(all, x, i as int) =~= Seq::<int>::empty());
                    }
                }
            },
        }
        i = i + 1;
    }
    let mut out: Vec<RoleRuleMiningCluster> = Vec::new();
    let mut k: usize = 0;
    while k < gs.len()
        invariant
            k <= gs@.len(),
            gs@.len() == ms@.len(),
            n == all.len(),
            all == inputs@,
            sig_views(gs@) == cluster_sigs(all, n as int),
            forall|g: int| 0 <= g < ms@.len() ==> ints(#[trigger] ms@[g]@) == member_positions(
                all,
                sig_view(gs@[g]),
                n as int,
            ),
            out@.len() == k,
            forall|c: int| 0 <= c < k ==> cluster_holds(
                #[trigger] out@[c],
                repo_id@,
                all,
                cluster_sigs(all, n as int)[c],
                max_representatives as int,
            ),
        decreases gs@.len() - k,
    {
        let sig = &gs[k];
        let ghost s = sig_view(*sig);
        assert(sig_views(gs@)[k as int] == s);
        proof {
            lemma_member_positions_bound(all, s, n as int);
        }
        assert forall|j: int| 0 <= j < ms@[k as int]@.len() implies #[trigger] ms@[k as int]@[j] < inputs@.len() by {
            assert(ints(ms@[k as int]@)[j] == member_positions(all, s, n as int)[j]);
        }
        let ranked = rank_members(&inputs, &ms[k]);
        let ghost rk = rank_positions(all, member_positions(all, s, n as int));
        assert(ints(ranked@) == rk);
        let count = ranked.len();
        let take = if max_representatives < count {
            max_representatives
        } else {
            count
        };
        let mut reps: Vec<String> = Vec::new();
        let mut t: usize = 0;
        while t < take
            invariant
                t <= take,
                take <= ranked@.len(),
                ints(ranked@) == rk,
                all == inputs@,
                forall|m: int| 0 <= m < ranked@.len() ==> #[trigger] ranked@[m] < inputs@.len(),
                reps@.len() == t,
                forall|j: int| 0 <= j < t ==> (#[trigger] reps@[j])@ == target_id_of(all[rk[j]].target@),
            decreases take - t,
        {
            assert(rk[t as int] == ranked@[t as int] as int);
            reps.push(target_id(&inputs[ranked[t]]));
            t = t + 1;
        }
        let dependency_kinds = sig.dependency_kinds.to_vec();
        let candidate_role_ids = sig.candidate_role_ids.to_vec();
        let cluster = RoleRuleMiningCluster {
            cluster_key: cluster_key(repo_id, sig),
            reason_family: sig.reason_family.clone(),
            target_kind: sig.target_kind,
            stable_path_prefix: clone_opt(&sig.stable_path_prefix),
            language: clone_opt(&sig.language),
            canonical_kind: clone_opt(&sig.canonical_kind),
            file_role: clone_opt(&sig.file_role),
            analysis_mode: clone_opt(&sig.analysis_mode),
            symbol_suffix: clone_opt(&sig.symbol_suffix),
            dependency_kinds,
            candidate_role_ids,
            representative_target_ids: reps,
            member_count: count,
        };
        out.push(cluster);
        k = k + 1;
    }
    out
}

} // verus!
