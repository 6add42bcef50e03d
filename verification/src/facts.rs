//! Facts observed about one role target: the seeds each record yields, the
//! identity of a fact, and the code that turns seeds into facts.
use vstd::prelude::*;

use crate::hashing::{sha256_hex, sha256_hex_of};
use crate::model::{
    fact_views, opt_view, target_kind_db, ArchitectureArtefactFact, FactV, RoleTarget, TargetKind, TargetV,
};
use crate::model::{CurrentCanonicalArtefactRecord, CurrentCanonicalFileRecord};
use crate::text::{
    after_last, after_last_pat, chars_after_last, chars_after_last_pat, chars_eq, chars_of,
    contains, ends_with, is_blank, join, join_chars, owned, segments, split_segments,
    is_ws, str_contains, str_ends_with, string_from_chars, trim, views,
};

verus! {

/// What a fact is about and where it comes from, shared by all the facts of
/// one record.
pub struct ContextV {
    pub repo_id: Seq<char>,
    pub generation_seq: u64,
    pub target: TargetV,
    pub language: Option<Seq<char>>,
}

/// One candidate fact before its identity is computed.
pub struct SeedV {
    pub kind: Seq<char>,
    pub key: Seq<char>,
    pub value: Seq<char>,
    pub source: Seq<char>,
    pub confidence_permille: u32,
}

pub open spec fn seed(
    kind: Seq<char>,
    key: Seq<char>,
    value: Seq<char>,
    source: Seq<char>,
    confidence_permille: u32,
) -> SeedV {
    SeedV { kind, key, value, source, confidence_permille }
}

pub open spec fn opt_text(o: Option<Seq<char>>) -> Seq<char> {
    match o {
        Some(s) => s,
        None => Seq::empty(),
    }
}

/// The separator between the parts hashed into a fact identity.
pub open spec fn id_separator() -> Seq<char> {
    seq!['\u{1f}']
}

/// The identity of a fact: a hash over the repository, the target and the
/// fact's kind, key and value.
pub open spec fn fact_id_of(
    repo_id: Seq<char>,
    target: TargetV,
    kind: Seq<char>,
    key: Seq<char>,
    value: Seq<char>,
) -> Seq<char> {
    "role-fact:"@ + sha256_hex_of(
        join(
            seq![
                repo_id,
                target_kind_db(target.kind),
                opt_text(target.artefact_id),
                opt_text(target.symbol_id),
                target.path,
                kind,
                key,
                value,
            ],
            id_separator(),
        ),
    )
}

pub open spec fn fact_of(ctx: ContextV, s: SeedV) -> FactV {
    FactV {
        repo_id: ctx.repo_id,
        fact_id: fact_id_of(ctx.repo_id, ctx.target, s.kind, s.key, s.value),
        target: ctx.target,
        language: ctx.language,
        kind: s.kind,
        key: s.key,
        value: s.value,
        source: s.source,
        confidence_permille: s.confidence_permille,
        generation_seq: ctx.generation_seq,
    }
}

/// The facts of a list of seeds: seeds whose value is blank are dropped.
pub open spec fn emit(ctx: ContextV, seeds: Seq<SeedV>) -> Seq<FactV>
    decreases seeds.len(),
{
    if seeds.len() == 0 {
        Seq::empty()
    } else {
        emit(ctx, seeds.drop_last()) + if trim(seeds.last().value).len() == 0 {
            Seq::empty()
        } else {
            seq![fact_of(ctx, seeds.last())]
        }
    }
}

pub proof fn lemma_emit_append(ctx: ContextV, a: Seq<SeedV>, b: Seq<SeedV>)
    ensures
        emit(ctx, a + b) == emit(ctx, a) + emit(ctx, b),
    decreases b.len(),
{
    if b.len() == 0 {
        assert(a + b =~= a);
        assert(emit(ctx, a) + emit(ctx, b) =~= emit(ctx, a));
    } else {
        lemma_emit_append(ctx, a, b.drop_last());
        assert((a + b).drop_last() =~= a + b.drop_last());
        assert((a + b).last() == b.last());
        let tail = if trim(b.last().value).len() == 0 {
            Seq::<FactV>::empty()
        } else {
            seq![fact_of(ctx, b.last())]
        };
        assert(emit(ctx, a) + emit(ctx, b.drop_last()) + tail =~= emit(ctx, a) + (emit(
            ctx,
            b.drop_last(),
        ) + tail));
    }
}

pub proof fn lemma_emit_one(ctx: ContextV, s: SeedV)
    ensures
        emit(ctx, seq![s]) == if trim(s.value).len() == 0 {
            Seq::<FactV>::empty()
        } else {
            seq![fact_of(ctx, s)]
        },
{
    assert(seq![s].drop_last() =~= Seq::<SeedV>::empty());
    assert(emit(ctx, Seq::<SeedV>::empty()) == Seq::<FactV>::empty());
    assert(emit(ctx, seq![s]) =~= emit(ctx, Seq::<SeedV>::empty()) + if trim(s.value).len() == 0 {
        Seq::<FactV>::empty()
    } else {
        seq![fact_of(ctx, s)]
    });
}

/// The shared part of the facts of one record.
pub struct FactContext {
    pub repo_id: String,
    pub generation_seq: u64,
    pub target: RoleTarget,
    pub language: Option<String>,
}

impl View for FactContext {
    type V = ContextV;

    open spec fn view(&self) -> ContextV {
        ContextV {
            repo_id: self.repo_id@,
            generation_seq: self.generation_seq,
            target: self.target@,
            language: opt_view(self.language),
        }
    }
}

fn opt_chars(o: &Option<String>) -> (r: Vec<char>)
    ensures
        r@ == opt_text(opt_view(*o)),
{
    match o {
        Some(s) => chars_of(s.as_str()),
        None => Vec::new(),
    }
}

/// The identity of the fact `kind`/`key`/`value` about `target`.
pub fn fact_id(repo_id: &str, target: &RoleTarget, kind: &str, key: &str, value: &str) -> (r:
    String)
    ensures
        r@ == fact_id_of(repo_id@, target@, kind@, key@, value@),
{
    let mut parts: Vec<Vec<char>> = Vec::new();
    parts.push(chars_of(repo_id));
    parts.push(chars_of(target.target_kind.as_db()));
    parts.push(opt_chars(&target.artefact_id));
    parts.push(opt_chars(&target.symbol_id));
    parts.push(chars_of(target.path.as_str()));
    parts.push(chars_of(kind));
    parts.push(chars_of(key));
    parts.push(chars_of(value));
    let mut sep: Vec<char> = Vec::new();
    sep.push('\u{1f}');
    assert(sep@ =~= id_separator());
    let joined = join_chars(&parts, sep.as_slice());
    assert(views(parts@) =~= seq![
        repo_id@,
        target_kind_db(target@.kind),
        opt_text(target@.artefact_id),
        opt_text(target@.symbol_id),
        target@.path,
        kind@,
        key@,
        value@,
    ]);
    let text = string_from_chars(joined.as_slice());
    let digest = sha256_hex(text.as_str());
    let mut id = owned("role-fact:");
    id.append(digest.as_str());
    id
}

/// Appends the fact of one seed, unless its value is blank.
pub fn push_fact(
    ctx: &FactContext,
    kind: &str,
    key: &str,
    value: &str,
    source: &str,
    confidence_permille: u32,
    out: &mut Vec<ArchitectureArtefactFact>,
)
    ensures
        fact_views(final(out)@) == fact_views(old(out)@) + emit(
            ctx@,
            seq![seed(kind@, key@, value@, source@, confidence_permille)],
        ),
{
    let ghost s = seed(kind@, key@, value@, source@, confidence_permille);
    proof {
        lemma_emit_one(ctx@, s);
    }
    if is_blank(value) {
        assert(fact_views(out@) + emit(ctx@, seq![s]) =~= fact_views(out@));
        return ;
    }
    let fact = ArchitectureArtefactFact {
        repo_id: owned(ctx.repo_id.as_str()),
        fact_id: fact_id(ctx.repo_id.as_str(), &ctx.target, kind, key, value),
        target: ctx.target.duplicate(),
        language: crate::model::clone_opt(&ctx.language),
        fact_kind: owned(kind),
        fact_key: owned(key),
        fact_value: owned(value),
        source: owned(source),
        confidence_permille,
        generation_seq: ctx.generation_seq,
    };
    assert(fact@ == fact_of(ctx@, s));
    let ghost before = out@;
    out.push(fact);
    assert(fact_views(out@) =~= fact_views(before).push(fact_of(ctx@, s)));
    assert(emit(ctx@, seq![s]) =~= seq![fact_of(ctx@, s)]);
}


/// Appending the facts of `more` to a list that already ends with the facts
/// of `prefix`.
pub proof fn lemma_emit_extend(
    ctx: ContextV,
    base: Seq<FactV>,
    prefix: Seq<SeedV>,
    more: Seq<SeedV>,
)
    ensures
        base + emit(ctx, prefix) + emit(ctx, more) == base + emit(ctx, prefix + more),
{
    lemma_emit_append(ctx, prefix, more);
    assert(base + emit(ctx, prefix) + emit(ctx, more) =~= base + (emit(ctx, prefix) + emit(
        ctx,
        more,
    )));
}

// ---------------------------------------------------------------------------
// Seeds of a path, of a language, of a file and of an artefact
// ---------------------------------------------------------------------------

pub open spec fn segment_seeds(segs: Seq<Seq<char>>, source: Seq<char>) -> Seq<SeedV> {
    segs.map_values(|x: Seq<char>| seed("path"@, "segment"@, x, source, 950))
}

/// The full path, its extension (what follows the last `.`, when there is
/// a `.`), and each non-empty `/`-separated segment.
pub open spec fn path_seeds(path: Seq<char>, source: Seq<char>) -> Seq<SeedV> {
    seq![seed("path"@, "full"@, path, source, 1000)] + (if after_last(path, '.') != path {
        seq![seed("path"@, "extension"@, after_last(path, '.'), source, 1000)]
    } else {
        Seq::empty()
    }) + segment_seeds(segments(path, '/'), source)
}

pub open spec fn language_seeds(
    declared: Seq<char>,
    resolved: Seq<char>,
    source: Seq<char>,
) -> Seq<SeedV> {
    seq![
        seed("language"@, "declared"@, declared, source, 1000),
        seed("language"@, "resolved"@, resolved, source, 1000),
    ]
}

pub open spec fn file_context(repo_id: Seq<char>, generation_seq: u64, f: CurrentCanonicalFileRecord) -> ContextV {
    ContextV {
        repo_id,
        generation_seq,
        target: TargetV { kind: TargetKind::File, artefact_id: None, symbol_id: None, path: f.path@ },
        language: Some(f.resolved_language@),
    }
}

pub open spec fn file_seeds(f: CurrentCanonicalFileRecord) -> Seq<SeedV> {
    path_seeds(f.path@, "canonical_file"@) + language_seeds(
        f.language@,
        f.resolved_language@,
        "canonical_file"@,
    ) + seq![
        seed("file"@, "analysis_mode"@, f.analysis_mode@, "canonical_file"@, 1000),
        seed("file"@, "role"@, f.file_role@, "canonical_file"@, 1000),
    ]
}

/// The facts of one file of the snapshot.
pub open spec fn file_facts(repo_id: Seq<char>, generation_seq: u64, f: CurrentCanonicalFileRecord) -> Seq<FactV> {
    emit(file_context(repo_id, generation_seq, f), file_seeds(f))
}

pub open spec fn opt_seed(
    kind: Seq<char>,
    key: Seq<char>,
    o: Option<Seq<char>>,
    source: Seq<char>,
    confidence_permille: u32,
) -> Seq<SeedV> {
    match o {
        Some(v) => seq![seed(kind, key, v, source, confidence_permille)],
        None => Seq::empty(),
    }
}

/// The name of a symbol: the last `::`-separated part of its qualified
/// name, then the last `.`-separated part of that, unless blank.
pub open spec fn symbol_name_of(fqn: Seq<char>) -> Option<Seq<char>> {
    let name = after_last(after_last_pat(fqn, "::"@), '.');
    if trim(name).len() == 0 {
        None
    } else {
        Some(name)
    }
}

pub open spec fn suffix_seed(name: Seq<char>, suffix: Seq<char>) -> Seq<SeedV> {
    if ends_with(name, suffix) {
        seq![seed("symbol"@, "name_suffix"@, suffix, "canonical_artefact"@, 900)]
    } else {
        Seq::empty()
    }
}

/// The conventional suffixes a symbol name ends with.
pub open spec fn suffix_seeds(name: Seq<char>) -> Seq<SeedV> {
    suffix_seed(name, "Command"@) + suffix_seed(name, "Handler"@) + suffix_seed(name, "Store"@)
        + suffix_seed(name, "Repository"@) + suffix_seed(name, "Controller"@) + suffix_seed(
        name,
        "Consumer"@,
    )
}

pub open spec fn fqn_seeds(fqn: Option<Seq<char>>) -> Seq<SeedV> {
    match fqn {
        None => Seq::empty(),
        Some(q) => seq![seed("symbol"@, "fqn"@, q, "canonical_artefact"@, 1000)] + match symbol_name_of(q) {
            None => Seq::empty(),
            Some(n) => seq![seed("symbol"@, "name"@, n, "canonical_artefact"@, 1000)] + suffix_seeds(n),
        },
    }
}

pub open spec fn token_seed(signature: Seq<char>, token: Seq<char>) -> Seq<SeedV> {
    if contains(signature, token) {
        seq![seed("signature"@, "contains"@, token, "canonical_artefact"@, 750)]
    } else {
        Seq::empty()
    }
}

pub open spec fn signature_seeds(signature: Option<Seq<char>>) -> Seq<SeedV> {
    match signature {
        None => Seq::empty(),
        Some(sig) => seq![seed("symbol"@, "has_signature"@, "true"@, "canonical_artefact"@, 1000)]
            + token_seed(sig, "async"@) + token_seed(sig, "Result"@) + token_seed(sig, "Command"@)
            + token_seed(sig, "Context"@),
    }
}

pub open spec fn artefact_target(a: CurrentCanonicalArtefactRecord) -> TargetV {
    TargetV {
        kind: TargetKind::Artefact,
        artefact_id: Some(a.artefact_id@),
        symbol_id: Some(a.symbol_id@),
        path: a.path@,
    }
}

pub open spec fn artefact_context(repo_id: Seq<char>, generation_seq: u64, a: CurrentCanonicalArtefactRecord) -> ContextV {
    ContextV { repo_id, generation_seq, target: artefact_target(a), language: Some(a.language@) }
}

pub open spec fn artefact_seeds(a: CurrentCanonicalArtefactRecord) -> Seq<SeedV> {
    path_seeds(a.path@, "canonical_artefact"@) + language_seeds(
        a.language@,
        a.language@,
        "canonical_artefact"@,
    ) + opt_seed(
        "artefact"@,
        "canonical_kind"@,
        opt_view(a.canonical_kind),
        "canonical_artefact"@,
        1000,
    ) + opt_seed("artefact"@, "language_kind"@, opt_view(a.language_kind), "canonical_artefact"@, 1000)
        + fqn_seeds(opt_view(a.symbol_fqn)) + signature_seeds(opt_view(a.signature)) + opt_seed(
        "artefact"@,
        "has_parent_artefact"@,
        opt_view(a.parent_artefact_id),
        "canonical_artefact"@,
        1000,
    )
}

/// The facts of one artefact, before its dependency facts.
pub open spec fn artefact_facts(repo_id: Seq<char>, generation_seq: u64, a: CurrentCanonicalArtefactRecord) -> Seq<FactV> {
    emit(artefact_context(repo_id, generation_seq, a), artefact_seeds(a))
}

pub fn add_path_facts(ctx: &FactContext, path: &str, source: &str, out: &mut Vec<ArchitectureArtefactFact>)
    ensures
        fact_views(final(out)@) == fact_views(old(out)@) + emit(ctx@, path_seeds(path@, source@)),
{
    let ghost base = fact_views(out@);
    let ghost head = seq![seed("path"@, "full"@, path@, source@, 1000)];
    push_fact(ctx, "path", "full", path, source, 1000, out);
    let pc = chars_of(path);
    let ext = chars_after_last(pc.as_slice(), '.');
    let ghost ext_seeds = if after_last(path@, '.') != path@ {
        seq![seed("path"@, "extension"@, after_last(path@, '.'), source@, 1000)]
    } else {
        Seq::<SeedV>::empty()
    };
    if !chars_eq(ext.as_slice(), pc.as_slice()) {
        let e = string_from_chars(ext.as_slice());
        push_fact(ctx, "path", "extension", e.as_str(), source, 1000, out);
    } else {
        assert(emit(ctx@, ext_seeds) == Seq::<FactV>::empty());
        assert(fact_views(out@) =~= fact_views(out@) + emit(ctx@, ext_seeds));
    }
    proof {
        lemma_emit_extend(ctx@, base, head, ext_seeds);
    }
    let ghost done = head + ext_seeds;
    let segs = split_segments(pc.as_slice(), '/');
    let mut i: usize = 0;
    while i < segs.len()
        invariant
            i <= segs@.len(),
            views(segs@) == segments(path@, '/'),
            fact_views(out@) == base + emit(ctx@, done + segment_seeds(views(segs@).take(i as int), source@)),
        decreases segs@.len() - i,
    {
        let x = string_from_chars(segs[i].as_slice());
        let ghost before = fact_views(out@);
        push_fact(ctx, "path", "segment", x.as_str(), source, 950, out);
        proof {
            let prefix = done + segment_seeds(views(segs@).take(i as int), source@);
            let one = seq![seed("path"@, "segment"@, x@, source@, 950)];
            lemma_emit_extend(ctx@, base, prefix, one);
            assert(views(segs@)[i as int] == x@);
            assert(prefix + one =~= done + segment_seeds(views(segs@).take(i + 1), source@));
        }
        i = i + 1;
    }
    assert(views(segs@).take(segs@.len() as int) =~= views(segs@));
    assert(done + segment_seeds(segments(path@, '/'), source@) =~= path_seeds(path@, source@));
}

pub fn add_language_facts(
    ctx: &FactContext,
    declared_language: &str,
    resolved_language: &str,
    source: &str,
    out: &mut Vec<ArchitectureArtefactFact>,
)
    ensures
        fact_views(final(out)@) == fact_views(old(out)@) + emit(
            ctx@,
            language_seeds(declared_language@, resolved_language@, source@),
        ),
{
    let ghost base = fact_views(out@);
    push_fact(ctx, "language", "declared", declared_language, source, 1000, out);
    push_fact(ctx, "language", "resolved", resolved_language, source, 1000, out);
    proof {
        let a = seq![seed("language"@, "declared"@, declared_language@, source@, 1000)];
        let b = seq![seed("language"@, "resolved"@, resolved_language@, source@, 1000)];
        lemma_emit_extend(ctx@, base, a, b);
        assert(a + b =~= language_seeds(declared_language@, resolved_language@, source@));
    }
}

pub fn add_file_facts(
    repo_id: &str,
    generation_seq: u64,
    file: &CurrentCanonicalFileRecord,
    out: &mut Vec<ArchitectureArtefactFact>,
)
    ensures
        fact_views(final(out)@) == fact_views(old(out)@) + file_facts(repo_id@, generation_seq, *file),
{
    let ghost base = fact_views(out@);
    let ctx = FactContext {
        repo_id: owned(repo_id),
        generation_seq,
        target: RoleTarget::file(file.path.clone()),
        language: Some(file.resolved_language.clone()),
    };
    assert(ctx@ == file_context(repo_id@, generation_seq, *file));
    let ghost p = path_seeds(file.path@, "canonical_file"@);
    let ghost l = language_seeds(file.language@, file.resolved_language@, "canonical_file"@);
    let ghost m = seq![seed("file"@, "analysis_mode"@, file.analysis_mode@, "canonical_file"@, 1000)];
    let ghost r = seq![seed("file"@, "role"@, file.file_role@, "canonical_file"@, 1000)];
    add_path_facts(&ctx, file.path.as_str(), "canonical_file", out);
    assert(emit(ctx@, Seq::<SeedV>::empty()) == Seq::<FactV>::empty());
    assert(Seq::<SeedV>::empty() + p =~= p);
    assert(base =~= base + emit(ctx@, Seq::<SeedV>::empty()));
    add_language_facts(&ctx, file.language.as_str(), file.resolved_language.as_str(), "canonical_file", out);
    proof { lemma_emit_extend(ctx@, base, p, l); }
    push_fact(&ctx, "file", "analysis_mode", file.analysis_mode.as_str(), "canonical_file", 1000, out);
    proof { lemma_emit_extend(ctx@, base, p + l, m); }
    push_fact(&ctx, "file", "role", file.file_role.as_str(), "canonical_file", 1000, out);
    proof {
        lemma_emit_extend(ctx@, base, p + l + m, r);
        assert(p + l + m + r =~= file_seeds(*file));
    }
}


pub fn add_opt_fact(
    ctx: &FactContext,
    kind: &str,
    key: &str,
    value: &Option<String>,
    source: &str,
    confidence_permille: u32,
    out: &mut Vec<ArchitectureArtefactFact>,
)
    ensures
        fact_views(final(out)@) == fact_views(old(out)@) + emit(
            ctx@,
            opt_seed(kind@, key@, opt_view(*value), source@, confidence_permille),
        ),
{
    match value {
        Some(v) => push_fact(ctx, kind, key, v.as_str(), source, confidence_permille, out),
        None => {
            assert(emit(ctx@, Seq::<SeedV>::empty()) == Seq::<FactV>::empty());
            assert(fact_views(out@) =~= fact_views(out@) + Seq::<FactV>::empty());
        },
    }
}

/// The name of a symbol from its qualified name.
pub fn symbol_name_from_fqn(symbol_fqn: &str) -> (r: Option<String>)
    ensures
        opt_view(r) == symbol_name_of(symbol_fqn@),
{
    let q = chars_of(symbol_fqn);
    let sep = chars_of("::");
    let after = chars_after_last_pat(q.as_slice(), sep.as_slice());
    let name = chars_after_last(after.as_slice(), '.');
    let text = string_from_chars(name.as_slice());
    if is_blank(text.as_str()) {
        None
    } else {
        Some(text)
    }
}

fn add_suffix_fact(ctx: &FactContext, name: &str, suffix: &str, out: &mut Vec<ArchitectureArtefactFact>)
    ensures
        fact_views(final(out)@) == fact_views(old(out)@) + emit(ctx@, suffix_seed(name@, suffix@)),
{
    if str_ends_with(name, suffix) {
        push_fact(ctx, "symbol", "name_suffix", suffix, "canonical_artefact", 900, out);
    } else {
        assert(emit(ctx@, Seq::<SeedV>::empty()) == Seq::<FactV>::empty());
        assert(fact_views(out@) =~= fact_views(out@) + Seq::<FactV>::empty());
    }
}

fn add_token_fact(ctx: &FactContext, signature: &str, token: &str, out: &mut Vec<ArchitectureArtefactFact>)
    ensures
        fact_views(final(out)@) == fact_views(old(out)@) + emit(ctx@, token_seed(signature@, token@)),
{
    if str_contains(signature, token) {
        push_fact(ctx, "signature", "contains", token, "canonical_artefact", 750, out);
    } else {
        assert(emit(ctx@, Seq::<SeedV>::empty()) == Seq::<FactV>::empty());
        assert(fact_views(out@) =~= fact_views(out@) + Seq::<FactV>::empty());
    }
}

#[verifier::spinoff_prover]
#[verifier::rlimit(40)]
fn add_name_facts(ctx: &FactContext, name: &str, out: &mut Vec<ArchitectureArtefactFact>)
    ensures
        fact_views(final(out)@) == fact_views(old(out)@) + emit(
            ctx@,
            seq![seed("symbol"@, "name"@, name@, "canonical_artefact"@, 1000)] + suffix_seeds(name@),
        ),
{
    let ghost base = fact_views(out@);
    let ghost n = name@;
    let ghost s0 = seq![seed("symbol"@, "name"@, n, "canonical_artefact"@, 1000)];
    push_fact(ctx, "symbol", "name", name, "canonical_artefact", 1000, out);
    add_suffix_fact(ctx, name, "Command", out);
    proof { lemma_emit_extend(ctx@, base, s0, suffix_seed(n, "Command"@)); }
    let ghost s1 = s0 + suffix_seed(n, "Command"@);
    add_suffix_fact(ctx, name, "Handler", out);
    proof { lemma_emit_extend(ctx@, base, s1, suffix_seed(n, "Handler"@)); }
    let ghost s2 = s1 + suffix_seed(n, "Handler"@);
    add_suffix_fact(ctx, name, "Store", out);
    proof { lemma_emit_extend(ctx@, base, s2, suffix_seed(n, "Store"@)); }
    let ghost s3 = s2 + suffix_seed(n, "Store"@);
    add_suffix_fact(ctx, name, "Repository", out);
    proof { lemma_emit_extend(ctx@, base, s3, suffix_seed(n, "Repository"@)); }
    let ghost s4 = s3 + suffix_seed(n, "Repository"@);
    add_suffix_fact(ctx, name, "Controller", out);
    proof { lemma_emit_extend(ctx@, base, s4, suffix_seed(n, "Controller"@)); }
    let ghost s5 = s4 + suffix_seed(n, "Controller"@);
    add_suffix_fact(ctx, name, "Consumer", out);
    proof {
        lemma_emit_extend(ctx@, base, s5, suffix_seed(n, "Consumer"@));
        assert(s5 + suffix_seed(n, "Consumer"@) =~= s0 + suffix_seeds(n));
    }
}

fn add_fqn_facts(ctx: &FactContext, symbol_fqn: &Option<String>, out: &mut Vec<ArchitectureArtefactFact>)
    ensures
        fact_views(final(out)@) == fact_views(old(out)@) + emit(ctx@, fqn_seeds(opt_view(*symbol_fqn))),
{
    match symbol_fqn {
        None => {
            assert(emit(ctx@, Seq::<SeedV>::empty()) == Seq::<FactV>::empty());
            assert(fact_views(out@) =~= fact_views(out@) + Seq::<FactV>::empty());
        },
        Some(q) => {
            let ghost base = fact_views(out@);
            let ghost head = seq![seed("symbol"@, "fqn"@, q@, "canonical_artefact"@, 1000)];
            push_fact(ctx, "symbol", "fqn", q.as_str(), "canonical_artefact", 1000, out);
            match symbol_name_from_fqn(q.as_str()) {
                None => {
                    assert(head + Seq::<SeedV>::empty() =~= head);
                },
                Some(n) => {
                    add_name_facts(ctx, n.as_str(), out);
                    proof {
                        lemma_emit_extend(
                            ctx@,
                            base,
                            head,
                            seq![seed("symbol"@, "name"@, n@, "canonical_artefact"@, 1000)] + suffix_seeds(n@),
                        );
                    }
                },
            }
        },
    }
}

fn add_signature_facts(ctx: &FactContext, signature: &Option<String>, out: &mut Vec<ArchitectureArtefactFact>)
    ensures
        fact_views(final(out)@) == fact_views(old(out)@) + emit(ctx@, signature_seeds(opt_view(*signature))),
{
    match signature {
        None => {
            assert(emit(ctx@, Seq::<SeedV>::empty()) == Seq::<FactV>::empty());
            assert(fact_views(out@) =~= fact_views(out@) + Seq::<FactV>::empty());
        },
        Some(sig) => {
            let ghost base = fact_views(out@);
            let ghost g = sig@;
            let ghost s0 = seq![seed("symbol"@, "has_signature"@, "true"@, "canonical_artefact"@, 1000)];
            push_fact(ctx, "symbol", "has_signature", "true", "canonical_artefact", 1000, out);
            add_token_fact(ctx, sig.as_str(), "async", out);
            proof { lemma_emit_extend(ctx@, base, s0, token_seed(g, "async"@)); }
            let ghost s1 = s0 + token_seed(g, "async"@);
            add_token_fact(ctx, sig.as_str(), "Result", out);
            proof { lemma_emit_extend(ctx@, base, s1, token_seed(g, "Result"@)); }
            let ghost s2 = s1 + token_seed(g, "Result"@);
            add_token_fact(ctx, sig.as_str(), "Command", out);
            proof { lemma_emit_extend(ctx@, base, s2, token_seed(g, "Command"@)); }
            let ghost s3 = s2 + token_seed(g, "Command"@);
            add_token_fact(ctx, sig.as_str(), "Context", out);
            proof {
                lemma_emit_extend(ctx@, base, s3, token_seed(g, "Context"@));
                assert(s3 + token_seed(g, "Context"@) =~= signature_seeds(opt_view(*signature)));
            }
        },
    }
}

/// The context of the facts of one artefact.
pub fn artefact_fact_context(repo_id: &str, generation_seq: u64, artefact: &CurrentCanonicalArtefactRecord) -> (r: FactContext)
    ensures
        r@ == artefact_context(repo_id@, generation_seq, *artefact),
{
    FactContext {
        repo_id: owned(repo_id),
        generation_seq,
        target: RoleTarget::artefact(
            artefact.artefact_id.clone(),
            artefact.symbol_id.clone(),
            artefact.path.clone(),
        ),
        language: Some(artefact.language.clone()),
    }
}

pub fn add_artefact_facts(
    repo_id: &str,
    generation_seq: u64,
    artefact: &CurrentCanonicalArtefactRecord,
    out: &mut Vec<ArchitectureArtefactFact>,
)
    ensures
        fact_views(final(out)@) == fact_views(old(out)@) + artefact_facts(repo_id@, generation_seq, *artefact),
{
    let ghost base = fact_views(out@);
    let a = artefact;
    let ctx = artefact_fact_context(repo_id, generation_seq, a);
    let ghost ca = "canonical_artefact"@;
    let ghost p = path_seeds(a.path@, ca);
    let ghost l = language_seeds(a.language@, a.language@, ca);
    let ghost k1 = opt_seed("artefact"@, "canonical_kind"@, opt_view(a.canonical_kind), ca, 1000);
    let ghost k2 = opt_seed("artefact"@, "language_kind"@, opt_view(a.language_kind), ca, 1000);
    let ghost q = fqn_seeds(opt_view(a.symbol_fqn));
    let ghost g = signature_seeds(opt_view(a.signature));
    let ghost k3 = opt_seed("artefact"@, "has_parent_artefact"@, opt_view(a.parent_artefact_id), ca, 1000);
    add_path_facts(&ctx, a.path.as_str(), "canonical_artefact", out);
    add_language_facts(&ctx, a.language.as_str(), a.language.as_str(), "canonical_artefact", out);
    proof { lemma_emit_extend(ctx@, base, p, l); }
    add_opt_fact(&ctx, "artefact", "canonical_kind", &a.canonical_kind, "canonical_artefact", 1000, out);
    proof { lemma_emit_extend(ctx@, base, p + l, k1); }
    add_opt_fact(&ctx, "artefact", "language_kind", &a.language_kind, "canonical_artefact", 1000, out);
    proof { lemma_emit_extend(ctx@, base, p + l + k1, k2); }
    add_fqn_facts(&ctx, &a.symbol_fqn, out);
    proof { lemma_emit_extend(ctx@, base, p + l + k1 + k2, q); }
    add_signature_facts(&ctx, &a.signature, out);
    proof { lemma_emit_extend(ctx@, base, p + l + k1 + k2 + q, g); }
    add_opt_fact(&ctx, "artefact", "has_parent_artefact", &a.parent_artefact_id, "canonical_artefact", 1000, out);
    proof {
        lemma_emit_extend(ctx@, base, p + l + k1 + k2 + q + g, k3);
        assert(p + l + k1 + k2 + q + g + k3 =~= artefact_seeds(*a));
    }
}

// ---------------------------------------------------------------------------
// The name suffix facts
// ---------------------------------------------------------------------------

/// The conventional suffixes of symbol names.
pub open spec fn listed_suffix(s: Seq<char>) -> bool {
    ||| s == "Command"@
    ||| s == "Handler"@
    ||| s == "Store"@
    ||| s == "Repository"@
    ||| s == "Controller"@
    ||| s == "Consumer"@
}

/// Some fact of `facts` is `(symbol, name_suffix, value)`.
pub open spec fn has_suffix_fact(facts: Seq<FactV>, value: Seq<char>) -> bool {
    exists|k: int|
        0 <= k < facts.len() && (#[trigger] facts[k]).kind == "symbol"@ && facts[k].key == "name_suffix"@
            && facts[k].value == value
}

/// Some seed of `seeds` is `(symbol, name_suffix, value)`.
pub open spec fn has_suffix_seed(seeds: Seq<SeedV>, value: Seq<char>) -> bool {
    exists|k: int|
        0 <= k < seeds.len() && (#[trigger] seeds[k]).kind == "symbol"@ && seeds[k].key == "name_suffix"@
            && seeds[k].value == value
}

/// No seed of `seeds` is a name suffix.
pub open spec fn no_suffix_seed(seeds: Seq<SeedV>) -> bool {
    forall|k: int| 0 <= k < seeds.len() ==> !((#[trigger] seeds[k]).kind == "symbol"@ && seeds[k].key == "name_suffix"@)
}

proof fn lemma_suffix_seed_concat(a: Seq<SeedV>, b: Seq<SeedV>, v: Seq<char>)
    ensures
        has_suffix_seed(a + b, v) == (has_suffix_seed(a, v) || has_suffix_seed(b, v)),
        no_suffix_seed(a) && no_suffix_seed(b) ==> no_suffix_seed(a + b),
{
    if has_suffix_seed(a + b, v) {
        let k = choose|k: int|
            0 <= k < (a + b).len() && (#[trigger] (a + b)[k]).kind == "symbol"@ && (a + b)[k].key == "name_suffix"@
                && (a + b)[k].value == v;
        if k < a.len() {
            assert((a + b)[k] == a[k]);
        } else {
            assert((a + b)[k] == b[k - a.len()]);
        }
    }
    if has_suffix_seed(a, v) {
        let k = choose|k: int|
            0 <= k < a.len() && (#[trigger] a[k]).kind == "symbol"@ && a[k].key == "name_suffix"@ && a[k].value == v;
        assert((a + b)[k] == a[k]);
    }
    if has_suffix_seed(b, v) {
        let k = choose|k: int|
            0 <= k < b.len() && (#[trigger] b[k]).kind == "symbol"@ && b[k].key == "name_suffix"@ && b[k].value == v;
        assert((a + b)[k + a.len()] == b[k]);
    }
    if no_suffix_seed(a) && no_suffix_seed(b) {
        assert forall|k: int| 0 <= k < (a + b).len() implies !((#[trigger] (a + b)[k]).kind == "symbol"@ && (a
            + b)[k].key == "name_suffix"@) by {
            if k < a.len() {
                assert((a + b)[k] == a[k]);
            } else {
                assert((a + b)[k] == b[k - a.len()]);
            }
        }
    }
}

proof fn lemma_no_suffix_seed_none(seeds: Seq<SeedV>, v: Seq<char>)
    requires
        no_suffix_seed(seeds),
    ensures
        !has_suffix_seed(seeds, v),
{
}

/// A text that neither begins nor ends with white space is its own trim.
proof fn lemma_trim_plain(s: Seq<char>)
    requires
        s.len() > 0,
        !is_ws(s[0]),
        !is_ws(s.last()),
    ensures
        trim(s) == s,
{
    assert(crate::text::lead_ws(s) == 0);
    assert(s.subrange(0, s.len() as int) =~= s);
    assert(crate::text::trail_ws(s) == 0);
}

/// The facts of `seeds` hold a name suffix fact with a non-blank value
/// exactly when the seeds hold such a seed.
proof fn lemma_emit_suffix(ctx: ContextV, seeds: Seq<SeedV>, v: Seq<char>)
    requires
        trim(v).len() > 0,
    ensures
        has_suffix_fact(emit(ctx, seeds), v) == has_suffix_seed(seeds, v),
    decreases seeds.len(),
{
    if seeds.len() > 0 {
        let dl = seeds.drop_last();
        let last = seeds.last();
        lemma_emit_suffix(ctx, dl, v);
        let prev = emit(ctx, dl);
        let tail = if trim(last.value).len() == 0 {
            Seq::<FactV>::empty()
        } else {
            seq![fact_of(ctx, last)]
        };
        assert(emit(ctx, seeds) == prev + tail);
        assert(seeds =~= dl + seq![last]);
        lemma_suffix_seed_concat(dl, seq![last], v);
        let all = prev + tail;
        if has_suffix_fact(all, v) {
            let k = choose|k: int|
                0 <= k < all.len() && (#[trigger] all[k]).kind == "symbol"@ && all[k].key == "name_suffix"@
                    && all[k].value == v;
            if k < prev.len() {
                assert(all[k] == prev[k]);
            } else {
                assert(all[k] == tail[k - prev.len()]);
                assert(seq![last][0] == last);
            }
        }
        if has_suffix_seed(seq![last], v) {
            assert(seq![last][0] == last);
            assert(all[prev.len() as int] == fact_of(ctx, last));
        }
        if has_suffix_fact(prev, v) {
            let k = choose|k: int|
                0 <= k < prev.len() && (#[trigger] prev[k]).kind == "symbol"@ && prev[k].key == "name_suffix"@
                    && prev[k].value == v;
            assert(all[k] == prev[k]);
        }
    }
}

proof fn lemma_literals_distinct()
    ensures
        "symbol"@ != "path"@,
        "symbol"@ != "language"@,
        "symbol"@ != "artefact"@,
        "symbol"@ != "signature"@,
        "name_suffix"@ != "fqn"@,
        "name_suffix"@ != "name"@,
        "name_suffix"@ != "has_signature"@,
{
    reveal_strlit("symbol");
    reveal_strlit("path");
    reveal_strlit("language");
    reveal_strlit("artefact");
    reveal_strlit("signature");
    reveal_strlit("name_suffix");
    reveal_strlit("fqn");
    reveal_strlit("name");
    reveal_strlit("has_signature");
    assert("symbol"@[0] == 's' && "path"@[0] == 'p' && "language"@[0] == 'l');
    assert("symbol"@.len() == 6 && "path"@.len() == 4 && "language"@.len() == 8);
    assert("artefact"@.len() == 8 && "signature"@.len() == 9);
    assert("name_suffix"@.len() == 11 && "fqn"@.len() == 3 && "name"@.len() == 4);
    assert("has_signature"@.len() == 13);
}

proof fn lemma_other_seeds_no_suffix(a: CurrentCanonicalArtefactRecord)
    ensures
        no_suffix_seed(path_seeds(a.path@, "canonical_artefact"@)),
        no_suffix_seed(language_seeds(a.language@, a.language@, "canonical_artefact"@)),
        forall|key: Seq<char>, o: Option<Seq<char>>, c: u32|
            no_suffix_seed(#[trigger] opt_seed("artefact"@, key, o, "canonical_artefact"@, c)),
        no_suffix_seed(signature_seeds(opt_view(a.signature))),
{
    lemma_literals_distinct();
    let p = a.path@;
    let src = "canonical_artefact"@;
    let ext = if after_last(p, '.') != p {
        seq![seed("path"@, "extension"@, after_last(p, '.'), src, 1000)]
    } else {
        Seq::<SeedV>::empty()
    };
    let segs = segment_seeds(segments(p, '/'), src);
    assert(no_suffix_seed(segs)) by {
        assert forall|k: int| 0 <= k < segs.len() implies !((#[trigger] segs[k]).kind == "symbol"@ && segs[k].key
            == "name_suffix"@) by {
            assert(segs[k].kind == "path"@);
        }
    }
    lemma_suffix_seed_concat(seq![seed("path"@, "full"@, p, src, 1000)], ext, Seq::empty());
    lemma_suffix_seed_concat(seq![seed("path"@, "full"@, p, src, 1000)] + ext, segs, Seq::empty());
    match opt_view(a.signature) {
        None => {},
        Some(sig) => {
            let t1 = token_seed(sig, "async"@);
            let t2 = token_seed(sig, "Result"@);
            let t3 = token_seed(sig, "Command"@);
            let t4 = token_seed(sig, "Context"@);
            let h = seq![seed("symbol"@, "has_signature"@, "true"@, "canonical_artefact"@, 1000)];
            lemma_suffix_seed_concat(h, t1, Seq::empty());
            lemma_suffix_seed_concat(h + t1, t2, Seq::empty());
            lemma_suffix_seed_concat(h + t1 + t2, t3, Seq::empty());
            lemma_suffix_seed_concat(h + t1 + t2 + t3, t4, Seq::empty());
        },
    }
}

proof fn lemma_suffix_seeds_exact(n: Seq<char>, s: Seq<char>)
    requires
        listed_suffix(s),
    ensures
        has_suffix_seed(suffix_seeds(n), s) == ends_with(n, s),
{
    reveal_strlit("Command");
    reveal_strlit("Handler");
    reveal_strlit("Store");
    reveal_strlit("Repository");
    reveal_strlit("Controller");
    reveal_strlit("Consumer");
    reveal_strlit("symbol");
    reveal_strlit("name_suffix");
    let c1 = suffix_seed(n, "Command"@);
    let c2 = suffix_seed(n, "Handler"@);
    let c3 = suffix_seed(n, "Store"@);
    let c4 = suffix_seed(n, "Repository"@);
    let c5 = suffix_seed(n, "Controller"@);
    let c6 = suffix_seed(n, "Consumer"@);
    lemma_suffix_seed_concat(c1, c2, s);
    lemma_suffix_seed_concat(c1 + c2, c3, s);
    lemma_suffix_seed_concat(c1 + c2 + c3, c4, s);
    lemma_suffix_seed_concat(c1 + c2 + c3 + c4, c5, s);
    lemma_suffix_seed_concat(c1 + c2 + c3 + c4 + c5, c6, s);
    assert(suffix_seeds(n) == c1 + c2 + c3 + c4 + c5 + c6);
    if ends_with(n, s) {
        let one = seq![seed("symbol"@, "name_suffix"@, s, "canonical_artefact"@, 900)];
        assert(one[0].value == s);
    }
}

/// A symbol's facts tag its name with each conventional suffix (`Command`,
/// `Handler`, `Store`, `Repository`, `Controller`, `Consumer`) exactly when
/// the name ends with it: `RunCommand` is tagged `Command`,
/// `UserRepository` is tagged `Repository`.
pub proof fn lemma_name_suffix_facts(
    repo_id: Seq<char>,
    generation_seq: u64,
    a: CurrentCanonicalArtefactRecord,
    fqn: Seq<char>,
    name: Seq<char>,
    suffix: Seq<char>,
)
    requires
        opt_view(a.symbol_fqn) == Some(fqn),
        symbol_name_of(fqn) == Some(name),
        listed_suffix(suffix),
    ensures
        has_suffix_fact(artefact_facts(repo_id, generation_seq, a), suffix) == (suffix.len() <= name.len()
            && name.subrange(name.len() - suffix.len(), name.len() as int) == suffix),
{
    reveal_strlit("Command");
    reveal_strlit("Handler");
    reveal_strlit("Store");
    reveal_strlit("Repository");
    reveal_strlit("Controller");
    reveal_strlit("Consumer");
    lemma_trim_plain(suffix);
    lemma_literals_distinct();
    lemma_other_seeds_no_suffix(a);
    lemma_suffix_seeds_exact(name, suffix);
    let v = suffix;
    let pa = path_seeds(a.path@, "canonical_artefact"@);
    let la = language_seeds(a.language@, a.language@, "canonical_artefact"@);
    let o1 = opt_seed("artefact"@, "canonical_kind"@, opt_view(a.canonical_kind), "canonical_artefact"@, 1000);
    let o2 = opt_seed("artefact"@, "language_kind"@, opt_view(a.language_kind), "canonical_artefact"@, 1000);
    let fq = fqn_seeds(opt_view(a.symbol_fqn));
    let sg = signature_seeds(opt_view(a.signature));
    let o3 = opt_seed("artefact"@, "has_parent_artefact"@, opt_view(a.parent_artefact_id), "canonical_artefact"@, 1000);
    assert(artefact_seeds(a) == pa + la + o1 + o2 + fq + sg + o3);
    lemma_suffix_seed_concat(pa, la, v);
    lemma_suffix_seed_concat(pa + la, o1, v);
    lemma_suffix_seed_concat(pa + la + o1, o2, v);
    lemma_suffix_seed_concat(pa + la + o1 + o2, fq, v);
    lemma_suffix_seed_concat(pa + la + o1 + o2 + fq, sg, v);
    lemma_suffix_seed_concat(pa + la + o1 + o2 + fq + sg, o3, v);
    let heads = seq![seed("symbol"@, "fqn"@, fqn, "canonical_artefact"@, 1000)] + seq![
        seed("symbol"@, "name"@, name, "canonical_artefact"@, 1000),
    ];
    assert(fq == heads + suffix_seeds(name)) by {
        assert(seq![seed("symbol"@, "fqn"@, fqn, "canonical_artefact"@, 1000)] + (seq![
            seed("symbol"@, "name"@, name, "canonical_artefact"@, 1000),
        ] + suffix_seeds(name)) =~= heads + suffix_seeds(name));
    }
    assert(no_suffix_seed(heads)) by {
        assert forall|k: int| 0 <= k < heads.len() implies !((#[trigger] heads[k]).kind == "symbol"@ && heads[k].key
            == "name_suffix"@) by {
            if k == 0 {
                assert(heads[k].key == "fqn"@);
            } else {
                assert(heads[k].key == "name"@);
            }
        }
    }
    lemma_suffix_seed_concat(heads, suffix_seeds(name), v);
    lemma_emit_suffix(artefact_context(repo_id, generation_seq, a), artefact_seeds(a), v);
}

} // verus!
