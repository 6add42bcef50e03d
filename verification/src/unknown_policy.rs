//! What happens to a target no rule gave a role: suppressed as not
//! role-bearing, kept for rule mining, or escalated to adjudication.
use vstd::prelude::*;

use crate::classifier::request_target_fields;
use crate::contracts::{
    opt_str, placeholder_hash_text, placeholder_request_hash, role_adjudication_stable_request_key, stable_request_key_of,
    AdjudicationReason, RoleAdjudicationRequest,
};
use crate::model::{target_kind_db, clone_opt, fact_views, opt_view, ArchitectureArtefactFact, FactV, RoleTarget, TargetKind, TargetV};
use crate::order::{views_of, Order, StrSet};
use crate::fact_order::{compare_targets, target_order};
use crate::target_sort::{insert_target, lemma_insert_target, position_from, target_position, targets_distinct};
use crate::rule_mining::RoleRuleMiningClusterInput;
use crate::text::{
    after_last, chars_after_last, chars_ends_with, chars_eq, chars_has, chars_of, chars_starts_with,
    ends_with, has_char, lower, lower_chars, owned, split, split_pieces, split_scan, starts_with, str_ends_with, str_eq,
    string_from_chars, trim, trim_chars, views,
};

verus! {

/// The character sequences of a list of string literals.
pub open spec fn str_views(v: Seq<&str>) -> Seq<Seq<char>> {
    v.map_values(|s: &str| s@)
}

/// Whether `x` is one of `list`.
pub fn member(x: &[char], list: &Vec<&str>) -> (r: bool)
    ensures
        r == str_views(list@).contains(x@),
{
    let mut i: usize = 0;
    while i < list.len()
        invariant
            i <= list@.len(),
            forall|j: int| 0 <= j < i ==> str_views(list@)[j] != x@,
        decreases list@.len() - i,
    {
        let c = chars_of(list[i]);
        if chars_eq(c.as_slice(), x) {
            assert(str_views(list@)[i as int] == x@);
            return true;
        }
        i = i + 1;
    }
    false
}

pub open spec fn lockfile_names() -> Seq<Seq<char>> {
    seq!["cargo.lock"@, "package-lock.json"@, "pnpm-lock.yaml"@, "yarn.lock"@, "poetry.lock"@, "pipfile.lock"@]
}

pub open spec fn non_role_extensions() -> Seq<Seq<char>> {
    seq![
        "md"@, "mdx"@, "txt"@, "rst"@, "adoc"@, "toml"@, "yaml"@, "yml"@, "json"@, "jsonc"@, "ini"@,
        "cfg"@, "conf"@,
    ]
}

pub open spec fn non_role_directories() -> Seq<Seq<char>> {
    seq![
        "target"@, "node_modules"@, "vendor"@, "vendors"@, "generated"@, "dist"@, "build"@,
        "coverage"@, ".next"@, "__pycache__"@, ".mypy_cache"@, ".pytest_cache"@,
    ]
}

fn lockfile_list() -> (r: Vec<&'static str>)
    ensures
        str_views(r@) == lockfile_names(),
{
    let r = vec!["cargo.lock", "package-lock.json", "pnpm-lock.yaml", "yarn.lock", "poetry.lock", "pipfile.lock"];
    assert(str_views(r@) =~= lockfile_names());
    r
}

fn extension_list() -> (r: Vec<&'static str>)
    ensures
        str_views(r@) == non_role_extensions(),
{
    let r = vec!["md", "mdx", "txt", "rst", "adoc", "toml", "yaml", "yml", "json", "jsonc", "ini", "cfg", "conf"];
    assert(str_views(r@) =~= non_role_extensions());
    r
}

fn directory_list() -> (r: Vec<&'static str>)
    ensures
        str_views(r@) == non_role_directories(),
{
    let r = vec![
        "target", "node_modules", "vendor", "vendors", "generated", "dist", "build", "coverage",
        ".next", "__pycache__", ".mypy_cache", ".pytest_cache",
    ];
    assert(str_views(r@) =~= non_role_directories());
    r
}

/// The extension of a file name: what follows its last `.`, or nothing.
pub open spec fn extension_of(file_name: Seq<char>) -> Seq<char> {
    if has_char(file_name, '.') {
        after_last(file_name, '.')
    } else {
        Seq::empty()
    }
}

/// Paths whose files carry no architecture role: lockfiles, hidden files,
/// documentation and configuration by extension, and anything under a
/// build, vendor, cache or generated directory. Case is ignored.
pub open spec fn path_suppressed(path: Seq<char>) -> bool {
    let low = lower(path);
    let file_name = after_last(low, '/');
    ||| lockfile_names().contains(file_name)
    ||| ends_with(file_name, ".lock"@)
    ||| starts_with(file_name, "."@)
    ||| non_role_extensions().contains(extension_of(file_name))
    ||| exists|i: int| 0 <= i < split(low, '/').len() && non_role_directories().contains(#[trigger] split(low, '/')[i])
}

/// A text without the character `sep` is one piece when split at it.
proof fn lemma_split_scan_whole(s: Seq<char>, sep: char)
    requires
        forall|i: int| 0 <= i < s.len() ==> s[i] != sep,
    ensures
        split_scan(s, sep) == (Seq::<Seq<char>>::empty(), s),
    decreases s.len(),
{
    if s.len() > 0 {
        lemma_split_scan_whole(s.drop_last(), sep);
        assert(s.drop_last().push(s.last()) =~= s);
    }
}

/// Splitting at a separator splits the text on each side of it.
proof fn lemma_split_scan_after(x: Seq<char>, y: Seq<char>, sep: char)
    ensures
        split_scan(x.push(sep) + y, sep) == (split(x, sep) + split_scan(y, sep).0, split_scan(y, sep).1),
    decreases y.len(),
{
    if y.len() == 0 {
        assert(x.push(sep) + y =~= x.push(sep));
        assert(x.push(sep).drop_last() =~= x);
        assert(split(x, sep) + Seq::<Seq<char>>::empty() =~= split(x, sep));
    } else {
        lemma_split_scan_after(x, y.drop_last(), sep);
        let z = x.push(sep) + y;
        assert(z.drop_last() =~= x.push(sep) + y.drop_last());
        assert(z.last() == y.last());
        let (d0, c0) = split_scan(y.drop_last(), sep);
        if y.last() == sep {
            assert(split(x, sep) + d0.push(c0) =~= (split(x, sep) + d0).push(c0));
        }
    }
}

proof fn lemma_split_after(x: Seq<char>, y: Seq<char>, sep: char)
    ensures
        split(x.push(sep) + y, sep) == split(x, sep) + split(y, sep),
{
    lemma_split_scan_after(x, y, sep);
    let (d, c) = split_scan(y, sep);
    assert(split(x, sep) + d.push(c) =~= (split(x, sep) + d).push(c));
}

/// `d` followed by nothing or by a `/` is the first piece of the split.
proof fn lemma_first_piece(d: Seq<char>, post: Seq<char>)
    requires
        forall|i: int| 0 <= i < d.len() ==> d[i] != '/',
        post.len() == 0 || post[0] == '/',
    ensures
        split(d + post, '/').len() > 0,
        split(d + post, '/')[0] == d,
{
    lemma_split_scan_whole(d, '/');
    if post.len() == 0 {
        assert(d + post =~= d);
    } else {
        assert(d + post =~= d.push('/') + post.drop_first());
        lemma_split_after(d, post.drop_first(), '/');
    }
}

proof fn lemma_dir_has_no_separator(d: Seq<char>)
    requires
        non_role_directories().contains(d),
    ensures
        forall|i: int| 0 <= i < d.len() ==> d[i] != '/',
{
    reveal_strlit("target");
    reveal_strlit("node_modules");
    reveal_strlit("vendor");
    reveal_strlit("vendors");
    reveal_strlit("generated");
    reveal_strlit("dist");
    reveal_strlit("build");
    reveal_strlit("coverage");
    reveal_strlit(".next");
    reveal_strlit("__pycache__");
    reveal_strlit(".mypy_cache");
    reveal_strlit(".pytest_cache");
    let k = choose|k: int| 0 <= k < non_role_directories().len() && non_role_directories()[k] == d;
    assert(0 <= k < 12);
}

/// A path is suppressed when any of its `/`-separated pieces, the first
/// one included, is a build, vendor, cache or generated directory, case
/// ignored: wherever such a directory name stands between the start or a
/// `/` and a `/` or the end of the lower-cased path.
pub proof fn lemma_non_role_directory_suppresses(path: Seq<char>, pre: Seq<char>, d: Seq<char>, post: Seq<char>)
    ensures
        forall|i: int|
            0 <= i < split(lower(path), '/').len() && non_role_directories().contains(
                #[trigger] split(lower(path), '/')[i],
            ) ==> path_suppressed(path),
        non_role_directories().contains(d) && lower(path) == pre + d + post && (pre.len() == 0 || pre.last() == '/')
            && (post.len() == 0 || post[0] == '/') ==> path_suppressed(path),
{
    let low = lower(path);
    if non_role_directories().contains(d) && low == pre + d + post && (pre.len() == 0 || pre.last() == '/') && (
    post.len() == 0 || post[0] == '/') {
        lemma_dir_has_no_separator(d);
        lemma_first_piece(d, post);
        if pre.len() == 0 {
            assert(low =~= d + post);
            assert(non_role_directories().contains(split(low, '/')[0]));
        } else {
            let head = pre.drop_last();
            assert(low =~= head.push('/') + (d + post));
            lemma_split_after(head, d + post, '/');
            let k = split(head, '/').len() as int;
            assert(split(low, '/')[k] == split(d + post, '/')[0]);
            assert(non_role_directories().contains(split(low, '/')[k]));
        }
    }
}

pub fn path_suppressed_for_roles(path: &str) -> (r: bool)
    ensures
        r == path_suppressed(path@),
{
    let pc = chars_of(path);
    let low = lower_chars(pc.as_slice());
    let file_name = chars_after_last(low.as_slice(), '/');
    let lock_suffix = chars_of(".lock");
    let dot = chars_of(".");
    if member(file_name.as_slice(), &lockfile_list()) || chars_ends_with(file_name.as_slice(), lock_suffix.as_slice()) {
        return true;
    }
    if chars_starts_with(file_name.as_slice(), dot.as_slice()) {
        return true;
    }
    let extension = if chars_has(file_name.as_slice(), '.') {
        chars_after_last(file_name.as_slice(), '.')
    } else {
        Vec::new()
    };
    assert(extension@ == extension_of(file_name@));
    if member(extension.as_slice(), &extension_list()) {
        return true;
    }
    let segments = split_pieces(low.as_slice(), '/');
    let dirs = directory_list();
    let mut i: usize = 0;
    while i < segments.len()
        invariant
            i <= segments@.len(),
            views(segments@) == split(low@, '/'),
            low@ == lower(path@),
            str_views(dirs@) == non_role_directories(),
            forall|j: int| 0 <= j < i ==> !non_role_directories().contains(#[trigger] split(low@, '/')[j]),
        decreases segments@.len() - i,
    {
        assert(views(segments@)[i as int] == segments@[i as int]@);
        if member(segments[i].as_slice(), &dirs) {
            assert(non_role_directories().contains(split(low@, '/')[i as int]));
            return true;
        }
        i = i + 1;
    }
    false
}

/// Whether a language names source code.
pub open spec fn source_like(language: Option<Seq<char>>) -> bool {
    match language {
        None => false,
        Some(l) => l != Seq::<char>::empty() && l != "plaintext"@ && l != "track_only"@,
    }
}

pub fn source_like_language(language: Option<&str>) -> (r: bool)
    ensures
        r == source_like(match language {
            Some(l) => Some(l@),
            None => None,
        }),
{
    match language {
        None => false,
        Some(l) => {
            let c = chars_of(l);
            let p = chars_of("plaintext");
            let t = chars_of("track_only");
            if c.len() == 0 {
                assert(l@ =~= Seq::<char>::empty());
                return false;
            }
            !chars_eq(c.as_slice(), p.as_slice()) && !chars_eq(c.as_slice(), t.as_slice())
        },
    }
}

/// The trimmed lower-case form of a value, unless empty.
pub open spec fn lower_text(value: Option<Seq<char>>) -> Option<Seq<char>> {
    match value {
        None => None,
        Some(v) => if lower(trim(v)).len() == 0 {
            None
        } else {
            Some(lower(trim(v)))
        },
    }
}

pub fn lower_opt(value: &Option<String>) -> (r: Option<Vec<char>>)
    ensures
        match r {
            Some(v) => lower_text(opt_view(*value)) == Some(v@),
            None => lower_text(opt_view(*value)) is None,
        },
{
    match value {
        None => None,
        Some(v) => {
            let c = chars_of(v.as_str());
            let t = trim_chars(c.as_slice());
            let l = lower_chars(t.as_slice());
            if l.len() == 0 {
                None
            } else {
                Some(l)
            }
        },
    }
}

/// What the facts of one target say about it.
pub struct RoleTargetSummary {
    pub target: RoleTarget,
    pub language: Option<String>,
    pub canonical_kind: Option<String>,
    pub language_kind: Option<String>,
    pub file_role: Option<String>,
    pub analysis_mode: Option<String>,
    pub symbol_name: Option<String>,
    pub symbol_suffix: Option<String>,
    pub dependency_kinds: StrSet,
    pub high_impact: bool,
}

/// A summary as plain values.
pub struct SummaryV {
    pub target: TargetV,
    pub language: Option<Seq<char>>,
    pub canonical_kind: Option<Seq<char>>,
    pub language_kind: Option<Seq<char>>,
    pub file_role: Option<Seq<char>>,
    pub analysis_mode: Option<Seq<char>>,
    pub symbol_name: Option<Seq<char>>,
    pub symbol_suffix: Option<Seq<char>>,
    pub dependency_kinds: Set<Seq<char>>,
    pub high_impact: bool,
}

impl View for RoleTargetSummary {
    type V = SummaryV;

    open spec fn view(&self) -> SummaryV {
        SummaryV {
            target: self.target@,
            language: opt_view(self.language),
            canonical_kind: opt_view(self.canonical_kind),
            language_kind: opt_view(self.language_kind),
            file_role: opt_view(self.file_role),
            analysis_mode: opt_view(self.analysis_mode),
            symbol_name: opt_view(self.symbol_name),
            symbol_suffix: opt_view(self.symbol_suffix),
            dependency_kinds: self.dependency_kinds@.to_set(),
            high_impact: self.high_impact,
        }
    }
}

pub open spec fn is_one_of(v: Option<Seq<char>>, list: Seq<Seq<char>>) -> bool {
    match v {
        Some(x) => list.contains(x),
        None => false,
    }
}

/// Kinds that name a whole file.
pub open spec fn file_like(s: SummaryV) -> bool {
    is_one_of(lower_text(s.canonical_kind), seq!["file"@, "source_file"@, "module"@]) || is_one_of(
        lower_text(s.language_kind),
        seq!["file"@, "source_file"@, "module"@],
    )
}

/// Kinds that name an import.
pub open spec fn import_like(s: SummaryV) -> bool {
    is_one_of(lower_text(s.canonical_kind), seq!["import"@]) || is_one_of(
        lower_text(s.language_kind),
        seq!["import"@, "import_declaration"@, "use_declaration"@],
    )
}

pub open spec fn non_role_file_roles() -> Seq<Seq<char>> {
    seq![
        "documentation"@, "configuration"@, "lockfile"@, "project_manifest"@, "context_seed"@,
        "generated"@, "dependency_tree"@, "other"@,
    ]
}

/// A file that is not code, or whose role is not source.
pub open spec fn non_role_file_summary(s: SummaryV) -> bool {
    s.target.kind == TargetKind::File && (s.analysis_mode != Some("code"@) || is_one_of(
        lower_text(s.file_role),
        non_role_file_roles(),
    ))
}

/// An artefact that only repeats a file target of the same path.
pub open spec fn file_like_duplicate(s: SummaryV, file_paths: Set<Seq<char>>) -> bool {
    s.target.kind == TargetKind::Artefact && file_paths.contains(s.target.path) && file_like(s)
}

pub open spec fn high_impact_role_bearing(s: SummaryV, file_paths: Set<Seq<char>>) -> bool {
    s.high_impact && !file_like_duplicate(s, file_paths)
}

pub open spec fn non_role_bearing(s: SummaryV, file_paths: Set<Seq<char>>) -> bool {
    file_like_duplicate(s, file_paths) || import_like(s) || non_role_file_summary(s) || path_suppressed(
        s.target.path,
    )
}

pub open spec fn rule_mining_role_bearing(s: SummaryV) -> bool {
    match s.target.kind {
        TargetKind::File => s.analysis_mode == Some("code"@) && (s.file_role == Some("source_code"@)
            || s.file_role == Some("source"@)) && source_like(s.language),
        _ => !import_like(s) && !file_like(s) && source_like(s.language),
    }
}

/// Where an unassigned target goes.
#[derive(Debug, Clone, Copy, PartialEq, Eq, Structural)]
pub enum UnknownTargetDisposition {
    SuppressNonRole,
    RuleMiningCandidate,
    AdjudicateHighImpact,
}

pub open spec fn disposition_of(s: SummaryV, file_paths: Set<Seq<char>>) -> UnknownTargetDisposition {
    if high_impact_role_bearing(s, file_paths) {
        UnknownTargetDisposition::AdjudicateHighImpact
    } else if non_role_bearing(s, file_paths) {
        UnknownTargetDisposition::SuppressNonRole
    } else if rule_mining_role_bearing(s) {
        UnknownTargetDisposition::RuleMiningCandidate
    } else {
        UnknownTargetDisposition::SuppressNonRole
    }
}

fn lower_is_one_of(value: &Option<String>, list: &Vec<&str>) -> (r: bool)
    ensures
        r == is_one_of(lower_text(opt_view(*value)), str_views(list@)),
{
    match lower_opt(value) {
        Some(v) => member(v.as_slice(), list),
        None => false,
    }
}

fn file_kind_list() -> (r: Vec<&'static str>)
    ensures
        str_views(r@) == seq!["file"@, "source_file"@, "module"@],
{
    let r = vec!["file", "source_file", "module"];
    assert(str_views(r@) =~= seq!["file"@, "source_file"@, "module"@]);
    r
}

pub fn file_like_kind(summary: &RoleTargetSummary) -> (r: bool)
    ensures
        r == file_like(summary@),
{
    let kinds = file_kind_list();
    lower_is_one_of(&summary.canonical_kind, &kinds) || lower_is_one_of(&summary.language_kind, &kinds)
}

pub fn import_artefact(summary: &RoleTargetSummary) -> (r: bool)
    ensures
        r == import_like(summary@),
{
    let canonical = vec!["import"];
    assert(str_views(canonical@) =~= seq!["import"@]);
    let language = vec!["import", "import_declaration", "use_declaration"];
    assert(str_views(language@) =~= seq!["import"@, "import_declaration"@, "use_declaration"@]);
    lower_is_one_of(&summary.canonical_kind, &canonical) || lower_is_one_of(&summary.language_kind, &language)
}

fn opt_is(value: &Option<String>, expected: &str) -> (r: bool)
    ensures
        r == (opt_view(*value) == Some(expected@)),
{
    match value {
        Some(v) => {
            let a = chars_of(v.as_str());
            let b = chars_of(expected);
            chars_eq(a.as_slice(), b.as_slice())
        },
        None => false,
    }
}

pub fn non_role_file(summary: &RoleTargetSummary) -> (r: bool)
    ensures
        r == non_role_file_summary(summary@),
{
    match summary.target.target_kind {
        TargetKind::File => {},
        _ => return false,
    }
    if !opt_is(&summary.analysis_mode, "code") {
        return true;
    }
    let roles = vec![
        "documentation", "configuration", "lockfile", "project_manifest", "context_seed", "generated",
        "dependency_tree", "other",
    ];
    assert(str_views(roles@) =~= non_role_file_roles());
    lower_is_one_of(&summary.file_role, &roles)
}

pub fn file_like_artefact_duplicate(summary: &RoleTargetSummary, file_targets_by_path: &StrSet) -> (r: bool)
    ensures
        r == file_like_duplicate(summary@, file_targets_by_path@.to_set()),
{
    match summary.target.target_kind {
        TargetKind::Artefact => {},
        _ => return false,
    }
    file_targets_by_path.contains(summary.target.path.as_str()) && file_like_kind(summary)
}

pub fn high_impact_role_bearing_target(summary: &RoleTargetSummary, file_targets_by_path: &StrSet) -> (r: bool)
    ensures
        r == high_impact_role_bearing(summary@, file_targets_by_path@.to_set()),
{
    summary.high_impact && !file_like_artefact_duplicate(summary, file_targets_by_path)
}

pub fn non_role_bearing_target(summary: &RoleTargetSummary, file_targets_by_path: &StrSet) -> (r: bool)
    ensures
        r == non_role_bearing(summary@, file_targets_by_path@.to_set()),
{
    file_like_artefact_duplicate(summary, file_targets_by_path) || import_artefact(summary) || non_role_file(summary)
        || path_suppressed_for_roles(summary.target.path.as_str())
}

pub fn rule_mining_role_bearing_target(summary: &RoleTargetSummary) -> (r: bool)
    ensures
        r == rule_mining_role_bearing(summary@),
{
    let language = match &summary.language {
        Some(l) => Some(l.as_str()),
        None => None,
    };
    match summary.target.target_kind {
        TargetKind::File => opt_is(&summary.analysis_mode, "code") && (opt_is(&summary.file_role, "source_code")
            || opt_is(&summary.file_role, "source")) && source_like_language(language),
        _ => !import_artefact(summary) && !file_like_kind(summary) && source_like_language(language),
    }
}

pub fn unknown_target_disposition(summary: &RoleTargetSummary, file_targets_by_path: &StrSet) -> (r:
    UnknownTargetDisposition)
    ensures
        r == disposition_of(summary@, file_targets_by_path@.to_set()),
{
    if high_impact_role_bearing_target(summary, file_targets_by_path) {
        return UnknownTargetDisposition::AdjudicateHighImpact;
    }
    if non_role_bearing_target(summary, file_targets_by_path) {
        return UnknownTargetDisposition::SuppressNonRole;
    }
    if rule_mining_role_bearing_target(summary) {
        return UnknownTargetDisposition::RuleMiningCandidate;
    }
    UnknownTargetDisposition::SuppressNonRole
}

/// The summary of a target before any of its facts was read: only the
/// language of the first fact is known.
pub open spec fn initial_summary(f: FactV) -> SummaryV {
    SummaryV {
        target: f.target,
        language: f.language,
        canonical_kind: None,
        language_kind: None,
        file_role: None,
        analysis_mode: None,
        symbol_name: None,
        symbol_suffix: None,
        dependency_kinds: Set::empty(),
        high_impact: false,
    }
}

/// A path that names a `main.rs`.
pub open spec fn main_rs_path(value: Seq<char>) -> bool {
    value == "main.rs"@ || ends_with(value, "/main.rs"@)
}

/// What one more fact of a target adds to its summary: a missing
/// language is filled in, the last value of each kept key wins, dependency
/// kinds accumulate, and a `main` symbol or a `main.rs` file makes the
/// target high-impact.
pub open spec fn observe_fact(s0: SummaryV, f: FactV) -> SummaryV {
    let s = if s0.language is None {
        SummaryV { language: f.language, ..s0 }
    } else {
        s0
    };
    if f.kind == "artefact"@ && f.key == "canonical_kind"@ {
        SummaryV { canonical_kind: Some(f.value), ..s }
    } else if f.kind == "artefact"@ && f.key == "language_kind"@ {
        SummaryV { language_kind: Some(f.value), ..s }
    } else if f.kind == "file"@ && f.key == "role"@ {
        SummaryV { file_role: Some(f.value), ..s }
    } else if f.kind == "file"@ && f.key == "analysis_mode"@ {
        SummaryV { analysis_mode: Some(f.value), ..s }
    } else if f.kind == "symbol"@ && f.key == "name"@ {
        SummaryV { symbol_name: Some(f.value), high_impact: s.high_impact || f.value == "main"@, ..s }
    } else if f.kind == "symbol"@ && f.key == "name_suffix"@ {
        SummaryV { symbol_suffix: Some(f.value), ..s }
    } else if f.kind == "dependency"@ && (f.key == "incoming_kind"@ || f.key == "outgoing_kind"@) {
        SummaryV { dependency_kinds: s.dependency_kinds.insert(f.value), ..s }
    } else if f.kind == "path"@ && f.key == "full"@ && s.target.kind == TargetKind::File && main_rs_path(
        f.value,
    ) {
        SummaryV { high_impact: true, ..s }
    } else {
        s
    }
}

/// The summary of target `t` after reading `facts` in order; none when no
/// fact is about `t`.
pub open spec fn summary_of(t: TargetV, facts: Seq<FactV>) -> Option<SummaryV>
    decreases facts.len(),
{
    if facts.len() == 0 {
        None
    } else {
        let prev = summary_of(t, facts.drop_last());
        let f = facts.last();
        if f.target == t {
            Some(
                observe_fact(
                    match prev {
                        Some(s) => s,
                        None => initial_summary(f),
                    },
                    f,
                ),
            )
        } else {
            prev
        }
    }
}

fn initial_target_summary(fact: &ArchitectureArtefactFact) -> (r: RoleTargetSummary)
    ensures
        r@ == initial_summary(fact@),
{
    let r = RoleTargetSummary {
        target: fact.target.duplicate(),
        language: clone_opt(&fact.language),
        canonical_kind: None,
        language_kind: None,
        file_role: None,
        analysis_mode: None,
        symbol_name: None,
        symbol_suffix: None,
        dependency_kinds: StrSet::new(),
        high_impact: false,
    };
    assert(r@.dependency_kinds =~= Set::<Seq<char>>::empty());
    r
}

fn observe_summary_fact(summary: &mut RoleTargetSummary, fact: &ArchitectureArtefactFact)
    ensures
        final(summary)@ == observe_fact(old(summary)@, fact@),
{
    if summary.language.is_none() {
        summary.language = clone_opt(&fact.language);
    }
    let kind = fact.fact_kind.as_str();
    let key = fact.fact_key.as_str();
    let value = fact.fact_value.as_str();
    if str_eq(kind, "artefact") && str_eq(key, "canonical_kind") {
        summary.canonical_kind = Some(fact.fact_value.clone());
    } else if str_eq(kind, "artefact") && str_eq(key, "language_kind") {
        summary.language_kind = Some(fact.fact_value.clone());
    } else if str_eq(kind, "file") && str_eq(key, "role") {
        summary.file_role = Some(fact.fact_value.clone());
    } else if str_eq(kind, "file") && str_eq(key, "analysis_mode") {
        summary.analysis_mode = Some(fact.fact_value.clone());
    } else if str_eq(kind, "symbol") && str_eq(key, "name") {
        summary.symbol_name = Some(fact.fact_value.clone());
        if str_eq(value, "main") {
            summary.high_impact = true;
        }
    } else if str_eq(kind, "symbol") && str_eq(key, "name_suffix") {
        summary.symbol_suffix = Some(fact.fact_value.clone());
    } else if str_eq(kind, "dependency") && (str_eq(key, "incoming_kind") || str_eq(key, "outgoing_kind")) {
        summary.dependency_kinds.insert(fact.fact_value.clone());
    } else if str_eq(kind, "path") && str_eq(key, "full") {
        let is_file = match summary.target.target_kind {
            TargetKind::File => true,
            _ => false,
        };
        if is_file && (str_eq(value, "main.rs") || str_ends_with(value, "/main.rs")) {
            summary.high_impact = true;
        }
    }
}

/// The targets of the summaries, in order.
pub open spec fn summary_targets(summaries: Seq<RoleTargetSummary>) -> Seq<TargetV> {
    summaries.map_values(|s: RoleTargetSummary| s.target@)
}

/// A target has a summary exactly when some fact is about it.
pub proof fn lemma_summary_exists(t: TargetV, facts: Seq<FactV>)
    ensures
        (summary_of(t, facts) is Some) == (facts_about(t, facts).len() > 0),
    decreases facts.len(),
{
    if facts.len() > 0 {
        lemma_summary_exists(t, facts.drop_last());
    }
}

/// `r` holds the summary of each target of the facts, in ascending target
/// order.
pub open spec fn summaries_of_facts(r: Seq<RoleTargetSummary>, fv: Seq<FactV>) -> bool {
    &&& summary_targets(r) == fact_targets(fv)
    &&& forall|i: int, j: int| 0 <= i < j < r.len() ==> r[i].target@ != r[j].target@
    &&& forall|i: int| 0 <= i < r.len() ==> summary_of(r[i].target@, fv) == Some(#[trigger] r[i]@)
    &&& forall|t: TargetV| #[trigger] summary_of(t, fv) is Some ==> exists|i: int| 0 <= i < r.len() && r[i].target@ == t
}

fn summary_position(out: &Vec<RoleTargetSummary>, t: &RoleTarget) -> (p: usize)
    ensures
        p as int == target_position(summary_targets(out@), t@),
{
    let ghost st = summary_targets(out@);
    let mut p: usize = 0;
    while p < out.len()
        invariant
            p <= out@.len(),
            st == summary_targets(out@),
            position_from(st, t@, 0) == position_from(st, t@, p as int),
        ensures
            p <= out@.len(),
            position_from(st, t@, 0) == position_from(st, t@, p as int),
            p < out@.len() ==> (target_order(t@, st[p as int]) is Less),
        decreases out@.len() - p,
    {
        let o = compare_targets(t, &out[p].target);
        if o == Order::Less {
            break;
        }
        p = p + 1;
    }
    p
}

fn group_position(out: &Vec<TargetFacts>, t: &RoleTarget) -> (p: usize)
    ensures
        p as int == target_position(group_targets(out@), t@),
{
    let ghost st = group_targets(out@);
    let mut p: usize = 0;
    while p < out.len()
        invariant
            p <= out@.len(),
            st == group_targets(out@),
            position_from(st, t@, 0) == position_from(st, t@, p as int),
        ensures
            p <= out@.len(),
            position_from(st, t@, 0) == position_from(st, t@, p as int),
            p < out@.len() ==> (target_order(t@, st[p as int]) is Less),
        decreases out@.len() - p,
    {
        let o = compare_targets(t, &out[p].target);
        if o == Order::Less {
            break;
        }
        p = p + 1;
    }
    p
}

/// One summary per target the facts are about, in ascending target order.
pub fn target_summaries_from_facts(facts: &[ArchitectureArtefactFact]) -> (r: Vec<RoleTargetSummary>)
    ensures
        summaries_of_facts(r@, fact_views(facts@)),
{
    let ghost fv = fact_views(facts@);
    let mut out: Vec<RoleTargetSummary> = Vec::new();
    let mut i: usize = 0;
    while i < facts.len()
        invariant
            i <= facts@.len(),
            fv == fact_views(facts@),
            forall|a: int, b: int| 0 <= a < b < out@.len() ==> out@[a].target@ != out@[b].target@,
            forall|k: int| 0 <= k < out@.len() ==> summary_of(out@[k].target@, fv.take(i as int)) == Some(#[trigger] out@[k]@),
            forall|t: TargetV| #[trigger] summary_of(t, fv.take(i as int)) is Some ==> exists|k: int|
                0 <= k < out@.len() && out@[k].target@ == t,
            summary_targets(out@) == fact_targets(fv.take(i as int)),
        decreases facts@.len() - i,
    {
        let fact = &facts[i];
        assert(fv.take(i + 1).drop_last() =~= fv.take(i as int));
        assert(fv.take(i + 1).last() == fact@);
        let mut k: usize = 0;
        let mut found: Option<usize> = None;
        while k < out.len()
            invariant
                k <= out@.len(),
                forall|m: int| 0 <= m < k ==> out@[m].target@ != fact.target@,
                match found {
                    Some(x) => x < out@.len() && out@[x as int].target@ == fact.target@,
                    None => true,
                },
            ensures
                match found {
                    Some(x) => x < out@.len() && out@[x as int].target@ == fact.target@,
                    None => forall|m: int| 0 <= m < out@.len() ==> out@[m].target@ != fact.target@,
                },
            decreases out@.len() - k,
        {
            if out[k].target.same_as(&fact.target) {
                found = Some(k);
                break;
            }
            k = k + 1;
        }
        let ghost before = out@;
        match found {
            Some(x) => {
                let mut s = out.remove(x);
                observe_summary_fact(&mut s, fact);
                out.insert(x, s);
                assert(out@ =~= before.update(x as int, s));
                assert(summary_targets(before)[x as int] == fact.target@);
                assert(summary_targets(out@) =~= summary_targets(before));
                assert forall|k2: int| 0 <= k2 < out@.len() implies summary_of(out@[k2].target@, fv.take(i + 1))
                    == Some(#[trigger] out@[k2]@) by {
                    if k2 != x {
                        assert(before[k2].target@ != before[x as int].target@);
                    }
                }
                assert forall|t: TargetV| #[trigger] summary_of(t, fv.take(i + 1)) is Some implies exists|k2: int|
                    0 <= k2 < out@.len() && out@[k2].target@ == t by {
                    if t == fact.target@ {
                        assert(out@[x as int].target@ == t);
                    } else {
                        assert(summary_of(t, fv.take(i as int)) is Some);
                        let k3 = choose|k3: int| 0 <= k3 < before.len() && before[k3].target@ == t;
                        assert(out@[k3].target@ == t);
                    }
                }
            },
            None => {
                assert(summary_of(fact.target@, fv.take(i as int)) is None) by {
                    if summary_of(fact.target@, fv.take(i as int)) is Some {
                        let k3 = choose|k3: int| 0 <= k3 < before.len() && before[k3].target@ == fact.target@;
                        assert(before[k3].target@ != fact.target@);
                    }
                }
                let mut s = initial_target_summary(fact);
                observe_summary_fact(&mut s, fact);
                let ghost st = summary_targets(before);
                let p = summary_position(&out, &fact.target);
                proof {
                    lemma_insert_target(st, fact.target@);
                }
                out.insert(p, s);
                assert(!st.contains(fact.target@)) by {
                    if st.contains(fact.target@) {
                        let k3 = choose|k3: int| 0 <= k3 < st.len() && st[k3] == fact.target@;
                        assert(before[k3].target@ == fact.target@);
                    }
                }
                assert(summary_targets(out@) =~= insert_target(st, fact.target@));
                assert(targets_distinct(st)) by {
                    assert forall|a: int, b: int| 0 <= a < b < st.len() implies st[a] != st[b] by {
                        assert(st[a] == before[a].target@ && st[b] == before[b].target@);
                    }
                }
                assert forall|a: int, b: int| 0 <= a < b < out@.len() implies out@[a].target@ != out@[b].target@ by {
                    assert(summary_targets(out@)[a] == out@[a].target@);
                    assert(summary_targets(out@)[b] == out@[b].target@);
                }
                assert forall|k2: int| 0 <= k2 < out@.len() implies summary_of(out@[k2].target@, fv.take(i + 1))
                    == Some(#[trigger] out@[k2]@) by {
                    if k2 < p {
                        assert(out@[k2] == before[k2]);
                        assert(before[k2].target@ != fact.target@);
                    } else if k2 > p {
                        assert(out@[k2] == before[k2 - 1]);
                        assert(before[k2 - 1].target@ != fact.target@);
                    } else {
                        assert(out@[k2] == s);
                    }
                }
                assert forall|t: TargetV| #[trigger] summary_of(t, fv.take(i + 1)) is Some implies exists|k2: int|
                    0 <= k2 < out@.len() && out@[k2].target@ == t by {
                    if t == fact.target@ {
                        assert(out@[p as int].target@ == t);
                    } else {
                        assert(summary_of(t, fv.take(i as int)) is Some);
                        let k3 = choose|k3: int| 0 <= k3 < before.len() && before[k3].target@ == t;
                        if k3 < p {
                            assert(out@[k3].target@ == t);
                        } else {
                            assert(out@[k3 + 1].target@ == t);
                        }
                    }
                }
            },
        }
        i = i + 1;
    }
    assert(fv.take(i as int) =~= fv);
    out
}

/// The facts of one target, in the order they were given.
pub struct TargetFacts {
    pub target: RoleTarget,
    pub facts: Vec<ArchitectureArtefactFact>,
}

/// The facts about target `t`, in order.
pub open spec fn facts_about(t: TargetV, facts: Seq<FactV>) -> Seq<FactV>
    decreases facts.len(),
{
    if facts.len() == 0 {
        Seq::empty()
    } else if facts.last().target == t {
        facts_about(t, facts.drop_last()).push(facts.last())
    } else {
        facts_about(t, facts.drop_last())
    }
}

/// The targets of `facts`, each once, in ascending target order.
pub open spec fn fact_targets(facts: Seq<FactV>) -> Seq<TargetV>
    decreases facts.len(),
{
    if facts.len() == 0 {
        Seq::empty()
    } else {
        let prev = fact_targets(facts.drop_last());
        if prev.contains(facts.last().target) {
            prev
        } else {
            insert_target(prev, facts.last().target)
        }
    }
}

/// The targets of the groups, in order.
pub open spec fn group_targets(groups: Seq<TargetFacts>) -> Seq<TargetV> {
    groups.map_values(|g: TargetFacts| g.target@)
}

/// A target is listed among the first targets exactly when some fact is
/// about it.
pub proof fn lemma_fact_targets_listed(t: TargetV, facts: Seq<FactV>)
    ensures
        fact_targets(facts).contains(t) == (facts_about(t, facts).len() > 0),
    decreases facts.len(),
{
    if facts.len() > 0 {
        let prev = fact_targets(facts.drop_last());
        let last = facts.last().target;
        lemma_fact_targets_listed(t, facts.drop_last());
        lemma_insert_target(prev, last);
    }
}

/// The targets of the facts are strictly ascending, so none occurs twice.
pub proof fn lemma_fact_targets_sorted(facts: Seq<FactV>)
    ensures
        crate::target_sort::targets_sorted(fact_targets(facts)),
        targets_distinct(fact_targets(facts)),
    decreases facts.len(),
{
    if facts.len() > 0 {
        lemma_fact_targets_sorted(facts.drop_last());
        lemma_insert_target(fact_targets(facts.drop_last()), facts.last().target);
    }
}

/// `r` holds the facts of each target, in ascending target order.
pub open spec fn groups_of_facts(r: Seq<TargetFacts>, fv: Seq<FactV>) -> bool {
    &&& group_targets(r) == fact_targets(fv)
    &&& forall|i: int, j: int| 0 <= i < j < r.len() ==> r[i].target@ != r[j].target@
    &&& forall|i: int| 0 <= i < r.len() ==> fact_views(#[trigger] r[i].facts@) == facts_about(r[i].target@, fv)
    &&& forall|t: TargetV| #[trigger] facts_about(t, fv).len() > 0 ==> exists|i: int| 0 <= i < r.len() && r[i].target@ == t
}

/// The facts grouped by target: one group per target, in ascending target
/// order.
pub fn facts_by_target(facts: &[ArchitectureArtefactFact]) -> (r: Vec<TargetFacts>)
    ensures
        groups_of_facts(r@, fact_views(facts@)),
{
    let ghost fv = fact_views(facts@);
    let mut out: Vec<TargetFacts> = Vec::new();
    let mut i: usize = 0;
    while i < facts.len()
        invariant
            i <= facts@.len(),
            fv == fact_views(facts@),
            forall|a: int, b: int| 0 <= a < b < out@.len() ==> out@[a].target@ != out@[b].target@,
            forall|k: int| 0 <= k < out@.len() ==> fact_views(#[trigger] out@[k].facts@) == facts_about(out@[k].target@, fv.take(i as int)),
            forall|t: TargetV| #[trigger] facts_about(t, fv.take(i as int)).len() > 0 ==> exists|k: int|
                0 <= k < out@.len() && out@[k].target@ == t,
            group_targets(out@) == fact_targets(fv.take(i as int)),
        decreases facts@.len() - i,
    {
        let fact = &facts[i];
        assert(fv.take(i + 1).drop_last() =~= fv.take(i as int));
        assert(fv.take(i + 1).last() == fact@);
        let mut k: usize = 0;
        let mut found: Option<usize> = None;
        while k < out.len()
            invariant
                k <= out@.len(),
                forall|m: int| 0 <= m < k ==> out@[m].target@ != fact.target@,
                match found {
                    Some(x) => x < out@.len() && out@[x as int].target@ == fact.target@,
                    None => true,
                },
            ensures
                match found {
                    Some(x) => x < out@.len() && out@[x as int].target@ == fact.target@,
                    None => forall|m: int| 0 <= m < out@.len() ==> out@[m].target@ != fact.target@,
                },
            decreases out@.len() - k,
        {
            if out[k].target.same_as(&fact.target) {
                found = Some(k);
                break;
            }
            k = k + 1;
        }
        let ghost before = out@;
        match found {
            Some(x) => {
                let mut g = out.remove(x);
                let ghost old_facts = fact_views(g.facts@);
                g.facts.push(fact.duplicate());
                assert(fact_views(g.facts@) =~= old_facts.push(fact@));
                out.insert(x, g);
                assert(out@ =~= before.update(x as int, g));
                assert(group_targets(before)[x as int] == fact.target@);
                assert(group_targets(out@) =~= group_targets(before));
                assert forall|k2: int| 0 <= k2 < out@.len() implies fact_views(#[trigger] out@[k2].facts@) == facts_about(
                    out@[k2].target@,
                    fv.take(i + 1),
                ) by {
                    if k2 != x {
                        assert(before[k2].target@ != before[x as int].target@);
                    }
                }
                assert forall|t: TargetV| #[trigger] facts_about(t, fv.take(i + 1)).len() > 0 implies exists|k2: int|
                    0 <= k2 < out@.len() && out@[k2].target@ == t by {
                    if t == fact.target@ {
                        assert(out@[x as int].target@ == t);
                    } else {
                        assert(facts_about(t, fv.take(i as int)).len() > 0);
                        let k3 = choose|k3: int| 0 <= k3 < before.len() && before[k3].target@ == t;
                        assert(out@[k3].target@ == t);
                    }
                }
            },
            None => {
                assert(facts_about(fact.target@, fv.take(i as int)).len() == 0) by {
                    if facts_about(fact.target@, fv.take(i as int)).len() > 0 {
                        let k3 = choose|k3: int| 0 <= k3 < before.len() && before[k3].target@ == fact.target@;
                        assert(before[k3].target@ != fact.target@);
                    }
                }
                let mut group_facts: Vec<ArchitectureArtefactFact> = Vec::new();
                group_facts.push(fact.duplicate());
                let g = TargetFacts { target: fact.target.duplicate(), facts: group_facts };
                assert(fact_views(g.facts@) =~= facts_about(fact.target@, fv.take(i as int)).push(fact@));
                let ghost st = group_targets(before);
                let p = group_position(&out, &fact.target);
                proof {
                    lemma_insert_target(st, fact.target@);
                }
                out.insert(p, g);
                assert(!st.contains(fact.target@)) by {
                    if st.contains(fact.target@) {
                        let k3 = choose|k3: int| 0 <= k3 < st.len() && st[k3] == fact.target@;
                        assert(before[k3].target@ == fact.target@);
                    }
                }
                assert(group_targets(out@) =~= insert_target(st, fact.target@));
                assert(targets_distinct(st)) by {
                    assert forall|a: int, b: int| 0 <= a < b < st.len() implies st[a] != st[b] by {
                        assert(st[a] == before[a].target@ && st[b] == before[b].target@);
                    }
                }
                assert forall|a: int, b: int| 0 <= a < b < out@.len() implies out@[a].target@ != out@[b].target@ by {
                    assert(group_targets(out@)[a] == out@[a].target@);
                    assert(group_targets(out@)[b] == out@[b].target@);
                }
                assert forall|k2: int| 0 <= k2 < out@.len() implies fact_views(#[trigger] out@[k2].facts@) == facts_about(
                    out@[k2].target@,
                    fv.take(i + 1),
                ) by {
                    if k2 < p {
                        assert(out@[k2] == before[k2]);
                        assert(before[k2].target@ != fact.target@);
                    } else if k2 > p {
                        assert(out@[k2] == before[k2 - 1]);
                        assert(before[k2 - 1].target@ != fact.target@);
                    } else {
                        assert(out@[k2] == g);
                    }
                }
                assert forall|t: TargetV| #[trigger] facts_about(t, fv.take(i + 1)).len() > 0 implies exists|k2: int|
                    0 <= k2 < out@.len() && out@[k2].target@ == t by {
                    if t == fact.target@ {
                        assert(out@[p as int].target@ == t);
                    } else {
                        assert(facts_about(t, fv.take(i as int)).len() > 0);
                        let k3 = choose|k3: int| 0 <= k3 < before.len() && before[k3].target@ == t;
                        if k3 < p {
                            assert(out@[k3].target@ == t);
                        } else {
                            assert(out@[k3 + 1].target@ == t);
                        }
                    }
                }
            },
        }
        i = i + 1;
    }
    assert(fv.take(i as int) =~= fv);
    out
}

pub open spec fn summary_views(v: Seq<RoleTargetSummary>) -> Seq<SummaryV> {
    v.map_values(|s: RoleTargetSummary| s@)
}

/// Whether `t` is one of `list`.
pub open spec fn target_listed(list: Seq<RoleTarget>, t: TargetV) -> bool {
    exists|i: int| 0 <= i < list.len() && #[trigger] list[i]@ == t
}

pub(crate) fn lists_target(list: &[RoleTarget], t: &RoleTarget) -> (r: bool)
    ensures
        r == target_listed(list@, t@),
{
    let mut i: usize = 0;
    while i < list.len()
        invariant
            i <= list@.len(),
            forall|m: int| 0 <= m < i ==> list@[m]@ != t@,
        decreases list@.len() - i,
    {
        if list[i].same_as(t) {
            return true;
        }
        i = i + 1;
    }
    false
}

/// The paths of the file targets among the summaries.
pub open spec fn file_target_paths(sums: Seq<SummaryV>) -> Set<Seq<char>> {
    Set::new(
        |p: Seq<char>|
            exists|i: int| 0 <= i < sums.len() && #[trigger] sums[i].target.kind == TargetKind::File && sums[i].target.path == p,
    )
}

fn file_paths_of_summaries(sums: &[RoleTargetSummary]) -> (r: StrSet)
    ensures
        r@.to_set() == file_target_paths(summary_views(sums@)),
{
    let ghost sv = summary_views(sums@);
    let mut out = StrSet::new();
    let mut i: usize = 0;
    assert(out@.to_set() =~= file_target_paths(sv.take(0)));
    while i < sums.len()
        invariant
            i <= sums@.len(),
            sv == summary_views(sums@),
            out@.to_set() == file_target_paths(sv.take(i as int)),
        decreases sums@.len() - i,
    {
        let ghost prev = out@.to_set();
        let is_file = match sums[i].target.target_kind {
            TargetKind::File => true,
            _ => false,
        };
        if is_file {
            out.insert(sums[i].target.path.clone());
        }
        let ghost cur = sv.take(i + 1)[i as int];
        assert(cur == sums@[i as int]@);
        assert(is_file == (cur.target.kind == TargetKind::File));
        assert(out@.to_set() == if is_file {
            prev.insert(cur.target.path)
        } else {
            prev
        });
        assert forall|p: Seq<char>| out@.to_set().contains(p) implies file_target_paths(sv.take(i + 1)).contains(p) by {
            if prev.contains(p) {
                let j = choose|j: int| 0 <= j < sv.take(i as int).len() && #[trigger] sv.take(i as int)[j].target.kind
                    == TargetKind::File && sv.take(i as int)[j].target.path == p;
                assert(sv.take(i + 1)[j] == sv.take(i as int)[j]);
            } else {
                assert(sv.take(i + 1)[i as int].target.kind == TargetKind::File);
            }
        }
        assert forall|p: Seq<char>| file_target_paths(sv.take(i + 1)).contains(p) implies out@.to_set().contains(p) by {
            let j = choose|j: int| 0 <= j < sv.take(i + 1).len() && #[trigger] sv.take(i + 1)[j].target.kind
                == TargetKind::File && sv.take(i + 1)[j].target.path == p;
            if j < i {
                assert(sv.take(i as int)[j] == sv.take(i + 1)[j]);
                assert(file_target_paths(sv.take(i as int)).contains(p));
            }
        }
        assert(out@.to_set() =~= file_target_paths(sv.take(i + 1)));
        i = i + 1;
    }
    assert(sv.take(i as int) =~= sv);
    out
}

/// Which targets the unknown-target policy looks at: those whose path is
/// eligible (every path when no list is given) that no rule assigned and
/// that are not authoritatively held already.
pub struct UnknownScope {
    pub assigned: Seq<RoleTarget>,
    pub authoritative: Seq<RoleTarget>,
    pub eligible: Option<Set<Seq<char>>>,
    pub file_paths: Set<Seq<char>>,
}

pub open spec fn unknown_considered(s: SummaryV, sc: UnknownScope) -> bool {
    &&& match sc.eligible {
        Some(paths) => paths.contains(s.target.path),
        None => true,
    }
    &&& !target_listed(sc.assigned, s.target)
    &&& !target_listed(sc.authoritative, s.target)
}

/// How many of the summaries the policy looks at.
pub open spec fn considered_count(sums: Seq<SummaryV>, sc: UnknownScope) -> nat
    decreases sums.len(),
{
    if sums.len() == 0 {
        0
    } else if unknown_considered(sums.last(), sc) {
        considered_count(sums.drop_last(), sc) + 1
    } else {
        considered_count(sums.drop_last(), sc)
    }
}

/// The summaries the policy looks at and sends to `d`, in order.
pub open spec fn unknown_with(sums: Seq<SummaryV>, sc: UnknownScope, d: UnknownTargetDisposition) -> Seq<SummaryV>
    decreases sums.len(),
{
    if sums.len() == 0 {
        Seq::empty()
    } else if unknown_considered(sums.last(), sc) && disposition_of(sums.last(), sc.file_paths) == d {
        unknown_with(sums.drop_last(), sc, d).push(sums.last())
    } else {
        unknown_with(sums.drop_last(), sc, d)
    }
}

/// Every target the policy looks at goes to exactly one disposition.
pub proof fn lemma_unknown_targets_partition(sums: Seq<SummaryV>, sc: UnknownScope)
    ensures
        considered_count(sums, sc) == unknown_with(sums, sc, UnknownTargetDisposition::SuppressNonRole).len()
            + unknown_with(sums, sc, UnknownTargetDisposition::RuleMiningCandidate).len() + unknown_with(
            sums,
            sc,
            UnknownTargetDisposition::AdjudicateHighImpact,
        ).len(),
    decreases sums.len(),
{
    if sums.len() > 0 {
        lemma_unknown_targets_partition(sums.drop_last(), sc);
    }
}

/// The facts of the first group about `t`; none when no group is.
pub open spec fn group_facts(groups: Seq<TargetFacts>, t: TargetV) -> Seq<FactV>
    decreases groups.len(),
{
    if groups.len() == 0 {
        Seq::empty()
    } else if groups[0].target@ == t {
        fact_views(groups[0].facts@)
    } else {
        group_facts(groups.drop_first(), t)
    }
}

fn facts_of_group(groups: &[TargetFacts], t: &RoleTarget) -> (r: Vec<ArchitectureArtefactFact>)
    ensures
        fact_views(r@) == group_facts(groups@, t@),
{
    let mut i: usize = 0;
    assert(groups@.skip(0) =~= groups@);
    while i < groups.len()
        invariant
            i <= groups@.len(),
            group_facts(groups@, t@) == group_facts(groups@.skip(i as int), t@),
        decreases groups@.len() - i,
    {
        assert(groups@.skip(i as int)[0] == groups@[i as int]);
        assert(groups@.skip(i as int).drop_first() =~= groups@.skip(i + 1));
        if groups[i].target.same_as(t) {
            let src = &groups[i].facts;
            let mut out: Vec<ArchitectureArtefactFact> = Vec::new();
            let mut k: usize = 0;
            while k < src.len()
                invariant
                    k <= src@.len(),
                    fact_views(out@) == fact_views(src@).take(k as int),
                decreases src@.len() - k,
            {
                let ghost before = out@;
                let d = src[k].duplicate();
                out.push(d);
                assert(fact_views(out@) =~= fact_views(before).push(d@));
                assert(fact_views(src@).take(k + 1) =~= fact_views(src@).take(k as int).push(src@[k as int]@));
                k = k + 1;
            }
            assert(fact_views(src@).take(k as int) =~= fact_views(src@));
            return out;
        }
        i = i + 1;
    }
    assert(groups@.skip(i as int) =~= Seq::<TargetFacts>::empty());
    let out: Vec<ArchitectureArtefactFact> = Vec::new();
    assert(fact_views(out@) =~= Seq::<FactV>::empty());
    out
}

/// An adjudication request about a summarised target, for `reason`.
pub open spec fn request_for_summary(
    r: RoleAdjudicationRequest,
    repo_id: Seq<char>,
    generation: u64,
    s: SummaryV,
    reason: AdjudicationReason,
) -> bool {
    &&& r.repo_id@ == repo_id
    &&& r.generation == generation
    &&& r.stable_request_key@ == stable_request_key_of(
        Some(target_kind_db(s.target.kind)),
        s.target.artefact_id,
        s.target.symbol_id,
        Some(s.target.path),
    )
    &&& r.facts_hash@ == placeholder_hash_text()
    &&& r.rules_hash@ == placeholder_hash_text()
    &&& r.cluster_key is None
    &&& opt_view(r.target_kind) == Some(target_kind_db(s.target.kind))
    &&& opt_view(r.artefact_id) == s.target.artefact_id
    &&& opt_view(r.symbol_id) == s.target.symbol_id
    &&& opt_view(r.path) == Some(s.target.path)
    &&& opt_view(r.language) == s.language
    &&& opt_view(r.canonical_kind) == s.canonical_kind
    &&& r.reason == reason
    &&& r.deterministic_confidence_permille is None
    &&& r.candidate_role_ids@.len() == 0
    &&& r.current_assignment is None
}

pub fn adjudication_request_for_unknown_summary(
    repo_id: &str,
    generation_seq: u64,
    summary: &RoleTargetSummary,
    reason: AdjudicationReason,
) -> (r: RoleAdjudicationRequest)
    ensures
        request_for_summary(r, repo_id@, generation_seq, summary@, reason),
{
    let (target_kind, artefact_id, symbol_id) = request_target_fields(&summary.target);
    let stable_request_key = role_adjudication_stable_request_key(
        opt_str(&target_kind),
        opt_str(&artefact_id),
        opt_str(&symbol_id),
        Some(summary.target.path.as_str()),
    );
    RoleAdjudicationRequest {
        repo_id: owned(repo_id),
        generation: generation_seq,
        stable_request_key,
        facts_hash: placeholder_request_hash(),
        rules_hash: placeholder_request_hash(),
        cluster_key: None,
        target_kind,
        artefact_id,
        symbol_id,
        path: Some(summary.target.path.clone()),
        language: clone_opt(&summary.language),
        canonical_kind: clone_opt(&summary.canonical_kind),
        reason,
        deterministic_confidence_permille: None,
        candidate_role_ids: Vec::new(),
        current_assignment: None,
    }
}

/// A rule-mining input about a summarised target that no rule covers.
pub open spec fn mining_input_for(input: RoleRuleMiningClusterInput, s: SummaryV, groups: Seq<TargetFacts>) -> bool {
    &&& input.reason == AdjudicationReason::Unknown
    &&& input.target@ == s.target
    &&& fact_views(input.facts@) == group_facts(groups, s.target)
    &&& input.candidate_role_ids@.len() == 0
    &&& input.deterministic_confidence_permille is None
    &&& !input.high_impact
}

/// What the unknown-target policy decided.
pub struct UnknownTargetPolicyOutcome {
    pub adjudication_requests: Vec<RoleAdjudicationRequest>,
    pub rule_mining_inputs: Vec<RoleRuleMiningClusterInput>,
    pub unknown_targets_total: usize,
    pub suppressed_non_role: usize,
    pub rule_mining_eligible: usize,
    pub adjudication_escalated: usize,
}

pub open spec fn policy_outcome_holds(
    r: UnknownTargetPolicyOutcome,
    repo_id: Seq<char>,
    generation: u64,
    sums: Seq<SummaryV>,
    groups: Seq<TargetFacts>,
    sc: UnknownScope,
) -> bool {
    let mined = unknown_with(sums, sc, UnknownTargetDisposition::RuleMiningCandidate);
    let escalated = unknown_with(sums, sc, UnknownTargetDisposition::AdjudicateHighImpact);
    &&& r.unknown_targets_total == considered_count(sums, sc)
    &&& r.suppressed_non_role == unknown_with(sums, sc, UnknownTargetDisposition::SuppressNonRole).len()
    &&& r.rule_mining_eligible == mined.len()
    &&& r.adjudication_escalated == escalated.len()
    &&& r.rule_mining_inputs@.len() == mined.len()
    &&& forall|k: int| 0 <= k < mined.len() ==> mining_input_for(#[trigger] r.rule_mining_inputs@[k], mined[k], groups)
    &&& r.adjudication_requests@.len() == escalated.len()
    &&& forall|k: int| 0 <= k < escalated.len() ==> request_for_summary(
        #[trigger] r.adjudication_requests@[k],
        repo_id,
        generation,
        escalated[k],
        AdjudicationReason::HighImpact,
    )
}

/// Sorts the targets no rule assigned: those not role-bearing are
/// suppressed, high-impact ones are escalated to adjudication, the rest
/// that look like source are kept for rule mining. Targets outside
/// `eligible_paths`, assigned by a rule, or held authoritatively are left
/// alone.
pub fn select_unknown_target_policy(
    repo_id: &str,
    generation_seq: u64,
    target_summaries: &[RoleTargetSummary],
    facts_by_target: &[TargetFacts],
    assigned_targets: &[RoleTarget],
    authoritative_targets: &[RoleTarget],
    eligible_paths: Option<&StrSet>,
) -> (r: UnknownTargetPolicyOutcome)
    ensures
        policy_outcome_holds(
            r,
            repo_id@,
            generation_seq,
            summary_views(target_summaries@),
            facts_by_target@,
            UnknownScope {
                assigned: assigned_targets@,
                authoritative: authoritative_targets@,
                eligible: match eligible_paths {
                    Some(p) => Some(p@.to_set()),
                    None => None,
                },
                file_paths: file_target_paths(summary_views(target_summaries@)),
            },
        ),
{
    let ghost sv = summary_views(target_summaries@);
    let ghost sc = UnknownScope {
        assigned: assigned_targets@,
        authoritative: authoritative_targets@,
        eligible: match eligible_paths {
            Some(p) => Some(p@.to_set()),
            None => None,
        },
        file_paths: file_target_paths(sv),
    };
    let file_paths = file_paths_of_summaries(target_summaries);
    let mut r = UnknownTargetPolicyOutcome {
        adjudication_requests: Vec::new(),
        rule_mining_inputs: Vec::new(),
        unknown_targets_total: 0,
        suppressed_non_role: 0,
        rule_mining_eligible: 0,
        adjudication_escalated: 0,
    };
    let mut i: usize = 0;
    while i < target_summaries.len()
        invariant
            i <= target_summaries@.len(),
            sv == summary_views(target_summaries@),
            file_paths@.to_set() == sc.file_paths,
            sc.file_paths == file_target_paths(sv),
            sc.assigned == assigned_targets@,
            sc.authoritative == authoritative_targets@,
            sc.eligible == match eligible_paths {
                Some(p) => Some(p@.to_set()),
                None => None,
            },
            r.unknown_targets_total <= i,
            policy_outcome_holds(r, repo_id@, generation_seq, sv.take(i as int), facts_by_target@, sc),
        decreases target_summaries@.len() - i,
    {
        let summary = &target_summaries[i];
        let ghost prefix = sv.take(i as int);
        assert(sv.take(i + 1).drop_last() =~= prefix);
        assert(sv.take(i + 1).last() == summary@);
        proof {
            lemma_unknown_targets_partition(prefix, sc);
        }
        let eligible = match eligible_paths {
            Some(paths) => paths.contains(summary.target.path.as_str()),
            None => true,
        };
        if eligible && !lists_target(assigned_targets, &summary.target) && !lists_target(
            authoritative_targets,
            &summary.target,
        ) {
            r.unknown_targets_total = r.unknown_targets_total + 1;
            let disposition = unknown_target_disposition(summary, &file_paths);
            match disposition {
                UnknownTargetDisposition::SuppressNonRole => {
                    r.suppressed_non_role = r.suppressed_non_role + 1;
                },
                UnknownTargetDisposition::RuleMiningCandidate => {
                    r.rule_mining_eligible = r.rule_mining_eligible + 1;
                    let facts = facts_of_group(facts_by_target, &summary.target);
                    let input = RoleRuleMiningClusterInput {
                        reason: AdjudicationReason::Unknown,
                        target: summary.target.duplicate(),
                        facts,
                        candidate_role_ids: Vec::new(),
                        deterministic_confidence_permille: None,
                        high_impact: false,
                    };
                    let ghost before = r.rule_mining_inputs@;
                    r.rule_mining_inputs.push(input);
                    assert(r.rule_mining_inputs@ =~= before.push(input));
                },
                UnknownTargetDisposition::AdjudicateHighImpact => {
                    r.adjudication_escalated = r.adjudication_escalated + 1;
                    let request = adjudication_request_for_unknown_summary(
                        repo_id,
                        generation_seq,
                        summary,
                        AdjudicationReason::HighImpact,
                    );
                    let ghost before = r.adjudication_requests@;
                    r.adjudication_requests.push(request);
                    assert(r.adjudication_requests@ =~= before.push(request));
                },
            }
        }
        i = i + 1;
    }
    assert(sv.take(i as int) =~= sv);
    r
}

} // verus!
