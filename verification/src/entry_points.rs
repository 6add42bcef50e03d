//! Entry points of a repository: candidate records, where they live, and
//! the components and deployment roots they belong to.
use vstd::prelude::*;

use crate::assoc::StrMap;
use crate::model::{opt_view, CurrentCanonicalArtefactRecord};
use crate::order::{sorted_strict, views_of, StrSet};
use crate::parsing::kebab;
use crate::paths::{
    component_segment, component_segment_of, config_root, config_root_of, dot, file_stem,
    file_stem_of, in_root, normalised, parent_components, path_in_root, relative_join_of,
    relative_to_root, relative_to_root_of, repo_relative_join, resolve,
};
use crate::text::{
    after_last, append_chars, chars_after_last, chars_eq, chars_of, chars_slice, ends_with, join,
    join_chars, owned, segments, split_segments, starts_with, str_ends_with, string_from_chars,
    views, is_ws,
};

verus! {

/// A code artefact as entry point detection sees it.
#[derive(Debug, Clone, PartialEq, Eq)]
pub struct LanguageEntryPointArtefact {
    pub artefact_id: String,
    pub symbol_id: String,
    pub path: String,
    pub name: String,
    pub canonical_kind: Option<String>,
    pub language_kind: Option<String>,
    pub symbol_fqn: Option<String>,
    pub signature: Option<String>,
    pub modifiers: Vec<String>,
    pub start_line: i64,
    pub end_line: i64,
}

/// An entry-point artefact as plain values.
pub struct EntryArtefactV {
    pub artefact_id: Seq<char>,
    pub symbol_id: Seq<char>,
    pub path: Seq<char>,
    pub name: Seq<char>,
    pub canonical_kind: Option<Seq<char>>,
    pub language_kind: Option<Seq<char>>,
    pub symbol_fqn: Option<Seq<char>>,
    pub signature: Option<Seq<char>>,
    pub modifiers: Seq<Seq<char>>,
    pub start_line: i64,
    pub end_line: i64,
}

impl View for LanguageEntryPointArtefact {
    type V = EntryArtefactV;

    open spec fn view(&self) -> EntryArtefactV {
        EntryArtefactV {
            artefact_id: self.artefact_id@,
            symbol_id: self.symbol_id@,
            path: self.path@,
            name: self.name@,
            canonical_kind: opt_view(self.canonical_kind),
            language_kind: opt_view(self.language_kind),
            symbol_fqn: opt_view(self.symbol_fqn),
            signature: opt_view(self.signature),
            modifiers: views_of(self.modifiers@),
            start_line: self.start_line,
            end_line: self.end_line,
        }
    }
}

/// A place a program can be started from. Confidences are in thousandths.
#[derive(Debug, Clone, PartialEq, Eq)]
pub struct LanguageEntryPointCandidate {
    pub path: String,
    pub artefact_id: Option<String>,
    pub symbol_id: Option<String>,
    pub name: String,
    pub entry_kind: String,
    pub confidence_permille: u32,
    pub reason: String,
    pub evidence: Vec<String>,
}

// ---------------------------------------------------------------------------
// Kinds of candidates
// ---------------------------------------------------------------------------

/// The kind of container an entry point starts.
pub open spec fn container_kind_of(entry_kind: Seq<char>, name: Seq<char>) -> Seq<char> {
    if entry_kind == "cargo_bin"@ && name == "xtask"@ {
        "dev_tool"@
    } else if entry_kind == "cargo_bin"@ || entry_kind == "npm_bin"@ || entry_kind == "python_console_script"@
        || entry_kind == "rust_cli_dispatch"@ {
        "cli"@
    } else if entry_kind == "docusaurus_site"@ {
        "documentation_site"@
    } else if entry_kind == "vscode_extension"@ {
        "editor_extension"@
    } else if entry_kind == "npm_script"@ && name == "worker"@ {
        "worker"@
    } else if entry_kind == "npm_script"@ || entry_kind == "python_web_app"@ || entry_kind == "go_http_handler"@
        || entry_kind == "next_route_handler"@ {
        "service"@
    } else {
        "runtime"@
    }
}

fn is(a: &str, b: &str) -> (r: bool)
    ensures
        r == (a@ == b@),
{
    crate::text::str_eq(a, b)
}

pub fn infer_container_kind(candidate: &LanguageEntryPointCandidate) -> (r: &'static str)
    ensures
        r@ == container_kind_of(candidate.entry_kind@, candidate.name@),
{
    let k = candidate.entry_kind.as_str();
    let n = candidate.name.as_str();
    if is(k, "cargo_bin") && is(n, "xtask") {
        "dev_tool"
    } else if is(k, "cargo_bin") || is(k, "npm_bin") || is(k, "python_console_script") || is(k, "rust_cli_dispatch") {
        "cli"
    } else if is(k, "docusaurus_site") {
        "documentation_site"
    } else if is(k, "vscode_extension") {
        "editor_extension"
    } else if is(k, "npm_script") && is(n, "worker") {
        "worker"
    } else if is(k, "npm_script") || is(k, "python_web_app") || is(k, "go_http_handler") || is(k, "next_route_handler") {
        "service"
    } else {
        "runtime"
    }
}

/// Entry points that a deployment unit is built around.
pub open spec fn deployable_kind(entry_kind: Seq<char>) -> bool {
    entry_kind == "cargo_bin"@ || entry_kind == "npm_bin"@ || entry_kind == "npm_script"@ || entry_kind
        == "python_console_script"@ || entry_kind == "docusaurus_site"@ || entry_kind == "vscode_extension"@
}

pub fn is_deployable_config_candidate(candidate: &LanguageEntryPointCandidate) -> (r: bool)
    ensures
        r == deployable_kind(candidate.entry_kind@),
{
    let k = candidate.entry_kind.as_str();
    is(k, "cargo_bin") || is(k, "npm_bin") || is(k, "npm_script") || is(k, "python_console_script") || is(
        k,
        "docusaurus_site",
    ) || is(k, "vscode_extension")
}

/// Artefacts that can be the code an entry point runs.
pub open spec fn entry_candidate_kind(kind: Option<Seq<char>>) -> bool {
    match kind {
        Some(k) => k == "function"@ || k == "method"@ || k == "callable"@ || k == "value"@ || k == "variable"@,
        None => false,
    }
}

pub fn is_entry_candidate_artefact(artefact: &LanguageEntryPointArtefact) -> (r: bool)
    ensures
        r == entry_candidate_kind(opt_view(artefact.canonical_kind)),
{
    match &artefact.canonical_kind {
        Some(k) => {
            let k = k.as_str();
            is(k, "function") || is(k, "method") || is(k, "callable") || is(k, "value") || is(k, "variable")
        },
        None => false,
    }
}

// ---------------------------------------------------------------------------
// Components
// ---------------------------------------------------------------------------

/// `s` without every leading `/`.
pub open spec fn trim_leading_slashes(s: Seq<char>) -> Seq<char>
    decreases s.len(),
{
    if s.len() > 0 && s[0] == '/' {
        trim_leading_slashes(s.drop_first())
    } else {
        s
    }
}

/// The component a path of a deployment root belongs to: its first
/// directory below the root, or below `src`.
pub open spec fn component_key_of(root: Seq<char>, path: Seq<char>) -> Option<Seq<char>> {
    let relative = if root == dot() {
        Some(path)
    } else if starts_with(path, root) {
        Some(trim_leading_slashes(path.skip(root.len() as int)))
    } else {
        None
    };
    match relative {
        None => None,
        Some(rel) => {
            let parts = segments(rel, '/');
            if parts.len() == 0 {
                None
            } else if parts[0] == "src"@ && parts.len() > 1 {
                Some("src/"@ + component_segment_of(parts[1]))
            } else {
                Some(component_segment_of(parts[0]))
            }
        },
    }
}

fn trim_slashes(s: &[char]) -> (r: Vec<char>)
    ensures
        r@ == trim_leading_slashes(s@),
{
    let mut i: usize = 0;
    assert(s@.skip(0) =~= s@);
    while i < s.len() && s[i] == '/'
        invariant
            i <= s@.len(),
            trim_leading_slashes(s@) == trim_leading_slashes(s@.skip(i as int)),
        decreases s@.len() - i,
    {
        assert(s@.skip(i as int).drop_first() =~= s@.skip(i + 1));
        i = i + 1;
    }
    let r = chars_slice(s, i, s.len());
    assert(r@ =~= s@.skip(i as int));
    r
}

pub fn component_key_for_path(root: &str, path: &str) -> (r: Option<String>)
    ensures
        match r {
            Some(k) => component_key_of(root@, path@) == Some(k@),
            None => component_key_of(root@, path@) is None,
        },
{
    let rc = chars_of(root);
    let pc = chars_of(path);
    let relative = if rc.len() == 1 && rc[0] == '.' {
        assert(rc@ =~= dot());
        pc
    } else {
        assert(rc@ != dot()) by {
            if rc@ == dot() {
                assert(rc@.len() == 1 && rc@[0] == '.');
            }
        }
        if !crate::text::chars_starts_with(pc.as_slice(), rc.as_slice()) {
            return None;
        }
        let rest = chars_slice(pc.as_slice(), rc.len(), pc.len());
        assert(rest@ =~= path@.skip(root@.len() as int));
        trim_slashes(rest.as_slice())
    };
    let parts = split_segments(relative.as_slice(), '/');
    if parts.len() == 0 {
        return None;
    }
    let src = chars_of("src");
    let first = string_from_chars(parts[0].as_slice());
    if chars_eq(parts[0].as_slice(), src.as_slice()) && parts.len() > 1 {
        let second = string_from_chars(parts[1].as_slice());
        let seg = component_segment(second.as_str());
        let mut out = chars_of("src/");
        append_chars(&mut out, seg.as_str());
        return Some(string_from_chars(out.as_slice()));
    }
    Some(component_segment(first.as_str()))
}

/// What follows the last `/` of a component key, with `_` and `-` read as
/// spaces.
pub open spec fn component_label_of(key: Seq<char>) -> Seq<char> {
    after_last(key, '/').map_values(|c: char| if c == '_' || c == '-' { ' ' } else { c })
}

pub fn component_label(component_key: &str) -> (r: String)
    ensures
        r@ == component_label_of(component_key@),
{
    let kc = chars_of(component_key);
    let last = chars_after_last(kc.as_slice(), '/');
    let mut out: Vec<char> = Vec::new();
    let mut i: usize = 0;
    while i < last.len()
        invariant
            i <= last@.len(),
            out@ == last@.take(i as int).map_values(|c: char| if c == '_' || c == '-' { ' ' } else { c }),
        decreases last@.len() - i,
    {
        let c = last[i];
        out.push(if c == '_' || c == '-' { ' ' } else { c });
        assert(out@ =~= last@.take(i + 1).map_values(|c: char| if c == '_' || c == '-' { ' ' } else { c }));
        i = i + 1;
    }
    assert(last@.take(i as int) =~= last@);
    string_from_chars(out.as_slice())
}

pub open spec fn component_path_of(root: Seq<char>, key: Seq<char>) -> Seq<char> {
    if root == dot() {
        key
    } else {
        root + "/"@ + key
    }
}

pub fn component_path(root: &str, component_key: &str) -> (r: String)
    ensures
        r@ == component_path_of(root@, component_key@),
{
    let rc = chars_of(root);
    if rc.len() == 1 && rc[0] == '.' {
        assert(rc@ =~= dot());
        return owned(component_key);
    }
    assert(rc@ != dot()) by {
        if rc@ == dot() {
            assert(rc@.len() == 1 && rc@[0] == '.');
        }
    }
    let mut out = rc;
    append_chars(&mut out, "/");
    append_chars(&mut out, component_key);
    string_from_chars(out.as_slice())
}

// ---------------------------------------------------------------------------
// Names of artefacts
// ---------------------------------------------------------------------------

pub open spec fn symbol_separator(c: char) -> bool {
    c == ':' || c == '.' || c == '#'
}

/// `s` without its trailing separators.
pub open spec fn trim_trailing_separators(s: Seq<char>) -> Seq<char>
    decreases s.len(),
{
    if s.len() > 0 && symbol_separator(s.last()) {
        trim_trailing_separators(s.drop_last())
    } else {
        s
    }
}

/// What follows the last separator of `s`.
pub open spec fn after_last_separator(s: Seq<char>) -> Seq<char>
    decreases s.len(),
{
    if s.len() == 0 || symbol_separator(s.last()) {
        Seq::empty()
    } else {
        after_last_separator(s.drop_last()).push(s.last())
    }
}

/// The last non-empty `:`, `.` or `#` separated part of a qualified name,
/// or the whole name when it has none.
pub open spec fn last_symbol_segment_of(value: Seq<char>) -> Seq<char> {
    let t = trim_trailing_separators(value);
    if t.len() == 0 {
        value
    } else {
        after_last_separator(t)
    }
}

pub fn last_symbol_segment(value: &str) -> (r: String)
    ensures
        r@ == last_symbol_segment_of(value@),
{
    let vc = chars_of(value);
    let mut n = vc.len();
    assert(vc@.take(n as int) =~= vc@);
    while n > 0 && (vc[n - 1] == ':' || vc[n - 1] == '.' || vc[n - 1] == '#')
        invariant
            n <= vc@.len(),
            trim_trailing_separators(vc@) == trim_trailing_separators(vc@.take(n as int)),
        decreases n,
    {
        assert(vc@.take(n as int).drop_last() =~= vc@.take(n - 1));
        n = n - 1;
    }
    let t = chars_slice(vc.as_slice(), 0, n);
    assert(t@ =~= vc@.take(n as int));
    assert(trim_trailing_separators(t@) == t@);
    if n == 0 {
        return owned(value);
    }
    let mut start = n;
    assert(t@.subrange(start as int, n as int) =~= Seq::<char>::empty());
    assert(t@.take(start as int) =~= t@);
    assert(after_last_separator(t@) + Seq::<char>::empty() =~= after_last_separator(t@));
    while start > 0 && !(vc[start - 1] == ':' || vc[start - 1] == '.' || vc[start - 1] == '#')
        invariant
            start <= n,
            n <= vc@.len(),
            t@ == vc@.take(n as int),
            after_last_separator(t@) == after_last_separator(t@.take(start as int)) + t@.subrange(start as int, n as int),
        decreases start,
    {
        assert(t@.take(start as int).drop_last() =~= t@.take(start - 1));
        assert(t@.subrange(start - 1, n as int) =~= seq![t@[start - 1]] + t@.subrange(start as int, n as int));
        assert(after_last_separator(t@.take(start as int)) =~= after_last_separator(t@.take(start - 1)).push(t@[start - 1]));
        start = start - 1;
    }
    assert(after_last_separator(t@.take(start as int)) =~= Seq::<char>::empty()) by {
        if start > 0 {
            assert(t@.take(start as int).last() == vc@[start - 1]);
        }
    }
    let r = chars_slice(vc.as_slice(), start, n);
    assert(r@ =~= t@.subrange(start as int, n as int));
    string_from_chars(r.as_slice())
}

/// The name shown for an artefact: the last part of its qualified name,
/// else its identity.
pub open spec fn display_name_of(a: CurrentCanonicalArtefactRecord) -> Seq<char> {
    match opt_view(a.symbol_fqn) {
        Some(q) => if last_symbol_segment_of(q).len() > 0 {
            last_symbol_segment_of(q)
        } else {
            a.artefact_id@
        },
        None => a.artefact_id@,
    }
}

pub fn artefact_display_name(artefact: &CurrentCanonicalArtefactRecord) -> (r: String)
    ensures
        r@ == display_name_of(*artefact),
{
    match &artefact.symbol_fqn {
        Some(q) => {
            let name = last_symbol_segment(q.as_str());
            if crate::text::chars_of(name.as_str()).len() > 0 {
                name
            } else {
                artefact.artefact_id.clone()
            }
        },
        None => artefact.artefact_id.clone(),
    }
}

pub fn artefact_name(artefact: &CurrentCanonicalArtefactRecord) -> (r: String)
    ensures
        r@ == display_name_of(*artefact),
{
    artefact_display_name(artefact)
}


// ---------------------------------------------------------------------------
// Files of a package
// ---------------------------------------------------------------------------

/// The first of `candidates`, joined to the directory of `config_path`,
/// that is a file of the repository.
pub open spec fn first_existing_of(config_path: Seq<char>, files: Set<Seq<char>>, candidates: Seq<Seq<char>>) -> Option<Seq<char>>
    decreases candidates.len(),
{
    if candidates.len() == 0 {
        None
    } else {
        let p = relative_join_of(config_path, candidates[0]);
        if files.contains(p) {
            Some(p)
        } else {
            first_existing_of(config_path, files, candidates.drop_first())
        }
    }
}

pub open spec fn str_views(v: Seq<&str>) -> Seq<Seq<char>> {
    v.map_values(|s: &str| s@)
}

pub fn first_existing_package_path(config_path: &str, file_paths: &StrSet, candidates: &[&str]) -> (r: Option<String>)
    ensures
        match r {
            Some(p) => first_existing_of(config_path@, file_paths@.to_set(), str_views(candidates@)) == Some(p@),
            None => first_existing_of(config_path@, file_paths@.to_set(), str_views(candidates@)) is None,
        },
{
    let ghost cv = str_views(candidates@);
    let ghost files = file_paths@.to_set();
    let mut i: usize = 0;
    assert(cv.skip(0) =~= cv);
    while i < candidates.len()
        invariant
            i <= candidates@.len(),
            cv == str_views(candidates@),
            files == file_paths@.to_set(),
            first_existing_of(config_path@, files, cv) == first_existing_of(config_path@, files, cv.skip(i as int)),
        decreases candidates@.len() - i,
    {
        assert(cv.skip(i as int)[0] == candidates@[i as int]@);
        assert(cv.skip(i as int).drop_first() =~= cv.skip(i + 1));
        let p = repo_relative_join(config_path, candidates[i]);
        if file_paths.contains(p.as_str()) {
            return Some(p);
        }
        i = i + 1;
    }
    assert(cv.skip(i as int) =~= Seq::<Seq<char>>::empty());
    None
}

pub open spec fn docusaurus_configs() -> Seq<Seq<char>> {
    seq![
        "docusaurus.config.ts"@,
        "docusaurus.config.js"@,
        "docusaurus.config.mjs"@,
        "docusaurus.config.cjs"@,
    ]
}

pub fn docusaurus_config_path(config_path: &str, file_paths: &StrSet) -> (r: Option<String>)
    ensures
        match r {
            Some(p) => first_existing_of(config_path@, file_paths@.to_set(), docusaurus_configs()) == Some(p@),
            None => first_existing_of(config_path@, file_paths@.to_set(), docusaurus_configs()) is None,
        },
{
    let names = ["docusaurus.config.ts", "docusaurus.config.js", "docusaurus.config.mjs", "docusaurus.config.cjs"];
    assert(str_views(names@) =~= docusaurus_configs());
    first_existing_package_path(config_path, file_paths, &names)
}

pub open spec fn conventional_route_files() -> Seq<Seq<char>> {
    seq!["src/api/router.rs"@, "src/router.rs"@, "src/routes.rs"@, "src/http/router.rs"@, "src/server.rs"@, "src/main.rs"@]
}

/// The conventional router files of a package that exist, in that order.
pub open spec fn existing_of(config_path: Seq<char>, files: Set<Seq<char>>, candidates: Seq<Seq<char>>) -> Seq<Seq<char>>
    decreases candidates.len(),
{
    if candidates.len() == 0 {
        Seq::empty()
    } else {
        let prev = existing_of(config_path, files, candidates.drop_last());
        let p = relative_join_of(config_path, candidates.last());
        if files.contains(p) {
            prev.push(p)
        } else {
            prev
        }
    }
}

pub fn http_route_files(config_path: &str, file_paths: &StrSet) -> (r: Vec<String>)
    ensures
        views_of(r@) == existing_of(config_path@, file_paths@.to_set(), conventional_route_files()),
{
    let names = ["src/api/router.rs", "src/router.rs", "src/routes.rs", "src/http/router.rs", "src/server.rs", "src/main.rs"];
    let ghost cv = str_views(names@);
    assert(cv =~= conventional_route_files());
    let mut out: Vec<String> = Vec::new();
    let mut i: usize = 0;
    assert(cv.take(0) =~= Seq::<Seq<char>>::empty());
    while i < names.len()
        invariant
            i <= 6,
            cv == str_views(names@),
            views_of(out@) == existing_of(config_path@, file_paths@.to_set(), cv.take(i as int)),
        decreases 6 - i,
    {
        assert(cv.take(i + 1).drop_last() =~= cv.take(i as int));
        assert(cv.take(i + 1).last() == names@[i as int]@);
        let p = repo_relative_join(config_path, names[i]);
        if file_paths.contains(p.as_str()) {
            let ghost before = out@;
            out.push(p);
            assert(views_of(out@) =~= views_of(before).push(p@));
        }
        i = i + 1;
    }
    assert(cv.take(6) =~= cv);
    out
}

/// The Rust files in the package of `config_path`, in ascending order.
pub open spec fn rust_files_of(paths: Seq<Seq<char>>, root: Seq<char>) -> Seq<Seq<char>>
    decreases paths.len(),
{
    if paths.len() == 0 {
        Seq::empty()
    } else {
        let prev = rust_files_of(paths.drop_last(), root);
        let p = paths.last();
        if ends_with(p, ".rs"@) && in_root(p, root) {
            prev.push(p)
        } else {
            prev
        }
    }
}

pub fn rust_files_under_config_root(config_path: &str, file_paths: &StrSet) -> (r: Vec<String>)
    ensures
        views_of(r@) == rust_files_of(file_paths@, config_root_of(config_path@)),
{
    let root = config_root(config_path);
    let all = file_paths.to_vec();
    let mut out: Vec<String> = Vec::new();
    let mut i: usize = 0;
    assert(file_paths@.take(0) =~= Seq::<Seq<char>>::empty());
    while i < all.len()
        invariant
            i <= all@.len(),
            views_of(all@) == file_paths@,
            root@ == config_root_of(config_path@),
            views_of(out@) == rust_files_of(file_paths@.take(i as int), root@),
        decreases all@.len() - i,
    {
        assert(file_paths@.take(i + 1).drop_last() =~= file_paths@.take(i as int));
        assert(file_paths@.take(i + 1).last() == all@[i as int]@);
        let p = all[i].as_str();
        if str_ends_with(p, ".rs") && path_in_root(p, root.as_str()) {
            let ghost before = out@;
            out.push(all[i].clone());
            assert(views_of(out@) =~= views_of(before).push(all@[i as int]@));
        }
        i = i + 1;
    }
    assert(file_paths@.take(i as int) =~= file_paths@);
    out
}

/// `Path::file_name`: the last component, unless it is `..`.
pub open spec fn file_name_of(path: Seq<char>) -> Option<Seq<char>> {
    let c = crate::paths::components(path);
    if c.len() == 0 || c.last() == crate::paths::dot_dot() {
        None
    } else {
        Some(c.last())
    }
}

pub fn file_name(path: &[char]) -> (r: Option<Vec<char>>)
    ensures
        match r {
            Some(v) => file_name_of(path@) == Some(v@),
            None => file_name_of(path@) is None,
        },
{
    let comps = crate::paths::path_components_of(path);
    if comps.len() == 0 {
        return None;
    }
    let last = &comps[comps.len() - 1];
    assert(views(comps@).last() == last@);
    if last.len() == 2 && last[0] == '.' && last[1] == '.' {
        assert(last@ =~= crate::paths::dot_dot());
        return None;
    }
    assert(last@ != crate::paths::dot_dot()) by {
        if last@ == crate::paths::dot_dot() {
            assert(last@.len() == 2 && last@[0] == '.' && last@[1] == '.');
        }
    }
    Some(chars_slice(last.as_slice(), 0, last.len()))
}

/// The stem of the file a path names, unless empty.
pub open spec fn path_stem_of(path: Seq<char>) -> Option<Seq<char>> {
    match file_name_of(path) {
        Some(n) => match file_stem_of(n) {
            Some(s) => if s.len() > 0 {
                Some(s)
            } else {
                None
            },
            None => None,
        },
        None => None,
    }
}

pub fn path_stem(path: &[char]) -> (r: Option<Vec<char>>)
    ensures
        match r {
            Some(v) => path_stem_of(path@) == Some(v@),
            None => path_stem_of(path@) is None,
        },
{
    match file_name(path) {
        Some(n) => match file_stem(n.as_slice()) {
            Some(s) => if s.len() > 0 {
                Some(s)
            } else {
                None
            },
            None => None,
        },
        None => None,
    }
}

pub open spec fn main_source_candidates(stem: Seq<char>) -> Seq<Seq<char>> {
    seq![
        "src/"@ + stem + ".ts"@,
        "src/"@ + stem + ".tsx"@,
        "src/"@ + stem + ".js"@,
        "src/"@ + stem + ".jsx"@,
        stem + ".ts"@,
        stem + ".js"@,
    ]
}

/// The source of a package's `main`: the file itself, else a TypeScript or
/// JavaScript source of the same stem.
pub open spec fn main_source_of(config_path: Seq<char>, main: Seq<char>, files: Set<Seq<char>>) -> Option<Seq<char>> {
    let exact = relative_join_of(config_path, main);
    if files.contains(exact) {
        Some(exact)
    } else {
        match path_stem_of(main) {
            None => None,
            Some(stem) => first_existing_of(config_path, files, main_source_candidates(stem)),
        }
    }
}

fn with_affixes(prefix: &str, stem: &[char], suffix: &str) -> (r: String)
    ensures
        r@ == prefix@ + stem@ + suffix@,
{
    let mut out = chars_of(prefix);
    let mut i: usize = 0;
    let ghost start = out@;
    while i < stem.len()
        invariant
            i <= stem@.len(),
            out@ == start + stem@.take(i as int),
        decreases stem@.len() - i,
    {
        out.push(stem[i]);
        assert(stem@.take(i + 1) =~= stem@.take(i as int).push(stem@[i as int]));
        i = i + 1;
    }
    assert(stem@.take(i as int) =~= stem@);
    append_chars(&mut out, suffix);
    string_from_chars(out.as_slice())
}

pub fn package_main_source_path(config_path: &str, main: &str, file_paths: &StrSet) -> (r: Option<String>)
    ensures
        match r {
            Some(p) => main_source_of(config_path@, main@, file_paths@.to_set()) == Some(p@),
            None => main_source_of(config_path@, main@, file_paths@.to_set()) is None,
        },
{
    let exact = repo_relative_join(config_path, main);
    if file_paths.contains(exact.as_str()) {
        return Some(exact);
    }
    let mc = chars_of(main);
    let stem = match path_stem(mc.as_slice()) {
        Some(s) => s,
        None => return None,
    };
    let c0 = with_affixes("src/", stem.as_slice(), ".ts");
    let c1 = with_affixes("src/", stem.as_slice(), ".tsx");
    let c2 = with_affixes("src/", stem.as_slice(), ".js");
    let c3 = with_affixes("src/", stem.as_slice(), ".jsx");
    let c4 = with_affixes("", stem.as_slice(), ".ts");
    let c5 = with_affixes("", stem.as_slice(), ".js");
    proof {
        reveal_strlit("");
        assert(""@ + stem@ =~= stem@);
    }
    let candidates = [c0.as_str(), c1.as_str(), c2.as_str(), c3.as_str(), c4.as_str(), c5.as_str()];
    assert(str_views(candidates@) =~= main_source_candidates(stem@));
    first_existing_package_path(config_path, file_paths, &candidates)
}


// ---------------------------------------------------------------------------
// Clap commands by file
// ---------------------------------------------------------------------------

pub open spec fn underscores_to_hyphens(s: Seq<char>) -> Seq<char> {
    s.map_values(|c: char| if c == '_' { '-' } else { c })
}

/// The words of a command prefix: each part in kebab case, empty ones
/// dropped.
pub open spec fn prefix_words(parts: Seq<Seq<char>>) -> Seq<Seq<char>>
    decreases parts.len(),
{
    if parts.len() == 0 {
        Seq::empty()
    } else {
        let prev = prefix_words(parts.drop_last());
        let w = kebab(underscores_to_hyphens(parts.last()));
        if w.len() > 0 {
            prev.push(w)
        } else {
            prev
        }
    }
}

/// The command a file under `src/cli` or `src/commands` of a package
/// nests its subcommands under: its directories and its stem (unless the
/// stem is `args`, `mod` or `commands`), in kebab case.
pub open spec fn clap_prefix_of(config_path: Seq<char>, path: Seq<char>) -> Option<Seq<char>> {
    match relative_to_root_of(config_root_of(config_path), path) {
        None => None,
        Some(rel) => {
            let parts = segments(rel, '/');
            if !(parts.len() >= 2 && parts[0] == "src"@ && (parts[1] == "cli"@ || parts[1] == "commands"@)) {
                None
            } else {
                let rest = parts.skip(2);
                if rest.len() == 0 {
                    None
                } else {
                    let last = rest.last();
                    let stem = match file_stem_of(last) {
                        Some(s) => s,
                        None => last,
                    };
                    let kept = if stem == "args"@ || stem == "mod"@ || stem == "commands"@ {
                        rest.drop_last()
                    } else {
                        rest.drop_last().push(stem)
                    };
                    let words = prefix_words(kept);
                    if words.len() == 0 {
                        None
                    } else {
                        Some(join(words, " "@))
                    }
                }
            }
        },
    }
}

fn is_chars(a: &[char], b: &str) -> (r: bool)
    ensures
        r == (a@ == b@),
{
    let bc = chars_of(b);
    chars_eq(a, bc.as_slice())
}

pub fn clap_command_prefix_from_path(config_path: &str, path: &str) -> (r: Option<String>)
    ensures
        match r {
            Some(p) => clap_prefix_of(config_path@, path@) == Some(p@),
            None => clap_prefix_of(config_path@, path@) is None,
        },
{
    let root = config_root(config_path);
    let relative = match relative_to_root(root.as_str(), path) {
        Some(r) => r,
        None => return None,
    };
    let rc = chars_of(relative.as_str());
    let parts = split_segments(rc.as_slice(), '/');
    let ghost pv = views(parts@);
    if !(parts.len() >= 2 && is_chars(parts[0].as_slice(), "src") && (is_chars(parts[1].as_slice(), "cli")
        || is_chars(parts[1].as_slice(), "commands"))) {
        return None;
    }
    if parts.len() == 2 {
        assert(pv.skip(2).len() == 0);
        return None;
    }
    let n = parts.len();
    let last = &parts[n - 1];
    assert(pv.skip(2).last() == last@);
    let stem = match file_stem(last.as_slice()) {
        Some(s) => s,
        None => chars_slice(last.as_slice(), 0, last.len()),
    };
    assert(stem@ == match file_stem_of(last@) {
        Some(s) => s,
        None => last@,
    }) by {
        if file_stem_of(last@) is None {
            assert(stem@ =~= last@);
        }
    }
    let drop = is_chars(stem.as_slice(), "args") || is_chars(stem.as_slice(), "mod") || is_chars(
        stem.as_slice(),
        "commands",
    );
    let mut kept: Vec<Vec<char>> = Vec::new();
    let mut i: usize = 2;
    while i < n - 1
        invariant
            2 <= i <= n - 1,
            n == parts@.len(),
            pv == views(parts@),
            views(kept@) == pv.skip(2).take(i - 2),
        decreases n - 1 - i,
    {
        let ghost before = kept@;
        kept.push(parts[i].clone());
        assert(views(kept@) =~= views(before).push(pv[i as int]));
        assert(pv.skip(2).take(i - 1) =~= pv.skip(2).take(i - 2).push(pv[i as int]));
        i = i + 1;
    }
    assert(pv.skip(2).take(n - 3) =~= pv.skip(2).drop_last());
    if !drop {
        let ghost before = kept@;
        kept.push(stem);
        assert(views(kept@) =~= views(before).push(stem@));
    }
    let ghost kv = views(kept@);
    let mut words: Vec<Vec<char>> = Vec::new();
    let mut k: usize = 0;
    assert(kv.take(0) =~= Seq::<Seq<char>>::empty());
    while k < kept.len()
        invariant
            k <= kept@.len(),
            kv == views(kept@),
            views(words@) == prefix_words(kv.take(k as int)),
        decreases kept@.len() - k,
    {
        assert(kv.take(k + 1).drop_last() =~= kv.take(k as int));
        assert(kv.take(k + 1).last() == kept@[k as int]@);
        let part = &kept[k];
        let mut hyphened: Vec<char> = Vec::new();
        let mut j: usize = 0;
        while j < part.len()
            invariant
                j <= part@.len(),
                hyphened@ == underscores_to_hyphens(part@.take(j as int)),
            decreases part@.len() - j,
        {
            hyphened.push(if part[j] == '_' { '-' } else { part[j] });
            assert(hyphened@ =~= underscores_to_hyphens(part@.take(j + 1)));
            j = j + 1;
        }
        assert(part@.take(j as int) =~= part@);
        let w = crate::parsing::variant_to_kebab(hyphened.as_slice());
        if w.len() > 0 {
            let ghost before = words@;
            words.push(w);
            assert(views(words@) =~= views(before).push(w@));
        }
        k = k + 1;
    }
    assert(kv.take(k as int) =~= kv);
    if words.len() == 0 {
        return None;
    }
    let space = chars_of(" ");
    let joined = join_chars(&words, space.as_slice());
    Some(string_from_chars(joined.as_slice()))
}

// ---------------------------------------------------------------------------
// Deployment roots
// ---------------------------------------------------------------------------

/// The normal form of the parent of a path.
pub open spec fn parent_normalised(path: Seq<char>) -> Seq<char> {
    join(resolve(parent_components(path)), seq!['/'])
}

pub open spec fn is_manifest(path: Seq<char>) -> bool {
    ends_with(path, "Cargo.toml"@) || ends_with(path, "package.json"@) || ends_with(path, "pyproject.toml"@)
}

pub open spec fn first_manifest(evidence: Seq<Seq<char>>) -> Option<Seq<char>>
    decreases evidence.len(),
{
    if evidence.len() == 0 {
        None
    } else if is_manifest(evidence[0]) {
        Some(evidence[0])
    } else {
        first_manifest(evidence.drop_first())
    }
}

/// The directory of the first manifest among a candidate's evidence, else
/// the directory of the candidate, else `.`.
pub open spec fn deployment_root_of(evidence: Seq<Seq<char>>, path: Seq<char>) -> Seq<char> {
    let fallback = if parent_normalised(path).len() > 0 {
        parent_normalised(path)
    } else {
        dot()
    };
    match first_manifest(evidence) {
        Some(m) => if parent_normalised(m).len() > 0 {
            parent_normalised(m)
        } else {
            fallback
        },
        None => fallback,
    }
}

fn parent_normalised_of(path: &str) -> (r: String)
    ensures
        r@ == parent_normalised(path@),
{
    let pc = chars_of(path);
    let mut comps = crate::paths::path_components_of(pc.as_slice());
    if comps.len() > 0 {
        let ghost before = comps@;
        comps.pop();
        assert(views(comps@) =~= views(before).drop_last());
    }
    let resolved = crate::paths::resolve_parts_of(&comps);
    let mut slash: Vec<char> = Vec::new();
    slash.push('/');
    assert(slash@ =~= seq!['/']);
    let joined = join_chars(&resolved, slash.as_slice());
    string_from_chars(joined.as_slice())
}

fn first_manifest_index(evidence: &Vec<String>) -> (r: Option<usize>)
    ensures
        match r {
            Some(k) => k < evidence@.len() && first_manifest(views_of(evidence@)) == Some(evidence@[k as int]@),
            None => first_manifest(views_of(evidence@)) is None,
        },
{
    let ghost ev = views_of(evidence@);
    let mut i: usize = 0;
    assert(ev.skip(0) =~= ev);
    while i < evidence.len()
        invariant
            i <= evidence@.len(),
            ev == views_of(evidence@),
            first_manifest(ev) == first_manifest(ev.skip(i as int)),
        decreases evidence@.len() - i,
    {
        assert(ev.skip(i as int)[0] == evidence@[i as int]@);
        assert(ev.skip(i as int).drop_first() =~= ev.skip(i + 1));
        let e = evidence[i].as_str();
        if str_ends_with(e, "Cargo.toml") || str_ends_with(e, "package.json") || str_ends_with(e, "pyproject.toml") {
            return Some(i);
        }
        i = i + 1;
    }
    assert(ev.skip(i as int) =~= Seq::<Seq<char>>::empty());
    None
}

pub fn deployment_root_from_candidate(candidate: &LanguageEntryPointCandidate) -> (r: String)
    ensures
        r@ == deployment_root_of(views_of(candidate.evidence@), candidate.path@),
{
    let found = first_manifest_index(&candidate.evidence);
    let fallback = {
        let p = parent_normalised_of(candidate.path.as_str());
        if chars_of(p.as_str()).len() > 0 {
            p
        } else {
            let d = chars_of(".");
            assert(d@ =~= dot()) by {
                reveal_strlit(".");
            }
            string_from_chars(d.as_slice())
        }
    };
    match found {
        Some(k) => {
            let m = parent_normalised_of(candidate.evidence[k].as_str());
            if chars_of(m.as_str()).len() > 0 {
                m
            } else {
                fallback
            }
        },
        None => fallback,
    }
}


// ---------------------------------------------------------------------------
// Scripts
// ---------------------------------------------------------------------------

/// Scan of `str::split_whitespace` from the left.
pub open spec fn word_scan(s: Seq<char>) -> (Seq<Seq<char>>, Seq<char>)
    decreases s.len(),
{
    if s.len() == 0 {
        (Seq::empty(), Seq::empty())
    } else {
        let (done, cur) = word_scan(s.drop_last());
        if is_ws(s.last()) {
            if cur.len() > 0 {
                (done.push(cur), Seq::empty())
            } else {
                (done, Seq::empty())
            }
        } else {
            (done, cur.push(s.last()))
        }
    }
}

/// The whitespace-separated words of `s`.
pub open spec fn words_of(s: Seq<char>) -> Seq<Seq<char>> {
    let (done, cur) = word_scan(s);
    if cur.len() > 0 {
        done.push(cur)
    } else {
        done
    }
}

pub fn split_words(s: &[char]) -> (r: Vec<Vec<char>>)
    ensures
        views(r@) == words_of(s@),
{
    let mut done: Vec<Vec<char>> = Vec::new();
    let mut cur: Vec<char> = Vec::new();
    let mut i: usize = 0;
    while i < s.len()
        invariant
            i <= s@.len(),
            views(done@) == word_scan(s@.take(i as int)).0,
            cur@ == word_scan(s@.take(i as int)).1,
        decreases s@.len() - i,
    {
        assert(s@.take(i + 1).drop_last() =~= s@.take(i as int));
        let ghost old_done = views(done@);
        let ghost old_cur = cur@;
        if crate::text::is_whitespace_char(s[i]) {
            if cur.len() > 0 {
                let piece = cur;
                done.push(piece);
                assert(views(done@) =~= old_done.push(old_cur));
            }
            cur = Vec::new();
            assert(cur@ =~= Seq::<char>::empty());
        } else {
            cur.push(s[i]);
            assert(views(done@) =~= old_done);
        }
        i = i + 1;
    }
    assert(s@.take(i as int) =~= s@);
    let ghost old_done = views(done@);
    let ghost old_cur = cur@;
    if cur.len() > 0 {
        done.push(cur);
        assert(views(done@) =~= old_done.push(old_cur));
    }
    done
}

pub open spec fn wrapping_char(c: char) -> bool {
    c == '"' || c == '\'' || c == '(' || c == ')' || c == ','
}

pub open spec fn strip_wrapping_front(s: Seq<char>) -> Seq<char>
    decreases s.len(),
{
    if s.len() > 0 && wrapping_char(s[0]) {
        strip_wrapping_front(s.drop_first())
    } else {
        s
    }
}

pub open spec fn strip_wrapping_back(s: Seq<char>) -> Seq<char>
    decreases s.len(),
{
    if s.len() > 0 && wrapping_char(s.last()) {
        strip_wrapping_back(s.drop_last())
    } else {
        s
    }
}

/// A word of a script as a path: without quotes, brackets and commas
/// around it, and without leading `./`.
pub open spec fn script_token(word: Seq<char>) -> Seq<char> {
    crate::paths::trim_leading_dot_slash(strip_wrapping_back(strip_wrapping_front(word)))
}

/// `Path::extension` of a file name.
pub open spec fn extension_of_name(name: Seq<char>) -> Option<Seq<char>> {
    if !crate::text::has_char(name, '.') || crate::text::last_index(name, '.') == 0 {
        None
    } else {
        Some(after_last(name, '.'))
    }
}

pub open spec fn script_extension(token: Seq<char>) -> bool {
    match file_name_of(token) {
        Some(n) => match extension_of_name(n) {
            Some(e) => e == "js"@ || e == "jsx"@ || e == "ts"@ || e == "tsx"@ || e == "mjs"@ || e == "cjs"@,
            None => false,
        },
        None => false,
    }
}

/// The first word of a script that names a JavaScript or TypeScript file
/// of the package.
pub open spec fn script_word_path(config_path: Seq<char>, files: Set<Seq<char>>, words: Seq<Seq<char>>) -> Option<Seq<char>>
    decreases words.len(),
{
    if words.len() == 0 {
        None
    } else {
        let t = script_token(words[0]);
        let p = relative_join_of(config_path, t);
        if script_extension(t) && files.contains(p) {
            Some(p)
        } else {
            script_word_path(config_path, files, words.drop_first())
        }
    }
}

pub open spec fn script_fallbacks() -> Seq<Seq<char>> {
    seq![
        "src/index.ts"@, "src/index.js"@, "src/server.ts"@, "src/server.js"@, "server.ts"@, "server.js"@,
        "app.ts"@, "app.js"@,
    ]
}

/// The file a package script runs: the first file it names, else a
/// conventional server or index file.
pub open spec fn script_entry_of(config_path: Seq<char>, script: Seq<char>, files: Set<Seq<char>>) -> Option<Seq<char>> {
    match script_word_path(config_path, files, words_of(script)) {
        Some(p) => Some(p),
        None => first_existing_of(config_path, files, script_fallbacks()),
    }
}

fn token_of(word: &[char]) -> (r: Vec<char>)
    ensures
        r@ == script_token(word@),
{
    let mut a: usize = 0;
    assert(word@.skip(0) =~= word@);
    while a < word.len() && (word[a] == '"' || word[a] == '\'' || word[a] == '(' || word[a] == ')' || word[a] == ',')
        invariant
            a <= word@.len(),
            strip_wrapping_front(word@) == strip_wrapping_front(word@.skip(a as int)),
        decreases word@.len() - a,
    {
        assert(word@.skip(a as int).drop_first() =~= word@.skip(a + 1));
        a = a + 1;
    }
    let front = chars_slice(word, a, word.len());
    assert(front@ =~= word@.skip(a as int));
    assert(strip_wrapping_front(front@) == front@);
    let mut b: usize = front.len();
    assert(front@.take(b as int) =~= front@);
    while b > 0 && (front[b - 1] == '"' || front[b - 1] == '\'' || front[b - 1] == '(' || front[b - 1] == ')'
        || front[b - 1] == ',')
        invariant
            b <= front@.len(),
            strip_wrapping_back(front@) == strip_wrapping_back(front@.take(b as int)),
        decreases b,
    {
        assert(front@.take(b as int).drop_last() =~= front@.take(b - 1));
        b = b - 1;
    }
    let both = chars_slice(front.as_slice(), 0, b);
    assert(both@ =~= front@.take(b as int));
    crate::paths::trim_dot_slash_of(both.as_slice())
}

fn has_script_extension(token: &[char]) -> (r: bool)
    ensures
        r == script_extension(token@),
{
    match file_name(token) {
        None => false,
        Some(n) => {
            proof {
                crate::text::lemma_last_index(n@, '.');
            }
            match crate::text::find_last(n.as_slice(), '.') {
                None => {
                    assert(!crate::text::has_char(n@, '.'));
                    false
                },
                Some(i) => {
                    assert(crate::text::has_char(n@, '.'));
                    if i == 0 {
                        return false;
                    }
                    let e = chars_after_last(n.as_slice(), '.');
                    is_chars(e.as_slice(), "js") || is_chars(e.as_slice(), "jsx") || is_chars(e.as_slice(), "ts")
                        || is_chars(e.as_slice(), "tsx") || is_chars(e.as_slice(), "mjs") || is_chars(
                        e.as_slice(),
                        "cjs",
                    )
                },
            }
        },
    }
}

pub fn script_entry_path(config_path: &str, script: &str, file_paths: &StrSet) -> (r: Option<String>)
    ensures
        match r {
            Some(p) => script_entry_of(config_path@, script@, file_paths@.to_set()) == Some(p@),
            None => script_entry_of(config_path@, script@, file_paths@.to_set()) is None,
        },
{
    let sc = chars_of(script);
    let words = split_words(sc.as_slice());
    let ghost wv = views(words@);
    let ghost files = file_paths@.to_set();
    let mut i: usize = 0;
    assert(wv.skip(0) =~= wv);
    while i < words.len()
        invariant
            i <= words@.len(),
            wv == views(words@),
            wv == words_of(script@),
            files == file_paths@.to_set(),
            script_word_path(config_path@, files, wv) == script_word_path(config_path@, files, wv.skip(i as int)),
        decreases words@.len() - i,
    {
        assert(wv.skip(i as int)[0] == words@[i as int]@);
        assert(wv.skip(i as int).drop_first() =~= wv.skip(i + 1));
        let token = token_of(words[i].as_slice());
        let t = string_from_chars(token.as_slice());
        let path = repo_relative_join(config_path, t.as_str());
        if has_script_extension(token.as_slice()) && file_paths.contains(path.as_str()) {
            return Some(path);
        }
        i = i + 1;
    }
    assert(wv.skip(i as int) =~= Seq::<Seq<char>>::empty());
    let names = [
        "src/index.ts", "src/index.js", "src/server.ts", "src/server.js", "server.ts", "server.js", "app.ts",
        "app.js",
    ];
    assert(str_views(names@) =~= script_fallbacks());
    first_existing_package_path(config_path, file_paths, &names)
}


// ---------------------------------------------------------------------------
// Candidates from configuration files
// ---------------------------------------------------------------------------

pub open spec fn first_main(arts: Seq<LanguageEntryPointArtefact>) -> Option<LanguageEntryPointArtefact>
    decreases arts.len(),
{
    if arts.len() == 0 {
        None
    } else if arts[0].name@ == "main"@ {
        Some(arts[0])
    } else {
        first_main(arts.drop_first())
    }
}

pub open spec fn first_entry_kind(arts: Seq<LanguageEntryPointArtefact>) -> Option<LanguageEntryPointArtefact>
    decreases arts.len(),
{
    if arts.len() == 0 {
        None
    } else if entry_candidate_kind(opt_view(arts[0].canonical_kind)) {
        Some(arts[0])
    } else {
        first_entry_kind(arts.drop_first())
    }
}

/// The artefact a candidate points at: one named `main`, else one that can
/// run, else the first.
pub open spec fn picked_artefact(arts: Seq<LanguageEntryPointArtefact>) -> Option<LanguageEntryPointArtefact> {
    match first_main(arts) {
        Some(a) => Some(a),
        None => match first_entry_kind(arts) {
            Some(a) => Some(a),
            None => if arts.len() > 0 {
                Some(arts[0])
            } else {
                None
            },
        },
    }
}

pub open spec fn artefacts_at(
    artefacts_by_path: Map<Seq<char>, Vec<LanguageEntryPointArtefact>>,
    path: Seq<char>,
) -> Seq<LanguageEntryPointArtefact> {
    if artefacts_by_path.dom().contains(path) {
        artefacts_by_path[path]@
    } else {
        Seq::empty()
    }
}

fn pick_artefact(arts: &Vec<LanguageEntryPointArtefact>) -> (r: Option<usize>)
    ensures
        match r {
            Some(i) => i < arts@.len() && picked_artefact(arts@) == Some(arts@[i as int]),
            None => picked_artefact(arts@) is None,
        },
{
    let mut i: usize = 0;
    assert(arts@.skip(0) =~= arts@);
    while i < arts.len()
        invariant
            i <= arts@.len(),
            first_main(arts@) == first_main(arts@.skip(i as int)),
        decreases arts@.len() - i,
    {
        assert(arts@.skip(i as int)[0] == arts@[i as int]);
        assert(arts@.skip(i as int).drop_first() =~= arts@.skip(i + 1));
        if is(arts[i].name.as_str(), "main") {
            return Some(i);
        }
        i = i + 1;
    }
    assert(arts@.skip(i as int) =~= Seq::<LanguageEntryPointArtefact>::empty());
    let mut j: usize = 0;
    while j < arts.len()
        invariant
            j <= arts@.len(),
            first_main(arts@) is None,
            first_entry_kind(arts@) == first_entry_kind(arts@.skip(j as int)),
        decreases arts@.len() - j,
    {
        assert(arts@.skip(j as int)[0] == arts@[j as int]);
        assert(arts@.skip(j as int).drop_first() =~= arts@.skip(j + 1));
        if is_entry_candidate_artefact(&arts[j]) {
            return Some(j);
        }
        j = j + 1;
    }
    assert(arts@.skip(j as int) =~= Seq::<LanguageEntryPointArtefact>::empty());
    if arts.len() > 0 {
        Some(0)
    } else {
        None
    }
}

/// The candidate `config_candidate_for_path` makes, as plain values.
pub open spec fn config_candidate_of(
    artefacts_by_path: Map<Seq<char>, Vec<LanguageEntryPointArtefact>>,
    path: Seq<char>,
    entry_kind: Seq<char>,
    name: Seq<char>,
    confidence_permille: u32,
    reason: Seq<char>,
    evidence: Seq<Seq<char>>,
) -> CandidateV {
    let picked = picked_artefact(artefacts_at(artefacts_by_path, path));
    CandidateV {
        path,
        artefact_id: match picked {
            Some(a) => Some(a.artefact_id@),
            None => None,
        },
        symbol_id: match picked {
            Some(a) => Some(a.symbol_id@),
            None => None,
        },
        name: if name.len() == 0 {
            match picked {
                Some(a) => a.name@,
                None => path,
            }
        } else {
            name
        },
        entry_kind,
        confidence_permille,
        reason,
        evidence,
    }
}

/// A candidate for `path`, pointing at the artefact of that path that the
/// entry most likely runs; an empty name falls back to the artefact's name,
/// then to the path.
pub fn config_candidate_for_path(
    path: &str,
    artefacts_by_path: &StrMap<Vec<LanguageEntryPointArtefact>>,
    entry_kind: &str,
    name: &str,
    confidence_permille: u32,
    reason: &str,
    evidence: Vec<String>,
) -> (r: LanguageEntryPointCandidate)
    ensures
        ({
            let picked = picked_artefact(artefacts_at(artefacts_by_path@, path@));
            &&& r.path@ == path@
            &&& opt_view(r.artefact_id) == match picked {
                Some(a) => Some(a.artefact_id@),
                None => None,
            }
            &&& opt_view(r.symbol_id) == match picked {
                Some(a) => Some(a.symbol_id@),
                None => None,
            }
            &&& r.name@ == if name@.len() == 0 {
                match picked {
                    Some(a) => a.name@,
                    None => path@,
                }
            } else {
                name@
            }
            &&& r.entry_kind@ == entry_kind@
            &&& r.confidence_permille == confidence_permille
            &&& r.reason@ == reason@
            &&& r.evidence@ == evidence@
        }),
        r@ == config_candidate_of(
            artefacts_by_path@,
            path@,
            entry_kind@,
            name@,
            confidence_permille,
            reason@,
            views_of(evidence@),
        ),
{
    let empty: Vec<LanguageEntryPointArtefact> = Vec::new();
    let arts = match artefacts_by_path.get(path) {
        Some(v) => v,
        None => &empty,
    };
    assert(arts@ == artefacts_at(artefacts_by_path@, path@));
    let picked = pick_artefact(arts);
    let (artefact_id, symbol_id, artefact_name) = match picked {
        Some(i) => (Some(arts[i].artefact_id.clone()), Some(arts[i].symbol_id.clone()), Some(arts[i].name.clone())),
        None => (None, None, None),
    };
    let name_empty = chars_of(name).len() == 0;
    let chosen = if name_empty {
        match artefact_name {
            Some(n) => n,
            None => owned(path),
        }
    } else {
        owned(name)
    };
    LanguageEntryPointCandidate {
        path: owned(path),
        artefact_id,
        symbol_id,
        name: chosen,
        entry_kind: owned(entry_kind),
        confidence_permille,
        reason: owned(reason),
        evidence,
    }
}

/// An artefact of the snapshot as entry point detection sees it: its
/// display name, and its modifiers read from their JSON text.
pub open spec fn entry_view_of(a: CurrentCanonicalArtefactRecord) -> EntryArtefactV {
    EntryArtefactV {
        artefact_id: a.artefact_id@,
        symbol_id: a.symbol_id@,
        path: a.path@,
        name: display_name_of(a),
        canonical_kind: opt_view(a.canonical_kind),
        language_kind: opt_view(a.language_kind),
        symbol_fqn: opt_view(a.symbol_fqn),
        signature: opt_view(a.signature),
        modifiers: crate::json::modifiers_of(a.modifiers@),
        start_line: a.start_line,
        end_line: a.end_line,
    }
}

/// An artefact of the snapshot as entry point detection sees it.
pub fn entry_point_artefact_from_current(artefact: &CurrentCanonicalArtefactRecord) -> (r: LanguageEntryPointArtefact)
    ensures
        r@ == entry_view_of(*artefact),
        r.artefact_id@ == artefact.artefact_id@,
        r.symbol_id@ == artefact.symbol_id@,
        r.path@ == artefact.path@,
        r.name@ == display_name_of(*artefact),
        opt_view(r.canonical_kind) == opt_view(artefact.canonical_kind),
        opt_view(r.language_kind) == opt_view(artefact.language_kind),
        opt_view(r.symbol_fqn) == opt_view(artefact.symbol_fqn),
        opt_view(r.signature) == opt_view(artefact.signature),
        views_of(r.modifiers@) == crate::json::modifiers_of(artefact.modifiers@),
        r.start_line == artefact.start_line,
        r.end_line == artefact.end_line,
{
    LanguageEntryPointArtefact {
        artefact_id: artefact.artefact_id.clone(),
        symbol_id: artefact.symbol_id.clone(),
        path: artefact.path.clone(),
        name: artefact_name(artefact),
        canonical_kind: crate::model::clone_opt(&artefact.canonical_kind),
        language_kind: crate::model::clone_opt(&artefact.language_kind),
        symbol_fqn: crate::model::clone_opt(&artefact.symbol_fqn),
        signature: crate::model::clone_opt(&artefact.signature),
        modifiers: crate::json::parse_modifiers(artefact.modifiers.as_str()),
        start_line: artefact.start_line,
        end_line: artefact.end_line,
    }
}

/// The paths of the artefacts, each with how many artefacts lie on it.
pub open spec fn artefact_counts(artefacts: Seq<CurrentCanonicalArtefactRecord>) -> Map<Seq<char>, nat>
    decreases artefacts.len(),
{
    if artefacts.len() == 0 {
        Map::empty()
    } else {
        let prev = artefact_counts(artefacts.drop_last());
        let p = artefacts.last().path@;
        prev.insert(p, if prev.dom().contains(p) { prev[p] + 1 } else { 1 })
    }
}

pub open spec fn entry_views(v: Seq<LanguageEntryPointArtefact>) -> Seq<EntryArtefactV> {
    v.map_values(|a: LanguageEntryPointArtefact| a@)
}

/// The entry-point artefacts of the artefacts on path `p`, in order.
pub open spec fn group_of(artefacts: Seq<CurrentCanonicalArtefactRecord>, p: Seq<char>) -> Seq<EntryArtefactV>
    decreases artefacts.len(),
{
    if artefacts.len() == 0 {
        Seq::empty()
    } else if artefacts.last().path@ == p {
        group_of(artefacts.drop_last(), p).push(entry_view_of(artefacts.last()))
    } else {
        group_of(artefacts.drop_last(), p)
    }
}

/// The artefacts of each path, in the order they come.
pub fn group_entry_point_artefacts_by_path(artefacts: &[CurrentCanonicalArtefactRecord]) -> (r: StrMap<
    Vec<LanguageEntryPointArtefact>,
>)
    ensures
        r@.dom() == artefact_counts(artefacts@).dom(),
        forall|p: Seq<char>| #[trigger] r@.dom().contains(p) ==> entry_views(r@[p]@) == group_of(artefacts@, p),
{
    let mut grouped: StrMap<Vec<LanguageEntryPointArtefact>> = StrMap::new();
    let mut i: usize = 0;
    assert(grouped@.dom() =~= artefact_counts(artefacts@.take(0)).dom());
    while i < artefacts.len()
        invariant
            i <= artefacts@.len(),
            grouped@.dom() == artefact_counts(artefacts@.take(i as int)).dom(),
            forall|p: Seq<char>| #[trigger] grouped@.dom().contains(p) ==> entry_views(grouped@[p]@) == group_of(
                artefacts@.take(i as int),
                p,
            ),
        decreases artefacts@.len() - i,
    {
        assert(artefacts@.take(i + 1).drop_last() =~= artefacts@.take(i as int));
        assert(artefacts@.take(i + 1).last() == artefacts@[i as int]);
        let a = &artefacts[i];
        let converted = entry_point_artefact_from_current(a);
        let ghost before = grouped@;
        let ghost path = a.path@;
        let mut list = match grouped.take(a.path.as_str()) {
            Some(v) => v,
            None => {
                proof {
                    if group_of(artefacts@.take(i as int), path).len() > 0 {
                        lemma_group_in_counts(artefacts@.take(i as int), path);
                    }
                }
                Vec::new()
            },
        };
        let ghost old_list = entry_views(list@);
        assert(old_list == group_of(artefacts@.take(i as int), path));
        list.push(converted);
        assert(entry_views(list@) =~= old_list.push(converted@));
        grouped.set(a.path.as_str(), list);
        assert(grouped@.dom() =~= artefact_counts(artefacts@.take(i + 1)).dom());
        assert forall|p: Seq<char>| #[trigger] grouped@.dom().contains(p) implies entry_views(grouped@[p]@) == group_of(
            artefacts@.take(i + 1),
            p,
        ) by {
            if p != path {
                assert(before.dom().contains(p));
            }
        }
        i = i + 1;
    }
    assert(artefacts@.take(i as int) =~= artefacts@);
    grouped
}

proof fn lemma_group_in_counts(artefacts: Seq<CurrentCanonicalArtefactRecord>, p: Seq<char>)
    requires
        group_of(artefacts, p).len() > 0,
    ensures
        artefact_counts(artefacts).dom().contains(p),
    decreases artefacts.len(),
{
    if artefacts.last().path@ != p {
        lemma_group_in_counts(artefacts.drop_last(), p);
    }
}


// ---------------------------------------------------------------------------
// Candidates read from source files
// ---------------------------------------------------------------------------

/// A candidate as plain values.
pub struct CandidateV {
    pub path: Seq<char>,
    pub artefact_id: Option<Seq<char>>,
    pub symbol_id: Option<Seq<char>>,
    pub name: Seq<char>,
    pub entry_kind: Seq<char>,
    pub confidence_permille: u32,
    pub reason: Seq<char>,
    pub evidence: Seq<Seq<char>>,
}

impl View for LanguageEntryPointCandidate {
    type V = CandidateV;

    open spec fn view(&self) -> CandidateV {
        CandidateV {
            path: self.path@,
            artefact_id: opt_view(self.artefact_id),
            symbol_id: opt_view(self.symbol_id),
            name: self.name@,
            entry_kind: self.entry_kind@,
            confidence_permille: self.confidence_permille,
            reason: self.reason@,
            evidence: views_of(self.evidence@),
        }
    }
}

pub open spec fn candidate_views(v: Seq<LanguageEntryPointCandidate>) -> Seq<CandidateV> {
    v.map_values(|c: LanguageEntryPointCandidate| c@)
}

pub open spec fn source_candidate(
    path: Seq<char>,
    name: Seq<char>,
    entry_kind: Seq<char>,
    confidence_permille: u32,
    reason: Seq<char>,
    evidence: Seq<Seq<char>>,
) -> CandidateV {
    CandidateV {
        path,
        artefact_id: None,
        symbol_id: None,
        name,
        entry_kind,
        confidence_permille,
        reason,
        evidence,
    }
}

/// The routes of a router that name pages of their own, in order.
pub open spec fn primary_routes(routes: Seq<Seq<char>>) -> Seq<Seq<char>>
    decreases routes.len(),
{
    if routes.len() == 0 {
        Seq::empty()
    } else {
        let prev = primary_routes(routes.drop_last());
        if crate::parsing::primary_route(routes.last()) {
            prev.push(routes.last())
        } else {
            prev
        }
    }
}

pub open spec fn route_candidates(config_path: Seq<char>, router: Seq<char>, routes: Seq<Seq<char>>) -> Seq<CandidateV> {
    routes.map_values(
        |route: Seq<char>|
            source_candidate(
                router,
                route,
                "http_route"@,
                820,
                "HTTP route endpoint"@,
                seq![config_path, router, "route: "@ + route],
            ),
    )
}

/// The routes of the axum routers of a package, router by router, each
/// router's routes in ascending order; routers whose text is missing are
/// skipped.
pub open spec fn http_route_candidates(
    config_path: Seq<char>,
    routers: Seq<Seq<char>>,
    contents: Map<Seq<char>, String>,
) -> Seq<CandidateV>
    decreases routers.len(),
{
    if routers.len() == 0 {
        Seq::empty()
    } else {
        let prev = http_route_candidates(config_path, routers.drop_last(), contents);
        let router = routers.last();
        if contents.dom().contains(router) {
            let text = contents[router]@;
            let lines = crate::parsing::lines_of(text);
            prev + route_candidates(
                config_path,
                router,
                primary_routes(crate::fact_extraction::ascending(crate::parsing::axum_routes(lines, lines.len() as int))),
            )
        } else {
            prev
        }
    }
}

fn concat_str(a: &str, b: &str) -> (r: String)
    ensures
        r@ == a@ + b@,
{
    let mut out = chars_of(a);
    append_chars(&mut out, b);
    string_from_chars(out.as_slice())
}

pub fn detect_http_route_entry_points(
    config_path: &str,
    file_paths: &StrSet,
    contents: &StrMap<String>,
    candidates: &mut Vec<LanguageEntryPointCandidate>,
)
    ensures
        candidate_views(final(candidates)@) == candidate_views(old(candidates)@) + http_route_candidates(
            config_path@,
            existing_of(config_path@, file_paths@.to_set(), conventional_route_files()),
            contents@,
        ),
{
    let routers = http_route_files(config_path, file_paths);
    let ghost rv = views_of(routers@);
    let ghost start = candidate_views(candidates@);
    let mut i: usize = 0;
    assert(rv.take(0) =~= Seq::<Seq<char>>::empty());
    assert(start =~= start + Seq::<CandidateV>::empty());
    while i < routers.len()
        invariant
            i <= routers@.len(),
            rv == views_of(routers@),
            candidate_views(candidates@) == start + http_route_candidates(config_path@, rv.take(i as int), contents@),
        decreases routers@.len() - i,
    {
        assert(rv.take(i + 1).drop_last() =~= rv.take(i as int));
        assert(rv.take(i + 1).last() == routers@[i as int]@);
        let router = routers[i].as_str();
        match contents.get(router) {
            None => {},
            Some(text) => {
                let routes = crate::parsing::extract_axum_route_paths(text.as_str());
                let all = routes.to_vec();
                proof {
                    crate::fact_extraction::lemma_ascending(routes@, routes@.to_set());
                }
                let ghost av = views_of(all@);
                let ghost before = candidate_views(candidates@);
                let mut k: usize = 0;
                assert(av.take(0) =~= Seq::<Seq<char>>::empty());
                assert(before =~= before + route_candidates(config_path@, router@, primary_routes(av.take(0))));
                while k < all.len()
                    invariant
                        k <= all@.len(),
                        av == views_of(all@),
                        candidate_views(candidates@) == before + route_candidates(config_path@, router@, primary_routes(av.take(k as int))),
                    decreases all@.len() - k,
                {
                    assert(av.take(k + 1).drop_last() =~= av.take(k as int));
                    assert(av.take(k + 1).last() == all@[k as int]@);
                    let route = all[k].as_str();
                    if crate::parsing::is_primary_http_route(route) {
                        let mut evidence: Vec<String> = Vec::new();
                        evidence.push(owned(config_path));
                        evidence.push(owned(router));
                        evidence.push(concat_str("route: ", route));
                        let c = LanguageEntryPointCandidate {
                            path: owned(router),
                            artefact_id: None,
                            symbol_id: None,
                            name: owned(route),
                            entry_kind: owned("http_route"),
                            confidence_permille: 820,
                            reason: owned("HTTP route endpoint"),
                            evidence,
                        };
                        let ghost mid = candidate_views(candidates@);
                        candidates.push(c);
                        assert(views_of(c.evidence@) =~= seq![config_path@, router@, "route: "@ + route@]);
                        assert(candidate_views(candidates@) =~= mid.push(c@));
                        assert(route_candidates(config_path@, router@, primary_routes(av.take(k + 1))) =~= route_candidates(
                            config_path@,
                            router@,
                            primary_routes(av.take(k as int)),
                        ).push(c@));
                    }
                    k = k + 1;
                }
                assert(av.take(k as int) =~= av);
            },
        }
        assert(candidate_views(candidates@) =~= start + http_route_candidates(config_path@, rv.take(i + 1), contents@));
        i = i + 1;
    }
    assert(rv.take(i as int) =~= rv);
}


pub open spec fn cli_files() -> Seq<Seq<char>> {
    seq!["src/cli.rs"@, "src/cli/mod.rs"@, "src/args.rs"@, "src/commands.rs"@, "src/commands/mod.rs"@]
}

/// The first conventional command-line file of a package whose text is at
/// hand.
pub open spec fn first_cli_file(
    config_path: Seq<char>,
    files: Set<Seq<char>>,
    contents: Map<Seq<char>, String>,
    candidates: Seq<Seq<char>>,
) -> Option<Seq<char>>
    decreases candidates.len(),
{
    if candidates.len() == 0 {
        None
    } else {
        let p = relative_join_of(config_path, candidates[0]);
        if files.contains(p) && contents.dom().contains(p) {
            Some(p)
        } else {
            first_cli_file(config_path, files, contents, candidates.drop_first())
        }
    }
}

pub open spec fn command_candidates(
    config_path: Seq<char>,
    path: Seq<char>,
    prefix: Seq<char>,
    evidence_prefix: Seq<char>,
    commands: Seq<(Seq<char>, Seq<char>)>,
    confidence_permille: u32,
    reason: Seq<char>,
) -> Seq<CandidateV> {
    commands.map_values(
        |c: (Seq<char>, Seq<char>)|
            source_candidate(
                path,
                prefix + c.0,
                "rust_clap_command"@,
                confidence_permille,
                reason,
                seq![config_path, path, "command: "@ + evidence_prefix + c.0, c.1],
            ),
    )
}

pub open spec fn enum_candidates(
    config_path: Seq<char>,
    path: Seq<char>,
    package_name: Seq<char>,
    prefix: Seq<char>,
    enums: Seq<(Seq<char>, Seq<(Seq<char>, Seq<char>)>)>,
) -> Seq<CandidateV>
    decreases enums.len(),
{
    if enums.len() == 0 {
        Seq::empty()
    } else {
        enum_candidates(config_path, path, package_name, prefix, enums.drop_last()) + command_candidates(
            config_path,
            path,
            package_name + " "@ + prefix + " "@,
            prefix + " "@,
            enums.last().1,
            760,
            "Nested Rust Clap subcommand"@,
        )
    }
}

/// The subcommands nested in the command files of a package, file by file.
pub open spec fn nested_clap_candidates(
    config_path: Seq<char>,
    package_name: Seq<char>,
    parsed: Option<Seq<char>>,
    paths: Seq<Seq<char>>,
    contents: Map<Seq<char>, String>,
) -> Seq<CandidateV>
    decreases paths.len(),
{
    if paths.len() == 0 {
        Seq::empty()
    } else {
        let prev = nested_clap_candidates(config_path, package_name, parsed, paths.drop_last(), contents);
        let p = paths.last();
        if parsed == Some(p) || crate::text::contains(p, "/tests/"@) || ends_with(p, "_test.rs"@) {
            prev
        } else {
            match clap_prefix_of(config_path, p) {
                None => prev,
                Some(prefix) => if contents.dom().contains(p) {
                    let text = contents[p]@;
                    prev + enum_candidates(
                        config_path,
                        p,
                        package_name,
                        prefix,
                        crate::parsing::subcommand_enums_of(
                            crate::parsing::name_scan(crate::parsing::lines_of(text)).names,
                            text,
                        ),
                    )
                } else {
                    prev
                },
            }
        }
    }
}

/// The clap subcommands of a Rust package: those of its conventional
/// command-line file, then those nested in files under `src/cli` and
/// `src/commands`.
pub open spec fn clap_candidates(
    config_path: Seq<char>,
    package_name: Seq<char>,
    files: Seq<Seq<char>>,
    contents: Map<Seq<char>, String>,
) -> Seq<CandidateV> {
    let cli = first_cli_file(config_path, files.to_set(), contents, cli_files());
    let top = match cli {
        Some(p) => command_candidates(
            config_path,
            p,
            package_name + " "@,
            Seq::empty(),
            crate::parsing::clap_scan(crate::parsing::lines_of(contents[p]@), "Commands"@).commands,
            820,
            "Rust Clap subcommand"@,
        ),
        None => Seq::empty(),
    };
    top + nested_clap_candidates(
        config_path,
        package_name,
        cli,
        rust_files_of(files, config_root_of(config_path)),
        contents,
    )
}

fn first_cli_path(config_path: &str, file_paths: &StrSet, contents: &StrMap<String>) -> (r: Option<String>)
    ensures
        match r {
            Some(p) => first_cli_file(config_path@, file_paths@.to_set(), contents@, cli_files()) == Some(p@)
                && contents@.dom().contains(p@),
            None => first_cli_file(config_path@, file_paths@.to_set(), contents@, cli_files()) is None,
        },
{
    let names = ["src/cli.rs", "src/cli/mod.rs", "src/args.rs", "src/commands.rs", "src/commands/mod.rs"];
    let ghost cv = str_views(names@);
    assert(cv =~= cli_files());
    let ghost files = file_paths@.to_set();
    let mut i: usize = 0;
    assert(cv.skip(0) =~= cv);
    while i < names.len()
        invariant
            i <= 5,
            cv == str_views(names@),
            cv == cli_files(),
            files == file_paths@.to_set(),
            first_cli_file(config_path@, files, contents@, cv) == first_cli_file(config_path@, files, contents@, cv.skip(i as int)),
        decreases 5 - i,
    {
        assert(cv.skip(i as int)[0] == names@[i as int]@);
        assert(cv.skip(i as int).drop_first() =~= cv.skip(i + 1));
        let p = repo_relative_join(config_path, names[i]);
        if file_paths.contains(p.as_str()) && contents.contains_key(p.as_str()) {
            assert(first_cli_file(config_path@, files, contents@, cv.skip(i as int)) == Some(p@));
            return Some(p);
        }
        i = i + 1;
    }
    assert(cv.skip(5) =~= Seq::<Seq<char>>::empty());
    None
}

fn push_command_candidates(
    config_path: &str,
    path: &str,
    prefix: &str,
    evidence_prefix: &str,
    commands: &Vec<crate::parsing::ClapCommandDescriptor>,
    confidence_permille: u32,
    reason: &str,
    candidates: &mut Vec<LanguageEntryPointCandidate>,
)
    ensures
        candidate_views(final(candidates)@) == candidate_views(old(candidates)@) + command_candidates(
            config_path@,
            path@,
            prefix@,
            evidence_prefix@,
            crate::parsing::command_views(commands@),
            confidence_permille,
            reason@,
        ),
{
    let ghost cv = crate::parsing::command_views(commands@);
    let ghost start = candidate_views(candidates@);
    let mut k: usize = 0;
    assert(start =~= start + command_candidates(config_path@, path@, prefix@, evidence_prefix@, cv.take(0), confidence_permille, reason@));
    while k < commands.len()
        invariant
            k <= commands@.len(),
            cv == crate::parsing::command_views(commands@),
            candidate_views(candidates@) == start + command_candidates(
                config_path@,
                path@,
                prefix@,
                evidence_prefix@,
                cv.take(k as int),
                confidence_permille,
                reason@,
            ),
        decreases commands@.len() - k,
    {
        let cmd = &commands[k];
        let mut evidence: Vec<String> = Vec::new();
        evidence.push(owned(config_path));
        evidence.push(owned(path));
        let label = concat_str(evidence_prefix, cmd.name.as_str());
        evidence.push(concat_str("command: ", label.as_str()));
        evidence.push(cmd.about.clone());
        let c = LanguageEntryPointCandidate {
            path: owned(path),
            artefact_id: None,
            symbol_id: None,
            name: concat_str(prefix, cmd.name.as_str()),
            entry_kind: owned("rust_clap_command"),
            confidence_permille,
            reason: owned(reason),
            evidence,
        };
        let ghost before = candidate_views(candidates@);
        candidates.push(c);
        assert("command: "@ + (evidence_prefix@ + cmd.name@) =~= "command: "@ + evidence_prefix@ + cmd.name@);
        assert(views_of(c.evidence@) =~= seq![config_path@, path@, "command: "@ + evidence_prefix@ + cmd.name@, cmd.about@]);
        assert(candidate_views(candidates@) =~= before.push(c@));
        assert(cv.take(k + 1) =~= cv.take(k as int).push((cmd.name@, cmd.about@)));
        assert(command_candidates(config_path@, path@, prefix@, evidence_prefix@, cv.take(k + 1), confidence_permille, reason@) =~= command_candidates(
            config_path@,
            path@,
            prefix@,
            evidence_prefix@,
            cv.take(k as int),
            confidence_permille,
            reason@,
        ).push(c@));
        k = k + 1;
    }
    assert(cv.take(k as int) =~= cv);
}


pub fn detect_rust_clap_entry_points(
    config_path: &str,
    package_name: &str,
    file_paths: &StrSet,
    contents: &StrMap<String>,
    candidates: &mut Vec<LanguageEntryPointCandidate>,
)
    requires
        forall|p: Seq<char>| #[trigger] contents@.dom().contains(p) ==> contents@[p]@.len() <= i32::MAX,
    ensures
        candidate_views(final(candidates)@) == candidate_views(old(candidates)@) + clap_candidates(
            config_path@,
            package_name@,
            file_paths@,
            contents@,
        ),
{
    let ghost start = candidate_views(candidates@);
    let cli = first_cli_path(config_path, file_paths, contents);
    let top_prefix = concat_str(package_name, " ");
    proof {
        reveal_strlit("");
    }
    match &cli {
        Some(p) => match contents.get(p.as_str()) {
            Some(text) => {
                let commands = crate::parsing::extract_clap_enum_commands(text.as_str(), "Commands");
                push_command_candidates(
                    config_path,
                    p.as_str(),
                    top_prefix.as_str(),
                    "",
                    &commands,
                    820,
                    "Rust Clap subcommand",
                    candidates,
                );
                assert(""@ =~= Seq::<char>::empty());
                assert(candidate_views(candidates@) == start + command_candidates(
                    config_path@,
                    p@,
                    package_name@ + " "@,
                    Seq::empty(),
                    crate::parsing::clap_scan(crate::parsing::lines_of(contents@[p@]@), "Commands"@).commands,
                    820,
                    "Rust Clap subcommand"@,
                ));
            },
            None => {},
        },
        None => {
            assert(start =~= start + Seq::<CandidateV>::empty());
        },
    }
    let ghost cli_view = crate::model::opt_view(cli);
    let ghost after_top = candidate_views(candidates@);
    let files = rust_files_under_config_root(config_path, file_paths);
    let ghost fv = views_of(files@);
    let mut i: usize = 0;
    assert(fv.take(0) =~= Seq::<Seq<char>>::empty());
    assert(after_top =~= after_top + Seq::<CandidateV>::empty());
    while i < files.len()
        invariant
            i <= files@.len(),
            fv == views_of(files@),
            cli_view == crate::model::opt_view(cli),
            forall|p: Seq<char>| #[trigger] contents@.dom().contains(p) ==> contents@[p]@.len() <= i32::MAX,
            candidate_views(candidates@) == after_top + nested_clap_candidates(
                config_path@,
                package_name@,
                cli_view,
                fv.take(i as int),
                contents@,
            ),
        decreases files@.len() - i,
    {
        assert(fv.take(i + 1).drop_last() =~= fv.take(i as int));
        assert(fv.take(i + 1).last() == files@[i as int]@);
        let p = files[i].as_str();
        let parsed = match &cli {
            Some(c) => crate::text::str_eq(c.as_str(), p),
            None => false,
        };
        let ghost before = candidate_views(candidates@);
        if parsed || crate::text::str_contains(p, "/tests/") || str_ends_with(p, "_test.rs") {
            assert(before =~= before + Seq::<CandidateV>::empty());
        } else {
            match clap_command_prefix_from_path(config_path, p) {
                None => {
                    assert(before =~= before + Seq::<CandidateV>::empty());
                },
                Some(prefix) => match contents.get(p) {
                    None => {
                        assert(before =~= before + Seq::<CandidateV>::empty());
                    },
                    Some(text) => {
                        let enums = crate::parsing::extract_clap_subcommand_enums(text.as_str());
                        let ghost ev = crate::parsing::enum_views(enums@);
                        let name_prefix = {
                            let a = concat_str(package_name, " ");
                            let b = concat_str(a.as_str(), prefix.as_str());
                            concat_str(b.as_str(), " ")
                        };
                        let evidence_prefix = concat_str(prefix.as_str(), " ");
                        let mut k: usize = 0;
                        assert(ev.take(0) =~= Seq::<(Seq<char>, Seq<(Seq<char>, Seq<char>)>)>::empty());
                        assert(before =~= before + enum_candidates(config_path@, p@, package_name@, prefix@, ev.take(0)));
                        while k < enums.len()
                            invariant
                                k <= enums@.len(),
                                ev == crate::parsing::enum_views(enums@),
                                name_prefix@ == package_name@ + " "@ + prefix@ + " "@,
                                evidence_prefix@ == prefix@ + " "@,
                                candidate_views(candidates@) == before + enum_candidates(
                                    config_path@,
                                    p@,
                                    package_name@,
                                    prefix@,
                                    ev.take(k as int),
                                ),
                            decreases enums@.len() - k,
                        {
                            assert(ev.take(k + 1).drop_last() =~= ev.take(k as int));
                            assert(ev.take(k + 1).last() == ev[k as int]);
                            let ghost mid = candidate_views(candidates@);
                            push_command_candidates(
                                config_path,
                                p,
                                name_prefix.as_str(),
                                evidence_prefix.as_str(),
                                &enums[k].1,
                                760,
                                "Nested Rust Clap subcommand",
                                candidates,
                            );
                            assert(candidate_views(candidates@) =~= before + enum_candidates(
                                config_path@,
                                p@,
                                package_name@,
                                prefix@,
                                ev.take(k + 1),
                            ));
                            k = k + 1;
                        }
                        assert(ev.take(k as int) =~= ev);
                    },
                },
            }
        }
        assert(candidate_views(candidates@) =~= after_top + nested_clap_candidates(
            config_path@,
            package_name@,
            cli_view,
            fv.take(i + 1),
            contents@,
        ));
        i = i + 1;
    }
    assert(fv.take(i as int) =~= fv);
}

} // verus!
