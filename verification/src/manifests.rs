//! Entry points declared by package manifests: `package.json` binaries,
//! scripts, documentation sites and editor extensions; Cargo binaries; and
//! Python console scripts.
use vstd::prelude::*;

use crate::assoc::StrMap;
use crate::json::{json_document_of, parse_json_document};
use crate::entry_points::{
    candidate_views, clap_candidates, config_candidate_for_path, config_candidate_of, conventional_route_files,
    detect_http_route_entry_points, detect_rust_clap_entry_points, docusaurus_config_path, docusaurus_configs,
    existing_of, http_route_candidates,
    file_name, file_name_of, first_existing_of, first_existing_package_path, main_source_of,
    package_main_source_path, script_entry_of, script_entry_path, str_views, CandidateV,
    LanguageEntryPointArtefact, LanguageEntryPointCandidate,
};
use crate::json_doc::{
    has_member, json_as_str, json_get, json_get_in, json_member_in, json_member_of, json_text, member_get,
    members_have, member_value, JsonMember, JsonValue,
};
use crate::fact_extraction::{ascending, lemma_ascending};
use crate::model::CurrentCanonicalFileRecord;
use crate::order::{views_of, StrSet};
use crate::toml_manifest::{
    bin_views, cargo_manifest_of, cargo_manifest_view, parse_cargo_manifest, parse_pyproject_scripts,
    pyproject_scripts_of, script_views, CargoManifest, CargoManifestV, TomlBinTarget, TomlScript,
};
use crate::paths::{relative_join_of, repo_relative_join};
use crate::text::{
    chars_contains, chars_eq, chars_of, concat, concat3, contains, find_first, first_index, lower, lower_chars, owned,
    str_contains, string_from_chars,
};

verus! {

// ---------------------------------------------------------------------------
// What a package.json says
// ---------------------------------------------------------------------------

/// The package's name, `package` when it has none.
pub open spec fn package_name_of(doc: JsonValue) -> Seq<char> {
    match json_text(json_member_of(doc, "name"@)) {
        Some(n) => n,
        None => "package"@,
    }
}

/// Whether the dependency section `section` of the package lists `name`.
pub open spec fn section_lists(doc: JsonValue, section: Seq<char>, name: Seq<char>) -> bool {
    match json_member_of(doc, section) {
        Some(JsonValue::Object(m)) => has_member(m@, name),
        _ => false,
    }
}

/// Whether the package depends on `name`, as a runtime, development or
/// peer dependency.
pub open spec fn package_depends_on(doc: JsonValue, name: Seq<char>) -> bool {
    section_lists(doc, "dependencies"@, name) || section_lists(doc, "devDependencies"@, name) || section_lists(
        doc,
        "peerDependencies"@,
        name,
    )
}

pub open spec fn member_text_contains(m: JsonMember, needle: Seq<char>) -> bool {
    match m.value {
        JsonValue::Text(s) => contains(s@, needle),
        _ => false,
    }
}

/// Whether the text of one of `members` contains `needle`.
pub open spec fn members_mention(members: Seq<JsonMember>, needle: Seq<char>) -> bool {
    exists|i: int| 0 <= i < members.len() && #[trigger] member_text_contains(members[i], needle)
}

/// Whether one of the package's scripts mentions `needle`.
pub open spec fn scripts_mention(doc: JsonValue, needle: Seq<char>) -> bool {
    match json_member_of(doc, "scripts"@) {
        Some(JsonValue::Object(m)) => members_mention(m@, needle),
        _ => false,
    }
}

/// A Docusaurus site: it depends on Docusaurus or runs it in a script.
pub open spec fn docusaurus_document(doc: JsonValue) -> bool {
    package_depends_on(doc, "@docusaurus/core"@) || package_depends_on(doc, "@docusaurus/preset-classic"@)
        || scripts_mention(doc, "docusaurus"@)
}

/// A VS Code extension: it names a VS Code engine or contributes commands.
pub open spec fn vscode_document(doc: JsonValue) -> bool {
    json_text(json_member_in(json_member_of(doc, "engines"@), "vscode"@)) is Some || json_member_in(
        json_member_of(doc, "contributes"@),
        "commands"@,
    ) is Some
}

fn section_has(document: &JsonValue, section: &str, name: &str) -> (r: bool)
    ensures
        r == section_lists(*document, section@, name@),
{
    match json_get(document, section) {
        Some(JsonValue::Object(members)) => members_have(members, name),
        _ => false,
    }
}

pub fn package_has_dependency(document: &JsonValue, dependency_name: &str) -> (r: bool)
    ensures
        r == package_depends_on(*document, dependency_name@),
{
    section_has(document, "dependencies", dependency_name) || section_has(document, "devDependencies", dependency_name)
        || section_has(document, "peerDependencies", dependency_name)
}

pub fn package_scripts_contain(document: &JsonValue, needle: &str) -> (r: bool)
    ensures
        r == scripts_mention(*document, needle@),
{
    match json_get(document, "scripts") {
        Some(JsonValue::Object(members)) => {
            let ghost scripts = json_member_of(*document, "scripts"@);
            assert(scripts == Some(JsonValue::Object(*members)));
            let mut i: usize = 0;
            while i < members.len()
                invariant
                    i <= members@.len(),
                    scripts == json_member_of(*document, "scripts"@),
                    scripts == Some(JsonValue::Object(*members)),
                    forall|j: int| 0 <= j < i ==> !member_text_contains(#[trigger] members@[j], needle@),
                decreases members@.len() - i,
            {
                match &members[i].value {
                    JsonValue::Text(s) => {
                        if str_contains(s.as_str(), needle) {
                            assert(member_text_contains(members@[i as int], needle@));
                            assert(members_mention(members@, needle@));
                            return true;
                        }
                    },
                    _ => {},
                }
                i = i + 1;
            }
            false
        },
        _ => false,
    }
}

pub fn is_docusaurus_package(document: &JsonValue) -> (r: bool)
    ensures
        r == docusaurus_document(*document),
{
    package_has_dependency(document, "@docusaurus/core") || package_has_dependency(document, "@docusaurus/preset-classic")
        || package_scripts_contain(document, "docusaurus")
}

pub fn is_vscode_extension_package(document: &JsonValue) -> (r: bool)
    ensures
        r == vscode_document(*document),
{
    let engine = json_as_str(json_get_in(json_get(document, "engines"), "vscode"));
    let commands = json_get_in(json_get(document, "contributes"), "commands");
    engine.is_some() || commands.is_some()
}

// ---------------------------------------------------------------------------
// Candidates of a package.json
// ---------------------------------------------------------------------------

fn push_candidate(
    candidates: &mut Vec<LanguageEntryPointCandidate>,
    path: &str,
    artefacts_by_path: &StrMap<Vec<LanguageEntryPointArtefact>>,
    entry_kind: &str,
    name: &str,
    confidence_permille: u32,
    reason: &str,
    evidence: Vec<String>,
)
    ensures
        candidate_views(final(candidates)@) == candidate_views(old(candidates)@).push(
            config_candidate_of(
                artefacts_by_path@,
                path@,
                entry_kind@,
                name@,
                confidence_permille,
                reason@,
                views_of(evidence@),
            ),
        ),
{
    let ghost before = candidates@;
    let ghost ev = views_of(evidence@);
    let c = config_candidate_for_path(path, artefacts_by_path, entry_kind, name, confidence_permille, reason, evidence);
    candidates.push(c);
    assert(candidate_views(candidates@) =~= candidate_views(before).push(c@));
}

/// The `npm_bin` candidate of a binary at `path`.
pub open spec fn npm_bin_candidate(
    abp: Map<Seq<char>, Vec<LanguageEntryPointArtefact>>,
    config_path: Seq<char>,
    path: Seq<char>,
    name: Seq<char>,
) -> CandidateV {
    config_candidate_of(abp, path, "npm_bin"@, name, 900, "package.json binary target"@, seq![config_path, path])
}

/// The binaries of a `bin` object whose files exist, in member order, each
/// named by its key.
pub open spec fn object_bin_candidates(
    abp: Map<Seq<char>, Vec<LanguageEntryPointArtefact>>,
    config_path: Seq<char>,
    files: Set<Seq<char>>,
    members: Seq<JsonMember>,
) -> Seq<CandidateV>
    decreases members.len(),
{
    if members.len() == 0 {
        Seq::empty()
    } else {
        let prev = object_bin_candidates(abp, config_path, files, members.drop_last());
        let m = members.last();
        match m.value {
            JsonValue::Text(p) => {
                let path = relative_join_of(config_path, p@);
                if files.contains(path) {
                    prev.push(npm_bin_candidate(abp, config_path, path, m.key@))
                } else {
                    prev
                }
            },
            _ => prev,
        }
    }
}

/// The binaries the `bin` field declares: one path named after the
/// package, or a map from names to paths; only existing files count.
pub open spec fn bin_candidates(
    abp: Map<Seq<char>, Vec<LanguageEntryPointArtefact>>,
    config_path: Seq<char>,
    files: Set<Seq<char>>,
    doc: JsonValue,
) -> Seq<CandidateV> {
    match json_member_of(doc, "bin"@) {
        Some(JsonValue::Text(p)) => {
            let path = relative_join_of(config_path, p@);
            if files.contains(path) {
                seq![npm_bin_candidate(abp, config_path, path, package_name_of(doc))]
            } else {
                Seq::empty()
            }
        },
        Some(JsonValue::Object(m)) => object_bin_candidates(abp, config_path, files, m@),
        _ => Seq::empty(),
    }
}

pub open spec fn runtime_script_names() -> Seq<Seq<char>> {
    seq!["start"@, "dev"@, "serve"@, "worker"@, "cli"@]
}

/// The scripts among `names`, in that order, whose entry file is found.
pub open spec fn runtime_script_candidates(
    abp: Map<Seq<char>, Vec<LanguageEntryPointArtefact>>,
    config_path: Seq<char>,
    files: Set<Seq<char>>,
    scripts: Seq<JsonMember>,
    names: Seq<Seq<char>>,
) -> Seq<CandidateV>
    decreases names.len(),
{
    if names.len() == 0 {
        Seq::empty()
    } else {
        let prev = runtime_script_candidates(abp, config_path, files, scripts, names.drop_last());
        let n = names.last();
        match json_text(member_value(scripts, n)) {
            Some(script) => match script_entry_of(config_path, script, files) {
                Some(path) => prev.push(
                    config_candidate_of(
                        abp,
                        path,
                        "npm_script"@,
                        n,
                        760,
                        "package.json runtime script"@,
                        seq![config_path, script, path],
                    ),
                ),
                None => prev,
            },
            None => prev,
        }
    }
}

/// Where a documentation site starts: its Docusaurus configuration, else
/// its home page, else the manifest itself.
pub open spec fn docusaurus_entry_of(config_path: Seq<char>, files: Set<Seq<char>>) -> Seq<char> {
    match first_existing_of(config_path, files, docusaurus_configs()) {
        Some(p) => p,
        None => match first_existing_of(config_path, files, seq!["src/pages/index.tsx"@]) {
            Some(p) => p,
            None => config_path,
        },
    }
}

pub open spec fn docusaurus_script_names() -> Seq<Seq<char>> {
    seq!["start"@, "build"@, "serve"@, "deploy"@]
}

/// The lifecycle scripts among `names` that the site defines.
pub open spec fn docusaurus_script_candidates(
    abp: Map<Seq<char>, Vec<LanguageEntryPointArtefact>>,
    config_path: Seq<char>,
    entry: Seq<char>,
    package_name: Seq<char>,
    scripts: Seq<JsonMember>,
    names: Seq<Seq<char>>,
) -> Seq<CandidateV>
    decreases names.len(),
{
    if names.len() == 0 {
        Seq::empty()
    } else {
        let prev = docusaurus_script_candidates(abp, config_path, entry, package_name, scripts, names.drop_last());
        let n = names.last();
        match json_text(member_value(scripts, n)) {
            Some(script) => prev.push(
                config_candidate_of(
                    abp,
                    entry,
                    "docusaurus_script"@,
                    package_name + " "@ + n,
                    780,
                    "Docusaurus package lifecycle script"@,
                    seq![config_path, n + ": "@ + script],
                ),
            ),
            None => prev,
        }
    }
}

/// A documentation site and its lifecycle scripts.
pub open spec fn docusaurus_candidates(
    abp: Map<Seq<char>, Vec<LanguageEntryPointArtefact>>,
    config_path: Seq<char>,
    files: Set<Seq<char>>,
    doc: JsonValue,
    package_name: Seq<char>,
) -> Seq<CandidateV> {
    let entry = docusaurus_entry_of(config_path, files);
    let label = match file_name_of(entry) {
        Some(n) => n,
        None => "docusaurus.config"@,
    };
    let site = config_candidate_of(
        abp,
        entry,
        "docusaurus_site"@,
        package_name,
        920,
        "Docusaurus documentation site package"@,
        seq![config_path, entry, "@docusaurus/core"@, label],
    );
    seq![site] + match json_member_of(doc, "scripts"@) {
        Some(JsonValue::Object(m)) => docusaurus_script_candidates(
            abp,
            config_path,
            entry,
            package_name,
            m@,
            docusaurus_script_names(),
        ),
        _ => Seq::empty(),
    }
}

/// The compiled entry an extension declares, `./out/extension.js` when it
/// declares none.
pub open spec fn extension_main_of(doc: JsonValue) -> Seq<char> {
    match json_text(json_member_of(doc, "main"@)) {
        Some(m) => m,
        None => "./out/extension.js"@,
    }
}

/// Where an extension starts: the source of its `main`, else
/// `src/extension.ts`, else the manifest itself.
pub open spec fn extension_entry_of(config_path: Seq<char>, main: Seq<char>, files: Set<Seq<char>>) -> Seq<char> {
    match main_source_of(config_path, main, files) {
        Some(p) => p,
        None => match first_existing_of(config_path, files, seq!["src/extension.ts"@]) {
            Some(p) => p,
            None => config_path,
        },
    }
}

/// The name of an extension: its display name, marked as a VS Code
/// extension unless it says so already (in any case). For the ASCII word
/// `extension`, lowering ASCII letters decides this as full Unicode
/// lowering would.
pub open spec fn extension_label_of(display: Seq<char>) -> Seq<char> {
    if contains(lower(display), "extension"@) {
        display
    } else {
        display + " VS Code extension"@
    }
}

/// The contributed commands that have an identifier, in order.
pub open spec fn command_candidates(
    abp: Map<Seq<char>, Vec<LanguageEntryPointArtefact>>,
    config_path: Seq<char>,
    entry: Seq<char>,
    commands: Seq<JsonValue>,
) -> Seq<CandidateV>
    decreases commands.len(),
{
    if commands.len() == 0 {
        Seq::empty()
    } else {
        let prev = command_candidates(abp, config_path, entry, commands.drop_last());
        let c = commands.last();
        match json_text(json_member_of(c, "command"@)) {
            Some(id) => {
                let title = match json_text(json_member_of(c, "title"@)) {
                    Some(t) => t,
                    None => id,
                };
                prev.push(
                    config_candidate_of(
                        abp,
                        entry,
                        "vscode_command"@,
                        id,
                        800,
                        "VS Code contributed command"@,
                        seq![config_path, "command: "@ + id, "title: "@ + title],
                    ),
                )
            },
            None => prev,
        }
    }
}

/// An editor extension and its contributed commands.
pub open spec fn vscode_candidates(
    abp: Map<Seq<char>, Vec<LanguageEntryPointArtefact>>,
    config_path: Seq<char>,
    files: Set<Seq<char>>,
    doc: JsonValue,
    package_name: Seq<char>,
) -> Seq<CandidateV> {
    let main = extension_main_of(doc);
    let entry = extension_entry_of(config_path, main, files);
    let display = match json_text(json_member_of(doc, "displayName"@)) {
        Some(d) => d,
        None => package_name,
    };
    let extension = config_candidate_of(
        abp,
        entry,
        "vscode_extension"@,
        extension_label_of(display),
        930,
        "VS Code extension package"@,
        seq![config_path, "main: "@ + main, entry],
    );
    seq![extension] + match json_member_in(json_member_of(doc, "contributes"@), "commands"@) {
        Some(JsonValue::Array(cs)) => command_candidates(abp, config_path, entry, cs@),
        _ => Seq::empty(),
    }
}

/// Everything a package.json declares: a documentation site, an editor
/// extension, its binaries, and, for other packages, its runtime scripts.
pub open spec fn package_json_candidates(
    abp: Map<Seq<char>, Vec<LanguageEntryPointArtefact>>,
    config_path: Seq<char>,
    files: Set<Seq<char>>,
    doc: JsonValue,
) -> Seq<CandidateV> {
    let docs_site = docusaurus_document(doc) || first_existing_of(config_path, files, docusaurus_configs()) is Some;
    let extension = vscode_document(doc);
    (if docs_site {
        docusaurus_candidates(abp, config_path, files, doc, package_name_of(doc))
    } else {
        Seq::empty()
    }) + (if extension {
        vscode_candidates(abp, config_path, files, doc, package_name_of(doc))
    } else {
        Seq::empty()
    }) + bin_candidates(abp, config_path, files, doc) + (if !docs_site && !extension {
        match json_member_of(doc, "scripts"@) {
            Some(JsonValue::Object(m)) => runtime_script_candidates(abp, config_path, files, m@, runtime_script_names()),
            _ => Seq::empty(),
        }
    } else {
        Seq::empty()
    })
}

fn push_object_bins(
    config_path: &str,
    members: &Vec<JsonMember>,
    file_paths: &StrSet,
    artefacts_by_path: &StrMap<Vec<LanguageEntryPointArtefact>>,
    candidates: &mut Vec<LanguageEntryPointCandidate>,
)
    ensures
        candidate_views(final(candidates)@) == candidate_views(old(candidates)@) + object_bin_candidates(
            artefacts_by_path@,
            config_path@,
            file_paths@.to_set(),
            members@,
        ),
{
    let ghost start = candidate_views(candidates@);
    let ghost files = file_paths@.to_set();
    let mut k: usize = 0;
    assert(members@.take(0) =~= Seq::<JsonMember>::empty());
    assert(start =~= start + Seq::<CandidateV>::empty());
    while k < members.len()
        invariant
            k <= members@.len(),
            files == file_paths@.to_set(),
            candidate_views(candidates@) == start + object_bin_candidates(artefacts_by_path@, config_path@, files, members@.take(k as int)),
        decreases members@.len() - k,
    {
        assert(members@.take(k + 1).drop_last() =~= members@.take(k as int));
        assert(members@.take(k + 1).last() == members@[k as int]);
        let ghost mid = candidate_views(candidates@);
        match &members[k].value {
            JsonValue::Text(p) => {
                let path = repo_relative_join(config_path, p.as_str());
                if file_paths.contains(path.as_str()) {
                    let mut evidence: Vec<String> = Vec::new();
                    evidence.push(owned(config_path));
                    evidence.push(path.clone());
                    assert(views_of(evidence@) =~= seq![config_path@, path@]);
                    push_candidate(
                        candidates,
                        path.as_str(),
                        artefacts_by_path,
                        "npm_bin",
                        members[k].key.as_str(),
                        900,
                        "package.json binary target",
                        evidence,
                    );
                }
            },
            _ => {},
        }
        assert(candidate_views(candidates@) =~= start + object_bin_candidates(
            artefacts_by_path@,
            config_path@,
            files,
            members@.take(k + 1),
        ));
        k = k + 1;
    }
    assert(members@.take(k as int) =~= members@);
}

fn push_bins(
    config_path: &str,
    document: &JsonValue,
    file_paths: &StrSet,
    artefacts_by_path: &StrMap<Vec<LanguageEntryPointArtefact>>,
    candidates: &mut Vec<LanguageEntryPointCandidate>,
)
    ensures
        candidate_views(final(candidates)@) == candidate_views(old(candidates)@) + bin_candidates(
            artefacts_by_path@,
            config_path@,
            file_paths@.to_set(),
            *document,
        ),
{
    let ghost start = candidate_views(candidates@);
    match json_get(document, "bin") {
        Some(JsonValue::Text(p)) => {
            let path = repo_relative_join(config_path, p.as_str());
            if file_paths.contains(path.as_str()) {
                let name = package_name(document);
                let mut evidence: Vec<String> = Vec::new();
                evidence.push(owned(config_path));
                evidence.push(path.clone());
                assert(views_of(evidence@) =~= seq![config_path@, path@]);
                push_candidate(
                    candidates,
                    path.as_str(),
                    artefacts_by_path,
                    "npm_bin",
                    name,
                    900,
                    "package.json binary target",
                    evidence,
                );
                assert(candidate_views(candidates@) =~= start + bin_candidates(
                    artefacts_by_path@,
                    config_path@,
                    file_paths@.to_set(),
                    *document,
                ));
            } else {
                assert(candidate_views(candidates@) =~= start + Seq::<CandidateV>::empty());
            }
        },
        Some(JsonValue::Object(members)) => {
            push_object_bins(config_path, members, file_paths, artefacts_by_path, candidates);
        },
        _ => {
            assert(candidate_views(candidates@) =~= start + Seq::<CandidateV>::empty());
        },
    }
}

/// The package's name, `package` when it has none.
pub fn package_name(document: &JsonValue) -> (r: &str)
    ensures
        r@ == package_name_of(*document),
{
    match json_as_str(json_get(document, "name")) {
        Some(n) => n,
        None => "package",
    }
}

fn push_runtime_scripts(
    config_path: &str,
    scripts: &Vec<JsonMember>,
    file_paths: &StrSet,
    artefacts_by_path: &StrMap<Vec<LanguageEntryPointArtefact>>,
    candidates: &mut Vec<LanguageEntryPointCandidate>,
)
    ensures
        candidate_views(final(candidates)@) == candidate_views(old(candidates)@) + runtime_script_candidates(
            artefacts_by_path@,
            config_path@,
            file_paths@.to_set(),
            scripts@,
            runtime_script_names(),
        ),
{
    let names = ["start", "dev", "serve", "worker", "cli"];
    let ghost nv = str_views(names@);
    assert(nv =~= runtime_script_names());
    let ghost start = candidate_views(candidates@);
    let ghost files = file_paths@.to_set();
    let mut k: usize = 0;
    assert(nv.take(0) =~= Seq::<Seq<char>>::empty());
    assert(start =~= start + Seq::<CandidateV>::empty());
    while k < names.len()
        invariant
            k <= 5,
            nv == str_views(names@),
            files == file_paths@.to_set(),
            candidate_views(candidates@) == start + runtime_script_candidates(
                artefacts_by_path@,
                config_path@,
                files,
                scripts@,
                nv.take(k as int),
            ),
        decreases 5 - k,
    {
        assert(nv.take(k + 1).drop_last() =~= nv.take(k as int));
        assert(nv.take(k + 1).last() == names@[k as int]@);
        let name = names[k];
        match json_as_str(member_get(scripts, name)) {
            Some(script) => match script_entry_path(config_path, script, file_paths) {
                Some(path) => {
                    let mut evidence: Vec<String> = Vec::new();
                    evidence.push(owned(config_path));
                    evidence.push(owned(script));
                    evidence.push(path.clone());
                    assert(views_of(evidence@) =~= seq![config_path@, script@, path@]);
                    push_candidate(
                        candidates,
                        path.as_str(),
                        artefacts_by_path,
                        "npm_script",
                        name,
                        760,
                        "package.json runtime script",
                        evidence,
                    );
                },
                None => {},
            },
            None => {},
        }
        assert(candidate_views(candidates@) =~= start + runtime_script_candidates(
            artefacts_by_path@,
            config_path@,
            files,
            scripts@,
            nv.take(k + 1),
        ));
        k = k + 1;
    }
    assert(nv.take(5) =~= nv);
}

fn push_docusaurus_scripts(
    config_path: &str,
    entry: &str,
    package_name: &str,
    scripts: &Vec<JsonMember>,
    artefacts_by_path: &StrMap<Vec<LanguageEntryPointArtefact>>,
    candidates: &mut Vec<LanguageEntryPointCandidate>,
)
    ensures
        candidate_views(final(candidates)@) == candidate_views(old(candidates)@) + docusaurus_script_candidates(
            artefacts_by_path@,
            config_path@,
            entry@,
            package_name@,
            scripts@,
            docusaurus_script_names(),
        ),
{
    let names = ["start", "build", "serve", "deploy"];
    let ghost nv = str_views(names@);
    assert(nv =~= docusaurus_script_names());
    let ghost start = candidate_views(candidates@);
    let mut k: usize = 0;
    assert(nv.take(0) =~= Seq::<Seq<char>>::empty());
    assert(start =~= start + Seq::<CandidateV>::empty());
    while k < names.len()
        invariant
            k <= 4,
            nv == str_views(names@),
            candidate_views(candidates@) == start + docusaurus_script_candidates(
                artefacts_by_path@,
                config_path@,
                entry@,
                package_name@,
                scripts@,
                nv.take(k as int),
            ),
        decreases 4 - k,
    {
        assert(nv.take(k + 1).drop_last() =~= nv.take(k as int));
        assert(nv.take(k + 1).last() == names@[k as int]@);
        let name = names[k];
        match json_as_str(member_get(scripts, name)) {
            Some(script) => {
                let label = crate::text::concat3(package_name, " ", name);
                let mut evidence: Vec<String> = Vec::new();
                evidence.push(owned(config_path));
                evidence.push(crate::text::concat3(name, ": ", script));
                assert(views_of(evidence@) =~= seq![config_path@, name@ + ": "@ + script@]);
                push_candidate(
                    candidates,
                    entry,
                    artefacts_by_path,
                    "docusaurus_script",
                    label.as_str(),
                    780,
                    "Docusaurus package lifecycle script",
                    evidence,
                );
            },
            None => {},
        }
        assert(candidate_views(candidates@) =~= start + docusaurus_script_candidates(
            artefacts_by_path@,
            config_path@,
            entry@,
            package_name@,
            scripts@,
            nv.take(k + 1),
        ));
        k = k + 1;
    }
    assert(nv.take(4) =~= nv);
}

/// A documentation site package: the site, started from its Docusaurus
/// configuration, and its lifecycle scripts.
pub fn detect_docusaurus_package_entry_points(
    document: &JsonValue,
    config_path: &str,
    package_name: &str,
    file_paths: &StrSet,
    artefacts_by_path: &StrMap<Vec<LanguageEntryPointArtefact>>,
    candidates: &mut Vec<LanguageEntryPointCandidate>,
)
    ensures
        candidate_views(final(candidates)@) == candidate_views(old(candidates)@) + docusaurus_candidates(
            artefacts_by_path@,
            config_path@,
            file_paths@.to_set(),
            *document,
            package_name@,
        ),
{
    let ghost start = candidate_views(candidates@);
    let home = ["src/pages/index.tsx"];
    assert(str_views(home@) =~= seq!["src/pages/index.tsx"@]);
    let entry_path = match docusaurus_config_path(config_path, file_paths) {
        Some(p) => p,
        None => match first_existing_package_path(config_path, file_paths, &home) {
            Some(p) => p,
            None => owned(config_path),
        },
    };
    assert(entry_path@ == docusaurus_entry_of(config_path@, file_paths@.to_set()));
    let entry_chars = chars_of(entry_path.as_str());
    let label = match file_name(entry_chars.as_slice()) {
        Some(n) => string_from_chars(n.as_slice()),
        None => owned("docusaurus.config"),
    };
    let mut evidence: Vec<String> = Vec::new();
    evidence.push(owned(config_path));
    evidence.push(entry_path.clone());
    evidence.push(owned("@docusaurus/core"));
    evidence.push(label);
    let ghost label_spec = match file_name_of(entry_path@) {
        Some(n) => n,
        None => "docusaurus.config"@,
    };
    assert(views_of(evidence@) =~= seq![config_path@, entry_path@, "@docusaurus/core"@, label_spec]);
    let ghost site = config_candidate_of(
        artefacts_by_path@,
        entry_path@,
        "docusaurus_site"@,
        package_name@,
        920,
        "Docusaurus documentation site package"@,
        seq![config_path@, entry_path@, "@docusaurus/core"@, label_spec],
    );
    push_candidate(
        candidates,
        entry_path.as_str(),
        artefacts_by_path,
        "docusaurus_site",
        package_name,
        920,
        "Docusaurus documentation site package",
        evidence,
    );
    let ghost after_site = candidate_views(candidates@);
    assert(after_site == start.push(site));
    match json_get(document, "scripts") {
        Some(JsonValue::Object(scripts)) => {
            push_docusaurus_scripts(config_path, entry_path.as_str(), package_name, scripts, artefacts_by_path, candidates);
            assert(candidate_views(candidates@) == start.push(site) + docusaurus_script_candidates(
                artefacts_by_path@,
                config_path@,
                entry_path@,
                package_name@,
                scripts@,
                docusaurus_script_names(),
            ));
        },
        _ => {
            assert(candidate_views(candidates@) == start.push(site));
        },
    }
    assert(candidate_views(candidates@) =~= start + docusaurus_candidates(
        artefacts_by_path@,
        config_path@,
        file_paths@.to_set(),
        *document,
        package_name@,
    ));
}

fn push_commands(
    config_path: &str,
    entry: &str,
    commands: &Vec<JsonValue>,
    artefacts_by_path: &StrMap<Vec<LanguageEntryPointArtefact>>,
    candidates: &mut Vec<LanguageEntryPointCandidate>,
)
    ensures
        candidate_views(final(candidates)@) == candidate_views(old(candidates)@) + command_candidates(
            artefacts_by_path@,
            config_path@,
            entry@,
            commands@,
        ),
{
    let ghost start = candidate_views(candidates@);
    let mut k: usize = 0;
    assert(commands@.take(0) =~= Seq::<JsonValue>::empty());
    assert(start =~= start + Seq::<CandidateV>::empty());
    while k < commands.len()
        invariant
            k <= commands@.len(),
            candidate_views(candidates@) == start + command_candidates(
                artefacts_by_path@,
                config_path@,
                entry@,
                commands@.take(k as int),
            ),
        decreases commands@.len() - k,
    {
        assert(commands@.take(k + 1).drop_last() =~= commands@.take(k as int));
        assert(commands@.take(k + 1).last() == commands@[k as int]);
        let command = &commands[k];
        match json_as_str(json_get(command, "command")) {
            Some(id) => {
                let title = match json_as_str(json_get(command, "title")) {
                    Some(t) => t,
                    None => id,
                };
                let mut evidence: Vec<String> = Vec::new();
                evidence.push(owned(config_path));
                evidence.push(concat("command: ", id));
                evidence.push(concat("title: ", title));
                assert(views_of(evidence@) =~= seq![config_path@, "command: "@ + id@, "title: "@ + title@]);
                push_candidate(
                    candidates,
                    entry,
                    artefacts_by_path,
                    "vscode_command",
                    id,
                    800,
                    "VS Code contributed command",
                    evidence,
                );
            },
            None => {},
        }
        assert(candidate_views(candidates@) =~= start + command_candidates(
            artefacts_by_path@,
            config_path@,
            entry@,
            commands@.take(k + 1),
        ));
        k = k + 1;
    }
    assert(commands@.take(k as int) =~= commands@);
}

/// An editor extension package: the extension, started from the source
/// of its `main`, and the commands it contributes.
pub fn detect_vscode_extension_entry_points(
    document: &JsonValue,
    config_path: &str,
    package_name: &str,
    file_paths: &StrSet,
    artefacts_by_path: &StrMap<Vec<LanguageEntryPointArtefact>>,
    candidates: &mut Vec<LanguageEntryPointCandidate>,
)
    ensures
        candidate_views(final(candidates)@) == candidate_views(old(candidates)@) + vscode_candidates(
            artefacts_by_path@,
            config_path@,
            file_paths@.to_set(),
            *document,
            package_name@,
        ),
{
    let ghost start = candidate_views(candidates@);
    let main = match json_as_str(json_get(document, "main")) {
        Some(m) => m,
        None => "./out/extension.js",
    };
    let fallback = ["src/extension.ts"];
    assert(str_views(fallback@) =~= seq!["src/extension.ts"@]);
    let entry_path = match package_main_source_path(config_path, main, file_paths) {
        Some(p) => p,
        None => match first_existing_package_path(config_path, file_paths, &fallback) {
            Some(p) => p,
            None => owned(config_path),
        },
    };
    let display = match json_as_str(json_get(document, "displayName")) {
        Some(d) => d,
        None => package_name,
    };
    let display_chars = chars_of(display);
    let lowered = lower_chars(display_chars.as_slice());
    let needle = chars_of("extension");
    let label = if chars_contains(lowered.as_slice(), needle.as_slice()) {
        owned(display)
    } else {
        concat(display, " VS Code extension")
    };
    let mut evidence: Vec<String> = Vec::new();
    evidence.push(owned(config_path));
    evidence.push(concat("main: ", main));
    evidence.push(entry_path.clone());
    assert(views_of(evidence@) =~= seq![config_path@, "main: "@ + main@, entry_path@]);
    push_candidate(
        candidates,
        entry_path.as_str(),
        artefacts_by_path,
        "vscode_extension",
        label.as_str(),
        930,
        "VS Code extension package",
        evidence,
    );
    match json_get_in(json_get(document, "contributes"), "commands") {
        Some(JsonValue::Array(commands)) => {
            push_commands(config_path, entry_path.as_str(), commands, artefacts_by_path, candidates);
        },
        _ => {},
    }
    assert(candidate_views(candidates@) =~= start + vscode_candidates(
        artefacts_by_path@,
        config_path@,
        file_paths@.to_set(),
        *document,
        package_name@,
    ));
}

/// Entry points a package.json declares: a documentation site, an editor
/// extension, its binaries, and, for other packages, its runtime scripts.
pub fn detect_package_json_entry_points(
    config_path: &str,
    document: &JsonValue,
    file_paths: &StrSet,
    artefacts_by_path: &StrMap<Vec<LanguageEntryPointArtefact>>,
    candidates: &mut Vec<LanguageEntryPointCandidate>,
)
    ensures
        candidate_views(final(candidates)@) == candidate_views(old(candidates)@) + package_json_candidates(
            artefacts_by_path@,
            config_path@,
            file_paths@.to_set(),
            *document,
        ),
{
    let ghost start = candidate_views(candidates@);
    let name = package_name(document);
    let docs_site = is_docusaurus_package(document) || docusaurus_config_path(config_path, file_paths).is_some();
    let extension = is_vscode_extension_package(document);
    if docs_site {
        detect_docusaurus_package_entry_points(document, config_path, name, file_paths, artefacts_by_path, candidates);
    }
    let ghost after_docs = candidate_views(candidates@);
    if extension {
        detect_vscode_extension_entry_points(document, config_path, name, file_paths, artefacts_by_path, candidates);
    }
    let ghost after_extension = candidate_views(candidates@);
    push_bins(config_path, document, file_paths, artefacts_by_path, candidates);
    let ghost after_bins = candidate_views(candidates@);
    if !docs_site && !extension {
        match json_get(document, "scripts") {
            Some(JsonValue::Object(scripts)) => {
                push_runtime_scripts(config_path, scripts, file_paths, artefacts_by_path, candidates);
            },
            _ => {},
        }
    }
    assert(candidate_views(candidates@) =~= start + package_json_candidates(
        artefacts_by_path@,
        config_path@,
        file_paths@.to_set(),
        *document,
    ));
}

/// Entry points a package.json text declares: those of the document it
/// parses to, none when it is not JSON.
pub fn detect_package_json_entry_points_in_text(
    config_path: &str,
    text: &str,
    file_paths: &StrSet,
    artefacts_by_path: &StrMap<Vec<LanguageEntryPointArtefact>>,
    candidates: &mut Vec<LanguageEntryPointCandidate>,
)
    ensures
        candidate_views(final(candidates)@) == candidate_views(old(candidates)@) + match json_document_of(text@) {
            Some(d) => package_json_candidates(artefacts_by_path@, config_path@, file_paths@.to_set(), d),
            None => Seq::empty(),
        },
{
    let ghost start = candidate_views(candidates@);
    match parse_json_document(text) {
        Some(document) => {
            detect_package_json_entry_points(config_path, &document, file_paths, artefacts_by_path, candidates);
        },
        None => {
            assert(candidate_views(candidates@) =~= start + Seq::<CandidateV>::empty());
        },
    }
}

// ---------------------------------------------------------------------------
// Cargo and Python manifests
// ---------------------------------------------------------------------------

/// The file a `[[bin]]` table runs: its `path` when that file exists, else
/// `src/bin/<name>.rs` when that one does.
pub open spec fn cargo_bin_path(config_path: Seq<char>, files: Set<Seq<char>>, name: Seq<char>, path: Option<Seq<char>>) -> Option<Seq<char>> {
    let inferred = relative_join_of(config_path, "src/bin/"@ + name + ".rs"@);
    let explicit_exists = match path {
        Some(p) => files.contains(relative_join_of(config_path, p)),
        None => false,
    };
    if explicit_exists {
        Some(relative_join_of(config_path, path.unwrap()))
    } else if files.contains(inferred) {
        Some(inferred)
    } else {
        None
    }
}

/// The binaries of `[[bin]]` tables whose files exist, in order, each
/// named by its table or else by the package.
pub open spec fn cargo_bin_candidates(
    abp: Map<Seq<char>, Vec<LanguageEntryPointArtefact>>,
    config_path: Seq<char>,
    files: Set<Seq<char>>,
    package_name: Seq<char>,
    bins: Seq<(Option<Seq<char>>, Option<Seq<char>>)>,
) -> Seq<CandidateV>
    decreases bins.len(),
{
    if bins.len() == 0 {
        Seq::empty()
    } else {
        let prev = cargo_bin_candidates(abp, config_path, files, package_name, bins.drop_last());
        let name = match bins.last().0 {
            Some(n) => n,
            None => package_name,
        };
        match cargo_bin_path(config_path, files, name, bins.last().1) {
            Some(p) => prev.push(
                config_candidate_of(abp, p, "cargo_bin"@, name, 940, "Cargo explicit binary target"@, seq![config_path, p]),
            ),
            None => prev,
        }
    }
}

/// What a Cargo manifest declares: nothing without a package name; else
/// its default binary, its `[[bin]]` targets, its clap subcommands and its
/// HTTP routes.
pub open spec fn cargo_manifest_candidates(
    abp: Map<Seq<char>, Vec<LanguageEntryPointArtefact>>,
    config_path: Seq<char>,
    files: Seq<Seq<char>>,
    contents: Map<Seq<char>, String>,
    manifest: CargoManifestV,
) -> Seq<CandidateV> {
    match manifest.package_name {
        None => Seq::empty(),
        Some(name) => {
            let file_set = files.to_set();
            let default_main = relative_join_of(config_path, "src/main.rs"@);
            (if file_set.contains(default_main) {
                seq![
                    config_candidate_of(
                        abp,
                        default_main,
                        "cargo_bin"@,
                        name,
                        920,
                        "Cargo package default binary target"@,
                        seq![config_path, default_main],
                    ),
                ]
            } else {
                Seq::empty()
            }) + (match manifest.bins {
                Some(bins) => cargo_bin_candidates(abp, config_path, file_set, name, bins),
                None => Seq::empty(),
            }) + clap_candidates(config_path, name, files, contents) + http_route_candidates(
                config_path,
                existing_of(config_path, file_set, conventional_route_files()),
                contents,
            )
        },
    }
}

fn push_cargo_bins(
    config_path: &str,
    package_name: &str,
    bins: &Vec<TomlBinTarget>,
    file_paths: &StrSet,
    artefacts_by_path: &StrMap<Vec<LanguageEntryPointArtefact>>,
    candidates: &mut Vec<LanguageEntryPointCandidate>,
)
    ensures
        candidate_views(final(candidates)@) == candidate_views(old(candidates)@) + cargo_bin_candidates(
            artefacts_by_path@,
            config_path@,
            file_paths@.to_set(),
            package_name@,
            bin_views(bins@),
        ),
{
    let ghost start = candidate_views(candidates@);
    let ghost files = file_paths@.to_set();
    let ghost bv = bin_views(bins@);
    let mut k: usize = 0;
    assert(bv.take(0) =~= Seq::<(Option<Seq<char>>, Option<Seq<char>>)>::empty());
    assert(start =~= start + Seq::<CandidateV>::empty());
    while k < bins.len()
        invariant
            k <= bins@.len(),
            files == file_paths@.to_set(),
            bv == bin_views(bins@),
            candidate_views(candidates@) == start + cargo_bin_candidates(
                artefacts_by_path@,
                config_path@,
                files,
                package_name@,
                bv.take(k as int),
            ),
        decreases bins@.len() - k,
    {
        assert(bv.take(k + 1).drop_last() =~= bv.take(k as int));
        assert(bv.take(k + 1).last() == bv[k as int]);
        let bin = &bins[k];
        let name = match &bin.name {
            Some(n) => n.as_str(),
            None => package_name,
        };
        let inferred_child = concat3("src/bin/", name, ".rs");
        let inferred = repo_relative_join(config_path, inferred_child.as_str());
        let explicit = match &bin.path {
            Some(p) => {
                let joined = repo_relative_join(config_path, p.as_str());
                if file_paths.contains(joined.as_str()) {
                    Some(joined)
                } else {
                    None
                }
            },
            None => None,
        };
        let path = match explicit {
            Some(p) => Some(p),
            None => if file_paths.contains(inferred.as_str()) {
                Some(inferred)
            } else {
                None
            },
        };
        match path {
            Some(p) => {
                let mut evidence: Vec<String> = Vec::new();
                evidence.push(owned(config_path));
                evidence.push(p.clone());
                assert(views_of(evidence@) =~= seq![config_path@, p@]);
                push_candidate(
                    candidates,
                    p.as_str(),
                    artefacts_by_path,
                    "cargo_bin",
                    name,
                    940,
                    "Cargo explicit binary target",
                    evidence,
                );
            },
            None => {},
        }
        assert(candidate_views(candidates@) =~= start + cargo_bin_candidates(
            artefacts_by_path@,
            config_path@,
            files,
            package_name@,
            bv.take(k + 1),
        ));
        k = k + 1;
    }
    assert(bv.take(k as int) =~= bv);
}

/// Entry points a parsed Cargo manifest declares.
pub fn cargo_entry_points_from_manifest(
    config_path: &str,
    manifest: &CargoManifest,
    file_paths: &StrSet,
    contents: &StrMap<String>,
    artefacts_by_path: &StrMap<Vec<LanguageEntryPointArtefact>>,
    candidates: &mut Vec<LanguageEntryPointCandidate>,
)
    requires
        forall|p: Seq<char>| #[trigger] contents@.dom().contains(p) ==> contents@[p]@.len() <= i32::MAX,
    ensures
        candidate_views(final(candidates)@) == candidate_views(old(candidates)@) + cargo_manifest_candidates(
            artefacts_by_path@,
            config_path@,
            file_paths@,
            contents@,
            cargo_manifest_view(*manifest),
        ),
{
    let ghost start = candidate_views(candidates@);
    let package_name = match &manifest.package_name {
        Some(n) => n.as_str(),
        None => {
            assert(candidate_views(candidates@) =~= start + Seq::<CandidateV>::empty());
            return;
        },
    };
    let default_main = repo_relative_join(config_path, "src/main.rs");
    if file_paths.contains(default_main.as_str()) {
        let mut evidence: Vec<String> = Vec::new();
        evidence.push(owned(config_path));
        evidence.push(default_main.clone());
        assert(views_of(evidence@) =~= seq![config_path@, default_main@]);
        push_candidate(
            candidates,
            default_main.as_str(),
            artefacts_by_path,
            "cargo_bin",
            package_name,
            920,
            "Cargo package default binary target",
            evidence,
        );
    }
    let ghost after_main = candidate_views(candidates@);
    match &manifest.bins {
        Some(bins) => push_cargo_bins(config_path, package_name, bins, file_paths, artefacts_by_path, candidates),
        None => {},
    }
    let ghost after_bins = candidate_views(candidates@);
    detect_rust_clap_entry_points(config_path, package_name, file_paths, contents, candidates);
    let ghost after_clap = candidate_views(candidates@);
    detect_http_route_entry_points(config_path, file_paths, contents, candidates);
    assert(candidate_views(candidates@) =~= start + cargo_manifest_candidates(
        artefacts_by_path@,
        config_path@,
        file_paths@,
        contents@,
        cargo_manifest_view(*manifest),
    ));
}

/// What the Cargo manifest at `config_path` declares; nothing when its text
/// is missing or does not parse.
pub open spec fn cargo_candidates(
    abp: Map<Seq<char>, Vec<LanguageEntryPointArtefact>>,
    config_path: Seq<char>,
    files: Seq<Seq<char>>,
    contents: Map<Seq<char>, String>,
) -> Seq<CandidateV> {
    if contents.dom().contains(config_path) {
        match cargo_manifest_of(contents[config_path]@) {
            Some(m) => cargo_manifest_candidates(abp, config_path, files, contents, m),
            None => Seq::empty(),
        }
    } else {
        Seq::empty()
    }
}

/// Entry points of the Cargo manifest at `config_path`, whose text, like
/// that of the sources it names, is looked up in `contents`.
pub fn detect_cargo_entry_points(
    config_path: &str,
    file_paths: &StrSet,
    contents: &StrMap<String>,
    artefacts_by_path: &StrMap<Vec<LanguageEntryPointArtefact>>,
    candidates: &mut Vec<LanguageEntryPointCandidate>,
)
    requires
        forall|p: Seq<char>| #[trigger] contents@.dom().contains(p) ==> contents@[p]@.len() <= i32::MAX,
    ensures
        candidate_views(final(candidates)@) == candidate_views(old(candidates)@) + cargo_candidates(
            artefacts_by_path@,
            config_path@,
            file_paths@,
            contents@,
        ),
{
    let ghost start = candidate_views(candidates@);
    match contents.get(config_path) {
        Some(text) => match parse_cargo_manifest(text.as_str()) {
            Some(manifest) => {
                cargo_entry_points_from_manifest(config_path, &manifest, file_paths, contents, artefacts_by_path, candidates);
            },
            None => {
                assert(candidate_views(candidates@) =~= start + Seq::<CandidateV>::empty());
            },
        },
        None => {
            assert(candidate_views(candidates@) =~= start + Seq::<CandidateV>::empty());
        },
    }
}

/// `module.replace('.', "/")`.
pub open spec fn dots_to_slashes(s: Seq<char>) -> Seq<char> {
    s.map_values(|c: char| if c == '.' { '/' } else { c })
}

/// Where the module of a console script may live.
pub open spec fn python_module_files(module_dir: Seq<char>) -> Seq<Seq<char>> {
    seq![
        module_dir + ".py"@,
        "src/"@ + module_dir + ".py"@,
        module_dir + "/__init__.py"@,
        "src/"@ + module_dir + "/__init__.py"@,
    ]
}

/// The file of the module a `module:function` target names, where found.
pub open spec fn console_script_file(config_path: Seq<char>, files: Set<Seq<char>>, target: Seq<char>) -> Option<Seq<char>> {
    let colon = first_index(target, ':');
    if colon < 0 {
        None
    } else {
        first_existing_of(config_path, files, python_module_files(dots_to_slashes(target.take(colon))))
    }
}

/// The console scripts whose module is found, in order.
pub open spec fn python_script_candidates(
    abp: Map<Seq<char>, Vec<LanguageEntryPointArtefact>>,
    config_path: Seq<char>,
    files: Set<Seq<char>>,
    scripts: Seq<(Seq<char>, Option<Seq<char>>)>,
) -> Seq<CandidateV>
    decreases scripts.len(),
{
    if scripts.len() == 0 {
        Seq::empty()
    } else {
        let prev = python_script_candidates(abp, config_path, files, scripts.drop_last());
        let (name, target) = scripts.last();
        match target {
            Some(t) => match console_script_file(config_path, files, t) {
                Some(p) => prev.push(
                    config_candidate_of(
                        abp,
                        p,
                        "python_console_script"@,
                        name,
                        860,
                        "pyproject.toml console script"@,
                        seq![config_path, t, p],
                    ),
                ),
                None => prev,
            },
            None => prev,
        }
    }
}

fn module_dir_of(target: &str) -> (r: Option<String>)
    ensures
        match r {
            Some(m) => first_index(target@, ':') >= 0 && m@ == dots_to_slashes(target@.take(first_index(target@, ':'))),
            None => first_index(target@, ':') < 0,
        },
{
    let chars = chars_of(target);
    proof {
        crate::text::lemma_first_index(target@, ':');
    }
    let colon = match find_first(chars.as_slice(), ':') {
        Some(i) => i,
        None => return None,
    };
    let mut out: Vec<char> = Vec::new();
    let mut i: usize = 0;
    while i < colon
        invariant
            i <= colon,
            colon as int == first_index(target@, ':'),
            colon < chars@.len(),
            chars@ == target@,
            out@ == dots_to_slashes(target@.take(i as int)),
        decreases colon - i,
    {
        let c = chars[i];
        out.push(if c == '.' { '/' } else { c });
        assert(dots_to_slashes(target@.take(i + 1)) =~= dots_to_slashes(target@.take(i as int)).push(
            if target@[i as int] == '.' { '/' } else { target@[i as int] },
        ));
        i = i + 1;
    }
    Some(string_from_chars(out.as_slice()))
}

/// Entry points of the `[project.scripts]` entries of a pyproject
/// manifest: its console scripts whose module is a file of the package.
pub fn pyproject_entry_points_from_scripts(
    config_path: &str,
    scripts: &Vec<TomlScript>,
    file_paths: &StrSet,
    artefacts_by_path: &StrMap<Vec<LanguageEntryPointArtefact>>,
    candidates: &mut Vec<LanguageEntryPointCandidate>,
)
    ensures
        candidate_views(final(candidates)@) == candidate_views(old(candidates)@) + python_script_candidates(
            artefacts_by_path@,
            config_path@,
            file_paths@.to_set(),
            script_views(scripts@),
        ),
{
    let ghost start = candidate_views(candidates@);
    let ghost sv = script_views(scripts@);
    let ghost files = file_paths@.to_set();
    let mut k: usize = 0;
    assert(sv.take(0) =~= Seq::<(Seq<char>, Option<Seq<char>>)>::empty());
    assert(start =~= start + Seq::<CandidateV>::empty());
    while k < scripts.len()
        invariant
            k <= scripts@.len(),
            sv == script_views(scripts@),
            files == file_paths@.to_set(),
            candidate_views(candidates@) == start + python_script_candidates(
                artefacts_by_path@,
                config_path@,
                files,
                sv.take(k as int),
            ),
        decreases scripts@.len() - k,
    {
        assert(sv.take(k + 1).drop_last() =~= sv.take(k as int));
        assert(sv.take(k + 1).last() == sv[k as int]);
        let script = &scripts[k];
        match &script.target {
            Some(target) => match module_dir_of(target.as_str()) {
                Some(module_dir) => {
                    let m = module_dir.as_str();
                    let c0 = concat(m, ".py");
                    let c1 = concat3("src/", m, ".py");
                    let c2 = concat(m, "/__init__.py");
                    let c3 = concat3("src/", m, "/__init__.py");
                    let places = [c0.as_str(), c1.as_str(), c2.as_str(), c3.as_str()];
                    assert(str_views(places@) =~= python_module_files(module_dir@));
                    match first_existing_package_path(config_path, file_paths, &places) {
                        Some(p) => {
                            let mut evidence: Vec<String> = Vec::new();
                            evidence.push(owned(config_path));
                            evidence.push(target.clone());
                            evidence.push(p.clone());
                            assert(views_of(evidence@) =~= seq![config_path@, target@, p@]);
                            push_candidate(
                                candidates,
                                p.as_str(),
                                artefacts_by_path,
                                "python_console_script",
                                script.name.as_str(),
                                860,
                                "pyproject.toml console script",
                                evidence,
                            );
                        },
                        None => {},
                    }
                },
                None => {},
            },
            None => {},
        }
        assert(candidate_views(candidates@) =~= start + python_script_candidates(
            artefacts_by_path@,
            config_path@,
            files,
            sv.take(k + 1),
        ));
        k = k + 1;
    }
    assert(sv.take(k as int) =~= sv);
}

/// What the pyproject manifest at `config_path` declares; nothing when its
/// text is missing or does not parse.
pub open spec fn pyproject_candidates(
    abp: Map<Seq<char>, Vec<LanguageEntryPointArtefact>>,
    config_path: Seq<char>,
    files: Set<Seq<char>>,
    contents: Map<Seq<char>, String>,
) -> Seq<CandidateV> {
    if contents.dom().contains(config_path) {
        match pyproject_scripts_of(contents[config_path]@) {
            Some(scripts) => python_script_candidates(abp, config_path, files, scripts),
            None => Seq::empty(),
        }
    } else {
        Seq::empty()
    }
}

pub fn detect_pyproject_entry_points(
    config_path: &str,
    file_paths: &StrSet,
    contents: &StrMap<String>,
    artefacts_by_path: &StrMap<Vec<LanguageEntryPointArtefact>>,
    candidates: &mut Vec<LanguageEntryPointCandidate>,
)
    ensures
        candidate_views(final(candidates)@) == candidate_views(old(candidates)@) + pyproject_candidates(
            artefacts_by_path@,
            config_path@,
            file_paths@.to_set(),
            contents@,
        ),
{
    let ghost start = candidate_views(candidates@);
    match contents.get(config_path) {
        Some(text) => match parse_pyproject_scripts(text.as_str()) {
            Some(scripts) => {
                pyproject_entry_points_from_scripts(config_path, &scripts, file_paths, artefacts_by_path, candidates);
            },
            None => {
                assert(candidate_views(candidates@) =~= start + Seq::<CandidateV>::empty());
            },
        },
        None => {
            assert(candidate_views(candidates@) =~= start + Seq::<CandidateV>::empty());
        },
    }
}

// ---------------------------------------------------------------------------
// All manifests of a snapshot
// ---------------------------------------------------------------------------

pub open spec fn record_paths(files: Seq<CurrentCanonicalFileRecord>) -> Seq<Seq<char>> {
    files.map_values(|f: CurrentCanonicalFileRecord| f.path@)
}

/// What the file at `path` declares, by its name: a Cargo manifest, a
/// package.json (read from the document its text parses to), or a
/// pyproject manifest.
pub open spec fn manifest_candidates(
    abp: Map<Seq<char>, Vec<LanguageEntryPointArtefact>>,
    paths: Seq<Seq<char>>,
    contents: Map<Seq<char>, String>,
    path: Seq<char>,
) -> Seq<CandidateV> {
    match file_name_of(path) {
        Some(n) => if n == "Cargo.toml"@ {
            cargo_candidates(abp, path, paths, contents)
        } else if n == "package.json"@ {
            if contents.dom().contains(path) {
                match json_document_of(contents[path]@) {
                    Some(d) => package_json_candidates(abp, path, paths.to_set(), d),
                    None => Seq::empty(),
                }
            } else {
                Seq::empty()
            }
        } else if n == "pyproject.toml"@ {
            pyproject_candidates(abp, path, paths.to_set(), contents)
        } else {
            Seq::empty()
        },
        None => Seq::empty(),
    }
}

/// The candidates of the manifests among `configs`, file by file.
pub open spec fn config_candidates(
    abp: Map<Seq<char>, Vec<LanguageEntryPointArtefact>>,
    paths: Seq<Seq<char>>,
    contents: Map<Seq<char>, String>,
    configs: Seq<Seq<char>>,
) -> Seq<CandidateV>
    decreases configs.len(),
{
    if configs.len() == 0 {
        Seq::empty()
    } else {
        config_candidates(abp, paths, contents, configs.drop_last()) + manifest_candidates(
            abp,
            paths,
            contents,
            configs.last(),
        )
    }
}

/// Entry points declared by the manifests of the snapshot's files, file by
/// file. `contents` holds the text of the files that could be read.
pub fn detect_config_entry_points(
    files: &[CurrentCanonicalFileRecord],
    contents: &StrMap<String>,
    artefacts_by_path: &StrMap<Vec<LanguageEntryPointArtefact>>,
) -> (r: Vec<LanguageEntryPointCandidate>)
    requires
        forall|p: Seq<char>| #[trigger] contents@.dom().contains(p) ==> contents@[p]@.len() <= i32::MAX,
    ensures
        candidate_views(r@) == config_candidates(
            artefacts_by_path@,
            ascending(record_paths(files@).to_set()),
            contents@,
            record_paths(files@),
        ),
{
    let ghost rp = record_paths(files@);
    let mut paths: Vec<String> = Vec::new();
    let mut i: usize = 0;
    while i < files.len()
        invariant
            i <= files@.len(),
            rp == record_paths(files@),
            views_of(paths@) == rp.take(i as int),
        decreases files@.len() - i,
    {
        let ghost before = views_of(paths@);
        let path = owned(files[i].path.as_str());
        paths.push(path);
        assert(rp[i as int] == files@[i as int].path@);
        assert(views_of(paths@) =~= before.push(path@));
        assert(rp.take(i + 1) =~= rp.take(i as int).push(rp[i as int]));
        i = i + 1;
    }
    assert(rp.take(i as int) =~= rp);
    let file_paths = StrSet::from_strings(paths.as_slice());
    proof {
        lemma_ascending(file_paths@, rp.to_set());
    }
    let ghost sorted = file_paths@;
    let mut candidates: Vec<LanguageEntryPointCandidate> = Vec::new();
    let mut k: usize = 0;
    assert(rp.take(0) =~= Seq::<Seq<char>>::empty());
    assert(candidate_views(candidates@) =~= Seq::<CandidateV>::empty());
    while k < files.len()
        invariant
            k <= files@.len(),
            rp == record_paths(files@),
            sorted == file_paths@,
            sorted == ascending(rp.to_set()),
            forall|p: Seq<char>| #[trigger] contents@.dom().contains(p) ==> contents@[p]@.len() <= i32::MAX,
            candidate_views(candidates@) == config_candidates(
                artefacts_by_path@,
                sorted,
                contents@,
                rp.take(k as int),
            ),
        decreases files@.len() - k,
    {
        assert(rp.take(k + 1).drop_last() =~= rp.take(k as int));
        assert(rp.take(k + 1).last() == files@[k as int].path@);
        let path = files[k].path.as_str();
        let ghost before = candidate_views(candidates@);
        let path_chars = chars_of(path);
        match file_name(path_chars.as_slice()) {
            Some(n) => {
                let cargo = chars_of("Cargo.toml");
                let package = chars_of("package.json");
                let pyproject = chars_of("pyproject.toml");
                if chars_eq(n.as_slice(), cargo.as_slice()) {
                    detect_cargo_entry_points(path, &file_paths, contents, artefacts_by_path, &mut candidates);
                } else if chars_eq(n.as_slice(), package.as_slice()) {
                    match contents.get(path) {
                        Some(text) => {
                            detect_package_json_entry_points_in_text(
                                path,
                                text.as_str(),
                                &file_paths,
                                artefacts_by_path,
                                &mut candidates,
                            );
                        },
                        None => {
                            assert(candidate_views(candidates@) =~= before + Seq::<CandidateV>::empty());
                        },
                    }
                } else if chars_eq(n.as_slice(), pyproject.as_slice()) {
                    detect_pyproject_entry_points(path, &file_paths, contents, artefacts_by_path, &mut candidates);
                } else {
                    assert(candidate_views(candidates@) =~= before + Seq::<CandidateV>::empty());
                }
            },
            None => {
                assert(candidate_views(candidates@) =~= before + Seq::<CandidateV>::empty());
            },
        }
        assert(candidate_views(candidates@) == before + manifest_candidates(
            artefacts_by_path@,
            sorted,
            contents@,
            path@,
        ));
        k = k + 1;
    }
    assert(rp.take(k as int) =~= rp);
    candidates
}

} // verus!
