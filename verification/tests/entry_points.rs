use std::collections::BTreeMap;

use architecture_graph::assoc::StrMap;
use architecture_graph::entry_points::{
    group_entry_point_artefacts_by_path, LanguageEntryPointArtefact, LanguageEntryPointCandidate,
};
use architecture_graph::json_doc::{JsonMember, JsonValue};
use architecture_graph::manifests::{
    detect_config_entry_points, is_docusaurus_package, is_vscode_extension_package, package_has_dependency,
    package_scripts_contain,
};
use architecture_graph::model::{CurrentCanonicalArtefactRecord, CurrentCanonicalFileRecord};

fn file(path: &str, language: &str) -> CurrentCanonicalFileRecord {
    CurrentCanonicalFileRecord {
        repo_id: "repo".to_string(),
        path: path.to_string(),
        analysis_mode: "parsed".to_string(),
        file_role: "source".to_string(),
        language: language.to_string(),
        resolved_language: language.to_string(),
        effective_content_id: format!("content:{path}"),
        parser_version: "test".to_string(),
        extractor_version: "test".to_string(),
        exists_in_head: true,
        exists_in_index: true,
        exists_in_worktree: true,
    }
}

fn entry_artefact(path: &str, name: &str, kind: &str) -> LanguageEntryPointArtefact {
    LanguageEntryPointArtefact {
        artefact_id: format!("{path}:{name}:artefact"),
        symbol_id: format!("{path}:{name}:symbol"),
        path: path.to_string(),
        name: name.to_string(),
        canonical_kind: Some(kind.to_string()),
        language_kind: Some("function_item".to_string()),
        symbol_fqn: Some(format!("{path}::{name}")),
        signature: None,
        modifiers: Vec::new(),
        start_line: 1,
        end_line: 3,
    }
}

fn group_artefacts_for_test(artefacts: Vec<LanguageEntryPointArtefact>) -> StrMap<Vec<LanguageEntryPointArtefact>> {
    let mut grouped: BTreeMap<String, Vec<LanguageEntryPointArtefact>> = BTreeMap::new();
    for artefact in artefacts {
        grouped.entry(artefact.path.clone()).or_default().push(artefact);
    }
    let mut map = StrMap::new();
    for (path, group) in grouped {
        map.set(&path, group);
    }
    map
}

fn contents_of(files: &[(&str, &str)]) -> StrMap<String> {
    let mut map = StrMap::new();
    for (path, text) in files {
        map.set(path, text.to_string());
    }
    map
}

fn text(value: &str) -> JsonValue {
    JsonValue::Text(value.to_string())
}

fn object(members: Vec<(&str, JsonValue)>) -> JsonValue {
    JsonValue::Object(
        members
            .into_iter()
            .map(|(key, value)| JsonMember { key: key.to_string(), value })
            .collect(),
    )
}

fn any(candidates: &[LanguageEntryPointCandidate], predicate: impl Fn(&LanguageEntryPointCandidate) -> bool) -> bool {
    candidates.iter().any(predicate)
}

#[test]
fn config_entry_points_include_cargo_package_binary() {
    let files = vec![
        file("crates/bitloops-inference/Cargo.toml", "toml"),
        file("crates/bitloops-inference/src/main.rs", "rust"),
    ];
    let contents = contents_of(&[
        (
            "crates/bitloops-inference/Cargo.toml",
            "[package]\nname = \"bitloops-inference\"\nversion = \"0.1.0\"\nedition = \"2024\"\n",
        ),
        ("crates/bitloops-inference/src/main.rs", "fn main() {}\n"),
    ]);
    let grouped = group_artefacts_for_test(vec![entry_artefact(
        "crates/bitloops-inference/src/main.rs",
        "main",
        "function",
    )]);

    let candidates = detect_config_entry_points(&files, &contents, &grouped);

    let cargo_bin = candidates
        .iter()
        .find(|candidate| candidate.entry_kind == "cargo_bin")
        .expect("cargo bin entry point");
    assert_eq!(cargo_bin.path, "crates/bitloops-inference/src/main.rs");
    assert_eq!(cargo_bin.name, "bitloops-inference");
    assert!(cargo_bin.artefact_id.is_some());
}

#[test]
fn config_entry_points_include_package_json_bin_and_runtime_script() {
    let files = vec![
        file("package.json", "json"),
        file("src/cli.ts", "typescript"),
        file("src/server.ts", "typescript"),
    ];
    let contents = contents_of(&[(
        "package.json",
        r#"{
  "name": "sample-cli",
  "bin": { "sample": "./src/cli.ts" },
  "scripts": { "start": "tsx ./src/server.ts" }
}
"#,
    )]);
    let grouped = group_artefacts_for_test(vec![
        entry_artefact("src/cli.ts", "main", "function"),
        entry_artefact("src/server.ts", "startServer", "function"),
    ]);

    let candidates = detect_config_entry_points(&files, &contents, &grouped);

    assert!(any(&candidates, |candidate| candidate.entry_kind == "npm_bin" && candidate.path == "src/cli.ts"));
    assert!(any(&candidates, |candidate| {
        candidate.entry_kind == "npm_script" && candidate.path == "src/server.ts"
    }));
}

#[test]
fn config_entry_points_promote_docusaurus_and_vscode_extension_packages() {
    let files = vec![
        file("documentation/package.json", "json"),
        file("documentation/docusaurus.config.ts", "typescript"),
        file("documentation/src/pages/index.tsx", "typescript"),
        file("vscode-extension/package.json", "json"),
        file("vscode-extension/src/extension.ts", "typescript"),
    ];
    let contents = contents_of(&[
        (
            "documentation/package.json",
            r#"{
  "name": "documentation",
  "scripts": {
    "start": "docusaurus start",
    "build": "docusaurus build",
    "deploy": "docusaurus deploy",
    "serve": "docusaurus serve"
  },
  "dependencies": { "@docusaurus/core": "^3.9.2" }
}
"#,
        ),
        (
            "vscode-extension/package.json",
            r#"{
  "name": "bitloops",
  "displayName": "Bitloops",
  "engines": { "vscode": "^1.89.0" },
  "main": "./out/extension.js",
  "contributes": {
    "commands": [
      { "command": "bitloops.searchArtefacts", "title": "Bitloops: Search Artefacts" }
    ]
  }
}
"#,
        ),
    ]);
    let grouped = group_artefacts_for_test(vec![
        entry_artefact("documentation/src/pages/index.tsx", "Home", "function"),
        entry_artefact("vscode-extension/src/extension.ts", "activate", "function"),
    ]);

    let candidates = detect_config_entry_points(&files, &contents, &grouped);

    assert!(any(&candidates, |candidate| {
        candidate.entry_kind == "docusaurus_site"
            && candidate.name == "documentation"
            && candidate.path == "documentation/docusaurus.config.ts"
    }));
    assert!(any(&candidates, |candidate| {
        candidate.entry_kind == "docusaurus_script"
            && candidate.name == "documentation build"
            && candidate.path == "documentation/docusaurus.config.ts"
    }));
    assert!(any(&candidates, |candidate| {
        candidate.entry_kind == "vscode_extension"
            && candidate.name == "Bitloops VS Code extension"
            && candidate.path == "vscode-extension/src/extension.ts"
    }));
    assert!(any(&candidates, |candidate| {
        candidate.entry_kind == "vscode_command"
            && candidate.name == "bitloops.searchArtefacts"
            && candidate.path == "vscode-extension/src/extension.ts"
    }));
}

#[test]
fn config_entry_points_include_clap_commands_and_devql_routes() {
    let cli = r#"
#[derive(Subcommand)]
pub enum Commands {
    /// Start the daemon.
    Start(StartArgs),
    /// DevQL ingestion and querying.
    Devql(DevqlArgs),
    /// Hidden internal command.
    #[command(hide = true)]
    Internal(InternalArgs),
}
"#;
    let devql = r#"
#[derive(Subcommand)]
pub enum DevqlCommand {
    /// Execute a DevQL query.
    Query(QueryArgs),
    /// Print schema SDL.
    Schema(SchemaArgs),
}
"#;
    let router = r#"
fn router() {
    Router::new()
        .route("/devql", post(handler))
        .route("/devql/playground", get(handler))
        .route(
            "/devql/global",
            post(handler),
        )
        .route("/devql/dashboard/blobs/{repo_id}/{blob_sha}", get(handler));
}
"#;
    let files = vec![
        file("bitloops/Cargo.toml", "toml"),
        file("bitloops/src/main.rs", "rust"),
        file("bitloops/src/cli.rs", "rust"),
        file("bitloops/src/cli/devql/args.rs", "rust"),
        file("bitloops/src/api/router.rs", "rust"),
    ];
    let contents = contents_of(&[
        ("bitloops/Cargo.toml", "[package]\nname = \"bitloops\"\nversion = \"0.1.0\"\nedition = \"2024\"\n"),
        ("bitloops/src/main.rs", "fn main() {}\n"),
        ("bitloops/src/cli.rs", cli),
        ("bitloops/src/cli/devql/args.rs", devql),
        ("bitloops/src/api/router.rs", router),
    ]);
    let grouped = group_artefacts_for_test(vec![entry_artefact("bitloops/src/main.rs", "main", "function")]);

    let candidates = detect_config_entry_points(&files, &contents, &grouped);

    assert!(any(&candidates, |candidate| {
        candidate.entry_kind == "rust_clap_command" && candidate.name == "bitloops start"
    }));
    assert!(any(&candidates, |candidate| {
        candidate.entry_kind == "rust_clap_command" && candidate.name == "bitloops devql query"
    }));
    assert!(!any(&candidates, |candidate| candidate.name.contains("internal")));
    assert!(any(&candidates, |candidate| candidate.entry_kind == "http_route" && candidate.name == "/devql"));
    assert!(any(&candidates, |candidate| {
        candidate.entry_kind == "http_route" && candidate.name == "/devql/global"
    }));
    assert!(!any(&candidates, |candidate| {
        candidate.entry_kind == "http_route" && candidate.name == "/devql/playground"
    }));
}

#[test]
fn cargo_explicit_binaries_fall_back_to_their_conventional_file() {
    let files = vec![
        file("tools/Cargo.toml", "toml"),
        file("tools/src/bin/sync.rs", "rust"),
        file("tools/bin/report.rs", "rust"),
    ];
    let contents = contents_of(&[(
        "tools/Cargo.toml",
        "[package]\nname = \"tools\"\n\n[[bin]]\nname = \"sync\"\npath = \"missing/sync.rs\"\n\n[[bin]]\nname = \"report\"\npath = \"bin/report.rs\"\n\n[[bin]]\nname = \"absent\"\n",
    )]);

    let candidates = detect_config_entry_points(&files, &contents, &StrMap::new());

    let bins: Vec<(String, String, u32)> = candidates
        .iter()
        .filter(|candidate| candidate.entry_kind == "cargo_bin")
        .map(|candidate| (candidate.name.clone(), candidate.path.clone(), candidate.confidence_permille))
        .collect();
    assert_eq!(
        bins,
        vec![
            ("sync".to_string(), "tools/src/bin/sync.rs".to_string(), 940),
            ("report".to_string(), "tools/bin/report.rs".to_string(), 940),
        ]
    );
    let report = candidates.iter().find(|candidate| candidate.name == "report").expect("report binary");
    assert_eq!(report.evidence, vec!["tools/Cargo.toml".to_string(), "tools/bin/report.rs".to_string()]);
    assert_eq!(report.reason, "Cargo explicit binary target");
}

#[test]
fn cargo_manifest_without_package_name_declares_nothing() {
    let files = vec![file("Cargo.toml", "toml"), file("src/main.rs", "rust")];
    let contents = contents_of(&[("Cargo.toml", "[workspace]\nmembers = [\"a\"]\n")]);
    let candidates = detect_config_entry_points(&files, &contents, &StrMap::new());
    assert!(candidates.is_empty());

    let unparsable = contents_of(&[("Cargo.toml", "[package\nname = ")]);
    let candidates = detect_config_entry_points(&files, &unparsable, &StrMap::new());
    assert!(candidates.is_empty());
}

#[test]
fn pyproject_console_scripts_resolve_module_files() {
    let files = vec![
        file("py/pyproject.toml", "toml"),
        file("py/src/tool/cli.py", "python"),
        file("py/pkg/__init__.py", "python"),
    ];
    let contents = contents_of(&[(
        "py/pyproject.toml",
        "[project]\nname = \"tool\"\n\n[project.scripts]\ntool = \"tool.cli:main\"\npkg = \"pkg:run\"\nbroken = \"no_colon\"\nmissing = \"gone.mod:main\"\n",
    )]);

    let candidates = detect_config_entry_points(&files, &contents, &StrMap::new());

    let scripts: Vec<(String, String)> = candidates
        .iter()
        .map(|candidate| (candidate.name.clone(), candidate.path.clone()))
        .collect();
    assert_eq!(
        scripts,
        vec![
            ("tool".to_string(), "py/src/tool/cli.py".to_string()),
            ("pkg".to_string(), "py/pkg/__init__.py".to_string()),
        ]
    );
    assert!(candidates.iter().all(|candidate| candidate.entry_kind == "python_console_script"
        && candidate.confidence_permille == 860));
    assert_eq!(
        candidates[0].evidence,
        vec!["py/pyproject.toml".to_string(), "tool.cli:main".to_string(), "py/src/tool/cli.py".to_string()]
    );
}

#[test]
fn package_predicates_read_dependencies_scripts_and_engines() {
    let docs = object(vec![
        ("devDependencies", object(vec![("@docusaurus/preset-classic", text("3"))])),
        ("scripts", object(vec![("build", JsonValue::Number("3".to_string()))])),
    ]);
    assert!(package_has_dependency(&docs, "@docusaurus/preset-classic"));
    assert!(!package_has_dependency(&docs, "@docusaurus/core"));
    assert!(!package_scripts_contain(&docs, "3"));
    assert!(is_docusaurus_package(&docs));

    let scripted = object(vec![("scripts", object(vec![("start", text("npx docusaurus start"))]))]);
    assert!(package_scripts_contain(&scripted, "docusaurus"));
    assert!(is_docusaurus_package(&scripted));

    let extension = object(vec![("engines", object(vec![("vscode", text("^1.0.0"))]))]);
    assert!(is_vscode_extension_package(&extension));
    let numeric_engine = object(vec![("engines", object(vec![("vscode", JsonValue::Number("1".to_string()))]))]);
    assert!(!is_vscode_extension_package(&numeric_engine));
    let contributes = object(vec![("contributes", object(vec![("commands", JsonValue::Null)]))]);
    assert!(is_vscode_extension_package(&contributes));
}

#[test]
fn package_json_string_bin_is_named_after_the_package_and_scripts_are_skipped_for_extensions() {
    let files = vec![
        file("cli/package.json", "json"),
        file("cli/bin/run.js", "javascript"),
        file("ext/package.json", "json"),
        file("ext/src/main.ts", "typescript"),
        file("ext/src/index.ts", "typescript"),
    ];
    let contents = contents_of(&[
        ("cli/package.json", r#"{ "bin": "bin/run.js" }"#),
        (
            "ext/package.json",
            r#"{
  "contributes": { "commands": [ { "title": "No id" } ] },
  "displayName": "My Extension",
  "main": "./dist/main.js",
  "scripts": { "start": "node src/index.ts" }
}"#,
        ),
    ]);

    let candidates = detect_config_entry_points(&files, &contents, &StrMap::new());

    let summary: Vec<(String, String, String)> = candidates
        .iter()
        .map(|candidate| (candidate.entry_kind.clone(), candidate.name.clone(), candidate.path.clone()))
        .collect();
    assert_eq!(
        summary,
        vec![
            ("npm_bin".to_string(), "package".to_string(), "cli/bin/run.js".to_string()),
            ("vscode_extension".to_string(), "My Extension".to_string(), "ext/src/main.ts".to_string()),
        ]
    );
    assert_eq!(
        candidates[1].evidence,
        vec!["ext/package.json".to_string(), "main: ./dist/main.js".to_string(), "ext/src/main.ts".to_string()]
    );
}

fn current_artefact(path: &str, name: &str, modifiers: &str) -> CurrentCanonicalArtefactRecord {
    CurrentCanonicalArtefactRecord {
        repo_id: "repo".to_string(),
        path: path.to_string(),
        content_id: format!("content:{path}"),
        symbol_id: format!("{path}:{name}:symbol"),
        artefact_id: format!("{path}:{name}:artefact"),
        language: "rust".to_string(),
        extraction_fingerprint: "fingerprint".to_string(),
        canonical_kind: Some("function".to_string()),
        language_kind: Some("function_item".to_string()),
        symbol_fqn: Some(format!("{path}::{name}")),
        parent_symbol_id: None,
        parent_artefact_id: None,
        start_line: 1,
        end_line: 3,
        start_byte: 0,
        end_byte: 10,
        signature: None,
        modifiers: modifiers.to_string(),
        docstring: None,
    }
}

#[test]
fn entry_point_artefacts_are_grouped_by_path_in_order() {
    let artefacts = vec![
        current_artefact("src/main.rs", "main", "[\"pub\",\"async\"]"),
        current_artefact("src/lib.rs", "run", "not json"),
        current_artefact("src/main.rs", "helper", "[]"),
    ];
    let grouped = group_entry_point_artefacts_by_path(&artefacts);
    let main = grouped.get("src/main.rs").expect("main group");
    assert_eq!(main.iter().map(|a| a.name.clone()).collect::<Vec<_>>(), vec!["main".to_string(), "helper".to_string()]);
    assert_eq!(main[0].modifiers, vec!["pub".to_string(), "async".to_string()]);
    let lib = grouped.get("src/lib.rs").expect("lib group");
    assert_eq!(lib.len(), 1);
    assert!(lib[0].modifiers.is_empty());
    assert!(grouped.get("src/other.rs").is_none());
}

#[test]
fn package_json_text_that_is_not_json_declares_nothing() {
    let files = vec![file("package.json", "json"), file("src/cli.ts", "typescript")];
    let contents = contents_of(&[("package.json", "{ \"bin\": ")]);
    let grouped = group_artefacts_for_test(vec![entry_artefact("src/cli.ts", "main", "function")]);

    let candidates = detect_config_entry_points(&files, &contents, &grouped);

    assert!(candidates.is_empty());
}

#[test]
fn inline_scripts_table_of_pyproject_declares_nothing() {
    let files = vec![file("py/pyproject.toml", "toml"), file("py/src/tool/cli.py", "python")];
    let inline = contents_of(&[("py/pyproject.toml", "[project]\nname = \"tool\"\nscripts = { tool = \"tool.cli:main\" }\n")]);
    assert!(detect_config_entry_points(&files, &inline, &StrMap::new()).is_empty());

    let table = contents_of(&[("py/pyproject.toml", "[project]\nname = \"tool\"\n\n[project.scripts]\ntool = \"tool.cli:main\"\n")]);
    let candidates = detect_config_entry_points(&files, &table, &StrMap::new());
    assert_eq!(candidates.len(), 1);
    assert_eq!(candidates[0].path, "py/src/tool/cli.py");
}
