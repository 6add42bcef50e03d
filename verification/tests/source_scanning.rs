use architecture_graph::entry_points::{
    clap_command_prefix_from_path, component_key_for_path, component_label, component_path,
    deployment_root_from_candidate, first_existing_package_path, http_route_files, infer_container_kind,
    is_deployable_config_candidate, last_symbol_segment, package_main_source_path,
    rust_files_under_config_root, script_entry_path, LanguageEntryPointCandidate,
};
use architecture_graph::order::StrSet;
use architecture_graph::parsing::{
    brace_delta, clap_variant_name, enum_name_from_line, extract_axum_route_paths, extract_clap_enum_commands,
    extract_clap_subcommand_enums, first_string_literal, is_primary_http_route, variant_to_kebab,
    ClapCommandDescriptor,
};
use architecture_graph::paths::{
    component_segment, config_root, normalise_repo_path, path_in_root, relative_to_root, repo_relative_join,
};

fn chars(text: &str) -> Vec<char> {
    text.chars().collect()
}

fn text(chars: &[char]) -> String {
    chars.iter().collect()
}

fn files(paths: &[&str]) -> StrSet {
    StrSet::from_strings(&paths.iter().map(|path| path.to_string()).collect::<Vec<_>>())
}

fn candidate(path: &str, kind: &str, name: &str, evidence: &[&str]) -> LanguageEntryPointCandidate {
    LanguageEntryPointCandidate {
        path: path.to_string(),
        artefact_id: None,
        symbol_id: None,
        name: name.to_string(),
        entry_kind: kind.to_string(),
        confidence_permille: 900,
        reason: "test".to_string(),
        evidence: evidence.iter().map(|item| item.to_string()).collect(),
    }
}

#[test]
fn repository_paths_are_normalised_and_joined() {
    assert_eq!(normalise_repo_path("./src//cli/../main.rs"), "src/main.rs");
    assert_eq!(normalise_repo_path("../x/./y/"), "x/y");
    assert_eq!(normalise_repo_path("/abs/path"), "abs/path");
    assert_eq!(normalise_repo_path(""), "");

    assert_eq!(config_root("crates/cli/Cargo.toml"), "crates/cli");
    assert_eq!(config_root("Cargo.toml"), ".");
    assert_eq!(config_root("a/../Cargo.toml"), ".");

    assert_eq!(repo_relative_join("crates/cli/Cargo.toml", "./src/main.rs"), "crates/cli/src/main.rs");
    assert_eq!(repo_relative_join("package.json", "././bin/cli.js"), "bin/cli.js");
    assert_eq!(repo_relative_join("web/package.json", "../shared/x.ts"), "shared/x.ts");

    assert_eq!(relative_to_root(".", "src/a.rs"), Some("src/a.rs".to_string()));
    assert_eq!(relative_to_root("crates/cli", "crates/cli/src/a.rs"), Some("src/a.rs".to_string()));
    assert_eq!(relative_to_root("crates/cli", "crates/client/a.rs"), None);

    assert!(path_in_root("crates/cli/src/a.rs", "crates/cli"));
    assert!(path_in_root("crates/cli", "crates/cli"));
    assert!(!path_in_root("crates/client/a.rs", "crates/cli"));
    assert!(path_in_root("anything", "."));

    assert_eq!(component_segment("users.rs"), "users");
    assert_eq!(component_segment("archive.tar.gz"), "archive.tar");
    assert_eq!(component_segment(".env"), ".env");
    assert_eq!(component_segment("api"), "api");
}

#[test]
fn components_are_keyed_labelled_and_placed() {
    assert_eq!(component_key_for_path(".", "src/users/service.rs"), Some("src/users".to_string()));
    assert_eq!(component_key_for_path(".", "src/main.rs"), Some("src/main".to_string()));
    assert_eq!(component_key_for_path(".", "docs/intro.md"), Some("docs".to_string()));
    assert_eq!(component_key_for_path("crates/cli", "crates/cli/src/cmd_run.rs"), Some("src/cmd_run".to_string()));
    assert_eq!(component_key_for_path("crates/cli", "other/file.rs"), None);
    assert_eq!(component_key_for_path(".", ""), None);

    assert_eq!(component_label("src/user_accounts"), "user accounts");
    assert_eq!(component_label("billing-api"), "billing api");
    assert_eq!(component_path(".", "src/users"), "src/users");
    assert_eq!(component_path("crates/cli", "src/users"), "crates/cli/src/users");

    assert_eq!(last_symbol_segment("crate::users::create"), "create");
    assert_eq!(last_symbol_segment("Users#create."), "create");
    assert_eq!(last_symbol_segment("plain"), "plain");
    assert_eq!(last_symbol_segment("::"), "::");
}

#[test]
fn candidates_have_container_kinds_and_deployment_roots() {
    assert_eq!(infer_container_kind(&candidate("src/main.rs", "cargo_bin", "xtask", &[])), "dev_tool");
    assert_eq!(infer_container_kind(&candidate("src/main.rs", "cargo_bin", "app", &[])), "cli");
    assert_eq!(infer_container_kind(&candidate("docs", "docusaurus_site", "site", &[])), "documentation_site");
    assert_eq!(infer_container_kind(&candidate("x.ts", "vscode_extension", "ext", &[])), "editor_extension");
    assert_eq!(infer_container_kind(&candidate("w.js", "npm_script", "worker", &[])), "worker");
    assert_eq!(infer_container_kind(&candidate("s.js", "npm_script", "start", &[])), "service");
    assert_eq!(infer_container_kind(&candidate("m.rs", "rust_main", "main", &[])), "runtime");

    assert!(is_deployable_config_candidate(&candidate("a", "npm_bin", "a", &[])));
    assert!(!is_deployable_config_candidate(&candidate("a", "rust_main", "a", &[])));

    let with_manifest = candidate("crates/cli/src/main.rs", "cargo_bin", "cli", &["notes", "crates/cli/Cargo.toml"]);
    assert_eq!(deployment_root_from_candidate(&with_manifest), "crates/cli");
    let top_manifest = candidate("src/main.rs", "cargo_bin", "cli", &["Cargo.toml"]);
    assert_eq!(deployment_root_from_candidate(&top_manifest), "src");
    let no_manifest = candidate("main.rs", "rust_main", "main", &[]);
    assert_eq!(deployment_root_from_candidate(&no_manifest), ".");
}

#[test]
fn package_paths_are_found_among_repository_files() {
    let paths = files(&[
        "web/src/server.ts",
        "web/bin/cli.js",
        "web/app.js",
        "svc/src/router.rs",
        "svc/src/main.rs",
        "svc/src/lib.rs",
        "svc/README.md",
        "other/src/x.rs",
    ]);
    assert_eq!(package_main_source_path("web/package.json", "bin/cli.js", &paths), Some("web/bin/cli.js".to_string()));
    assert_eq!(package_main_source_path("web/package.json", "dist/server.js", &paths), Some("web/src/server.ts".to_string()));
    assert_eq!(package_main_source_path("web/package.json", "dist/missing.js", &paths), None);

    assert_eq!(
        first_existing_package_path("web/package.json", &paths, &["src/index.ts", "app.js"]),
        Some("web/app.js".to_string())
    );
    assert_eq!(first_existing_package_path("web/package.json", &paths, &["src/index.ts"]), None);

    assert_eq!(script_entry_path("web/package.json", "node './bin/cli.js' --watch", &paths), Some("web/bin/cli.js".to_string()));
    assert_eq!(script_entry_path("web/package.json", "tsx watch", &paths), Some("web/src/server.ts".to_string()));
    assert_eq!(script_entry_path("svc/package.json", "node run.js", &paths), None);

    assert_eq!(
        http_route_files("svc/Cargo.toml", &paths),
        vec!["svc/src/router.rs".to_string(), "svc/src/main.rs".to_string()]
    );
    assert_eq!(
        rust_files_under_config_root("svc/Cargo.toml", &paths),
        vec!["svc/src/lib.rs".to_string(), "svc/src/main.rs".to_string(), "svc/src/router.rs".to_string()]
    );

    assert_eq!(clap_command_prefix_from_path("Cargo.toml", "src/cli/devql_query/args.rs"), Some("devql-query".to_string()));
    assert_eq!(clap_command_prefix_from_path("Cargo.toml", "src/commands/run_job.rs"), Some("run-job".to_string()));
    assert_eq!(clap_command_prefix_from_path("Cargo.toml", "src/cli/mod.rs"), None);
    assert_eq!(clap_command_prefix_from_path("Cargo.toml", "src/other/run.rs"), None);
    assert_eq!(clap_command_prefix_from_path("tools/Cargo.toml", "src/cli/run.rs"), None);
}

const CLI_SOURCE: &str = r#"
use clap::Subcommand;

#[derive(Debug, Subcommand)]
pub enum Commands {
    /// Start the daemon.
    /// Runs in the background.
    StartDaemon(StartArgs),
    #[command(name = "q")]
    Query { text: String },
    #[command(hide = true)]
    Internal,
    Status,
}

#[derive(Subcommand)]
enum Empty {
}
"#;

#[test]
fn clap_subcommands_are_read_from_source() {
    let commands = extract_clap_enum_commands(CLI_SOURCE, "Commands");
    assert_eq!(
        commands,
        vec![
            ClapCommandDescriptor {
                name: "start-daemon".to_string(),
                about: "Start the daemon. Runs in the background.".to_string(),
            },
            ClapCommandDescriptor { name: "q".to_string(), about: String::new() },
            ClapCommandDescriptor { name: "status".to_string(), about: String::new() },
        ]
    );
    let enums = extract_clap_subcommand_enums(CLI_SOURCE);
    assert_eq!(enums.len(), 1);
    assert_eq!(enums[0].0, "Commands");
    assert_eq!(enums[0].1, commands);
    assert!(extract_clap_enum_commands(CLI_SOURCE, "Missing").is_empty());

    assert_eq!(brace_delta(&chars("fn x() { { }")), 1);
    assert_eq!(brace_delta(&chars("}}")), -2);
    assert_eq!(enum_name_from_line(&chars("pub enum Kind<T> {")).map(|name| text(&name)), Some("Kind".to_string()));
    assert_eq!(enum_name_from_line(&chars("struct Kind")), None);
    assert_eq!(clap_variant_name(&chars("Serve { port: u16 },")).map(|name| text(&name)), Some("Serve".to_string()));
    assert_eq!(clap_variant_name(&chars("port: u16,")), None);
    assert_eq!(text(&variant_to_kebab(&chars("StartDaemonNow"))), "start-daemon-now");
    assert_eq!(text(&variant_to_kebab(&chars("run_job"))), "run_job");
}

const ROUTER_SOURCE: &str = r#"
pub fn router() -> Router {
    Router::new()
        .route("/devql", post(handler))
        .route(
            "/devql/playground",
            get(playground),
        )
        .route("/health", get(health))
}
"#;

#[test]
fn http_routes_are_read_from_router_source() {
    let routes = extract_axum_route_paths(ROUTER_SOURCE).to_vec();
    assert_eq!(
        routes,
        vec!["/devql".to_string(), "/devql/playground".to_string(), "/health".to_string()]
    );

    assert_eq!(first_string_literal(&chars(r#"get("/a", "/b")"#)), Some("/a".to_string()));
    assert_eq!(first_string_literal(&chars(r#"say("open"#)), None);

    assert!(is_primary_http_route("/devql"));
    assert!(is_primary_http_route("/api/v1/users/"));
    assert!(!is_primary_http_route("/"));
    assert!(!is_primary_http_route("devql"));
    assert!(!is_primary_http_route("/devql/playground"));
    assert!(!is_primary_http_route("/api/ws"));
    assert!(!is_primary_http_route("/a/b/c/d"));
    assert!(is_primary_http_route("/a/b/c/{id}"));
    assert!(is_primary_http_route("/a/b/c/:id"));
}
