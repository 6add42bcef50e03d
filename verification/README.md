# architecture_graph

The architecture graph capability pack: it derives architecture facts and
role assignments from a repository's current-state snapshot (files,
artefacts, dependency edges), finds the entry points a repository declares,
and decides which targets are sent to model adjudication.

The library in `src/` is written in Verus. Every executable function carries
a `requires`/`ensures` contract over spec functions and views, and the
properties that span several functions are stated as public proof functions
(`lemma_*`).

Layout of `src/`:

- `text`, `order`, `assoc`, `paths`: strings as character sequences, sorted
  string sets, string-keyed maps, repository-relative paths.
- `hashing`, `json`, `toml_manifest`: the calls into `sha2`, `hex`,
  `serde_json` and `toml_edit`, each behind a small trusted wrapper whose
  contract names or states its result.
- `big_digits`: natural numbers in base-1000 digits, so that confidences
  can be computed exactly and rounded once.
- `model`, `facts`, `fact_order`, `fact_extraction`: role facts extracted
  from the snapshot, in a stable order.
- `test_harness`: the test nodes and the links from production code to the
  tests that verify it.
- `request`, `classifier`, `unknown_policy`, `rule_mining`,
  `adjudication_selector`, `candidate_roles`, `orchestrator`, `queue_store`,
  `contracts`, `evidence_packet`, `seed_evidence`, `assignment_applier`,
  `rule_preview`: role classification scope, the policy for unassigned
  targets, adjudication selection, queueing and provenance.
- `adjacency`, `parsing`, `entry_points`, `json_doc`, `manifests`,
  `graph_kinds`: entry points from Cargo, npm, VS Code, Docusaurus and Python
  manifests, clap subcommands and axum routes; graph node and edge kinds.
- `health`, `registration`, `ingesters`: health checks, pack registration,
  and validation of asserted graph facts.
- `target_sort`, `decimal`, `rules`, `rule_order_law`, `aggregation`,
  `assignment_merge`, `reconcile_metrics`, `role_reconcile`: detection rules
  evaluated over facts grouped in target order, signals aggregated into
  role assignments, merged with the stored ones, and the adjudication
  requests and counts of a classification run.
- `rule_clusters`: rule-mining inputs grouped into clusters by signature.
- `adjudication_run`, `role_reconcile_run`, `proposal_dispatch`: the
  decisions of an adjudication run, of the role current-state consumer and
  of applying a taxonomy proposal, as step functions whose outside work the
  caller performs.

`app/` holds what the verifier does not see: reading repository files,
the clock, turning the evidence packet into JSON bytes, and the drivers
(`app/runs.rs`) that perform the outside work the step functions ask for,
against stores, a queue, a workplane and a model given as traits.

`tests/` exercises the library through its public API.
