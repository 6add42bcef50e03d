pub mod hashing;
pub mod model;
pub mod order;
pub mod big_digits;
pub mod text;
pub mod facts;
pub mod fact_order;
pub mod target_sort;
pub mod fact_extraction;
pub mod test_harness;
pub mod request;
pub mod classifier;
pub mod seed_evidence;
pub mod contracts;
pub mod queue_store;
pub mod health;
pub mod registration;
pub mod unknown_policy;
pub mod assoc;
pub mod adjacency;
pub mod paths;
pub mod parsing;
pub mod entry_points;
pub mod json;
pub mod ingesters;
pub mod candidate_roles;
pub mod rule_mining;
pub mod rule_clusters;
pub mod adjudication_selector;
pub mod json_doc;
pub mod toml_manifest;
pub mod manifests;
pub mod graph_kinds;
pub mod orchestrator;
pub mod adjudication_run;
pub mod evidence_packet;
pub mod rule_preview;
pub mod proposal_dispatch;
pub mod assignment_applier;
pub mod decimal;
pub mod rules;
pub mod rule_order_law;
pub mod aggregation;
pub mod reconcile_metrics;
pub mod assignment_merge;
pub mod role_reconcile;
pub mod role_reconcile_run;
