pub mod addons;
pub mod agent;
pub mod api;
pub mod ascent;
pub mod audit;
pub mod autopilot_feature;
pub mod autopilot_intake;
pub mod autopilot_perf;
pub mod autopilot_pr;
pub mod autopilot_task_dag;
pub mod campaign;
pub mod candidate_state;
pub mod chaos;
pub mod checkpoint;
pub mod checks;
pub mod cli;
pub mod cma;
pub mod compatibility;
pub mod connect;
pub mod convergence;
pub mod crawl;
pub mod criticality;
pub mod cross_repo_workspace;
pub mod dgm;
pub mod engineering_trajectory;
pub mod fields;
pub mod file_tree;
pub mod identities;
pub mod json;
pub mod json_number;
pub mod json_pretty;
pub mod json_round_trip;
pub mod json_text;
pub mod mcp;
pub mod measure;
pub mod order;
pub mod patchset;
pub mod refine_cli;
pub mod schedule;
pub mod sha256;
pub mod step;
pub mod table;
pub mod text;
