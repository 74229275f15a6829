//! A scheduler for graphs of planning and execution nodes.

pub mod artifacts;
pub mod attempts;
pub mod checkpoint;
pub mod cli;
pub mod closure;
pub mod dispatch;
pub mod driver;
pub mod effect;
pub mod effect_steps;
pub mod event;
pub mod failure;
pub mod graph;
pub mod handler;
pub mod integration;
pub mod invariants;
pub mod language;
pub mod laws;
pub mod machine;
pub mod manifest;
pub mod mutations;
pub mod node_ids;
pub mod node_runner;
pub mod progress;
pub mod queries;
pub mod recovery;
pub mod search;
pub mod soundness;
pub mod state;
pub mod teams;
pub mod telemetry;
pub mod text;
pub mod triggers;
pub mod types;
pub mod validation;
pub mod validation_plan;
pub mod work_steps;
pub mod workspace_changes;
