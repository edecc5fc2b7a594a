//! Compiles versioned report specifications into SQL text over a declared
//! per-workspace schema: schema model, spec validation, field resolution,
//! plan compilation and deterministic rendering.

pub mod agents;
pub mod cards;
pub mod compile;
pub mod field_catalog;
pub mod join_graph;
pub mod laws;
pub mod join_normalize;
pub mod pipeline;
pub mod plan;
pub mod registry;
pub mod render;
pub mod report_spec;
pub mod resolve;
pub mod seqs;
pub mod static_check;
pub mod text;
pub mod validate;
pub mod workspaces;
