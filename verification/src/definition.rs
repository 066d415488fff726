//! Pipeline definitions: validation, selection and Justfile generation.
//!
//! Execution policy is deliberately small: a `Pipelinefile` is passed straight
//! to Just, while YAML is compiled to a temporary Just dependency graph.

pub mod check;
pub mod cycle;
pub mod error;
pub mod graph;
pub mod limits;
pub mod model;
pub mod project;
pub mod render;
pub mod search;
pub mod selection;
pub mod targets;
pub mod validate;
