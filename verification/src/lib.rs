//! Audit a workspace's resolved dependency graph against a Rust version.
//!
//! The library holds the analysis: version handling, compatibility
//! classification, dependency paths, candidate selection, resolution diffs,
//! blocker classification, package identity labels and report rendering.
pub mod cli;
pub mod compat;
pub mod error;
pub mod explain;
pub mod graph;
pub mod identity;
pub mod index;
pub mod manifest_edit;
pub mod metadata;
pub mod model;
pub mod paths;
pub mod report;
pub mod resolution;
pub mod sort;
pub mod text;
pub mod toml;
pub mod version;
