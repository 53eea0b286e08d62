//! Renders the chain of reasons that led a build system to include a module.
//!
//! A module graph is loaded into a [`graph::BuildResult`]; the renderer walks
//! the "reason" edges depth-first from a queried root module, detecting cycles
//! against the current root-to-node path, and produces one line of text per
//! visited module or boundary.

pub mod graph;
pub mod laws;
pub mod render;
pub mod text;
