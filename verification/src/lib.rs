//! Resolution engine for declared link graphs between workspaces of a
//! monorepo: path algebra, the workspace registry, the transitive link
//! resolver with cycle detection, and the materialization planner.

pub mod config_patch;
pub mod paths;
pub mod plan;
pub mod project;
pub mod project_directory;
pub mod resolver;
