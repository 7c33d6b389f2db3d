//! Renames packages of a workspace and rewrites every local dependency on them,
//! editing each manifest in place so that untouched text keeps its formatting.
pub mod manifest;
pub mod rename_map;
pub mod deps;
pub mod summary;
