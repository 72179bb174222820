//! What the `goplus` commands compute between reading and writing files.
pub mod navigate;
pub mod project;
pub mod module;
pub mod source_map;
pub mod map_coverage;
pub mod cache;
pub mod walk;
