//! Directory integrity auditing: content digests per file, a manifest that records them, and
//! the reconciliation of a fresh directory listing against a manifest.
pub mod console_text_formatter;
pub mod constants;
pub mod dd_file_rw;
pub mod directory_snapshot;
pub mod directory_walker;
pub mod engine;
pub mod engine_checks;
pub mod file_metadata;
pub mod file_st;
pub mod hash;
pub mod hash_calc_planner;
pub mod hash_def;
pub mod path_helper;
pub mod reconcile;
pub mod text;
