//! What the library promises of all inputs, stated of what goes in and what
//! comes out.
//!
//! Each law speaks of a function through its arguments and results. Together
//! the laws of a function leave one result for each argument.
pub mod on_archives;
pub mod on_documents;
pub mod on_files;
pub mod on_git_archives;
pub mod on_lockfiles;
pub mod on_manifests;
pub mod on_paths;
pub mod on_runs;
pub mod on_sources;
pub mod on_text;
pub mod on_versions;
