//! The decisions behind packaging a local Rust crate as an RPM: which files
//! stand in for the crate's own, which dependency versions a lockfile settles,
//! and which Git archive a spec file names as its source.
//!
//! [`local`] drives a run step by step. It rests on [`manifest`] (the files
//! that a manifest declares), [`lockfile`] (dependency versions; [`doubts`] has
//! those that stay open, [`reordering`] what does not change them), [`source`]
//! and [`git_archive`] (locked Git sources and their archives) and [`archive`]
//! (what an archive holds). [`document`] and [`version`] hold TOML documents
//! and semantic versions as plain values; [`path`], [`file_set`] and [`text`]
//! are the tools below them. [`laws`] states what holds of all of this.
pub mod archive;
pub mod document;
pub mod doubts;
pub mod file_set;
pub mod git_archive;
pub mod laws;
pub mod local;
pub mod lockfile;
pub mod manifest;
pub mod path;
pub mod reordering;
pub mod source;
pub mod text;
pub mod version;
