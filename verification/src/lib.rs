//! Line-accurate application of unified-diff patches to the files of a
//! project tree.
//!
//! The crate parses multi-file unified-diff text into an ordered set of
//! per-file patches, resolves the header paths against a project root with
//! the conventional `-p1` strip, and applies the hunks of each per-file
//! patch to the old file's text, verifying every context and removed line
//! against the file before producing the new text.  All mismatches surface
//! as typed errors; nothing is applied approximately.

pub mod apply;
pub mod errors;
pub mod laws;
pub mod model;
pub mod parse;
pub mod resolve;
pub mod source;
pub mod text;
