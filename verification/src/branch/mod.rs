//! Branching one version of a project from another: parent buckets, the
//! checks before a branch, and what each binding answers.

pub mod binding_branch;
pub mod cell_branch;
pub mod d1_branch;
pub mod d1_import;
pub mod kv_blob_branch;
