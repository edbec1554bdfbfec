//! The R2 binding: keys, the overlay of a branched binding, and its command.

pub mod r2_branch;
pub mod r2_cli;
pub mod r2_overlay;
