//! Decision logic of a cell host: scopes, branch pointers, replica overlays,
//! outbound fetch planning, image transforms, the output gate and the
//! replication tier, each as plain functions over plain values.

pub mod branch;
pub mod cell;
pub mod fetch;
pub mod images;
pub mod json;
pub mod ltx;
pub mod machine;
pub mod output_gate;
pub mod r2;
pub mod repl;
pub mod table;
pub mod text;
