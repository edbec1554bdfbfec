//! Log files of a cell: base pointers of branched cells and the overlay of a
//! parent's and a child's files.

pub mod base;
pub mod chained;
pub mod client;
