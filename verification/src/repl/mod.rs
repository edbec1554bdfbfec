//! The replication tier: what each resident cell has captured, uploaded and
//! shipped, and what the loops that move its log do next.
//!
//! The functions here take what the outside world answered and say what to do
//! with it. Waiting, reading and uploading belong to the caller.

pub mod activate;
pub mod bundle;
pub mod capture;
pub mod cell;
pub mod closing;
pub mod compact;
pub mod config;
pub mod durability;
pub mod evict;
pub mod paths;
pub mod rebuild;
pub mod registry;
pub mod rounds;
pub mod ship;
pub mod sync;
