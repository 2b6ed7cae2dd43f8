//! A quest/rewards backend library: creating admin-defined quest tasks,
//! ranking a leaderboard over time windows, serving NFT metadata, and
//! deciding on-chain borrow verification. The surrounding application does
//! the I/O — database queries, chain calls, HTTP — and hands this library
//! plain values; everything decided here is stated in contracts and
//! verified.

pub mod errors;
pub mod leaderboard;
pub mod metadata;
pub mod tasks;
pub mod verify_borrow;
