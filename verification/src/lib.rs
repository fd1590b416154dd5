//! A lifecycle engine for staking pools and auctions on a block-height clock.
//!
//! Pools and auctions are created with a window of block heights, scheduled in
//! an index of expiry heights, and settled when the scheduler reaches their
//! height. Every operation is a transaction on one explicit state value.

pub mod allocator;
pub mod bid;
pub mod book;
pub mod currency;
pub mod engine;
pub mod expiry;
pub mod id_map;
pub mod ledger;
pub mod stake;
pub mod registry;
pub mod types;
