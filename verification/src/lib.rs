//! Fork-aware bookkeeping of transaction-pool views.
//!
//! A node keeps one pool view per known fork head. This crate holds the
//! decisions around those views: which view a new one is seeded from, which
//! views a new head retires, what finalization prunes and reports, and how the
//! answers of a fan-out over all active views are put together. Everything here
//! is synchronous and works on plain values; awaiting the views, the chain and the
//! listener is left to the caller.

pub mod block_map;
pub mod convert;
pub mod finalization;
pub mod hash;
pub mod messages;
pub mod store;
pub mod store_laws;
pub mod submission;
pub mod tree_route;
