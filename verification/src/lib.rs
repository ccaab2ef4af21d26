//! Balance indexer for an account-based ledger: block ledger, balance history,
//! per-height index, distribution snapshots and the point-in-time queries over them.

pub mod api;
pub mod config;
pub mod consumer;
pub mod db;
pub mod text;
pub mod waves;
