//! The analyzers that consume the update stream.

pub mod balance_updates;
pub mod blocks;
