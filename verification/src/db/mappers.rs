//! Operations on the tables of the store, one module per table.

pub mod blocks_microblocks;
pub mod unique_address;
pub mod balance_history;
pub mod safe_heights;
pub mod unique_assets;
pub mod balance_history_max_uids_per_height;
pub mod distribution_task;
pub mod asset_distribution;
