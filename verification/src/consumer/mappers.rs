//! Operations on a plain ledger, for stores whose records have no kind.

pub mod blocks_microblocks;
