//! Configuration of the programs around the store.

pub mod consumer;
pub mod migration;
pub mod postgres;
