//! Configuration of the consumer.

use crate::config::postgres::PostgresConfig;
use vstd::prelude::*;

verus! {

pub fn default_metrics_port() -> (p: u16)
    ensures
        p == 9090,
{
    9090
}

/// The settings as the environment gives them, one value per variable.
#[derive(Clone, Debug)]
pub struct ConfigFlat {
    pub metrics_port: u16,
    pub pghost: String,
    pub pgport: u16,
    pub pgdatabase: String,
    pub pguser: String,
    pub pgpassword: String,
    pub pgconnection_timeout: u32,
    pub pgkeepalives_idle: u32,
    pub blockchain_updates_url: String,
    pub blockchain_start_height: i32,
}

#[derive(Clone, Debug)]
pub struct Config {
    pub metrics_port: u16,
    pub blockchain_updates_url: String,
    pub blockchain_start_height: i32,
    pub postgres: PostgresConfig,
    pub test_changed: Vec<String>,
}

/// Orders the flat settings; the consumer holds one connection.
pub fn load(config_flat: ConfigFlat) -> (c: Config)
    ensures
        c.metrics_port == config_flat.metrics_port,
        c.blockchain_updates_url == config_flat.blockchain_updates_url,
        c.blockchain_start_height == config_flat.blockchain_start_height,
        c.postgres == (PostgresConfig {
            host: config_flat.pghost,
            port: config_flat.pgport,
            database: config_flat.pgdatabase,
            user: config_flat.pguser,
            password: config_flat.pgpassword,
            pool_size: 1,
            connection_timeout: config_flat.pgconnection_timeout,
            keepalives_idle: config_flat.pgkeepalives_idle,
        }),
        c.test_changed@.len() == 0,
{
    Config {
        metrics_port: config_flat.metrics_port,
        blockchain_updates_url: config_flat.blockchain_updates_url,
        blockchain_start_height: config_flat.blockchain_start_height,
        postgres: PostgresConfig {
            host: config_flat.pghost,
            port: config_flat.pgport,
            database: config_flat.pgdatabase,
            user: config_flat.pguser,
            password: config_flat.pgpassword,
            pool_size: 1,
            connection_timeout: config_flat.pgconnection_timeout,
            keepalives_idle: config_flat.pgkeepalives_idle,
        },
        test_changed: Vec::new(),
    }
}

} // verus!
