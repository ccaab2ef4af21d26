//! Configuration of the service.

use crate::config::postgres::PostgresConfig;
use vstd::prelude::*;

verus! {

pub fn default_metrics_port() -> (p: u16)
    ensures
        p == 9090,
{
    9090
}

/// The settings as the environment gives them, one value per variable.
#[derive(Clone, Debug)]
pub struct ConfigFlat {
    pub port: u16,
    pub metrics_port: u16,
    pub pghost: String,
    pub pgport: u16,
    pub pgdatabase: String,
    pub pguser: String,
    pub pgpassword: String,
    pub pgpoolsize: usize,
    pub pgconnection_timeout: u32,
    pub pgkeepalives_idle: u32,
}

#[derive(Clone, Debug)]
pub struct Config {
    pub postgres: PostgresConfig,
    pub port: u16,
    pub metrics_port: u16,
}

/// Orders the flat settings.
pub fn load(config_flat: ConfigFlat) -> (c: Config)
    ensures
        c.port == config_flat.port,
        c.metrics_port == config_flat.metrics_port,
        c.postgres == (PostgresConfig {
            host: config_flat.pghost,
            port: config_flat.pgport,
            database: config_flat.pgdatabase,
            user: config_flat.pguser,
            password: config_flat.pgpassword,
            pool_size: config_flat.pgpoolsize,
            connection_timeout: config_flat.pgconnection_timeout,
            keepalives_idle: config_flat.pgkeepalives_idle,
        }),
{
    Config {
        port: config_flat.port,
        metrics_port: config_flat.metrics_port,
        postgres: PostgresConfig {
            host: config_flat.pghost,
            port: config_flat.pgport,
            database: config_flat.pgdatabase,
            user: config_flat.pguser,
            password: config_flat.pgpassword,
            pool_size: config_flat.pgpoolsize,
            connection_timeout: config_flat.pgconnection_timeout,
            keepalives_idle: config_flat.pgkeepalives_idle,
        },
    }
}

} // verus!
