//! Configuration of the migration tool, and the action it is asked for.

use crate::config::postgres::PostgresConfig;
use crate::text::owned;
use vstd::prelude::*;

verus! {

pub fn default_pgport() -> (p: u16)
    ensures
        p == 5432,
{
    5432
}

pub fn default_pgpool() -> (n: usize)
    ensures
        n == 4,
{
    4
}

/// The settings as the environment gives them, one value per variable.
#[derive(Clone, Debug)]
pub struct ConfigFlat {
    pub pghost: String,
    pub pgport: u16,
    pub pgdatabase: String,
    pub pguser: String,
    pub pgpassword: String,
    pub pgpoolsize: usize,
    pub pgconnection_timeout: u32,
    pub pgkeepalives_idle: u32,
}

#[derive(Clone, Debug)]
pub struct Config {
    pub postgres: PostgresConfig,
}

/// Orders the flat settings.
pub fn load(config_flat: ConfigFlat) -> (c: Config)
    ensures
        c.postgres == (PostgresConfig {
            host: config_flat.pghost,
            port: config_flat.pgport,
            database: config_flat.pgdatabase,
            user: config_flat.pguser,
            password: config_flat.pgpassword,
            pool_size: config_flat.pgpoolsize,
            connection_timeout: config_flat.pgconnection_timeout,
            keepalives_idle: config_flat.pgkeepalives_idle,
        }),
{
    Config {
        postgres: PostgresConfig {
            host: config_flat.pghost,
            port: config_flat.pgport,
            database: config_flat.pgdatabase,
            user: config_flat.pguser,
            password: config_flat.pgpassword,
            pool_size: config_flat.pgpoolsize,
            connection_timeout: config_flat.pgconnection_timeout,
            keepalives_idle: config_flat.pgkeepalives_idle,
        },
    }
}

/// Direction of a migration.
#[derive(Clone, Copy, Debug, PartialEq, Eq, Structural)]
pub enum Action {
    Up,
    Down,
}

/// An argument that names no action.
#[derive(Debug)]
pub struct Error(pub String);

/// Reads the action from the argument of the command line: `up` or `down`.
pub fn try_into(arg: String) -> (r: Result<Action, Error>)
    ensures
        arg@ == "up"@ ==> r is Ok && r->Ok_0 == Action::Up,
        arg@ == "down"@ ==> r is Ok && r->Ok_0 == Action::Down,
        arg@ != "up"@ && arg@ != "down"@ ==> r is Err && r->Err_0.0@
            == "cannot parse command line arg"@,
{
    proof {
        reveal_strlit("up");
        reveal_strlit("down");
        assert("up"@.len() == 2);
        assert("down"@.len() == 4);
    }
    if arg == owned("up") {
        Ok(Action::Up)
    } else if arg == owned("down") {
        Ok(Action::Down)
    } else {
        Err(Error(owned("cannot parse command line arg")))
    }
}

} // verus!
