//! Settings of the service.

use crate::api::config::Config;
use vstd::prelude::*;

verus! {

#[derive(Debug)]
pub struct Settings {
    pub config: Config,
}

impl Settings {
    pub fn init(config: Config) -> (r: Self)
        ensures
            r.config == config,
    {
        Settings { config }
    }
}

} // verus!
