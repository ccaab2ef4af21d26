//! Settings of the consumer.

use crate::config::consumer::Config;
use vstd::prelude::*;

verus! {

#[derive(Clone, Debug)]
pub struct Settings {
    pub config: Config,
}

impl Settings {
    pub fn init(config: Config) -> (r: Self)
        ensures
            r.config == config,
    {
        Settings { config }
    }
}

} // verus!
