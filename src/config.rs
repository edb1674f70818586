//! Defaults for splitting, as a configuration file may set them.
use vstd::prelude::*;

verus! {

/// Default settings of the command line.
pub struct Defaults {
    pub threshold: u8,
    pub shares: u8,
    pub format: String,
}

/// The configuration: the defaults section.
pub struct Config {
    pub defaults: Defaults,
}

pub fn default_threshold() -> (r: u8)
    ensures
        r == 3,
{
    3
}

pub fn default_shares() -> (r: u8)
    ensures
        r == 5,
{
    5
}

pub fn default_format() -> (r: String)
    ensures
        r@ == "json"@,
{
    "json".to_owned()
}

impl Default for Defaults {
    fn default() -> (r: Defaults)
        ensures
            r.threshold == 3,
            r.shares == 5,
            r.format@ == "json"@,
    {
        Defaults {
            threshold: default_threshold(),
            shares: default_shares(),
            format: default_format(),
        }
    }
}

impl Default for Config {
    fn default() -> (r: Config)
        ensures
            r.defaults.threshold == 3,
            r.defaults.shares == 5,
            r.defaults.format@ == "json"@,
    {
        Config { defaults: Defaults::default() }
    }
}

} // verus!
