use vstd::prelude::*;
use vstd::string::StringExecFns;

verus! {

/// Command-line arguments: the path of the configuration file.
#[derive(Debug, Clone)]
pub struct Args {
    pub config: String,
}

impl Default for Args {
    /// The arguments when none are given: the configuration is read from
    /// `config/config.toml`.
    fn default() -> (args: Args)
        ensures
            args.config@ == "config/config.toml"@,
    {
        Args { config: String::from_str("config/config.toml") }
    }
}

} // verus!
