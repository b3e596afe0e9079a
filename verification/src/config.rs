//! Configuration model for the toolbox runtime.  Loading is still a
//! placeholder: the engine treats a missing configuration as "no
//! auto-run, confirmations required", which `Default` encodes.

use crate::Error;
use vstd::prelude::*;

verus! {

/// High-level configuration for the toolbox runtime.
#[derive(Debug)]
pub struct Config {
    /// Modules to auto-run once the toolbox starts.
    pub auto_execute: Vec<String>,
    /// Whether to skip confirmation prompts.
    pub skip_confirmation: bool,
    /// Whether to bypass size checks.
    pub size_bypass: bool,
}

impl Default for Config {
    /// No auto-run, confirmations required, size checks on.
    fn default() -> (c: Config)
        ensures
            c.auto_execute@.len() == 0,
            !c.skip_confirmation,
            !c.size_bypass,
    {
        Config { auto_execute: Vec::new(), skip_confirmation: false, size_bypass: false }
    }
}

/// Attempts to load configuration from the text found at a path.  The
/// format is not settled yet, so every request still reports
/// [`Error::Unimplemented`].
pub fn load_config(_path: &str) -> (r: Result<Config, Error>)
    ensures
        r matches Err(e) && e is Unimplemented,
{
    Err(Error::Unimplemented)
}

} // verus!
