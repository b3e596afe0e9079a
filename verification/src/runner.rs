//! Command runner abstractions.  The engine only selects command
//! strings; executing them is the caller's business, behind this trait.

use crate::Error;
use vstd::prelude::*;

verus! {

/// How to execute the command string of a selected action.
pub trait CommandRunner {
    fn run(&self, command: &str) -> Result<(), Error>;
}

/// A runner that executes nothing and reports the gap.
pub struct NoopRunner;

impl CommandRunner for NoopRunner {
    /// Executes nothing, whatever the command: always the gap report.
    fn run(&self, _command: &str) -> (r: Result<(), Error>)
        ensures
            r matches Err(e) && e is Unimplemented,
    {
        Err(Error::Unimplemented)
    }
}

impl NoopRunner {
    /// Helper constructor for the noop runner.
    pub fn new() -> NoopRunner {
        NoopRunner
    }
}

} // verus!
