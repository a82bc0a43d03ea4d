//! Settings that units read when they are loaded or started.

use vstd::prelude::*;
use vstd::string::*;

verus! {

/// The runner's settings, as far as units need them.
#[derive(Debug, PartialEq, Eq)]
pub struct Config {
    working_directory: String,
}

impl Config {
    /// Settings with `working_directory` as the directory in which a unit
    /// runs unless it names one itself.
    pub fn new(working_directory: String) -> (config: Self)
        ensures
            config.spec_working_directory() == working_directory@,
    {
        Config { working_directory }
    }

    pub closed spec fn spec_working_directory(&self) -> Seq<char> {
        self.working_directory@
    }

    pub fn working_directory(&self) -> (directory: &String)
        ensures
            directory@ == self.spec_working_directory(),
    {
        &self.working_directory
    }
}

} // verus!
