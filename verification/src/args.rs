//! The options of the benchmark.

use crate::scheduler::{Config, ConfigError};
use vstd::prelude::*;

verus! {

/// What the user asks for.
#[derive(Debug, Clone, Copy, PartialEq, Eq, Structural)]
pub struct Args {
    /// Whether every answer is printed as it comes.
    pub debug: bool,
    /// The number of queries that may be in flight at once.
    pub concurrency: usize,
    /// The number of domains to take from the list.
    pub num_domains: usize,
}

impl Default for Args {
    /// No debugging, and zero for both numbers.
    fn default() -> (r: Self)
        ensures
            r == (Args { debug: false, concurrency: 0, num_domains: 0 }),
    {
        Args { debug: false, concurrency: 0, num_domains: 0 }
    }
}

impl Args {
    /// The configuration of the run that these options ask for, where the
    /// list holds `available_domains` domains and the run gives up after
    /// `timeout_ms` milliseconds without an answer; or the reason why there
    /// can be no such run.
    pub fn config(&self, available_domains: usize, timeout_ms: u64) -> (r: Result<
        Config,
        ConfigError,
    >)
        ensures
            r == Config::checked(self.num_domains, available_domains, self.concurrency, timeout_ms),
            r matches Ok(config) ==> config.wf(),
    {
        Config::new(self.num_domains, available_domains, self.concurrency, timeout_ms)
    }
}

} // verus!
