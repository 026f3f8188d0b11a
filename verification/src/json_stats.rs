//! The results of past runs, as they are kept from one run to the next.

use crate::stats::Summary;
use vstd::prelude::*;

verus! {

/// The result of one run. Times are whole nanoseconds.
#[derive(Debug, Clone, PartialEq, Eq)]
pub struct Stats {
    pub benchmark_name: String,
    /// The server that was asked, as address, `#`, port.
    pub dns_server: String,
    pub n_samples: usize,
    pub concurrency: usize,
    pub median_ns: u64,
    pub mean_ns: u64,
    pub stddev_ns: u64,
    pub min_ns: u64,
    pub max_ns: u64,
}

impl Stats {
    /// The record of a run named `benchmark_name` against `dns_server` with
    /// at most `concurrency` queries in flight, whose statistics are
    /// `summary`.
    pub fn from_summary(
        benchmark_name: String,
        dns_server: String,
        concurrency: usize,
        summary: &Summary,
    ) -> (r: Stats)
        ensures
            r.benchmark_name == benchmark_name,
            r.dns_server == dns_server,
            r.concurrency == concurrency,
            r.n_samples == summary.n_samples,
            r.median_ns == summary.median_ns,
            r.mean_ns == summary.mean_ns,
            r.stddev_ns == summary.stddev_ns,
            r.min_ns == summary.min_ns,
            r.max_ns == summary.max_ns,
    {
        Stats {
            benchmark_name,
            dns_server,
            n_samples: summary.n_samples,
            concurrency,
            median_ns: summary.median_ns,
            mean_ns: summary.mean_ns,
            stddev_ns: summary.stddev_ns,
            min_ns: summary.min_ns,
            max_ns: summary.max_ns,
        }
    }
}

/// The results of all runs that were kept, oldest first.
#[derive(Debug, Clone, PartialEq, Eq)]
pub struct StatsSet {
    pub stats: Vec<Stats>,
}

impl Default for StatsSet {
    /// No results.
    fn default() -> (r: Self)
        ensures
            r.stats@.len() == 0,
    {
        StatsSet { stats: Vec::new() }
    }
}

impl StatsSet {
    /// The results with `stats` added as the newest.
    #[must_use]
    pub fn push(self, stats: Stats) -> (r: Self)
        ensures
            r.stats@ == self.stats@.push(stats),
    {
        let mut set = self;
        set.stats.push(stats);
        set
    }
}

} // verus!
