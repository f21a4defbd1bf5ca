//! Shared value types: mirrors and benchmark results.

use vstd::prelude::*;

verus! {

/// A reserved latency marking a probe that failed or timed out.  It is never
/// a real measurement and sorts after every measured latency.
pub const SENTINEL_UNREACHABLE: u64 = u64::MAX;

/// A named, URL-addressable alternative source for a package manager's
/// downloads.  A mirror is a plain value: it has no identity beyond its
/// `(name, url)` pair.
#[derive(Debug)]
pub struct Mirror {
    /// Display label, unique within one tool's candidate list.
    pub name: String,
    /// Fully qualified access URL; may carry a tool-specific scheme prefix
    /// such as `sparse+`.
    pub url: String,
}

impl Mirror {
    /// A mirror presented to a prober or writer must carry a non-empty URL.
    pub open spec fn wf(self) -> bool {
        self.url@.len() > 0
    }

    pub fn new(name: &str, url: &str) -> (m: Mirror)
        ensures
            m.name@ == name@,
            m.url@ == url@,
    {
        Mirror { name: name.to_owned(), url: url.to_owned() }
    }
}

impl Clone for Mirror {
    fn clone(&self) -> (m: Mirror)
        ensures
            m.name@ == self.name@,
            m.url@ == self.url@,
    {
        Mirror { name: self.name.clone(), url: self.url.clone() }
    }
}

/// The outcome of one latency measurement for one mirror.
#[derive(Debug)]
pub struct BenchmarkResult {
    pub mirror: Mirror,
    /// Latency in milliseconds, or [`SENTINEL_UNREACHABLE`] when the probe
    /// failed.
    pub latency_ms: u64,
}

} // verus!
