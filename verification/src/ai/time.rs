//! Signals that tell a running search to stop.
use vstd::prelude::*;

use core::sync::atomic::{AtomicBool, AtomicU64, Ordering};

verus! {

/// Asked by the search, every so many nodes, whether to stop.
pub trait StopSignal {
    /// Whether this signal never asks to stop.
    spec fn never_stops(&self) -> bool;

    /// Whether the search should stop now; a signal that never stops
    /// answers no.
    fn should_stop(&self) -> (r: bool)
        ensures
            self.never_stops() ==> !r;
}

/// Never asks to stop.
#[derive(Debug, Default, Clone, Copy)]
pub struct NeverStop;

impl StopSignal for NeverStop {
    open spec fn never_stops(&self) -> bool {
        true
    }

    fn should_stop(&self) -> (r: bool)
        ensures
            !r,
    {
        false
    }
}

/// A flag another thread can raise.
#[derive(Debug, Default)]
pub struct AtomicStop {
    flag: AtomicBool,
}

impl AtomicStop {
    /// A lowered flag.
    pub fn new() -> (r: AtomicStop) {
        AtomicStop { flag: AtomicBool::new(false) }
    }

    /// Raises the flag.
    pub fn request_stop(&self) {
        self.flag.store(true, Ordering::Relaxed);
    }

    /// Lowers the flag.
    pub fn reset(&self) {
        self.flag.store(false, Ordering::Relaxed);
    }
}

impl StopSignal for AtomicStop {
    open spec fn never_stops(&self) -> bool {
        false
    }

    fn should_stop(&self) -> bool {
        self.flag.load(Ordering::Relaxed)
    }
}

/// Stops once a reported node count reaches a limit.
#[derive(Debug)]
pub struct NodeLimitedStop {
    limit: u64,
    seen: AtomicU64,
}

impl NodeLimitedStop {
    /// The node count at which the search is told to stop.
    pub closed spec fn stop_limit(&self) -> u64 {
        self.limit
    }

    /// Stops at `limit` nodes.
    pub fn new(limit: u64) -> (r: NodeLimitedStop)
        ensures
            r.stop_limit() == limit,
    {
        NodeLimitedStop { limit, seen: AtomicU64::new(0) }
    }

    /// Records the number of nodes searched so far.
    pub fn report(&self, nodes: u64) {
        self.seen.store(nodes, Ordering::Relaxed);
    }

    /// The last reported node count.
    pub fn seen(&self) -> u64 {
        self.seen.load(Ordering::Relaxed)
    }
}

impl StopSignal for NodeLimitedStop {
    open spec fn never_stops(&self) -> bool {
        false
    }

    /// Whether the last reported count has reached the limit; a zero limit
    /// always stops (the count itself is written by another thread).
    fn should_stop(&self) -> (r: bool)
        ensures
            self.stop_limit() == 0 ==> r,
    {
        self.seen.load(Ordering::Relaxed) >= self.limit
    }
}

} // verus!
