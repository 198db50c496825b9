use vstd::prelude::*;

use crate::sat_add;
use crate::with_partial;
use crate::Tracker;

verus! {

/// The canonical accumulator: a plain running sum of nanoseconds. Its
/// statistics value is that total itself.
pub struct SimpleTracker {
    elapsed: u64,
}

impl Default for SimpleTracker {
    /// A fresh tracker with nothing accumulated.
    fn default() -> (t: Self)
        ensures
            t.total() == 0,
    {
        SimpleTracker { elapsed: 0 }
    }
}

impl Tracker for SimpleTracker {
    type Statistics = u64;

    closed spec fn total(&self) -> u64 {
        self.elapsed
    }

    open spec fn stats_model(&self, partial_time: Option<u64>) -> u64 {
        with_partial(self.total(), partial_time)
    }

    fn empty() -> (t: Self) {
        SimpleTracker { elapsed: 0 }
    }

    fn record(&mut self, time: u64) {
        self.elapsed = self.elapsed.saturating_add(time);
    }

    fn get_stats(&self, partial_time: Option<u64>) -> (s: u64) {
        match partial_time {
            Some(p) => self.elapsed.saturating_add(p),
            None => self.elapsed,
        }
    }

    fn get(&self, partial_time: Option<u64>) -> (r: u64) {
        self.get_stats(partial_time)
    }
}

} // verus!
