//! Timekeeper is a simple library to track the amount of time used by
//! different parts of a program.
//!
//! Elapsed time is measured in integer nanoseconds drawn from a [`Source`]
//! (a monotonically non-decreasing clock) and accumulated by a [`Tracker`].
//! A [`Timer`] pairs one source with one tracker; a [`TimerSet`] multiplexes
//! many named trackers over one shared source, with at most one key active
//! at any moment.
//!
//! Misuse of a timer (starting one that already runs, stopping one that is
//! idle) is reported through an explicit [`TimerError`] value rather than by
//! aborting, so a long-running program can recover from it.

use vstd::prelude::*;

mod simpletimer;
mod simpletracker;
mod source;
mod timer;
mod timerset;

pub use simpletimer::SimpleTimer;
pub use simpletracker::SimpleTracker;
pub use source::ProcessTime;
pub use source::RealTime;
pub use source::StepTime;
pub use source::ThreadTime;
pub use timer::lemma_idle_query_repeatable;
pub use timer::lemma_run_total;
pub use timer::lemma_unit_ratios;
pub use timer::run_total;
pub use timer::sum_elapsed;
pub use timer::Timer;
pub use timerset::TimerKey;
pub use timerset::TimerSet;

verus! {

/// The two ways a timer can be misused, reported as values so that the
/// caller can recover.
#[derive(Clone, Copy, Debug, PartialEq, Eq, Structural)]
pub enum TimerError {
    /// The timer (or the named key) was already running when `start` was called.
    StartWhileRunning,
    /// The timer was idle when `stop` was called.
    StopWhileIdle,
}

/// Nanosecond totals accumulate with saturation: once a total would pass
/// `u64::MAX` it stays there instead of wrapping.
pub open spec fn sat_add(a: u64, b: u64) -> u64 {
    if a + b > u64::MAX {
        u64::MAX
    } else {
        (a + b) as u64
    }
}

/// A tracker's answer to a query: its accumulated total, with an optional
/// in-flight partial duration folded in as if it had just been recorded.
pub open spec fn with_partial(total: u64, partial_time: Option<u64>) -> u64 {
    match partial_time {
        Some(p) => sat_add(total, p),
        None => total,
    }
}

/// A `Tracker` accumulates completed durations, in nanoseconds, and answers
/// point-in-time statistics queries without being mutated by them.
pub trait Tracker: Sized {
    /// What a statistics query returns. The canonical accumulator answers
    /// with its plain nanosecond total; richer accumulators may answer with
    /// more.
    type Statistics;

    /// The nanoseconds accumulated so far from completed intervals.
    spec fn total(&self) -> u64;

    /// What `get_stats` answers for a given in-flight partial duration; a
    /// function of the tracker's state alone, so queries are repeatable.
    spec fn stats_model(&self, partial_time: Option<u64>) -> Self::Statistics;

    /// A fresh tracker with nothing accumulated.
    fn empty() -> (t: Self)
        ensures
            t.total() == 0,
    ;

    /// Add a completed interval to the accumulator. Never fails; the total
    /// saturates at `u64::MAX`.
    fn record(&mut self, time: u64)
        ensures
            final(self).total() == sat_add(old(self).total(), time),
    ;

    /// Accumulated statistics, optionally with an in-flight duration folded
    /// in as if it had just been recorded, without mutating the accumulator.
    fn get_stats(&self, partial_time: Option<u64>) -> (s: Self::Statistics)
        ensures
            s == self.stats_model(partial_time),
    ;

    /// The nanosecond total, optionally with an in-flight duration folded in.
    fn get(&self, partial_time: Option<u64>) -> (r: u64)
        ensures
            r == with_partial(self.total(), partial_time),
    ;
}

/// A `Source` supplies the current time as nanoseconds since an
/// implementation-defined epoch, and never goes backwards: every reading is
/// at least `floor()`, the latest reading already handed out.
pub trait Source: Sized {
    /// A lower bound on every future reading of this source.
    spec fn floor(&self) -> u64;

    /// A fresh source. Its epoch, and hence its first reading, is
    /// implementation-defined.
    fn new() -> Self;

    /// Read the clock and remember the reading as the new lower bound.
    fn get_time(&mut self) -> (t: u64)
        ensures
            old(self).floor() <= t,
            final(self).floor() == t,
    ;

    /// Read the clock without remembering the reading.
    fn peek_time(&self) -> (t: u64)
        ensures
            self.floor() <= t,
    ;
}

} // verus!
