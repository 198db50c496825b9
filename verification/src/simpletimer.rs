use vstd::prelude::*;

use crate::sat_add;
use crate::TimerError;

verus! {

/// A self-contained single timer that is handed its clock readings instead
/// of owning a source: `start_at` and `stop_at` take the reading at which
/// the interval begins or ends, and `get` the reading "now". Completed
/// intervals accumulate in nanoseconds, saturating at `u64::MAX`.
pub struct SimpleTimer {
    start: Option<u64>,
    elapsed: u64,
}

impl SimpleTimer {
    /// Whether the timer is currently running.
    pub closed spec fn running(&self) -> bool {
        self.start is Some
    }

    /// The reading handed to the most recent `start_at`; meaningful only
    /// while the timer is running.
    pub closed spec fn started_at(&self) -> u64 {
        match self.start {
            Some(t0) => t0,
            None => 0,
        }
    }

    /// The nanoseconds accumulated from completed intervals.
    pub closed spec fn total(&self) -> u64 {
        self.elapsed
    }

    /// Begin an interval at the given reading. Fails, changing nothing, if
    /// the timer is already running.
    pub fn start_at(&mut self, instant: u64) -> (r: Result<(), TimerError>)
        ensures
            old(self).running() ==> r == Err::<(), TimerError>(TimerError::StartWhileRunning),
            old(self).running() ==> *final(self) == *old(self),
            !old(self).running() ==> r == Ok::<(), TimerError>(()),
            !old(self).running() ==> final(self).running(),
            !old(self).running() ==> final(self).started_at() == instant,
            final(self).total() == old(self).total(),
    {
        if self.start.is_some() {
            return Err(TimerError::StartWhileRunning);
        }
        self.start = Some(instant);
        Ok(())
    }

    /// End the running interval at the given reading, which must be no
    /// earlier than the reading it began at, and accumulate its length.
    /// Fails, changing nothing, if the timer is not currently running.
    pub fn stop_at(&mut self, instant: u64) -> (r: Result<(), TimerError>)
        requires
            old(self).running() ==> old(self).started_at() <= instant,
        ensures
            !old(self).running() ==> r == Err::<(), TimerError>(TimerError::StopWhileIdle),
            !old(self).running() ==> *final(self) == *old(self),
            old(self).running() ==> r == Ok::<(), TimerError>(()),
            old(self).running() ==> !final(self).running(),
            old(self).running() ==> final(self).total() == sat_add(
                old(self).total(),
                (instant - old(self).started_at()) as u64,
            ),
    {
        match self.start {
            None => Err(TimerError::StopWhileIdle),
            Some(t0) => {
                self.elapsed = self.elapsed.saturating_add(instant - t0);
                self.start = None;
                Ok(())
            },
        }
    }

    /// The elapsed nanoseconds as of the given reading: everything
    /// accumulated so far and, if the timer is running, the interval from
    /// its start reading to `now` as well.
    pub fn get(&self, now: u64) -> (r: u64)
        requires
            self.running() ==> self.started_at() <= now,
        ensures
            !self.running() ==> r == self.total(),
            self.running() ==> r == sat_add(self.total(), (now - self.started_at()) as u64),
    {
        match self.start {
            Some(t0) => self.elapsed.saturating_add(now - t0),
            None => self.elapsed,
        }
    }
}

impl Default for SimpleTimer {
    /// A fresh timer: idle, with nothing accumulated.
    fn default() -> (t: Self)
        ensures
            !t.running(),
            t.total() == 0,
    {
        SimpleTimer { start: None, elapsed: 0 }
    }
}

} // verus!
