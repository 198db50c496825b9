use vstd::prelude::*;

use crate::Source;

verus! {

/// Declares `std::time::Instant` so that `RealTime` can hold the instant it
/// was constructed at. The value is opaque; only the trusted readers below
/// look inside it.
#[verifier::external_type_specification]
#[verifier::external_body]
pub struct ExInstant(std::time::Instant);

/// Relies on `std::time::Instant::now` to capture the construction instant
/// that `RealTime` measures from.
#[verifier::external_body]
fn instant_now() -> std::time::Instant {
    std::time::Instant::now()
}

/// Relies on `std::time::Instant::elapsed` for the wall-clock nanoseconds
/// since `start`. Nothing is assumed of the reading; the callers clamp it to
/// keep their readings non-decreasing. Beyond `u64::MAX` nanoseconds (over
/// five centuries) the reading stays at `u64::MAX`.
#[verifier::external_body]
fn instant_elapsed_ns(start: &std::time::Instant) -> u64 {
    u64::try_from(start.elapsed().as_nanos()).unwrap_or(u64::MAX)
}

/// Relies on `cpu_time::ProcessTime::now`: `as_duration` of a fresh reading
/// is the total CPU time the process has consumed so far. Nothing is assumed
/// of the reading; the callers clamp it to keep their readings
/// non-decreasing. Beyond `u64::MAX` nanoseconds the reading stays at
/// `u64::MAX`.
#[verifier::external_body]
fn process_cpu_ns() -> u64 {
    u64::try_from(cpu_time::ProcessTime::now().as_duration().as_nanos()).unwrap_or(u64::MAX)
}

/// Relies on `cpu_time::ThreadTime::now`: `as_duration` of a fresh reading
/// is the total CPU time the current thread has consumed so far. Nothing is
/// assumed of the reading; the callers clamp it to keep their readings
/// non-decreasing. Beyond `u64::MAX` nanoseconds the reading stays at
/// `u64::MAX`.
#[verifier::external_body]
fn thread_cpu_ns() -> u64 {
    u64::try_from(cpu_time::ThreadTime::now().as_duration().as_nanos()).unwrap_or(u64::MAX)
}

/// The larger of a raw clock reading and the latest reading already handed
/// out, so that a source's readings never decrease even if the underlying
/// clock misbehaves.
fn clamped(raw: u64, last: u64) -> (t: u64)
    ensures
        last <= t,
        raw <= t,
        t == raw || t == last,
{
    if raw >= last {
        raw
    } else {
        last
    }
}

/// Wall-clock time, measured from the instant the source was constructed.
pub struct RealTime {
    start: std::time::Instant,
    last: u64,
}

impl Default for RealTime {
    fn default() -> Self {
        RealTime { start: instant_now(), last: 0 }
    }
}

impl Source for RealTime {
    closed spec fn floor(&self) -> u64 {
        self.last
    }

    fn new() -> Self {
        RealTime { start: instant_now(), last: 0 }
    }

    fn get_time(&mut self) -> (t: u64) {
        let t = clamped(instant_elapsed_ns(&self.start), self.last);
        self.last = t;
        t
    }

    fn peek_time(&self) -> (t: u64) {
        clamped(instant_elapsed_ns(&self.start), self.last)
    }
}

/// CPU time consumed by the whole process, from the process CPU clock.
pub struct ProcessTime {
    last: u64,
}

impl Default for ProcessTime {
    fn default() -> Self {
        ProcessTime { last: 0 }
    }
}

impl Source for ProcessTime {
    closed spec fn floor(&self) -> u64 {
        self.last
    }

    fn new() -> Self {
        ProcessTime { last: 0 }
    }

    fn get_time(&mut self) -> (t: u64) {
        let t = clamped(process_cpu_ns(), self.last);
        self.last = t;
        t
    }

    fn peek_time(&self) -> (t: u64) {
        clamped(process_cpu_ns(), self.last)
    }
}

/// CPU time consumed by the current thread, from the thread CPU clock.
pub struct ThreadTime {
    last: u64,
}

impl Default for ThreadTime {
    fn default() -> Self {
        ThreadTime { last: 0 }
    }
}

impl Source for ThreadTime {
    closed spec fn floor(&self) -> u64 {
        self.last
    }

    fn new() -> Self {
        ThreadTime { last: 0 }
    }

    fn get_time(&mut self) -> (t: u64) {
        let t = clamped(thread_cpu_ns(), self.last);
        self.last = t;
        t
    }

    fn peek_time(&self) -> (t: u64) {
        clamped(thread_cpu_ns(), self.last)
    }
}

/// A deterministic source for tests and examples: every `get_time` reading
/// advances the clock by a fixed number of nanoseconds.
pub struct StepTime {
    now: u64,
    step: u64,
}

impl StepTime {
    /// A clock that reads `start + step` first and `step` more on each
    /// further `get_time`.
    pub fn with(start: u64, step: u64) -> (s: Self)
        ensures
            s.floor() == start,
    {
        StepTime { now: start, step }
    }
}

impl Source for StepTime {
    closed spec fn floor(&self) -> u64 {
        self.now
    }

    fn new() -> Self {
        StepTime { now: 0, step: 1 }
    }

    fn get_time(&mut self) -> (t: u64) {
        self.now = self.now.saturating_add(self.step);
        self.now
    }

    fn peek_time(&self) -> (t: u64) {
        self.now
    }
}

} // verus!
