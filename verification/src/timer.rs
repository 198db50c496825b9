use vstd::arithmetic::div_mod::lemma_div_denominator;
use vstd::arithmetic::div_mod::lemma_div_is_ordered;
use vstd::prelude::*;

use crate::sat_add;
use crate::Source;
use crate::TimerError;
use crate::Tracker;

verus! {

/// A single start/stop clock: one `Source`, one `Tracker`, and the source
/// reading captured at the most recent `start` (`None` while idle).
///
/// `stop` feeds the elapsed interval to the tracker; queries fold the
/// in-flight interval of a running timer into the answer without stopping
/// it and without mutating anything.
pub struct Timer<T: Tracker, S: Source> {
    tracker: T,
    source: S,
    last: Option<u64>,
}

impl<T: Tracker, S: Source> Timer<T, S> {
    /// Well-formedness: while running, the reading captured at `start` is no
    /// later than the latest reading the source has handed out, so elapsed
    /// time never goes negative. Constructors establish this and every
    /// method preserves it.
    pub open spec fn wf(&self) -> bool {
        self.running() ==> self.started_at() <= self.clock()
    }

    /// The tracker in its current state.
    pub closed spec fn tracker_model(&self) -> T {
        self.tracker
    }

    /// Whether the timer is currently running.
    pub closed spec fn running(&self) -> bool {
        self.last is Some
    }

    /// The source reading captured at the most recent `start`; meaningful
    /// only while the timer is running.
    pub closed spec fn started_at(&self) -> u64 {
        match self.last {
            Some(t0) => t0,
            None => 0,
        }
    }

    /// The latest reading the timer's source has handed out: a lower bound
    /// on every future reading.
    pub closed spec fn clock(&self) -> u64 {
        self.source.floor()
    }

    /// The nanoseconds accumulated from completed intervals.
    pub open spec fn total(&self) -> u64 {
        self.tracker_model().total()
    }

    /// What a statistics query answers for a given in-flight duration.
    pub open spec fn stats_model(&self, partial_time: Option<u64>) -> T::Statistics {
        self.tracker_model().stats_model(partial_time)
    }

    /// Create a new Timer: idle, with nothing accumulated.
    pub fn new() -> (t: Self)
        ensures
            t.wf(),
            !t.running(),
            t.total() == 0,
    {
        Timer { tracker: T::empty(), source: S::new(), last: None }
    }

    /// Create an idle Timer that draws its time from the given source.
    pub fn with_source(source: S) -> (t: Self)
        ensures
            t.wf(),
            !t.running(),
            t.total() == 0,
            t.clock() == source.floor(),
    {
        Timer { tracker: T::empty(), source, last: None }
    }

    /// Start timing. Fails, changing nothing, if the timer is already
    /// running; otherwise the timer runs from a fresh source reading.
    pub fn start(&mut self) -> (r: Result<(), TimerError>)
        requires
            old(self).wf(),
        ensures
            final(self).wf(),
            old(self).running() ==> r == Err::<(), TimerError>(TimerError::StartWhileRunning),
            old(self).running() ==> *final(self) == *old(self),
            !old(self).running() ==> r == Ok::<(), TimerError>(()),
            !old(self).running() ==> final(self).running(),
            !old(self).running() ==> final(self).started_at() == final(self).clock(),
            !old(self).running() ==> old(self).clock() <= final(self).clock(),
            final(self).tracker_model() == old(self).tracker_model(),
    {
        if self.last.is_some() {
            return Err(TimerError::StartWhileRunning);
        }
        let now = self.source.get_time();
        self.last = Some(now);
        Ok(())
    }

    /// Stop timing and record the interval since `start` with the tracker.
    /// Fails, changing nothing, if the timer is not currently running.
    pub fn stop(&mut self) -> (r: Result<(), TimerError>)
        requires
            old(self).wf(),
        ensures
            final(self).wf(),
            !old(self).running() ==> r == Err::<(), TimerError>(TimerError::StopWhileIdle),
            !old(self).running() ==> *final(self) == *old(self),
            old(self).running() ==> r == Ok::<(), TimerError>(()),
            old(self).running() ==> !final(self).running(),
            old(self).running() ==> old(self).clock() <= final(self).clock(),
            old(self).running() ==> final(self).total() == sat_add(
                old(self).total(),
                (final(self).clock() - old(self).started_at()) as u64,
            ),
    {
        match self.last {
            None => Err(TimerError::StopWhileIdle),
            Some(t0) => {
                let now = self.source.get_time();
                self.tracker.record(now - t0);
                self.last = None;
                Ok(())
            },
        }
    }

    /// Accumulated statistics; for a running timer the in-flight interval is
    /// folded in as if it had just been recorded. Never mutates the timer.
    pub fn get_stats(&self) -> (s: T::Statistics)
        requires
            self.wf(),
        ensures
            !self.running() ==> s == self.stats_model(None),
            self.running() ==> (exists|p: u64|
                self.clock() - self.started_at() <= p && s == self.stats_model(Some(p))),
    {
        match self.last {
            Some(t0) => {
                let p = self.source.peek_time() - t0;
                let s = self.tracker.get_stats(Some(p));
                proof {
                    assert(self.clock() - self.started_at() <= p && s == self.stats_model(
                        Some(p),
                    ));
                }
                s
            },
            None => self.tracker.get_stats(None),
        }
    }

    /// The elapsed time in nanoseconds. For an idle timer this is exactly
    /// the accumulated total; for a running one the in-flight interval is
    /// folded in as well, so the answer is never below the total.
    pub fn num_nanoseconds(&self) -> (r: u64)
        requires
            self.wf(),
        ensures
            !self.running() ==> r == self.total(),
            self.running() ==> sat_add(self.total(), (self.clock() - self.started_at()) as u64)
                <= r,
            self.total() <= r,
    {
        let partial = match self.last {
            Some(t0) => Some(self.source.peek_time() - t0),
            None => None,
        };
        self.tracker.get(partial)
    }

    /// The elapsed time in microseconds: nanoseconds divided by a thousand,
    /// truncating.
    pub fn num_microseconds(&self) -> (r: u64)
        requires
            self.wf(),
        ensures
            !self.running() ==> r == self.total() / 1000,
            self.total() / 1000 <= r,
    {
        let ns = self.num_nanoseconds();
        proof {
            lemma_div_is_ordered(self.total() as int, ns as int, 1000);
        }
        ns / 1000
    }

    /// The elapsed time in milliseconds, truncating.
    pub fn num_milliseconds(&self) -> (r: u64)
        requires
            self.wf(),
        ensures
            !self.running() ==> r == self.total() / 1_000_000,
            self.total() / 1_000_000 <= r,
    {
        let ns = self.num_nanoseconds();
        proof {
            lemma_div_is_ordered(self.total() as int, ns as int, 1_000_000);
        }
        ns / 1_000_000
    }

    /// The elapsed time in seconds, truncating.
    pub fn num_seconds(&self) -> (r: u64)
        requires
            self.wf(),
        ensures
            !self.running() ==> r == self.total() / 1_000_000_000,
            self.total() / 1_000_000_000 <= r,
    {
        let ns = self.num_nanoseconds();
        proof {
            lemma_div_is_ordered(self.total() as int, ns as int, 1_000_000_000);
        }
        ns / 1_000_000_000
    }

    /// The elapsed time in minutes, truncating.
    pub fn num_minutes(&self) -> (r: u64)
        requires
            self.wf(),
        ensures
            !self.running() ==> r == self.total() / 60_000_000_000,
            self.total() / 60_000_000_000 <= r,
    {
        let ns = self.num_nanoseconds();
        proof {
            lemma_div_is_ordered(self.total() as int, ns as int, 60_000_000_000);
        }
        ns / 60_000_000_000
    }

    /// The elapsed time in hours, truncating.
    pub fn num_hours(&self) -> (r: u64)
        requires
            self.wf(),
        ensures
            !self.running() ==> r == self.total() / 3_600_000_000_000,
            self.total() / 3_600_000_000_000 <= r,
    {
        let ns = self.num_nanoseconds();
        proof {
            lemma_div_is_ordered(self.total() as int, ns as int, 3_600_000_000_000);
        }
        ns / 3_600_000_000_000
    }
}

/// The total a timer reports after replaying a sequence of start/stop pairs
/// on top of an initial total: each pair contributes the difference between
/// its stop reading and its start reading, accumulated with saturation, as
/// `Timer::stop`'s contract states for a single pair.
pub open spec fn run_total(init: u64, pairs: Seq<(u64, u64)>) -> u64
    decreases pairs.len(),
{
    if pairs.len() == 0 {
        init
    } else {
        run_total(sat_add(init, (pairs[0].1 - pairs[0].0) as u64), pairs.drop_first())
    }
}

/// The exact mathematical sum of the per-pair differences, without
/// saturation.
pub open spec fn sum_elapsed(pairs: Seq<(u64, u64)>) -> int
    decreases pairs.len(),
{
    if pairs.len() == 0 {
        0
    } else {
        pairs[0].1 - pairs[0].0 + sum_elapsed(pairs.drop_first())
    }
}

/// For any sequence of start/stop pairs whose stop reading is no earlier
/// than its start reading — which a monotonic source guarantees — the
/// reported total never decreases as pairs are replayed, and while the sum
/// stays within `u64`, it is exactly the initial total plus the sum of the
/// per-pair elapsed times.
pub proof fn lemma_run_total(init: u64, pairs: Seq<(u64, u64)>)
    requires
        forall|i: int| 0 <= i < pairs.len() ==> (#[trigger] pairs[i]).0 <= pairs[i].1,
    ensures
        init <= run_total(init, pairs),
        0 <= sum_elapsed(pairs),
        init + sum_elapsed(pairs) <= u64::MAX ==> run_total(init, pairs) == init + sum_elapsed(
            pairs,
        ),
    decreases pairs.len(),
{
    if pairs.len() > 0 {
        let next = sat_add(init, (pairs[0].1 - pairs[0].0) as u64);
        assert(forall|i: int|
            0 <= i < pairs.drop_first().len() ==> (#[trigger] pairs.drop_first()[i]).0
                == pairs[i + 1].0 && pairs.drop_first()[i].1 == pairs[i + 1].1);
        lemma_run_total(next, pairs.drop_first());
    }
}

/// Read queries are repeatable: what an idle timer's statistics query
/// answers is a function of the timer's state alone, so two queries with no
/// start, stop or record between them answer the same value. (The queries
/// take `&self`, so they cannot change that state themselves.)
pub proof fn lemma_idle_query_repeatable<T: Tracker, S: Source>(
    t: Timer<T, S>,
    s1: T::Statistics,
    s2: T::Statistics,
)
    requires
        !t.running(),
        s1 == t.stats_model(None),
        s2 == t.stats_model(None),
    ensures
        s1 == s2,
{
}

/// The unit conversions factor through one another, with truncating
/// division at every step: milliseconds are microseconds over a thousand,
/// seconds are milliseconds over a thousand, minutes are seconds over
/// sixty, and hours are minutes over sixty.
pub proof fn lemma_unit_ratios(ns: u64)
    ensures
        ns / 1_000_000 == (ns / 1000) / 1000,
        ns / 1_000_000_000 == (ns / 1_000_000) / 1000,
        ns / 60_000_000_000 == (ns / 1_000_000_000) / 60,
        ns / 3_600_000_000_000 == (ns / 60_000_000_000) / 60,
{
    lemma_div_denominator(ns as int, 1000, 1000);
    lemma_div_denominator(ns as int, 1_000_000, 1000);
    lemma_div_denominator(ns as int, 1_000_000_000, 60);
    lemma_div_denominator(ns as int, 60_000_000_000, 60);
}

} // verus!
