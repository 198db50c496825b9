use timekeeper::ProcessTime;
use timekeeper::RealTime;
use timekeeper::SimpleTimer;
use timekeeper::SimpleTracker;
use timekeeper::Source;
use timekeeper::StepTime;
use timekeeper::ThreadTime;
use timekeeper::Timer;
use timekeeper::TimerError;
use timekeeper::TimerSet;
use timekeeper::Tracker;

#[test]
fn simpletracker_it_works() {
    let mut tracker = SimpleTracker::default();

    tracker.record(10);
    tracker.record(12);
    tracker.record(0);

    assert_eq!(tracker.get(Some(5)), 27);
    assert_eq!(tracker.get(None), 22);

    tracker.record(18);

    assert_eq!(tracker.get(None), 40);
    assert_eq!(tracker.get_stats(None), 40);
}

#[test]
fn source_it_works() {
    // Sleeping won't work when we're measuring CPU time... The summation
    // runs through black_box so the compiler cannot fold it away, and each
    // term is added a few times over so the burn lasts long enough for the
    // CPU-to-wall comparison below to be stable.
    let do_work = |n: u64| {
        let mut sum: u64 = 0;
        let mut i: u64 = 1;
        while i < n {
            let mut rep: u64 = 0;
            while rep < 64 {
                sum = std::hint::black_box(sum.wrapping_add(i));
                rep += 1;
            }
            i += 1;
        }
        assert!(sum > 0);
    };

    // RealTime should have enough precision to notice even the difference
    // between successive readings with nothing in between.
    let mut source = RealTime::default();
    let t1 = source.get_time();
    let t2 = source.get_time();
    assert!(t2 > t1);

    let mut realtime = RealTime::default();

    // ProcessTime may have lower precision (on the order of microseconds) so we
    // have to do some work to get the difference to be noticable.
    let mut source = ProcessTime::default();
    let r1 = realtime.get_time();
    let t1 = source.get_time();
    do_work(10000000);
    let t2 = source.get_time();
    let r2 = realtime.get_time();
    assert!(t2 > t1);
    let load = (t2 - t1) as f64 / (r2 - r1) as f64;
    assert!(load > 0.9 && load < 1.1);

    // Same test for ThreadTime.
    let mut source = ThreadTime::default();
    let r1 = realtime.get_time();
    let t1 = source.get_time();
    do_work(100000000);
    let t2 = source.get_time();
    let r2 = realtime.get_time();
    assert!(t2 > t1);
    let load = (t2 - t1) as f64 / (r2 - r1) as f64;
    assert!(load > 0.9 && load < 1.1);
}

#[test]
fn timerset_it_works() {
    let mut ts = TimerSet::<i32, SimpleTracker, RealTime>::new();

    let _ = ts.start(1);
    let _ = ts.start(2);
    ts.stop();

    assert!(ts.num_nanoseconds(1).unwrap() > 0);
    assert!(ts.num_nanoseconds(2).unwrap() > 0);
    assert!(ts.num_nanoseconds(3).is_none());
}

#[test]
fn timer_accumulates_pair_differences() {
    // Readings step by exactly 100 ns, so every start/stop pair adds 100.
    let mut t = Timer::<SimpleTracker, StepTime>::with_source(StepTime::with(0, 100));

    assert_eq!(t.num_nanoseconds(), 0);
    assert_eq!(t.start(), Ok(()));
    assert_eq!(t.stop(), Ok(()));
    assert_eq!(t.num_nanoseconds(), 100);

    assert_eq!(t.start(), Ok(()));
    assert_eq!(t.stop(), Ok(()));
    assert_eq!(t.num_nanoseconds(), 200);

    let before = t.num_nanoseconds();
    assert_eq!(t.start(), Ok(()));
    assert_eq!(t.stop(), Ok(()));
    assert!(t.num_nanoseconds() >= before);
}

#[test]
fn timer_misuse_is_reported() {
    let mut t = Timer::<SimpleTracker, StepTime>::new();

    assert_eq!(t.stop(), Err(TimerError::StopWhileIdle));
    assert_eq!(t.start(), Ok(()));
    assert_eq!(t.start(), Err(TimerError::StartWhileRunning));
    assert_eq!(t.stop(), Ok(()));
    assert_eq!(t.stop(), Err(TimerError::StopWhileIdle));
}

#[test]
fn timer_running_queries_never_shrink() {
    let mut t = Timer::<SimpleTracker, RealTime>::new();
    assert_eq!(t.start(), Ok(()));
    let q1 = t.num_nanoseconds();
    let q2 = t.num_nanoseconds();
    assert!(q2 >= q1);
    assert_eq!(t.stop(), Ok(()));
    let settled = t.num_nanoseconds();
    assert!(settled >= q2);
}

#[test]
fn timerset_switch_credits_both_keys_exactly() {
    // Readings: start(1) at 100, start(2) at 200 (crediting key 1 with 100),
    // stop() at 300 (crediting key 2 with 100).
    let mut ts = TimerSet::<u64, SimpleTracker, StepTime>::with_source(StepTime::with(0, 100));

    assert_eq!(ts.start(1), Ok(()));
    assert_eq!(ts.start(2), Ok(()));
    ts.stop();

    assert_eq!(ts.num_nanoseconds(1), Some(100));
    assert_eq!(ts.num_nanoseconds(2), Some(100));
    assert_eq!(ts.num_nanoseconds(3), None);
}

#[test]
fn timerset_stop_is_idempotent() {
    let mut ts = TimerSet::<u32, SimpleTracker, StepTime>::new();

    ts.stop();
    assert!(!ts.is_running());

    assert_eq!(ts.start(7), Ok(()));
    assert!(ts.is_running());
    ts.stop();
    assert!(!ts.is_running());
    let settled = ts.num_nanoseconds(7);
    ts.stop();
    assert!(!ts.is_running());
    assert_eq!(ts.num_nanoseconds(7), settled);
}

#[test]
fn timerset_restarting_active_key_fails() {
    let mut ts = TimerSet::<u32, SimpleTracker, StepTime>::new();

    assert_eq!(ts.start(1), Ok(()));
    assert_eq!(ts.start(1), Err(TimerError::StartWhileRunning));
    assert!(ts.is_running());
    ts.stop();
    assert_eq!(ts.start(1), Ok(()));
    ts.stop();
}

#[test]
fn unit_conversions_truncate() {
    // 999 ns: every coarser unit truncates to zero.
    let mut t = Timer::<SimpleTracker, StepTime>::with_source(StepTime::with(0, 999));
    assert_eq!(t.start(), Ok(()));
    assert_eq!(t.stop(), Ok(()));
    assert_eq!(t.num_nanoseconds(), 999);
    assert_eq!(t.num_microseconds(), 0);
    assert_eq!(t.num_milliseconds(), 0);

    // 1000 ns: exactly one microsecond.
    let mut t = Timer::<SimpleTracker, StepTime>::with_source(StepTime::with(0, 1000));
    assert_eq!(t.start(), Ok(()));
    assert_eq!(t.stop(), Ok(()));
    assert_eq!(t.num_nanoseconds(), 1000);
    assert_eq!(t.num_microseconds(), 1);

    // One hour of nanoseconds.
    let hour_ns: u64 = 3_600_000_000_000;
    let mut t = Timer::<SimpleTracker, StepTime>::with_source(StepTime::with(0, hour_ns));
    assert_eq!(t.start(), Ok(()));
    assert_eq!(t.stop(), Ok(()));
    assert_eq!(t.num_nanoseconds(), hour_ns);
    assert_eq!(t.num_microseconds(), hour_ns / 1_000);
    assert_eq!(t.num_milliseconds(), hour_ns / 1_000_000);
    assert_eq!(t.num_seconds(), 3600);
    assert_eq!(t.num_minutes(), 60);
    assert_eq!(t.num_hours(), 1);

    // Just under a minute stays at zero minutes.
    let mut t = Timer::<SimpleTracker, StepTime>::with_source(StepTime::with(0, 59_999_999_999));
    assert_eq!(t.start(), Ok(()));
    assert_eq!(t.stop(), Ok(()));
    assert_eq!(t.num_seconds(), 59);
    assert_eq!(t.num_minutes(), 0);
}

#[test]
fn timerset_unit_conversions_truncate() {
    let mut ts = TimerSet::<u32, SimpleTracker, StepTime>::with_source(StepTime::with(0, 999));
    assert_eq!(ts.start(1), Ok(()));
    ts.stop();
    assert_eq!(ts.num_nanoseconds(1), Some(999));
    assert_eq!(ts.num_microseconds(1), Some(0));
    assert_eq!(ts.num_microseconds(2), None);

    let minute_ns: u64 = 60_000_000_000;
    let mut ts = TimerSet::<u32, SimpleTracker, StepTime>::with_source(
        StepTime::with(0, minute_ns),
    );
    assert_eq!(ts.start(1), Ok(()));
    ts.stop();
    assert_eq!(ts.num_milliseconds(1), Some(60_000));
    assert_eq!(ts.num_seconds(1), Some(60));
    assert_eq!(ts.num_minutes(1), Some(1));
    assert_eq!(ts.num_hours(1), Some(0));
}

#[test]
fn idle_queries_are_repeatable() {
    let tracker = SimpleTracker::default();
    assert_eq!(tracker.get_stats(Some(4)), tracker.get_stats(Some(4)));

    let mut t = Timer::<SimpleTracker, StepTime>::with_source(StepTime::with(0, 42));
    assert_eq!(t.start(), Ok(()));
    assert_eq!(t.stop(), Ok(()));
    assert_eq!(t.get_stats(), t.get_stats());
    assert_eq!(t.num_nanoseconds(), t.num_nanoseconds());

    let mut ts = TimerSet::<u32, SimpleTracker, StepTime>::new();
    assert_eq!(ts.start(3), Ok(()));
    ts.stop();
    assert_eq!(ts.get_stats(3), ts.get_stats(3));
    assert_eq!(ts.num_nanoseconds(3), ts.num_nanoseconds(3));
}

#[test]
fn fresh_components_report_zero() {
    let tracker = SimpleTracker::default();
    assert_eq!(tracker.get(None), 0);
    assert_eq!(tracker.get_stats(None), 0);

    let t = Timer::<SimpleTracker, RealTime>::new();
    assert_eq!(t.num_nanoseconds(), 0);
    assert_eq!(t.num_hours(), 0);
    assert_eq!(t.get_stats(), 0);

    let timer = SimpleTimer::default();
    assert_eq!(timer.get(123), 0);

    let ts = TimerSet::<i32, SimpleTracker, RealTime>::new();
    assert!(!ts.is_running());
    assert!(ts.num_nanoseconds(0).is_none());
    assert!(ts.get_stats(1).is_none());
}

#[test]
fn totals_saturate_instead_of_wrapping() {
    let mut tracker = SimpleTracker::default();
    tracker.record(u64::MAX);
    tracker.record(1);
    assert_eq!(tracker.get(None), u64::MAX);
    assert_eq!(tracker.get(Some(5)), u64::MAX);

    let mut timer = SimpleTimer::default();
    assert_eq!(timer.start_at(0), Ok(()));
    assert_eq!(timer.stop_at(u64::MAX), Ok(()));
    assert_eq!(timer.start_at(0), Ok(()));
    assert_eq!(timer.stop_at(1), Ok(()));
    assert_eq!(timer.get(100), u64::MAX);
}

#[test]
fn simpletimer_tracks_handed_readings() {
    let mut timer = SimpleTimer::default();

    assert_eq!(timer.stop_at(10), Err(TimerError::StopWhileIdle));
    assert_eq!(timer.start_at(100), Ok(()));
    assert_eq!(timer.start_at(150), Err(TimerError::StartWhileRunning));
    assert_eq!(timer.get(160), 60);
    assert_eq!(timer.stop_at(250), Ok(()));
    assert_eq!(timer.get(999), 150);

    assert_eq!(timer.start_at(1000), Ok(()));
    assert_eq!(timer.get(1500), 650);
    assert_eq!(timer.stop_at(2000), Ok(()));
    assert_eq!(timer.get(0), 1150);
}

#[test]
fn steptime_readings_advance() {
    let mut s = StepTime::with(5, 10);
    assert_eq!(s.get_time(), 15);
    assert_eq!(s.get_time(), 25);
    assert_eq!(s.peek_time(), 25);
    assert_eq!(s.peek_time(), 25);

    let mut s = <StepTime as Source>::new();
    let a = s.get_time();
    let b = s.get_time();
    assert!(b > a);
}
