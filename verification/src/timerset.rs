use vstd::arithmetic::div_mod::lemma_div_is_ordered;
use vstd::prelude::*;

use crate::sat_add;
use crate::Source;
use crate::TimerError;
use crate::Tracker;

verus! {

/// A key for a [`TimerSet`]. Its two operations mirror `==` and `Clone`,
/// with contracts the verifier can use: equality agrees with mathematical
/// equality of the values, and cloning yields the very same value.
pub trait TimerKey: Sized {
    /// Whether the two keys are the same key.
    fn key_eq(&self, other: &Self) -> (r: bool)
        ensures
            r == (*self == *other),
    ;

    /// A copy of the key.
    fn key_clone(&self) -> (r: Self)
        ensures
            r == *self,
    ;
}

impl TimerKey for i32 {
    fn key_eq(&self, other: &Self) -> (r: bool) {
        *self == *other
    }

    fn key_clone(&self) -> (r: Self) {
        *self
    }
}

impl TimerKey for i64 {
    fn key_eq(&self, other: &Self) -> (r: bool) {
        *self == *other
    }

    fn key_clone(&self) -> (r: Self) {
        *self
    }
}

impl TimerKey for u32 {
    fn key_eq(&self, other: &Self) -> (r: bool) {
        *self == *other
    }

    fn key_clone(&self) -> (r: Self) {
        *self
    }
}

impl TimerKey for u64 {
    fn key_eq(&self, other: &Self) -> (r: bool) {
        *self == *other
    }

    fn key_clone(&self) -> (r: Self) {
        *self
    }
}

impl TimerKey for usize {
    fn key_eq(&self, other: &Self) -> (r: bool) {
        *self == *other
    }

    fn key_clone(&self) -> (r: Self) {
        *self
    }
}

/// Whether some entry of the association list carries key `k`.
pub open spec fn seen_in<Key, T>(es: Seq<(Key, T)>, k: Key) -> bool {
    exists|i: int| 0 <= i < es.len() && (#[trigger] es[i]).0 == k
}

/// The position of the entry carrying key `k`; meaningful only when
/// `seen_in(es, k)`.
pub open spec fn slot_of<Key, T>(es: Seq<(Key, T)>, k: Key) -> int {
    choose|i: int| 0 <= i < es.len() && (#[trigger] es[i]).0 == k
}

/// Whether no two entries of the association list carry the same key.
pub open spec fn distinct_keys<Key, T>(es: Seq<(Key, T)>) -> bool {
    forall|i: int, j: int| 0 <= i < j < es.len() ==> (#[trigger] es[i]).0 != (#[trigger] es[j]).0
}

/// When `k` is seen, `slot_of` names a real entry that carries `k`.
proof fn lemma_slot_valid<Key, T>(es: Seq<(Key, T)>, k: Key)
    requires
        seen_in(es, k),
    ensures
        0 <= slot_of(es, k) < es.len(),
        es[slot_of(es, k)].0 == k,
{
}

/// With distinct keys, any entry carrying `k` stands at `slot_of(es, k)`.
proof fn lemma_slot_unique<Key, T>(es: Seq<(Key, T)>, k: Key, i: int)
    requires
        distinct_keys(es),
        0 <= i < es.len(),
        es[i].0 == k,
    ensures
        seen_in(es, k),
        slot_of(es, k) == i,
{
    assert(seen_in(es, k));
    let j = slot_of(es, k);
    lemma_slot_valid(es, k);
    if i < j {
        assert(es[i].0 != es[j].0);
    } else if j < i {
        assert(es[j].0 != es[i].0);
    }
}

/// Replacing the entry at one position, keeping its key, preserves which
/// keys are seen, where they stand, and every other entry.
proof fn lemma_replace_at<Key, T>(pre: Seq<(Key, T)>, post: Seq<(Key, T)>, i: int)
    requires
        distinct_keys(pre),
        pre.len() == post.len(),
        0 <= i < pre.len(),
        post[i].0 == pre[i].0,
        forall|x: int| 0 <= x < pre.len() && x != i ==> #[trigger] post[x] == pre[x],
    ensures
        distinct_keys(post),
        forall|j: Key| #[trigger] seen_in(post, j) == seen_in(pre, j),
        forall|j: Key| seen_in(pre, j) ==> #[trigger] slot_of(post, j) == slot_of(pre, j),
        forall|j: Key|
            seen_in(pre, j) && slot_of(pre, j) != i ==> post[#[trigger] slot_of(post, j)]
                == pre[slot_of(pre, j)],
{
    assert forall|x: int| 0 <= x < pre.len() implies (#[trigger] post[x]).0 == pre[x].0 by {
        if x != i {
            assert(post[x] == pre[x]);
        }
    }
    assert forall|j: Key| #[trigger] seen_in(post, j) == seen_in(pre, j) by {
        if seen_in(post, j) {
            lemma_slot_valid(post, j);
            let a = slot_of(post, j);
            assert(pre[a].0 == j);
            assert(seen_in(pre, j));
        }
        if seen_in(pre, j) {
            lemma_slot_valid(pre, j);
            let b = slot_of(pre, j);
            assert(post[b].0 == j);
            assert(seen_in(post, j));
        }
    }
    assert forall|j: Key| seen_in(pre, j) implies #[trigger] slot_of(post, j) == slot_of(pre, j)
        && (slot_of(pre, j) != i ==> post[slot_of(post, j)] == pre[slot_of(pre, j)]) by {
        lemma_slot_valid(pre, j);
        let b = slot_of(pre, j);
        assert(post[b].0 == j);
        lemma_slot_unique(post, j, b);
        if b != i {
            assert(post[b] == pre[b]);
        }
    }
}

/// Appending an entry whose key is not yet seen leaves every seen key at
/// its position with its entry, and makes exactly that key newly seen, at
/// the end.
proof fn lemma_append_new<Key, T>(pre: Seq<(Key, T)>, post: Seq<(Key, T)>, p: (Key, T))
    requires
        distinct_keys(pre),
        !seen_in(pre, p.0),
        post == pre.push(p),
    ensures
        distinct_keys(post),
        seen_in(post, p.0),
        slot_of(post, p.0) == pre.len(),
        post[slot_of(post, p.0)] == p,
        forall|j: Key| #[trigger] seen_in(post, j) == (seen_in(pre, j) || j == p.0),
        forall|j: Key|
            seen_in(pre, j) ==> #[trigger] slot_of(post, j) == slot_of(pre, j) && post[slot_of(
                pre,
                j,
            )] == pre[slot_of(pre, j)],
{
    let n = pre.len() as int;
    assert(post[n] == p);
    assert(forall|x: int| 0 <= x < n ==> #[trigger] post[x] == pre[x]);
    assert forall|x: int, y: int| 0 <= x < y < post.len() implies (#[trigger] post[x]).0 != (
    #[trigger] post[y]).0 by {
        if y < n {
            assert(pre[x].0 != pre[y].0);
        } else {
            assert(pre[x].0 != p.0);
        }
    }
    assert(post[n].0 == p.0);
    lemma_slot_unique(post, p.0, n);
    assert forall|j: Key| #[trigger] seen_in(post, j) == (seen_in(pre, j) || j == p.0) by {
        if seen_in(post, j) {
            lemma_slot_valid(post, j);
            let a = slot_of(post, j);
            if a < n {
                assert(pre[a].0 == j);
                assert(seen_in(pre, j));
            }
        }
        if seen_in(pre, j) {
            lemma_slot_valid(pre, j);
            let b = slot_of(pre, j);
            assert(post[b].0 == j);
            assert(seen_in(post, j));
        }
    }
    assert forall|j: Key| seen_in(pre, j) implies #[trigger] slot_of(post, j) == slot_of(pre, j)
        && post[slot_of(pre, j)] == pre[slot_of(pre, j)] by {
        lemma_slot_valid(pre, j);
        let b = slot_of(pre, j);
        assert(post[b].0 == j);
        lemma_slot_unique(post, j, b);
    }
}

/// A timer set tracks a collection of timers, of which at most one can be
/// running at any given time.
///
/// All timers draw from one shared source. Switching the active key credits
/// the old key and activates the new one at the same reading, so no time is
/// lost or double-counted in the switch.
pub struct TimerSet<Key: TimerKey, T: Tracker, S: Source> {
    trackers: Vec<(Key, T)>,
    source: S,
    current: Option<(Key, u64)>,
}

impl<Key: TimerKey, T: Tracker, S: Source> TimerSet<Key, T, S> {
    /// The association of keys to their trackers, in first-start order.
    pub closed spec fn entries(&self) -> Seq<(Key, T)> {
        self.trackers@
    }

    /// The active key and the reading at its activation, if any.
    pub closed spec fn active(&self) -> Option<(Key, u64)> {
        self.current
    }

    /// The latest reading the shared source has handed out: a lower bound
    /// on every future reading.
    pub closed spec fn clock(&self) -> u64 {
        self.source.floor()
    }

    /// Whether some key's timer is currently running.
    pub open spec fn running(&self) -> bool {
        self.active() is Some
    }

    /// The currently active key; meaningful only while running.
    pub closed spec fn active_key(&self) -> Key
        recommends
            self.running(),
    {
        match self.current {
            Some((k, t0)) => k,
            None => arbitrary(),
        }
    }

    /// The reading at which the active key was activated; meaningful only
    /// while running.
    pub closed spec fn started_at(&self) -> u64
        recommends
            self.running(),
    {
        match self.current {
            Some((k, t0)) => t0,
            None => 0,
        }
    }

    /// Whether `k` has ever been started (and so has a tracker).
    pub open spec fn sees(&self, k: Key) -> bool {
        seen_in(self.entries(), k)
    }

    /// The position of `k`'s tracker; meaningful only when `sees(k)`.
    pub open spec fn index_of(&self, k: Key) -> int {
        slot_of(self.entries(), k)
    }

    /// `k`'s tracker in its current state; meaningful only when `sees(k)`.
    pub open spec fn tracker_of(&self, k: Key) -> T {
        self.entries()[self.index_of(k)].1
    }

    /// The nanoseconds accumulated for `k` from completed intervals.
    pub open spec fn total_of(&self, k: Key) -> u64 {
        self.tracker_of(k).total()
    }

    /// Well-formedness: keys are unique, the active key (if any) has a
    /// tracker, and its activation reading is no later than the latest
    /// reading the shared source has handed out. Constructors establish
    /// this and every method preserves it.
    pub open spec fn wf(&self) -> bool {
        &&& distinct_keys(self.entries())
        &&& self.running() ==> self.sees(self.active_key()) && self.started_at() <= self.clock()
    }

    /// Create a new TimerSet with no trackers and no currently running
    /// timer.
    pub fn new() -> (ts: Self)
        ensures
            ts.wf(),
            !ts.running(),
            forall|k: Key| !(#[trigger] ts.sees(k)),
    {
        TimerSet { trackers: Vec::new(), source: S::new(), current: None }
    }

    /// Create an empty, idle TimerSet that draws its time from the given
    /// source.
    pub fn with_source(source: S) -> (ts: Self)
        ensures
            ts.wf(),
            !ts.running(),
            forall|k: Key| !(#[trigger] ts.sees(k)),
            ts.clock() == source.floor(),
    {
        TimerSet { trackers: Vec::new(), source, current: None }
    }

    /// The position of `k`'s tracker, if `k` has one.
    fn position(&self, k: &Key) -> (r: Option<usize>)
        ensures
            match r {
                Some(i) => i < self.entries().len() && self.entries()[i as int].0 == *k,
                None => !self.sees(*k),
            },
    {
        let mut i: usize = 0;
        while i < self.trackers.len()
            invariant
                i <= self.trackers.len(),
                forall|j: int| 0 <= j < i ==> (#[trigger] self.trackers@[j]).0 != *k,
            decreases self.trackers.len() - i,
        {
            if self.trackers[i].0.key_eq(k) {
                return Some(i);
            }
            i += 1;
        }
        None
    }

    /// Add `d` to the tracker at position `i`, leaving its key, every other
    /// entry, the active slot, and the source untouched.
    fn credit(&mut self, i: usize, d: u64)
        requires
            i < old(self).entries().len(),
        ensures
            final(self).entries().len() == old(self).entries().len(),
            final(self).entries()[i as int].0 == old(self).entries()[i as int].0,
            final(self).entries()[i as int].1.total() == sat_add(
                old(self).entries()[i as int].1.total(),
                d,
            ),
            forall|j: int|
                0 <= j < old(self).entries().len() && j != i ==> final(self).entries()[j]
                    == old(self).entries()[j],
            final(self).active() == old(self).active(),
            final(self).clock() == old(self).clock(),
    {
        let (key, mut tr) = self.trackers.remove(i);
        tr.record(d);
        self.trackers.insert(i, (key, tr));
        proof {
            assert(self.trackers@ =~= old(self).trackers@.update(
                i as int,
                self.trackers@[i as int],
            ));
        }
    }

    /// Starts `k`'s timer. If another key is running, it is stopped and
    /// credited at the very reading that activates `k`. Starting the key
    /// that is already running fails and changes nothing.
    pub fn start(&mut self, k: Key) -> (r: Result<(), TimerError>)
        requires
            old(self).wf(),
        ensures
            final(self).wf(),
            old(self).running() && old(self).active_key() == k ==> r == Err::<(), TimerError>(
                TimerError::StartWhileRunning,
            ) && *final(self) == *old(self),
            !(old(self).running() && old(self).active_key() == k) ==> r == Ok::<(), TimerError>(
                (),
            ),
            r is Ok ==> final(self).running() && final(self).active_key() == k
                && final(self).started_at() == final(self).clock()
                && old(self).clock() <= final(self).clock() && final(self).sees(k),
            r is Ok && old(self).running() ==> final(self).total_of(old(self).active_key())
                == sat_add(
                old(self).total_of(old(self).active_key()),
                (final(self).clock() - old(self).started_at()) as u64,
            ),
            r is Ok ==> (forall|j: Key| old(self).sees(j) ==> #[trigger] final(self).sees(j)),
            r is Ok ==> (forall|j: Key|
                #[trigger] final(self).sees(j) ==> old(self).sees(j) || j == k),
            r is Ok ==> (forall|j: Key|
                old(self).sees(j) && (!old(self).running() || old(self).active_key() != j)
                    ==> #[trigger] final(self).total_of(j) == old(self).total_of(j)),
            r is Ok && !old(self).sees(k) ==> final(self).total_of(k) == 0,
    {
        let ghost pre = *self;
        let mut prev: Option<(usize, u64)> = None;
        match &self.current {
            Some((k0, t0)) => {
                if k0.key_eq(&k) {
                    return Err(TimerError::StartWhileRunning);
                }
                let i = match self.position(k0) {
                    Some(i) => i,
                    None => {
                        proof {
                            assert(false);
                        }
                        0
                    },
                };
                proof {
                    lemma_slot_unique(pre.entries(), pre.active_key(), i as int);
                }
                prev = Some((i, *t0));
            },
            None => {},
        }
        let now = self.source.get_time();
        if let Some((i, t0)) = prev {
            self.credit(i, now - t0);
            proof {
                lemma_replace_at(pre.entries(), self.entries(), i as int);
                lemma_slot_unique(self.entries(), pre.active_key(), i as int);
            }
        }
        let ghost mid = *self;
        match self.position(&k) {
            Some(i2) => {
                proof {
                    lemma_slot_unique(self.entries(), k, i2 as int);
                }
            },
            None => {
                let entry = (k.key_clone(), T::empty());
                let ghost p = entry;
                self.trackers.push(entry);
                proof {
                    lemma_append_new(mid.entries(), self.entries(), p);
                }
            },
        }
        self.current = Some((k, now));
        proof {
            assert forall|j: Key|
                pre.sees(j) && (!pre.running() || pre.active_key() != j) implies #[trigger] self
                .total_of(j) == pre.total_of(j) by {
                lemma_slot_valid(pre.entries(), j);
                if pre.running() {
                    let ia = slot_of(pre.entries(), pre.active_key());
                    if slot_of(pre.entries(), j) == ia {
                        lemma_slot_valid(pre.entries(), pre.active_key());
                        assert(false);
                    }
                    assert(mid.total_of(j) == pre.total_of(j));
                } else {
                    assert(mid.total_of(j) == pre.total_of(j));
                }
                assert(self.total_of(j) == mid.total_of(j));
            }
        }
        Ok(())
    }

    /// Stops the currently running timer, if any, crediting it with the
    /// elapsed interval. Stopping an idle set is a no-op, not an error.
    pub fn stop(&mut self)
        requires
            old(self).wf(),
        ensures
            final(self).wf(),
            !final(self).running(),
            !old(self).running() ==> *final(self) == *old(self),
            old(self).running() ==> old(self).clock() <= final(self).clock(),
            old(self).running() ==> final(self).total_of(old(self).active_key()) == sat_add(
                old(self).total_of(old(self).active_key()),
                (final(self).clock() - old(self).started_at()) as u64,
            ),
            forall|j: Key| #[trigger] final(self).sees(j) == old(self).sees(j),
            forall|j: Key|
                old(self).sees(j) && (!old(self).running() || old(self).active_key() != j)
                    ==> #[trigger] final(self).total_of(j) == old(self).total_of(j),
    {
        let ghost pre = *self;
        let prev: Option<(usize, u64)> = match &self.current {
            Some((k0, t0)) => {
                let i = match self.position(k0) {
                    Some(i) => i,
                    None => {
                        proof {
                            assert(false);
                        }
                        0
                    },
                };
                proof {
                    lemma_slot_unique(pre.entries(), pre.active_key(), i as int);
                }
                Some((i, *t0))
            },
            None => None,
        };
        if let Some((i, t0)) = prev {
            let now = self.source.get_time();
            self.credit(i, now - t0);
            proof {
                lemma_replace_at(pre.entries(), self.entries(), i as int);
                lemma_slot_unique(self.entries(), pre.active_key(), i as int);
                assert forall|j: Key|
                    pre.sees(j) && pre.active_key() != j implies #[trigger] self.total_of(j)
                    == pre.total_of(j) by {
                    lemma_slot_valid(pre.entries(), j);
                    if slot_of(pre.entries(), j) == i as int {
                        lemma_slot_valid(pre.entries(), pre.active_key());
                        assert(false);
                    }
                }
            }
        }
        self.current = None;
    }

    /// True iff some key's timer is currently running.
    pub fn is_running(&self) -> (r: bool)
        ensures
            r == self.running(),
    {
        self.current.is_some()
    }

    /// `k`'s accumulated statistics, or `None` if `k` has never been
    /// started. For the active key the in-flight interval is folded in, as
    /// `Timer::get_stats` does. Never mutates the set.
    pub fn get_stats(&self, k: Key) -> (r: Option<T::Statistics>)
        requires
            self.wf(),
        ensures
            r is Some <==> self.sees(k),
            self.sees(k) && !(self.running() && self.active_key() == k) ==> r == Some(
                self.tracker_of(k).stats_model(None),
            ),
            self.running() && self.active_key() == k ==> (exists|p: u64|
                self.clock() - self.started_at() <= p && r == Some(
                    self.tracker_of(k).stats_model(Some(p)),
                )),
    {
        let i = match self.position(&k) {
            Some(i) => i,
            None => {
                return None;
            },
        };
        proof {
            lemma_slot_unique(self.entries(), k, i as int);
        }
        match &self.current {
            Some((k0, t0)) => {
                if k0.key_eq(&k) {
                    let p = self.source.peek_time() - *t0;
                    let s = self.trackers[i].1.get_stats(Some(p));
                    proof {
                        assert(self.clock() - self.started_at() <= p && Some(s) == Some(
                            self.tracker_of(k).stats_model(Some(p)),
                        ));
                    }
                    Some(s)
                } else {
                    Some(self.trackers[i].1.get_stats(None))
                }
            },
            None => Some(self.trackers[i].1.get_stats(None)),
        }
    }

    /// `k`'s elapsed time in nanoseconds, or `None` if `k` has never been
    /// started. For an inactive key this is exactly its accumulated total;
    /// for the active key the in-flight interval is folded in as well.
    pub fn num_nanoseconds(&self, k: Key) -> (r: Option<u64>)
        requires
            self.wf(),
        ensures
            r is Some <==> self.sees(k),
            self.sees(k) && !(self.running() && self.active_key() == k) ==> r == Some(
                self.total_of(k),
            ),
            self.running() && self.active_key() == k ==> (match r {
                Some(v) => sat_add(self.total_of(k), (self.clock() - self.started_at()) as u64)
                    <= v,
                None => false,
            }),
    {
        let i = match self.position(&k) {
            Some(i) => i,
            None => {
                return None;
            },
        };
        proof {
            lemma_slot_unique(self.entries(), k, i as int);
        }
        match &self.current {
            Some((k0, t0)) => {
                if k0.key_eq(&k) {
                    let p = self.source.peek_time() - *t0;
                    Some(self.trackers[i].1.get(Some(p)))
                } else {
                    Some(self.trackers[i].1.get(None))
                }
            },
            None => Some(self.trackers[i].1.get(None)),
        }
    }

    /// `k`'s elapsed time in microseconds (nanoseconds over a thousand,
    /// truncating), or `None` if `k` has never been started.
    pub fn num_microseconds(&self, k: Key) -> (r: Option<u64>)
        requires
            self.wf(),
        ensures
            r is Some <==> self.sees(k),
            self.sees(k) && !(self.running() && self.active_key() == k) ==> r == Some(
                self.total_of(k) / 1000,
            ),
            self.running() && self.active_key() == k ==> (match r {
                Some(v) => self.total_of(k) / 1000 <= v,
                None => false,
            }),
    {
        match self.num_nanoseconds(k) {
            Some(ns) => {
                proof {
                    lemma_div_is_ordered(self.total_of(k) as int, ns as int, 1000);
                }
                Some(ns / 1000)
            },
            None => None,
        }
    }

    /// `k`'s elapsed time in milliseconds, truncating, or `None` if `k` has
    /// never been started.
    pub fn num_milliseconds(&self, k: Key) -> (r: Option<u64>)
        requires
            self.wf(),
        ensures
            r is Some <==> self.sees(k),
            self.sees(k) && !(self.running() && self.active_key() == k) ==> r == Some(
                self.total_of(k) / 1_000_000,
            ),
            self.running() && self.active_key() == k ==> (match r {
                Some(v) => self.total_of(k) / 1_000_000 <= v,
                None => false,
            }),
    {
        match self.num_nanoseconds(k) {
            Some(ns) => {
                proof {
                    lemma_div_is_ordered(self.total_of(k) as int, ns as int, 1_000_000);
                }
                Some(ns / 1_000_000)
            },
            None => None,
        }
    }

    /// `k`'s elapsed time in seconds, truncating, or `None` if `k` has
    /// never been started.
    pub fn num_seconds(&self, k: Key) -> (r: Option<u64>)
        requires
            self.wf(),
        ensures
            r is Some <==> self.sees(k),
            self.sees(k) && !(self.running() && self.active_key() == k) ==> r == Some(
                self.total_of(k) / 1_000_000_000,
            ),
            self.running() && self.active_key() == k ==> (match r {
                Some(v) => self.total_of(k) / 1_000_000_000 <= v,
                None => false,
            }),
    {
        match self.num_nanoseconds(k) {
            Some(ns) => {
                proof {
                    lemma_div_is_ordered(self.total_of(k) as int, ns as int, 1_000_000_000);
                }
                Some(ns / 1_000_000_000)
            },
            None => None,
        }
    }

    /// `k`'s elapsed time in minutes, truncating, or `None` if `k` has
    /// never been started.
    pub fn num_minutes(&self, k: Key) -> (r: Option<u64>)
        requires
            self.wf(),
        ensures
            r is Some <==> self.sees(k),
            self.sees(k) && !(self.running() && self.active_key() == k) ==> r == Some(
                self.total_of(k) / 60_000_000_000,
            ),
            self.running() && self.active_key() == k ==> (match r {
                Some(v) => self.total_of(k) / 60_000_000_000 <= v,
                None => false,
            }),
    {
        match self.num_nanoseconds(k) {
            Some(ns) => {
                proof {
                    lemma_div_is_ordered(self.total_of(k) as int, ns as int, 60_000_000_000);
                }
                Some(ns / 60_000_000_000)
            },
            None => None,
        }
    }

    /// `k`'s elapsed time in hours, truncating, or `None` if `k` has never
    /// been started.
    pub fn num_hours(&self, k: Key) -> (r: Option<u64>)
        requires
            self.wf(),
        ensures
            r is Some <==> self.sees(k),
            self.sees(k) && !(self.running() && self.active_key() == k) ==> r == Some(
                self.total_of(k) / 3_600_000_000_000,
            ),
            self.running() && self.active_key() == k ==> (match r {
                Some(v) => self.total_of(k) / 3_600_000_000_000 <= v,
                None => false,
            }),
    {
        match self.num_nanoseconds(k) {
            Some(ns) => {
                proof {
                    lemma_div_is_ordered(self.total_of(k) as int, ns as int, 3_600_000_000_000);
                }
                Some(ns / 3_600_000_000_000)
            },
            None => None,
        }
    }
}

} // verus!
