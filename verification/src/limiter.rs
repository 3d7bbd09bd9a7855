//! Login throttling: failed attempts per key inside a sliding lock window.
//!
//! Times are nanoseconds on a monotone clock: the caller supplies them, never
//! going back, or the limiter reads its own `Instant`. An attempt counts while
//! fewer than `lock_seconds` whole seconds have passed since it.
use vstd::prelude::*;
use std::time::Instant;
use crate::clock::{instant_now, nanos_since};

verus! {

/// Whole seconds from `t` to `now`, zero when `t` lies after `now`
/// (`Instant::duration_since(..).as_secs()`, which saturates).
pub open spec fn elapsed_secs(now: u64, t: u64) -> nat {
    if now >= t {
        ((now - t) / 1000000000) as nat
    } else {
        0
    }
}

/// The attempts of `times` that still count at `now`.
pub open spec fn recent(times: Seq<u64>, now: u64, lock_seconds: u64) -> Seq<u64> {
    times.filter(|t: u64| elapsed_secs(now, t) < lock_seconds)
}

/// The answer of a lock check on attempts that still count: the seconds left
/// until the oldest of them stops counting (at least 1) once there are
/// `max_failures` of them, else 0.
pub open spec fn lock_remaining(recent: Seq<u64>, now: u64, lock_seconds: u64, max_failures: usize) -> nat {
    if recent.len() >= max_failures {
        let left = lock_seconds - elapsed_secs(now, recent[0]);
        if left >= 1 { left as nat } else { 1 }
    } else {
        0
    }
}

/// The failed attempts recorded under one key.
#[derive(Debug)]
pub struct FailureRecord {
    pub key: String,
    pub times: Vec<u64>,
}

/// Counts failed logins per key and locks a key out for a while after too many.
#[derive(Debug)]
pub struct LoginRateLimiter {
    max_failures: usize,
    lock_seconds: u64,
    records: Vec<FailureRecord>,
    /// The instant the limiter's own clock counts from.
    clock: Instant,
    /// The latest time the limiter has been told or has read.
    latest: u64,
}

/// Times in the order they happened, none later than `latest`.
pub open spec fn in_order(times: Seq<u64>, latest: u64) -> bool {
    &&& forall|i: int, j: int| 0 <= i <= j < times.len() ==> #[trigger] times[i] <= #[trigger] times[j]
    &&& forall|i: int| 0 <= i < times.len() ==> #[trigger] times[i] <= latest
}

impl LoginRateLimiter {
    /// No two records share a key, and each key's failures are in the order
    /// they happened, none later than the latest time seen.
    pub closed spec fn wf(&self) -> bool {
        &&& self.keys_distinct()
        &&& forall|k: Seq<char>| in_order(#[trigger] self.failures(k), self.latest)
    }

    /// No two records share a key.
    pub closed spec fn keys_distinct(&self) -> bool {
        forall|i: int, j: int|
            0 <= i < self.records@.len() && 0 <= j < self.records@.len() && i != j
                ==> #[trigger] self.records@[i].key@ != #[trigger] self.records@[j].key@
    }

    pub closed spec fn has_key(&self, key: Seq<char>) -> bool {
        exists|i: int| 0 <= i < self.records@.len() && #[trigger] self.records@[i].key@ == key
    }

    /// The failed attempts recorded under `key`, oldest first.
    pub closed spec fn failures(&self, key: Seq<char>) -> Seq<u64> {
        if self.has_key(key) {
            let i = choose|i: int| 0 <= i < self.records@.len() && #[trigger] self.records@[i].key@ == key;
            self.records@[i].times@
        } else {
            Seq::empty()
        }
    }

    pub closed spec fn spec_max_failures(&self) -> usize {
        self.max_failures
    }

    pub closed spec fn spec_lock_seconds(&self) -> u64 {
        self.lock_seconds
    }

    /// The latest time (nanoseconds) the limiter has been told or has read.
    pub closed spec fn spec_latest(&self) -> u64 {
        self.latest
    }

    proof fn lemma_failures_at(&self, i: int)
        requires
            self.keys_distinct(),
            0 <= i < self.records@.len(),
        ensures
            self.failures(self.records@[i].key@) == self.records@[i].times@,
    {
        let key = self.records@[i].key@;
        assert(self.has_key(key));
    }

    /// A limiter that locks a key once `max_failures` failures fall inside
    /// `lock_minutes` minutes (a negative number of minutes counts as zero).
    pub fn new(max_failures: usize, lock_minutes: i64) -> (r: Self)
        requires
            lock_minutes * 60 <= u64::MAX,
        ensures
            r.wf(),
            r.spec_max_failures() == max_failures,
            r.spec_lock_seconds() == (if lock_minutes > 0 { lock_minutes * 60 } else { 0 }),
            r.spec_latest() == 0,
            forall|k: Seq<char>| r.failures(k) == Seq::<u64>::empty(),
    {
        let minutes: u64 = if lock_minutes > 0 { lock_minutes as u64 } else { 0 };
        let r = LoginRateLimiter {
            max_failures,
            lock_seconds: minutes * 60,
            records: Vec::new(),
            clock: instant_now(),
            latest: 0,
        };
        assert forall|k: Seq<char>| r.failures(k) == Seq::<u64>::empty() by {
            assert(!r.has_key(k));
        }
        r
    }

    fn find(&self, key: &String) -> (r: Option<usize>)
        ensures
            match r {
                Some(i) => i < self.records@.len() && self.records@[i as int].key@ == key@,
                None => !self.has_key(key@),
            },
    {
        let mut i: usize = 0;
        while i < self.records.len()
            invariant
                i <= self.records@.len(),
                forall|j: int| 0 <= j < i ==> #[trigger] self.records@[j].key@ != key@,
            decreases self.records@.len() - i,
        {
            if self.records[i].key == *key {
                return Some(i);
            }
            i = i + 1;
        }
        None
    }

    /// Replaces the attempts recorded under `key` by `times`.
    fn store(&mut self, key: String, times: Vec<u64>)
        requires
            old(self).keys_distinct(),
        ensures
            final(self).keys_distinct(),
            final(self).max_failures == old(self).max_failures,
            final(self).lock_seconds == old(self).lock_seconds,
            final(self).latest == old(self).latest,
            final(self).failures(key@) == times@,
            forall|k: Seq<char>| k != key@ ==> final(self).failures(k) == old(self).failures(k),
    {
        let ghost before = *self;
        let found = self.find(&key);
        match found {
            Some(i) => {
                self.records.set(i, FailureRecord { key, times });
                proof {
                    self.lemma_failures_at(i as int);
                    assert forall|k: Seq<char>| k != self.records@[i as int].key@ implies self.failures(k) == before.failures(k) by {
                        if before.has_key(k) {
                            let j = choose|j: int| 0 <= j < before.records@.len() && #[trigger] before.records@[j].key@ == k;
                            before.lemma_failures_at(j);
                            self.lemma_failures_at(j);
                        } else {
                            assert(!self.has_key(k));
                        }
                    }
                }
            }
            None => {
                let ghost k0 = key@;
                self.records.push(FailureRecord { key, times });
                proof {
                    let n = self.records@.len() - 1;
                    self.lemma_failures_at(n);
                    assert forall|k: Seq<char>| k != k0 implies self.failures(k) == before.failures(k) by {
                        if before.has_key(k) {
                            let j = choose|j: int| 0 <= j < before.records@.len() && #[trigger] before.records@[j].key@ == k;
                            before.lemma_failures_at(j);
                            self.lemma_failures_at(j);
                        } else {
                            if self.has_key(k) {
                                let j = choose|j: int| 0 <= j < self.records@.len() && #[trigger] self.records@[j].key@ == k;
                                assert(j < n ==> before.records@[j].key@ == k);
                            }
                        }
                    }
                }
            }
        }
    }

    /// The attempts recorded under `key` (a copy).
    fn times_of(&self, key: &String) -> (r: Vec<u64>)
        requires
            self.keys_distinct(),
        ensures
            r@ == self.failures(key@),
    {
        match self.find(key) {
            Some(i) => {
                proof { self.lemma_failures_at(i as int); }
                self.records[i].times.clone()
            }
            None => Vec::new(),
        }
    }

    /// Drops the attempts of `key` that no longer count at `now` and returns
    /// the seconds the key stays locked; 0 means it is not locked.
    pub fn check_locked_at(&mut self, key: &str, now: u64) -> (r: u64)
        requires
            old(self).wf(),
            now >= old(self).spec_latest(),
            old(self).spec_max_failures() > 0
                || recent(old(self).failures(key@), now, old(self).spec_lock_seconds()).len() > 0,
        ensures
            final(self).wf(),
            final(self).spec_max_failures() == old(self).spec_max_failures(),
            final(self).spec_lock_seconds() == old(self).spec_lock_seconds(),
            final(self).spec_latest() == now,
            final(self).failures(key@) == recent(old(self).failures(key@), now, old(self).spec_lock_seconds()),
            forall|k: Seq<char>| k != key@ ==> final(self).failures(k) == old(self).failures(k),
            r == lock_remaining(final(self).failures(key@), now, old(self).spec_lock_seconds(), old(self).spec_max_failures()),
    {
        let ghost s0 = *self;
        self.latest = now;
        proof { lemma_advance(s0, *self); }
        let k = String::from_str(key);
        let old_times = self.times_of(&k);
        let ghost lock = self.lock_seconds;
        let ghost pred = |t: u64| elapsed_secs(now, t) < lock;
        let mut kept: Vec<u64> = Vec::new();
        let mut i: usize = 0;
        while i < old_times.len()
            invariant
                i <= old_times@.len(),
                lock == self.lock_seconds,
                pred == (|t: u64| elapsed_secs(now, t) < lock),
                kept@ == old_times@.take(i as int).filter(pred),
            decreases old_times@.len() - i,
        {
            let t = old_times[i];
            let secs: u64 = if now >= t { (now - t) / 1000000000 } else { 0 };
            if secs < self.lock_seconds {
                kept.push(t);
            }
            proof {
                reveal_with_fuel(Seq::filter, 1);
                assert(old_times@.take(i as int + 1).drop_last() == old_times@.take(i as int));
            }
            i = i + 1;
        }
        assert(old_times@.take(old_times@.len() as int) == old_times@);
        let n = kept.len();
        let result: u64 = if n >= self.max_failures {
            let first = kept[0];
            let elapsed: u64 = if now >= first { (now - first) / 1000000000 } else { 0 };
            let left: u64 = if self.lock_seconds > elapsed { self.lock_seconds - elapsed } else { 0 };
            if left >= 1 { left } else { 1 }
        } else {
            0
        };
        proof {
            assert(in_order(old_times@, now));
            lemma_filter_in_order(old_times@, pred, now);
        }
        let ghost before = *self;
        self.store(k, kept);
        proof { self.lemma_store_ordered(before, key@); }
        result
    }

    /// Records a failed attempt under `key` at `now`.
    pub fn record_failure_at(&mut self, key: &str, now: u64)
        requires
            old(self).wf(),
            now >= old(self).spec_latest(),
        ensures
            final(self).wf(),
            final(self).spec_max_failures() == old(self).spec_max_failures(),
            final(self).spec_lock_seconds() == old(self).spec_lock_seconds(),
            final(self).spec_latest() == now,
            final(self).failures(key@) == old(self).failures(key@).push(now),
            forall|k: Seq<char>| k != key@ ==> final(self).failures(k) == old(self).failures(k),
    {
        let ghost s0 = *self;
        self.latest = now;
        proof { lemma_advance(s0, *self); }
        let k = String::from_str(key);
        let mut times = self.times_of(&k);
        let ghost prev = times@;
        times.push(now);
        proof {
            assert(in_order(prev, now));
            assert(in_order(times@, now)) by {
                assert forall|i: int, j: int| 0 <= i <= j < times@.len() implies #[trigger] times@[i] <= #[trigger] times@[j] by {
                    if j < prev.len() {
                        assert(prev[i] <= prev[j]);
                    }
                }
            }
        }
        let ghost before = *self;
        self.store(k, times);
        proof { self.lemma_store_ordered(before, key@); }
    }

    /// Forgets every attempt recorded under `key`.
    pub fn reset(&mut self, key: &str)
        requires
            old(self).wf(),
        ensures
            final(self).wf(),
            final(self).spec_max_failures() == old(self).spec_max_failures(),
            final(self).spec_lock_seconds() == old(self).spec_lock_seconds(),
            final(self).spec_latest() == old(self).spec_latest(),
            final(self).failures(key@) == Seq::<u64>::empty(),
            forall|k: Seq<char>| k != key@ ==> final(self).failures(k) == old(self).failures(k),
    {
        let k = String::from_str(key);
        let ghost before = *self;
        match self.find(&k) {
            Some(i) => {
                self.records.remove(i);
                proof {
                    assert(!self.has_key(key@)) by {
                        if self.has_key(key@) {
                            let j = choose|j: int| 0 <= j < self.records@.len() && #[trigger] self.records@[j].key@ == key@;
                            if j < i {
                                assert(before.records@[j].key@ == key@);
                            } else {
                                assert(before.records@[j + 1].key@ == key@);
                            }
                        }
                    }
                    assert forall|k2: Seq<char>| k2 != key@ implies self.failures(k2) == before.failures(k2) by {
                        if before.has_key(k2) {
                            let j = choose|j: int| 0 <= j < before.records@.len() && #[trigger] before.records@[j].key@ == k2;
                            before.lemma_failures_at(j);
                            if j < i {
                                self.lemma_failures_at(j);
                            } else {
                                assert(j != i);
                                self.lemma_failures_at(j - 1);
                            }
                        } else {
                            if self.has_key(k2) {
                                let j = choose|j: int| 0 <= j < self.records@.len() && #[trigger] self.records@[j].key@ == k2;
                                if j < i {
                                    assert(before.records@[j].key@ == k2);
                                } else {
                                    assert(before.records@[j + 1].key@ == k2);
                                }
                            }
                        }
                    }
                }
            }
            None => {}
        }
        proof {
            assert(forall|k: Seq<char>| in_order(#[trigger] before.failures(k), before.latest));
            self.lemma_store_ordered(before, key@);
        }
    }
}

impl LoginRateLimiter {
    /// The failures of every key are kept in the order they happened, none
    /// later than the latest time the limiter has seen; so the first one that
    /// still counts is the oldest (`lemma_oldest_first`), and the lock time
    /// that `check_locked` answers runs from the oldest failure that counts.
    pub proof fn lemma_failures_in_order(&self, key: Seq<char>)
        requires
            self.wf(),
        ensures
            in_order(self.failures(key), self.spec_latest()),
    {
    }

    /// The current time of the limiter's own monotone clock: nanoseconds
    /// since it was made, never earlier than a time it was given before.
    fn now(&self) -> (r: u64)
        ensures
            r >= self.spec_latest(),
    {
        let t = nanos_since(&self.clock);
        if t > self.latest { t } else { self.latest }
    }

    /// `check_locked_at` at the current time of the limiter's clock.
    pub fn check_locked(&mut self, key: &str) -> (r: u64)
        requires
            old(self).wf(),
            old(self).spec_max_failures() > 0,
        ensures
            final(self).wf(),
            final(self).spec_max_failures() == old(self).spec_max_failures(),
            final(self).spec_lock_seconds() == old(self).spec_lock_seconds(),
            final(self).spec_latest() >= old(self).spec_latest(),
            forall|k: Seq<char>| k != key@ ==> final(self).failures(k) == old(self).failures(k),
            final(self).failures(key@) == recent(old(self).failures(key@), final(self).spec_latest(), old(self).spec_lock_seconds()),
            r == lock_remaining(final(self).failures(key@), final(self).spec_latest(), old(self).spec_lock_seconds(), old(self).spec_max_failures()),
    {
        let now = self.now();
        self.check_locked_at(key, now)
    }

    /// `record_failure_at` at the current time of the limiter's clock.
    pub fn record_failure(&mut self, key: &str)
        requires
            old(self).wf(),
        ensures
            final(self).wf(),
            final(self).spec_max_failures() == old(self).spec_max_failures(),
            final(self).spec_lock_seconds() == old(self).spec_lock_seconds(),
            final(self).spec_latest() >= old(self).spec_latest(),
            forall|k: Seq<char>| k != key@ ==> final(self).failures(k) == old(self).failures(k),
            final(self).failures(key@) == old(self).failures(key@).push(final(self).spec_latest()),
    {
        let now = self.now();
        self.record_failure_at(key, now);
    }

    /// After storing ordered times under `key`, every key is in order again.
    proof fn lemma_store_ordered(&self, before: Self, key: Seq<char>)
        requires
            self.keys_distinct(),
            self.latest == before.latest,
            in_order(self.failures(key), self.latest),
            forall|k: Seq<char>| in_order(#[trigger] before.failures(k), before.latest),
            forall|k: Seq<char>| k != key ==> self.failures(k) == before.failures(k),
        ensures
            self.wf(),
    {
        assert forall|k: Seq<char>| in_order(#[trigger] self.failures(k), self.latest) by {
            if k != key {
                assert(in_order(before.failures(k), before.latest));
            }
        }
    }
}

/// Moving the latest time forward keeps a limiter well formed.
proof fn lemma_advance(before: LoginRateLimiter, after: LoginRateLimiter)
    requires
        before.wf(),
        after.records == before.records,
        after.latest >= before.latest,
    ensures
        after.wf(),
        forall|k: Seq<char>| #[trigger] after.failures(k) == before.failures(k),
{
    assert forall|k: Seq<char>| #[trigger] after.failures(k) == before.failures(k) by {
        assert(after.has_key(k) == before.has_key(k));
    }
    assert forall|k: Seq<char>| in_order(#[trigger] after.failures(k), after.latest) by {
        assert(in_order(before.failures(k), before.latest));
    }
}

/// Dropping attempts keeps the rest in order.
pub proof fn lemma_filter_in_order(times: Seq<u64>, pred: spec_fn(u64) -> bool, latest: u64)
    requires
        in_order(times, latest),
    ensures
        in_order(times.filter(pred), latest),
    decreases times.len(),
{
    reveal_with_fuel(Seq::filter, 1);
    if times.len() > 0 {
        let t = times.drop_last();
        assert(in_order(t, latest)) by {
            assert forall|i: int, j: int| 0 <= i <= j < t.len() implies #[trigger] t[i] <= #[trigger] t[j] by {
                assert(times[i] <= times[j]);
            }
            assert forall|i: int| 0 <= i < t.len() implies #[trigger] t[i] <= latest by {
                assert(times[i] <= latest);
            }
        }
        lemma_filter_in_order(t, pred, latest);
        let f = t.filter(pred);
        assert forall|i: int| 0 <= i < f.len() implies #[trigger] f[i] <= times.last() by {
            assert(f.contains(f[i]));
            t.lemma_filter_contains_rev(pred, f[i]);
            let k = choose|k: int| 0 <= k < t.len() && t[k] == f[i];
            assert(times[k] <= times[times.len() - 1]);
        }
        if pred(times.last()) {
            let g = times.filter(pred);
            assert(g == f.push(times.last()));
            assert forall|i: int, j: int| 0 <= i <= j < g.len() implies #[trigger] g[i] <= #[trigger] g[j] by {
                if j < f.len() {
                    assert(f[i] <= f[j]);
                } else if i < f.len() {
                    assert(f[i] <= times.last());
                }
            }
        }
    }
}

/// Among attempts in order, the first that still counts is the oldest of them.
pub proof fn lemma_oldest_first(times: Seq<u64>, latest: u64, now: u64, lock_seconds: u64)
    requires
        in_order(times, latest),
        recent(times, now, lock_seconds).len() > 0,
    ensures
        forall|j: int| 0 <= j < recent(times, now, lock_seconds).len()
            ==> recent(times, now, lock_seconds)[0] <= #[trigger] recent(times, now, lock_seconds)[j],
{
    lemma_filter_in_order(times, |t: u64| elapsed_secs(now, t) < lock_seconds, latest);
}

/// The lock time of a check, measured from the oldest failure that counts:
/// 0 below the limit; at or above it, the window left after the oldest
/// counting failure, at least one second.
pub proof fn lemma_lock_from_oldest(times: Seq<u64>, latest: u64, now: u64, lock_seconds: u64, max_failures: usize)
    requires
        in_order(times, latest),
        max_failures >= 1,
    ensures
        ({
            let f = recent(times, now, lock_seconds);
            &&& f.len() < max_failures ==> lock_remaining(f, now, lock_seconds, max_failures) == 0
            &&& f.len() >= max_failures ==> {
                &&& forall|j: int| 0 <= j < f.len() ==> f[0] <= #[trigger] f[j]
                &&& lock_remaining(f, now, lock_seconds, max_failures)
                    == if lock_seconds - elapsed_secs(now, f[0]) >= 1 { (lock_seconds - elapsed_secs(now, f[0])) as nat } else { 1 }
            }
        }),
{
    let f = recent(times, now, lock_seconds);
    if f.len() >= max_failures {
        lemma_oldest_first(times, latest, now, lock_seconds);
    }
}

/// Attempts that all still count are kept whole by the pruning of a lock check.
pub proof fn lemma_recent_keeps_counting(times: Seq<u64>, now: u64, lock_seconds: u64)
    requires
        forall|i: int| 0 <= i < times.len() ==> elapsed_secs(now, #[trigger] times[i]) < lock_seconds,
    ensures
        recent(times, now, lock_seconds) == times,
    decreases times.len(),
{
    reveal_with_fuel(Seq::filter, 1);
    if times.len() > 0 {
        lemma_recent_keeps_counting(times.drop_last(), now, lock_seconds);
        assert(elapsed_secs(now, times.last()) < lock_seconds);
        assert(times.drop_last().push(times.last()) == times);
    }
}

/// Lockout: once `max_failures` failures of a key all fall inside the lock
/// window, a check of that key reports it locked for at least one second.
pub proof fn lemma_lockout_after_max_failures(times: Seq<u64>, now: u64, lock_seconds: u64, max_failures: usize)
    requires
        times.len() >= max_failures,
        forall|i: int| 0 <= i < times.len() ==> elapsed_secs(now, #[trigger] times[i]) < lock_seconds,
    ensures
        lock_remaining(recent(times, now, lock_seconds), now, lock_seconds, max_failures) >= 1,
{
    lemma_recent_keeps_counting(times, now, lock_seconds);
}

/// Below the limit a key is never locked.
pub proof fn lemma_unlocked_below_max(times: Seq<u64>, now: u64, lock_seconds: u64, max_failures: usize)
    requires
        recent(times, now, lock_seconds).len() < max_failures,
    ensures
        lock_remaining(recent(times, now, lock_seconds), now, lock_seconds, max_failures) == 0,
{
}

/// A key that was reset (no failures recorded) is not locked, whatever the time.
pub proof fn lemma_reset_unlocks(now: u64, lock_seconds: u64, max_failures: usize)
    requires
        max_failures > 0,
    ensures
        lock_remaining(recent(Seq::<u64>::empty(), now, lock_seconds), now, lock_seconds, max_failures) == 0,
{
    reveal_with_fuel(Seq::filter, 1);
}

/// A locked key is locked for at most the whole window (at least one second).
pub proof fn lemma_lock_bounded(times: Seq<u64>, now: u64, lock_seconds: u64, max_failures: usize)
    ensures
        lock_remaining(recent(times, now, lock_seconds), now, lock_seconds, max_failures)
            <= (if lock_seconds >= 1 { lock_seconds as nat } else { 1 }),
{
}

/// A failure recorded now counts at once: the attempts that count after
/// recording one at `now` are those that counted before, then this one
/// (for any window of at least one second).
pub proof fn lemma_fresh_failure_counts(times: Seq<u64>, now: u64, lock_seconds: u64)
    requires
        lock_seconds >= 1,
    ensures
        recent(times.push(now), now, lock_seconds) == recent(times, now, lock_seconds).push(now),
{
    reveal_with_fuel(Seq::filter, 1);
    assert(times.push(now).drop_last() =~= times);
}

} // verus!
