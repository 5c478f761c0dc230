//! Login: username shape, the sliding-window rate limiter for failed
//! attempts, the second-factor gate and the role a system user gets.
use vstd::prelude::*;

use crate::text::{chars_of, is_ascii_alnum, is_ascii_alnum_exec, split_whitespace, str_eq, views, words};

verus! {

// ---------------------------------------------------------------------------
// Rate limiting
// ---------------------------------------------------------------------------
/// The attempts of `ts` still inside the window at `now`: those less than
/// `window` ago (an attempt stamped after `now` counts as zero ago).
pub open spec fn recent(ts: Seq<u64>, now: u64, window: u64) -> Seq<u64>
    decreases ts.len(),
{
    if ts.len() == 0 {
        Seq::empty()
    } else {
        recent(ts.drop_last(), now, window) + if (if now >= ts.last() {
            now - ts.last()
        } else {
            0
        }) < window {
            seq![ts.last()]
        } else {
            Seq::empty()
        }
    }
}

/// Failed attempts per key within a sliding window. Times are
/// milliseconds of a monotonic clock.
#[derive(Debug, Clone)]
pub struct LoginRateLimiter {
    attempts: Vec<(String, Vec<u64>)>,
    max_attempts: usize,
    window_ms: u64,
}

/// First entry for `key`, from `i` on.
pub open spec fn entry_of(es: Seq<(Seq<char>, Seq<u64>)>, key: Seq<char>, i: int) -> Option<int>
    decreases es.len() - i,
{
    if i < 0 || i >= es.len() {
        None
    } else if es[i].0 == key {
        Some(i)
    } else {
        entry_of(es, key, i + 1)
    }
}

proof fn lemma_entry_of(es: Seq<(Seq<char>, Seq<u64>)>, key: Seq<char>, i: int)
    ensures
        entry_of(es, key, i) matches Some(j) ==> 0 <= j < es.len() && es[j].0 == key,
    decreases es.len() - i,
{
    if 0 <= i < es.len() && es[i].0 != key {
        lemma_entry_of(es, key, i + 1);
    }
}

/// Every entry with its attempts trimmed to the window, dropping the empty ones.
pub open spec fn pruned(es: Seq<(Seq<char>, Seq<u64>)>, now: u64, window: u64) -> Seq<(Seq<char>, Seq<u64>)>
    decreases es.len(),
{
    if es.len() == 0 {
        Seq::empty()
    } else {
        pruned(es.drop_last(), now, window) + if recent(es.last().1, now, window).len() > 0 {
            seq![(es.last().0, recent(es.last().1, now, window))]
        } else {
            Seq::empty()
        }
    }
}

/// The entries without any for `key`.
pub open spec fn without(es: Seq<(Seq<char>, Seq<u64>)>, key: Seq<char>) -> Seq<(Seq<char>, Seq<u64>)>
    decreases es.len(),
{
    if es.len() == 0 {
        Seq::empty()
    } else {
        without(es.drop_last(), key) + if es.last().0 == key {
            Seq::empty()
        } else {
            seq![es.last()]
        }
    }
}

/// More than this many keys triggers a sweep of stale entries.
pub open spec fn sweep_threshold() -> int {
    1000
}

fn trim_window(ts: &Vec<u64>, now: u64, window: u64) -> (r: Vec<u64>)
    ensures
        r@ == recent(ts@, now, window),
{
    let mut out: Vec<u64> = Vec::new();
    let mut i: usize = 0;
    while i < ts.len()
        invariant
            i <= ts@.len(),
            out@ == recent(ts@.subrange(0, i as int), now, window),
        decreases ts.len() - i,
    {
        let t = ts[i];
        let age = if now >= t {
            now - t
        } else {
            0
        };
        if age < window {
            out.push(t);
        }
        proof {
            let s = ts@.subrange(0, i + 1);
            assert(s.drop_last() =~= ts@.subrange(0, i as int));
            assert(out@ =~= recent(s, now, window));
        }
        i = i + 1;
    }
    proof {
        assert(ts@.subrange(0, ts@.len() as int) =~= ts@);
    }
    out
}

/// The entries after a failure for `key` at `now`: past a thousand keys the
/// stale ones are swept first, then the key's attempts are trimmed to the
/// window and `now` is added.
pub open spec fn after_failure(es: Seq<(Seq<char>, Seq<u64>)>, key: Seq<char>, now: u64, window: u64) -> Seq<(Seq<char>, Seq<u64>)> {
    let swept = if es.len() > sweep_threshold() {
        pruned(es, now, window)
    } else {
        es
    };
    match entry_of(swept, key, 0) {
        Some(i) => swept.update(i, (key, recent(swept[i].1, now, window).push(now))),
        None => swept.push((key, seq![now])),
    }
}

/// The failed attempts counted against `key` at `now`.
pub open spec fn attempts_at(es: Seq<(Seq<char>, Seq<u64>)>, key: Seq<char>, now: u64, window: u64) -> nat {
    match entry_of(es, key, 0) {
        Some(i) => recent(es[i].1, now, window).len(),
        None => 0,
    }
}

/// One entry per key, as the limiter keeps them.
pub open spec fn keys_distinct(es: Seq<(Seq<char>, Seq<u64>)>) -> bool {
    forall|i: int, j: int| 0 <= i < j < es.len() ==> (#[trigger] es[i]).0 != (#[trigger] es[j]).0
}

/// `n` failures for `key` recorded at `now`, one after another.
pub open spec fn failures(es: Seq<(Seq<char>, Seq<u64>)>, key: Seq<char>, now: u64, window: u64, n: nat) -> Seq<(Seq<char>, Seq<u64>)>
    decreases n,
{
    if n == 0 {
        es
    } else {
        after_failure(failures(es, key, now, window, (n - 1) as nat), key, now, window)
    }
}

proof fn lemma_recent_push(ts: Seq<u64>, t: u64, now: u64, window: u64)
    ensures
        recent(ts.push(t), now, window) == recent(ts, now, window) + if (if now >= t {
            now - t
        } else {
            0
        }) < window {
            seq![t]
        } else {
            Seq::empty()
        },
{
    assert(ts.push(t).drop_last() =~= ts);
}

proof fn lemma_recent_idempotent(ts: Seq<u64>, now: u64, window: u64)
    ensures
        recent(recent(ts, now, window), now, window) == recent(ts, now, window),
    decreases ts.len(),
{
    if ts.len() > 0 {
        let p = ts.drop_last();
        let t = ts.last();
        lemma_recent_idempotent(p, now, window);
        let kept = (if now >= t {
            now - t
        } else {
            0
        }) < window;
        if kept {
            lemma_recent_push(recent(p, now, window), t, now, window);
            assert(recent(p, now, window) + seq![t] == recent(p, now, window).push(t));
        } else {
            assert(recent(p, now, window) + Seq::<u64>::empty() =~= recent(p, now, window));
        }
    }
}

proof fn lemma_entry_at(es: Seq<(Seq<char>, Seq<u64>)>, key: Seq<char>, j: int, i: int)
    requires
        0 <= j <= i < es.len(),
        es[i].0 == key,
        forall|m: int| j <= m < i ==> (#[trigger] es[m]).0 != key,
    ensures
        entry_of(es, key, j) == Some(i),
    decreases i - j,
{
    if j < i {
        lemma_entry_at(es, key, j + 1, i);
    }
}

proof fn lemma_entry_none(es: Seq<(Seq<char>, Seq<u64>)>, key: Seq<char>, j: int)
    requires
        0 <= j,
    ensures
        entry_of(es, key, j) is None <==> forall|m: int| j <= m < es.len() ==> (#[trigger] es[m]).0 != key,
    decreases es.len() - j,
{
    if j < es.len() {
        lemma_entry_none(es, key, j + 1);
    }
}

proof fn lemma_entry_unique(es: Seq<(Seq<char>, Seq<u64>)>, key: Seq<char>, i: int)
    requires
        keys_distinct(es),
        0 <= i < es.len(),
        es[i].0 == key,
    ensures
        entry_of(es, key, 0) == Some(i),
{
    assert forall|m: int| 0 <= m < i implies (#[trigger] es[m]).0 != key by {
        assert(es[m].0 != es[i].0);
    }
    lemma_entry_at(es, key, 0, i);
}

/// Every entry of the swept list comes from an entry with the same key,
/// trimmed to the window and not empty.
proof fn lemma_pruned_from(es: Seq<(Seq<char>, Seq<u64>)>, now: u64, window: u64)
    ensures
        forall|k: int|
            0 <= k < pruned(es, now, window).len() ==> exists|j: int|
                0 <= j < es.len() && #[trigger] pruned(es, now, window)[k] == (es[j].0, recent(
                    es[j].1,
                    now,
                    window,
                )) && recent(es[j].1, now, window).len() > 0,
    decreases es.len(),
{
    if es.len() > 0 {
        let p = es.drop_last();
        lemma_pruned_from(p, now, window);
        let q = pruned(p, now, window);
        let r = pruned(es, now, window);
        let n = es.len() - 1;
        let keep = recent(es[n].1, now, window).len() > 0;
        assert(r == q + if keep {
            seq![(es[n].0, recent(es[n].1, now, window))]
        } else {
            Seq::empty()
        });
        assert forall|k: int| 0 <= k < r.len() implies exists|j: int|
            0 <= j < es.len() && #[trigger] r[k] == (es[j].0, recent(es[j].1, now, window)) && recent(
                es[j].1,
                now,
                window,
            ).len() > 0 by {
            if k < q.len() {
                assert(r[k] == q[k]);
                let j = choose|j: int|
                    0 <= j < p.len() && #[trigger] q[k] == (p[j].0, recent(p[j].1, now, window)) && recent(
                        p[j].1,
                        now,
                        window,
                    ).len() > 0;
                assert(es[j] == p[j]);
            } else {
                assert(r[k] == (es[n].0, recent(es[n].1, now, window)));
            }
        }
    }
}

/// Each key with attempts still in the window keeps its entry.
proof fn lemma_pruned_keeps(es: Seq<(Seq<char>, Seq<u64>)>, now: u64, window: u64)
    ensures
        forall|j: int|
            0 <= j < es.len() && recent((#[trigger] es[j]).1, now, window).len() > 0 ==> exists|k: int|
                0 <= k < pruned(es, now, window).len() && pruned(es, now, window)[k] == (es[j].0, recent(
                    es[j].1,
                    now,
                    window,
                )),
    decreases es.len(),
{
    if es.len() > 0 {
        let p = es.drop_last();
        lemma_pruned_keeps(p, now, window);
        let q = pruned(p, now, window);
        let r = pruned(es, now, window);
        let n = es.len() - 1;
        let keep = recent(es[n].1, now, window).len() > 0;
        assert(r == q + if keep {
            seq![(es[n].0, recent(es[n].1, now, window))]
        } else {
            Seq::empty()
        });
        assert forall|j: int|
            0 <= j < es.len() && recent((#[trigger] es[j]).1, now, window).len() > 0 implies exists|k: int|
                0 <= k < r.len() && r[k] == (es[j].0, recent(es[j].1, now, window)) by {
            if j < n {
                assert(es[j] == p[j]);
                assert(recent(p[j].1, now, window).len() > 0);
                let k = choose|k: int| 0 <= k < q.len() && q[k] == (p[j].0, recent(p[j].1, now, window));
                assert(r[k] == q[k]);
            } else {
                assert(r[q.len() as int] == (es[n].0, recent(es[n].1, now, window)));
            }
        }
    }
}

/// Sweeping keeps one entry per key.
proof fn lemma_pruned_distinct(es: Seq<(Seq<char>, Seq<u64>)>, now: u64, window: u64)
    requires
        keys_distinct(es),
    ensures
        keys_distinct(pruned(es, now, window)),
    decreases es.len(),
{
    if es.len() > 0 {
        let p = es.drop_last();
        assert(keys_distinct(p)) by {
            assert forall|i: int, j: int| 0 <= i < j < p.len() implies (#[trigger] p[i]).0 != (#[trigger] p[j]).0 by {
                assert(p[i] == es[i] && p[j] == es[j]);
            }
        }
        lemma_pruned_distinct(p, now, window);
        lemma_pruned_from(p, now, window);
        let q = pruned(p, now, window);
        let r = pruned(es, now, window);
        let n = es.len() - 1;
        let keep = recent(es[n].1, now, window).len() > 0;
        assert(r == q + if keep {
            seq![(es[n].0, recent(es[n].1, now, window))]
        } else {
            Seq::empty()
        });
        assert forall|i: int, j: int| 0 <= i < j < r.len() implies (#[trigger] r[i]).0 != (#[trigger] r[j]).0 by {
            if j < q.len() {
                assert(r[i] == q[i] && r[j] == q[j]);
            } else {
                assert(r[i] == q[i]);
                assert(r[j].0 == es[n].0);
                let m = choose|m: int|
                    0 <= m < p.len() && #[trigger] q[i] == (p[m].0, recent(p[m].1, now, window)) && recent(
                        p[m].1,
                        now,
                        window,
                    ).len() > 0;
                assert(es[m] == p[m]);
                assert(es[m].0 != es[n].0);
            }
        }
    }
}

proof fn lemma_sweep_keeps_counts(es: Seq<(Seq<char>, Seq<u64>)>, key: Seq<char>, now: u64, window: u64)
    requires
        keys_distinct(es),
    ensures
        keys_distinct(pruned(es, now, window)),
        attempts_at(pruned(es, now, window), key, now, window) == attempts_at(es, key, now, window),
{
    lemma_pruned_from(es, now, window);
    lemma_pruned_keeps(es, now, window);
    lemma_pruned_distinct(es, now, window);
    let r = pruned(es, now, window);
    lemma_entry_of(es, key, 0);
    lemma_entry_of(r, key, 0);
    match entry_of(es, key, 0) {
        Some(i) => {
            if recent(es[i].1, now, window).len() > 0 {
                let k = choose|k: int| 0 <= k < r.len() && r[k] == (es[i].0, recent(es[i].1, now, window));
                lemma_entry_unique(r, key, k);
                lemma_recent_idempotent(es[i].1, now, window);
            } else {
                assert forall|m: int| 0 <= m < r.len() implies (#[trigger] r[m]).0 != key by {
                    let j = choose|j: int|
                        0 <= j < es.len() && #[trigger] r[m] == (es[j].0, recent(es[j].1, now, window))
                            && recent(es[j].1, now, window).len() > 0;
                    if es[j].0 == key {
                        lemma_entry_unique(es, key, j);
                    }
                }
                lemma_entry_none(r, key, 0);
            }
        },
        None => {
            lemma_entry_none(es, key, 0);
            assert forall|m: int| 0 <= m < r.len() implies (#[trigger] r[m]).0 != key by {
                let j = choose|j: int|
                    0 <= j < es.len() && #[trigger] r[m] == (es[j].0, recent(es[j].1, now, window))
                        && recent(es[j].1, now, window).len() > 0;
                assert(es[j].0 != key);
            }
            lemma_entry_none(r, key, 0);
        },
    }
}

/// Recording a failure adds exactly one attempt to the key's count in the
/// window, sweep or not, and keeps one entry per key.
pub proof fn lemma_failure_adds_one(es: Seq<(Seq<char>, Seq<u64>)>, key: Seq<char>, now: u64, window: u64)
    requires
        keys_distinct(es),
    ensures
        keys_distinct(after_failure(es, key, now, window)),
        window > 0 ==> attempts_at(after_failure(es, key, now, window), key, now, window) == attempts_at(
            es,
            key,
            now,
            window,
        ) + 1,
{
    let swept = if es.len() > sweep_threshold() {
        pruned(es, now, window)
    } else {
        es
    };
    if es.len() > sweep_threshold() {
        lemma_sweep_keeps_counts(es, key, now, window);
    }
    lemma_entry_of(swept, key, 0);
    let r = after_failure(es, key, now, window);
    match entry_of(swept, key, 0) {
        Some(i) => {
            let kept = recent(swept[i].1, now, window);
            assert forall|a: int, b: int| 0 <= a < b < r.len() implies (#[trigger] r[a]).0 != (#[trigger] r[b]).0 by {
                assert(r[a].0 == swept[a].0 && r[b].0 == swept[b].0);
            }
            lemma_entry_unique(r, key, i);
            lemma_recent_push(kept, now, now, window);
            lemma_recent_idempotent(swept[i].1, now, window);
        },
        None => {
            lemma_entry_none(swept, key, 0);
            assert forall|a: int, b: int| 0 <= a < b < r.len() implies (#[trigger] r[a]).0 != (#[trigger] r[b]).0 by {
                if b == swept.len() {
                    assert(r[a] == swept[a]);
                } else {
                    assert(r[a] == swept[a] && r[b] == swept[b]);
                }
            }
            lemma_entry_unique(r, key, swept.len() as int);
            lemma_recent_push(Seq::<u64>::empty(), now, now, window);
            assert(seq![now] == Seq::<u64>::empty().push(now));
        },
    }
}

/// `n` failures at one moment leave exactly `n` more attempts counted, so
/// a key is limited once `max_attempts` of them fall inside the window.
pub proof fn lemma_failures_count(es: Seq<(Seq<char>, Seq<u64>)>, key: Seq<char>, now: u64, window: u64, n: nat)
    requires
        keys_distinct(es),
        window > 0,
    ensures
        keys_distinct(failures(es, key, now, window, n)),
        attempts_at(failures(es, key, now, window, n), key, now, window) == attempts_at(es, key, now, window) + n,
    decreases n,
{
    if n > 0 {
        lemma_failures_count(es, key, now, window, (n - 1) as nat);
        lemma_failure_adds_one(failures(es, key, now, window, (n - 1) as nat), key, now, window);
    }
}

proof fn lemma_without_from(es: Seq<(Seq<char>, Seq<u64>)>, key: Seq<char>)
    ensures
        forall|k: int|
            0 <= k < without(es, key).len() ==> exists|j: int| 0 <= j < es.len() && #[trigger] without(es, key)[k] == es[j],
    decreases es.len(),
{
    if es.len() > 0 {
        let p = es.drop_last();
        lemma_without_from(p, key);
        let q = without(p, key);
        let r = without(es, key);
        assert forall|k: int| 0 <= k < r.len() implies exists|j: int| 0 <= j < es.len() && #[trigger] r[k] == es[j] by {
            if k < q.len() {
                assert(r[k] == q[k]);
                let j = choose|j: int| 0 <= j < p.len() && #[trigger] q[k] == p[j];
                assert(es[j] == p[j]);
            } else {
                assert(r[k] == es[es.len() - 1]);
            }
        }
    }
}

/// Forgetting a key keeps one entry per key.
proof fn lemma_without_distinct(es: Seq<(Seq<char>, Seq<u64>)>, key: Seq<char>)
    requires
        keys_distinct(es),
    ensures
        keys_distinct(without(es, key)),
    decreases es.len(),
{
    if es.len() > 0 {
        let p = es.drop_last();
        assert(keys_distinct(p)) by {
            assert forall|i: int, j: int| 0 <= i < j < p.len() implies (#[trigger] p[i]).0 != (#[trigger] p[j]).0 by {
                assert(p[i] == es[i] && p[j] == es[j]);
            }
        }
        lemma_without_distinct(p, key);
        lemma_without_from(p, key);
        let q = without(p, key);
        let r = without(es, key);
        let n = es.len() - 1;
        assert forall|i: int, j: int| 0 <= i < j < r.len() implies (#[trigger] r[i]).0 != (#[trigger] r[j]).0 by {
            if j < q.len() {
                assert(r[i] == q[i] && r[j] == q[j]);
            } else {
                assert(r[i] == q[i]);
                assert(r[j] == es[n]);
                let m = choose|m: int| 0 <= m < p.len() && #[trigger] q[i] == p[m];
                assert(es[m] == p[m]);
            }
        }
    }
}

impl LoginRateLimiter {
    /// The entries, keys and times taken by value.
    pub closed spec fn entries(&self) -> Seq<(Seq<char>, Seq<u64>)> {
        self.attempts@.map_values(|e: (String, Vec<u64>)| (e.0@, e.1@))
    }

    pub closed spec fn max(&self) -> usize {
        self.max_attempts
    }

    pub closed spec fn window(&self) -> u64 {
        self.window_ms
    }

    /// A limiter that blocks at `max_attempts` failures within `window_secs`.
    pub fn new(max_attempts: usize, window_secs: u64) -> (r: Self)
        ensures
            r.entries().len() == 0,
            keys_distinct(r.entries()),
            r.max() == max_attempts,
            r.window() == crate::num::clamp(window_secs * 1000, 0, u64::MAX as int),
    {
        let r = LoginRateLimiter {
            attempts: Vec::new(),
            max_attempts,
            window_ms: crate::num::sat_mul_u64(window_secs, 1000),
        };
        assert(r.entries() =~= Seq::empty());
        r
    }

    fn find(&self, key: &str) -> (r: Option<usize>)
        ensures
            entry_of(self.entries(), key@, 0) == (match r {
                Some(i) => Some(i as int),
                None => None::<int>,
            }),
            r matches Some(i) ==> i < self.attempts@.len(),
    {
        let mut i: usize = 0;
        while i < self.attempts.len()
            invariant
                i <= self.attempts@.len(),
                entry_of(self.entries(), key@, 0) == entry_of(self.entries(), key@, i as int),
            decreases self.attempts.len() - i,
        {
            assert(self.entries()[i as int].0 == self.attempts@[i as int].0@);
            if str_eq(self.attempts[i].0.as_str(), key) {
                return Some(i);
            }
            i = i + 1;
        }
        None
    }

    /// Whether `key` is blocked at `now`. Its attempts are trimmed to the window.
    pub fn is_limited(&mut self, key: &str, now: u64) -> (r: bool)
        ensures
            final(self).max() == old(self).max(),
            final(self).window() == old(self).window(),
            match entry_of(old(self).entries(), key@, 0) {
                None => !r && final(self).entries() == old(self).entries(),
                Some(i) => {
                    let kept = recent(old(self).entries()[i].1, now, old(self).window());
                    &&& r == (kept.len() >= old(self).max())
                    &&& final(self).entries() == old(self).entries().update(i, (key@, kept))
                },
            },
            r == (entry_of(old(self).entries(), key@, 0) is Some && attempts_at(
                old(self).entries(),
                key@,
                now,
                old(self).window(),
            ) >= old(self).max()),
            keys_distinct(old(self).entries()) ==> keys_distinct(final(self).entries()),
    {
        match self.find(key) {
            None => false,
            Some(i) => {
                let kept = trim_window(&self.attempts[i].1, now, self.window_ms);
                let limited = kept.len() >= self.max_attempts;
                let ghost before = self.entries();
                proof {
                    lemma_entry_of(before, key@, 0);
                    assert(before[i as int].1 == self.attempts@[i as int].1@);
                    assert(attempts_at(before, key@, now, self.window_ms) == kept@.len());
                }
                self.attempts[i].1 = kept;
                proof {
                    let after = before.update(i as int, (key@, recent(before[i as int].1, now, self.window_ms)));
                    assert(self.entries() =~= after);
                    if keys_distinct(before) {
                        assert forall|a: int, b: int| 0 <= a < b < after.len() implies (#[trigger] after[a]).0
                            != (#[trigger] after[b]).0 by {
                            assert(after[a].0 == before[a].0 && after[b].0 == before[b].0);
                        }
                    }
                }
                limited
            },
        }
    }

    /// Records a failed attempt for `key` at `now`. Past a thousand keys,
    /// stale entries are swept first.
    pub fn record_failure(&mut self, key: &str, now: u64)
        ensures
            final(self).max() == old(self).max(),
            final(self).window() == old(self).window(),
            final(self).entries() == after_failure(old(self).entries(), key@, now, old(self).window()),
            keys_distinct(old(self).entries()) ==> keys_distinct(final(self).entries()),
    {
        proof {
            if keys_distinct(self.entries()) {
                lemma_failure_adds_one(self.entries(), key@, now, self.window_ms);
            }
        }
        if self.attempts.len() > 1000 {
            self.sweep(now);
        }
        match self.find(key) {
            Some(i) => {
                let mut kept = trim_window(&self.attempts[i].1, now, self.window_ms);
                kept.push(now);
                let ghost before = self.entries();
                proof {
                    lemma_entry_of(before, key@, 0);
                }
                self.attempts[i].1 = kept;
                proof {
                    assert(self.entries() =~= before.update(
                        i as int,
                        (key@, recent(before[i as int].1, now, self.window_ms).push(now)),
                    ));
                }
            },
            None => {
                let mut times: Vec<u64> = Vec::new();
                times.push(now);
                let ghost before = self.entries();
                self.attempts.push((crate::text::owned(key), times));
                proof {
                    assert(self.entries() =~= before.push((key@, seq![now])));
                }
            },
        }
    }

    fn sweep(&mut self, now: u64)
        ensures
            final(self).entries() == pruned(old(self).entries(), now, old(self).window()),
            final(self).max() == old(self).max(),
            final(self).window() == old(self).window(),
    {
        let ghost es = self.entries();
        let mut old_attempts: Vec<(String, Vec<u64>)> = Vec::new();
        std::mem::swap(&mut old_attempts, &mut self.attempts);
        let ghost src = old_attempts@;
        assert(es == src.map_values(|e: (String, Vec<u64>)| (e.0@, e.1@)));
        let mut out: Vec<(String, Vec<u64>)> = Vec::new();
        let mut done: usize = 0;
        let total = old_attempts.len();
        while old_attempts.len() > 0
            invariant
                done + old_attempts@.len() == src.len(),
                total == src.len(),
                old_attempts@ == src.subrange(done as int, src.len() as int),
                es == src.map_values(|e: (String, Vec<u64>)| (e.0@, e.1@)),
                out@.map_values(|e: (String, Vec<u64>)| (e.0@, e.1@)) == pruned(
                    es.subrange(0, done as int),
                    now,
                    self.window_ms,
                ),
            decreases old_attempts.len(),
        {
            let (k, ts) = old_attempts.remove(0);
            let kept = trim_window(&ts, now, self.window_ms);
            let ghost before = out@.map_values(|e: (String, Vec<u64>)| (e.0@, e.1@));
            if kept.len() > 0 {
                out.push((k, kept));
            }
            proof {
                let t = es.subrange(0, done + 1);
                assert(t.drop_last() =~= es.subrange(0, done as int));
                assert(t.last() == es[done as int]);
                assert(out@.map_values(|e: (String, Vec<u64>)| (e.0@, e.1@)) =~= pruned(t, now, self.window_ms));
                assert(old_attempts@ =~= src.subrange(done + 1, src.len() as int));
            }
            done = done + 1;
        }
        proof {
            assert(es.subrange(0, es.len() as int) =~= es);
        }
        self.attempts = out;
    }

    /// Forgets every attempt for `key`, as after a successful login.
    pub fn clear(&mut self, key: &str)
        ensures
            final(self).entries() == without(old(self).entries(), key@),
            final(self).max() == old(self).max(),
            final(self).window() == old(self).window(),
            keys_distinct(old(self).entries()) ==> keys_distinct(final(self).entries()),
    {
        proof {
            if keys_distinct(self.entries()) {
                lemma_without_distinct(self.entries(), key@);
            }
        }
        let ghost es = self.entries();
        let mut old_attempts: Vec<(String, Vec<u64>)> = Vec::new();
        std::mem::swap(&mut old_attempts, &mut self.attempts);
        let ghost src = old_attempts@;
        let mut out: Vec<(String, Vec<u64>)> = Vec::new();
        let mut done: usize = 0;
        let total = old_attempts.len();
        while old_attempts.len() > 0
            invariant
                done + old_attempts@.len() == src.len(),
                total == src.len(),
                old_attempts@ == src.subrange(done as int, src.len() as int),
                es == src.map_values(|e: (String, Vec<u64>)| (e.0@, e.1@)),
                out@.map_values(|e: (String, Vec<u64>)| (e.0@, e.1@)) == without(
                    es.subrange(0, done as int),
                    key@,
                ),
            decreases old_attempts.len(),
        {
            let e = old_attempts.remove(0);
            let same = str_eq(e.0.as_str(), key);
            if !same {
                out.push(e);
            }
            proof {
                let t = es.subrange(0, done + 1);
                assert(t.drop_last() =~= es.subrange(0, done as int));
                assert(t.last() == es[done as int]);
                assert(out@.map_values(|e: (String, Vec<u64>)| (e.0@, e.1@)) =~= without(t, key@));
                assert(old_attempts@ =~= src.subrange(done + 1, src.len() as int));
            }
            done = done + 1;
        }
        proof {
            assert(es.subrange(0, es.len() as int) =~= es);
        }
        self.attempts = out;
    }
}

proof fn lemma_without_has_no_entry(es: Seq<(Seq<char>, Seq<u64>)>, key: Seq<char>, i: int)
    requires
        0 <= i,
    ensures
        entry_of(without(es, key), key, i) is None,
    decreases es.len(), without(es, key).len() - i,
{
    let w = without(es, key);
    if i < w.len() {
        if es.len() > 0 {
            let p = without(es.drop_last(), key);
            if i < p.len() {
                assert(w[i] == p[i]);
                lemma_without_has_no_entry(es.drop_last(), key, i);
                lemma_entry_suffix(p, key, i);
            } else {
                assert(w[i] == es.last());
            }
        }
        lemma_without_has_no_entry(es, key, i + 1);
    }
}

proof fn lemma_entry_suffix(es: Seq<(Seq<char>, Seq<u64>)>, key: Seq<char>, i: int)
    requires
        0 <= i < es.len(),
        entry_of(es, key, i) is None,
    ensures
        es[i].0 != key,
{
}

/// A cleared key is not limited: after `clear`, no entry for it remains.
pub proof fn lemma_clear_unblocks(es: Seq<(Seq<char>, Seq<u64>)>, key: Seq<char>)
    ensures
        entry_of(without(es, key), key, 0) is None,
{
    lemma_without_has_no_entry(es, key, 0);
}

// ---------------------------------------------------------------------------
// Login decisions
// ---------------------------------------------------------------------------
#[derive(Debug, Clone)]
pub struct LoginRequest {
    pub username: String,
    pub password: String,
    pub totp_code: Option<String>,
}

#[derive(Debug, Clone)]
pub struct LoginResponse {
    pub token: String,
    pub user_id: String,
    pub role: String,
    pub username: String,
}

#[derive(Debug, Clone)]
pub struct MeResponse {
    pub id: String,
    pub username: String,
    pub role: String,
}

#[derive(Debug, Clone)]
pub struct TotpSetupResponse {
    pub secret: String,
    pub otpauth_url: String,
}

#[derive(Debug, Clone)]
pub struct TotpVerifyRequest {
    pub code: String,
}

pub open spec fn username_char(c: char) -> bool {
    is_ascii_alnum(c) || c == '-' || c == '_' || c == '.'
}

/// A login name of 1 to 64 ASCII letters, digits, `-`, `_` or `.`.
pub open spec fn valid_username(u: Seq<char>) -> bool {
    0 < u.len() <= 64 && forall|i: int| 0 <= i < u.len() ==> username_char(#[trigger] u[i])
}

/// Whether a login name has the accepted shape.
pub fn valid_login_username(username: &str) -> (r: bool)
    ensures
        r == valid_username(username@),
{
    let v = chars_of(username);
    if v.len() == 0 || v.len() > 64 {
        return false;
    }
    let mut i: usize = 0;
    while i < v.len()
        invariant
            i <= v@.len(),
            v@ == username@,
            forall|j: int| 0 <= j < i ==> username_char(#[trigger] v@[j]),
        decreases v.len() - i,
    {
        let c = v[i];
        if !(is_ascii_alnum_exec(c) || c == '-' || c == '_' || c == '.') {
            return false;
        }
        i = i + 1;
    }
    true
}

/// Whether `id -Gn` output names an admin group: `wheel`, `sudo` or `adm`.
pub fn in_admin_group(groups: &str) -> (r: bool)
    ensures
        r == exists|i: int|
            0 <= i < words(groups@).len() && (#[trigger] words(groups@)[i] == "wheel"@ || words(
                groups@,
            )[i] == "sudo"@ || words(groups@)[i] == "adm"@),
{
    let ws = split_whitespace(groups);
    let mut i: usize = 0;
    while i < ws.len()
        invariant
            i <= ws@.len(),
            views(ws@) == words(groups@),
            forall|j: int|
                0 <= j < i ==> !(#[trigger] views(ws@)[j] == "wheel"@ || views(ws@)[j] == "sudo"@
                    || views(ws@)[j] == "adm"@),
        decreases ws.len() - i,
    {
        let w = ws[i].as_str();
        if str_eq(w, "wheel") || str_eq(w, "sudo") || str_eq(w, "adm") {
            assert(views(ws@)[i as int] == ws@[i as int]@);
            return true;
        }
        assert(views(ws@)[i as int] == ws@[i as int]@);
        i = i + 1;
    }
    false
}

/// A user's role.
#[derive(Debug, Clone, Copy, PartialEq, Eq, Structural)]
pub enum UserRole {
    Admin,
    User,
    Viewer,
}

impl UserRole {
    /// The role's name in responses.
    pub fn as_str(&self) -> (r: &'static str)
        ensures
            r@ == (match *self {
                UserRole::Admin => "admin"@,
                UserRole::User => "user"@,
                UserRole::Viewer => "viewer"@,
            }),
    {
        match self {
            UserRole::Admin => "admin",
            UserRole::User => "user",
            UserRole::Viewer => "viewer",
        }
    }
}

/// The role of a system (PAM) user: `root` and members of an admin group
/// are admins, everyone else a user.
pub fn system_user_role(username: &str, in_admin: bool) -> (r: UserRole)
    ensures
        r == (if username@ == "root"@ || in_admin {
            UserRole::Admin
        } else {
            UserRole::User
        }),
{
    if str_eq(username, "root") || in_admin {
        UserRole::Admin
    } else {
        UserRole::User
    }
}

/// What the second factor asks of a login.
#[derive(Debug, Clone, Copy, PartialEq, Eq, Structural)]
pub enum SecondFactor {
    /// No TOTP configured: the password suffices.
    NotRequired,
    /// TOTP configured and no code sent: answer 403 asking for one.
    CodeRequired,
    /// TOTP configured and a code sent: verify it against the secret.
    Verify,
}

/// The second-factor step for a user with or without TOTP enabled.
pub fn second_factor(totp_enabled: bool, code_sent: bool) -> (r: SecondFactor)
    ensures
        r == (if !totp_enabled {
            SecondFactor::NotRequired
        } else if !code_sent {
            SecondFactor::CodeRequired
        } else {
            SecondFactor::Verify
        }),
{
    if !totp_enabled {
        SecondFactor::NotRequired
    } else if !code_sent {
        SecondFactor::CodeRequired
    } else {
        SecondFactor::Verify
    }
}

// ---------------------------------------------------------------------------
// The login decision
// ---------------------------------------------------------------------------
/// The entries after asking whether `key` is limited at `now`: its
/// attempts trimmed to the window.
pub open spec fn after_check(es: Seq<(Seq<char>, Seq<u64>)>, key: Seq<char>, now: u64, window: u64) -> Seq<
    (Seq<char>, Seq<u64>),
> {
    match entry_of(es, key, 0) {
        Some(i) => es.update(i, (key, recent(es[i].1, now, window))),
        None => es,
    }
}

/// Whether `key` has `max` or more failures in the window at `now`.
pub open spec fn limited_at(es: Seq<(Seq<char>, Seq<u64>)>, key: Seq<char>, now: u64, window: u64, max: usize) -> bool {
    entry_of(es, key, 0) is Some && attempts_at(es, key, now, window) >= max
}

/// The key under which every failed login is also counted.
pub open spec fn global_key() -> Seq<char> {
    "__global__"@
}

/// How a check made outside the library came out.
#[derive(Debug, Clone, Copy, PartialEq, Eq, Structural)]
pub enum Check {
    Passed,
    Failed,
    /// The check itself could not be made.
    Errored,
}

/// The second factor of a login.
#[derive(Debug, Clone, Copy, PartialEq, Eq, Structural)]
pub enum TotpCheck {
    /// TOTP is not enabled for the user.
    Off,
    /// TOTP is enabled and no code was sent.
    Missing,
    /// A code was sent and no secret is stored to check it against.
    NoSecret,
    /// A code was checked against the stored secret.
    Checked(Check),
}

/// What the credentials of a login came to, by where the user lives.
#[derive(Debug, Clone)]
pub enum Credentials {
    /// A user of the account store, its password checked there.
    Stored { user_id: String, role: UserRole, password: Check, totp: TotpCheck },
    /// A system user, its password checked by PAM; `totp` is the second
    /// factor the account store asks of it, `admin_group` whether `id -Gn`
    /// lists an admin group.
    System { answer: Check, totp: TotpCheck, admin_group: bool },
}

/// Why a login is refused.
#[derive(Debug, Clone, Copy, PartialEq, Eq, Structural)]
pub enum LoginRefusal {
    InvalidUsername,
    TooManyAttempts,
    AuthDisabled,
    InvalidCredentials,
    CodeRequired,
    InvalidCode,
    Internal,
}

impl LoginRefusal {
    /// The HTTP status of the refusal.
    pub fn status(&self) -> (r: u16)
        ensures
            r == (match *self {
                LoginRefusal::InvalidUsername => 400u16,
                LoginRefusal::TooManyAttempts => 429,
                LoginRefusal::AuthDisabled => 503,
                LoginRefusal::InvalidCredentials => 401,
                LoginRefusal::CodeRequired => 403,
                LoginRefusal::InvalidCode => 401,
                LoginRefusal::Internal => 500,
            }),
    {
        match self {
            LoginRefusal::InvalidUsername => 400,
            LoginRefusal::TooManyAttempts => 429,
            LoginRefusal::AuthDisabled => 503,
            LoginRefusal::InvalidCredentials => 401,
            LoginRefusal::CodeRequired => 403,
            LoginRefusal::InvalidCode => 401,
            LoginRefusal::Internal => 500,
        }
    }

    /// The message of the refusal.
    pub fn message(&self) -> (r: &'static str)
        ensures
            r@ == (match *self {
                LoginRefusal::InvalidUsername => "Invalid username format"@,
                LoginRefusal::TooManyAttempts => "Too many login attempts, try again later"@,
                LoginRefusal::AuthDisabled => "Authentication is disabled on this server (auth.enabled = false); login is not available. All requests are treated as an anonymous, read-only viewer."@,
                LoginRefusal::InvalidCredentials => "Invalid credentials"@,
                LoginRefusal::CodeRequired => "2FA code required"@,
                LoginRefusal::InvalidCode => "Invalid 2FA code"@,
                LoginRefusal::Internal => "Internal server error"@,
            }),
    {
        match self {
            LoginRefusal::InvalidUsername => "Invalid username format",
            LoginRefusal::TooManyAttempts => "Too many login attempts, try again later",
            LoginRefusal::AuthDisabled => "Authentication is disabled on this server (auth.enabled = false); login is not available. All requests are treated as an anonymous, read-only viewer.",
            LoginRefusal::InvalidCredentials => "Invalid credentials",
            LoginRefusal::CodeRequired => "2FA code required",
            LoginRefusal::InvalidCode => "Invalid 2FA code",
            LoginRefusal::Internal => "Internal server error",
        }
    }
}

/// The refusal the second factor gives, if any.
pub open spec fn totp_refusal(t: TotpCheck) -> Option<LoginRefusal> {
    match t {
        TotpCheck::Off => None,
        TotpCheck::Missing => Some(LoginRefusal::CodeRequired),
        TotpCheck::NoSecret => None,
        TotpCheck::Checked(Check::Passed) => None,
        TotpCheck::Checked(Check::Failed) => Some(LoginRefusal::InvalidCode),
        TotpCheck::Checked(Check::Errored) => Some(LoginRefusal::Internal),
    }
}

/// The answer to credentials that reached the check: the user id and role
/// of the caller, or why not.
pub open spec fn credential_outcome(c: Credentials, username: Seq<char>) -> Result<(Seq<char>, UserRole), LoginRefusal> {
    match c {
        Credentials::Stored { user_id, role, password, totp } => match password {
            Check::Errored => Err(LoginRefusal::Internal),
            Check::Failed => Err(LoginRefusal::InvalidCredentials),
            Check::Passed => match totp_refusal(totp) {
                Some(e) => Err(e),
                None => Ok((user_id@, role)),
            },
        },
        Credentials::System { answer, totp, admin_group } => match answer {
            Check::Errored => Err(LoginRefusal::Internal),
            Check::Failed => Err(LoginRefusal::InvalidCredentials),
            Check::Passed => match totp_refusal(totp) {
                Some(e) => Err(e),
                None => Ok(
                    (
                        username,
                        if username == "root"@ || admin_group {
                            UserRole::Admin
                        } else {
                            UserRole::User
                        },
                    ),
                ),
            },
        },
    }
}

/// The password was wrong: the attempt counts as a failure.
pub open spec fn password_refused(c: Credentials) -> bool {
    match c {
        Credentials::Stored { password, .. } => password == Check::Failed,
        Credentials::System { answer, .. } => answer == Check::Failed,
    }
}

/// The password was right and the second-factor code wrong: the attempt
/// counts as a failure too.
pub open spec fn code_refused(c: Credentials) -> bool {
    match c {
        Credentials::Stored { password, totp, .. } => password == Check::Passed && totp == TotpCheck::Checked(
            Check::Failed,
        ),
        Credentials::System { answer, totp, .. } => answer == Check::Passed && totp == TotpCheck::Checked(
            Check::Failed,
        ),
    }
}

/// The attempt counts as a failure, for the user and globally.
pub open spec fn counts_failure(c: Credentials) -> bool {
    password_refused(c) || code_refused(c)
}

/// The user's entries after credentials that reached the check: a refused
/// password or code is recorded as a failure; the user's failures are
/// forgotten only once both factors pass.
pub open spec fn user_after(
    c: Credentials,
    es: Seq<(Seq<char>, Seq<u64>)>,
    key: Seq<char>,
    now: u64,
    window: u64,
) -> Seq<(Seq<char>, Seq<u64>)> {
    if counts_failure(c) {
        after_failure(es, key, now, window)
    } else if credential_outcome(c, key) is Ok {
        without(es, key)
    } else {
        es
    }
}

fn totp_gate(t: TotpCheck) -> (r: Option<LoginRefusal>)
    ensures
        r == totp_refusal(t),
{
    match t {
        TotpCheck::Off => None,
        TotpCheck::Missing => Some(LoginRefusal::CodeRequired),
        TotpCheck::NoSecret => None,
        TotpCheck::Checked(Check::Passed) => None,
        TotpCheck::Checked(Check::Failed) => Some(LoginRefusal::InvalidCode),
        TotpCheck::Checked(Check::Errored) => Some(LoginRefusal::Internal),
    }
}

proof fn lemma_after_check(es: Seq<(Seq<char>, Seq<u64>)>, key: Seq<char>, now: u64, window: u64)
    requires
        keys_distinct(es),
    ensures
        keys_distinct(after_check(es, key, now, window)),
        attempts_at(after_check(es, key, now, window), key, now, window) == attempts_at(es, key, now, window),
{
    lemma_entry_of(es, key, 0);
    let r = after_check(es, key, now, window);
    if let Some(i) = entry_of(es, key, 0) {
        assert forall|a: int, b: int| 0 <= a < b < r.len() implies (#[trigger] r[a]).0 != (#[trigger] r[b]).0 by {
            assert(r[a].0 == es[a].0 && r[b].0 == es[b].0);
        }
        lemma_entry_unique(r, key, i);
        lemma_recent_idempotent(es[i].1, now, window);
    }
}

/// Decides a login. The username must have the accepted shape; then the
/// user's limiter and the global one must not be at their limit, in that
/// order (asking trims the asked key's attempts); then authentication must
/// be on. Only then do the credentials count: a wrong password or a wrong
/// second-factor code is recorded as a failure for the user and globally,
/// and only a login that passes both factors forgets the user's failures.
pub fn login(
    users: &mut LoginRateLimiter,
    global: &mut LoginRateLimiter,
    username: &str,
    now: u64,
    auth_enabled: bool,
    creds: Credentials,
) -> (r: Result<(String, UserRole), LoginRefusal>)
    requires
        keys_distinct(old(users).entries()),
        keys_distinct(old(global).entries()),
    ensures
        ({
            let w = old(users).window();
            let gw = old(global).window();
            let valid = valid_username(username@);
            let ul = limited_at(old(users).entries(), username@, now, w, old(users).max());
            let u1 = after_check(old(users).entries(), username@, now, w);
            let gl = limited_at(old(global).entries(), global_key(), now, gw, old(global).max());
            let g1 = after_check(old(global).entries(), global_key(), now, gw);
            let through = valid && !ul && !gl && auth_enabled;
            &&& (match r {
                Ok((id, role)) => Ok((id@, role)),
                Err(e) => Err(e),
            }) == (if !valid {
                Err(LoginRefusal::InvalidUsername)
            } else if ul || gl {
                Err(LoginRefusal::TooManyAttempts)
            } else if !auth_enabled {
                Err(LoginRefusal::AuthDisabled)
            } else {
                credential_outcome(creds, username@)
            })
            &&& final(users).entries() == (if !valid {
                old(users).entries()
            } else if !through {
                u1
            } else {
                user_after(creds, u1, username@, now, w)
            })
            &&& final(global).entries() == (if !valid || ul {
                old(global).entries()
            } else if through && counts_failure(creds) {
                after_failure(g1, global_key(), now, gw)
            } else {
                g1
            })
            &&& final(users).max() == old(users).max() && final(users).window() == w
            &&& final(global).max() == old(global).max() && final(global).window() == gw
            &&& keys_distinct(final(users).entries()) && keys_distinct(final(global).entries())
            // A login that gets through leaves no failure counted against the user.
            &&& r is Ok ==> entry_of(final(users).entries(), username@, 0) is None
            // A login refused for a wrong password or a wrong code is one
            // refused login in the user's entries.
            &&& (r == Err::<(String, UserRole), LoginRefusal>(LoginRefusal::InvalidCredentials) || r == Err::<
                (String, UserRole),
                LoginRefusal,
            >(LoginRefusal::InvalidCode)) ==> final(users).entries() == refused_login(
                old(users).entries(),
                username@,
                now,
                w,
            )
            // A wrong password or a wrong code counts exactly one more
            // failure in the window.
            &&& (through && counts_failure(creds) && w > 0) ==> attempts_at(
                final(users).entries(),
                username@,
                now,
                w,
            ) == attempts_at(old(users).entries(), username@, now, w) + 1
        }),
{
    proof {
        lemma_after_check(users.entries(), username@, now, users.window());
        lemma_after_check(global.entries(), global_key(), now, global.window());
    }
    if !valid_login_username(username) {
        return Err(LoginRefusal::InvalidUsername);
    }
    if users.is_limited(username, now) {
        return Err(LoginRefusal::TooManyAttempts);
    }
    let ghost u1 = users.entries();
    if global.is_limited("__global__", now) {
        return Err(LoginRefusal::TooManyAttempts);
    }
    if !auth_enabled {
        return Err(LoginRefusal::AuthDisabled);
    }
    match creds {
        Credentials::Stored { user_id, role, password, totp } => match password {
            Check::Errored => Err(LoginRefusal::Internal),
            Check::Failed => {
                users.record_failure(username, now);
                global.record_failure("__global__", now);
                proof {
                    lemma_failure_adds_one(u1, username@, now, users.window());
                }
                Err(LoginRefusal::InvalidCredentials)
            },
            Check::Passed => match totp_gate(totp) {
                Some(e) => {
                    if e == LoginRefusal::InvalidCode {
                        users.record_failure(username, now);
                        global.record_failure("__global__", now);
                        proof {
                            lemma_failure_adds_one(u1, username@, now, users.window());
                        }
                    }
                    Err(e)
                },
                None => {
                    users.clear(username);
                    proof {
                        lemma_clear_unblocks(u1, username@);
                    }
                    Ok((user_id, role))
                },
            },
        },
        Credentials::System { answer, totp, admin_group } => match answer {
            Check::Errored => Err(LoginRefusal::Internal),
            Check::Failed => {
                users.record_failure(username, now);
                global.record_failure("__global__", now);
                proof {
                    lemma_failure_adds_one(u1, username@, now, users.window());
                }
                Err(LoginRefusal::InvalidCredentials)
            },
            Check::Passed => match totp_gate(totp) {
                Some(e) => {
                    if e == LoginRefusal::InvalidCode {
                        users.record_failure(username, now);
                        global.record_failure("__global__", now);
                        proof {
                            lemma_failure_adds_one(u1, username@, now, users.window());
                        }
                    }
                    Err(e)
                },
                None => {
                    users.clear(username);
                    proof {
                        lemma_clear_unblocks(u1, username@);
                    }
                    Ok((crate::text::owned(username), system_user_role(username, admin_group)))
                },
            },
        },
    }
}

/// The attempts stored for `key`; none without an entry.
pub open spec fn times_of(es: Seq<(Seq<char>, Seq<u64>)>, key: Seq<char>) -> Seq<u64> {
    match entry_of(es, key, 0) {
        Some(i) => es[i].1,
        None => Seq::empty(),
    }
}

/// Failures for `key` recorded at each time of `ts`, in order.
pub open spec fn failures_at(es: Seq<(Seq<char>, Seq<u64>)>, key: Seq<char>, ts: Seq<u64>, window: u64) -> Seq<
    (Seq<char>, Seq<u64>),
>
    decreases ts.len(),
{
    if ts.len() == 0 {
        es
    } else {
        after_failure(failures_at(es, key, ts.drop_last(), window), key, ts.last(), window)
    }
}

proof fn lemma_recent_all(ts: Seq<u64>, now: u64, window: u64)
    requires
        forall|i: int| 0 <= i < ts.len() ==> (#[trigger] ts[i]) <= now && now - ts[i] < window,
    ensures
        recent(ts, now, window) == ts,
    decreases ts.len(),
{
    if ts.len() > 0 {
        lemma_recent_all(ts.drop_last(), now, window);
        assert(ts.drop_last().push(ts.last()) =~= ts);
        assert(ts.drop_last() + seq![ts.last()] =~= ts);
    }
}

proof fn lemma_failure_appends(es: Seq<(Seq<char>, Seq<u64>)>, key: Seq<char>, t: u64, window: u64)
    requires
        keys_distinct(es),
        entry_of(es, key, 0) is Some ==> es[entry_of(es, key, 0)->0].1.len() > 0 && recent(
            es[entry_of(es, key, 0)->0].1,
            t,
            window,
        ) == es[entry_of(es, key, 0)->0].1,
    ensures
        keys_distinct(after_failure(es, key, t, window)),
        entry_of(after_failure(es, key, t, window), key, 0) is Some,
        times_of(after_failure(es, key, t, window), key) == times_of(es, key).push(t),
{
    lemma_failure_adds_one(es, key, t, window);
    lemma_entry_of(es, key, 0);
    let swept = if es.len() > sweep_threshold() {
        pruned(es, t, window)
    } else {
        es
    };
    if es.len() > sweep_threshold() {
        lemma_pruned_from(es, t, window);
        lemma_pruned_keeps(es, t, window);
        lemma_pruned_distinct(es, t, window);
    }
    let r = after_failure(es, key, t, window);
    // The swept list holds the key's attempts unchanged, or no entry when none was there.
    match entry_of(es, key, 0) {
        Some(i) => {
            let k = if es.len() > sweep_threshold() {
                choose|k: int| 0 <= k < swept.len() && swept[k] == (es[i].0, recent(es[i].1, t, window))
            } else {
                i
            };
            assert(swept[k] == (key, es[i].1));
            lemma_entry_unique(swept, key, k);
            let kept = recent(swept[k].1, t, window);
            assert(r == swept.update(k, (key, kept.push(t))));
            lemma_entry_unique(r, key, k);
        },
        None => {
            lemma_entry_none(es, key, 0);
            assert forall|m: int| 0 <= m < swept.len() implies (#[trigger] swept[m]).0 != key by {
                if es.len() > sweep_threshold() {
                    let j = choose|j: int|
                        0 <= j < es.len() && #[trigger] swept[m] == (es[j].0, recent(es[j].1, t, window))
                            && recent(es[j].1, t, window).len() > 0;
                    assert(es[j].0 != key);
                }
            }
            lemma_entry_none(swept, key, 0);
            assert(r == swept.push((key, seq![t])));
            lemma_entry_unique(r, key, swept.len() as int);
            assert(seq![t] =~= Seq::<u64>::empty().push(t));
        },
    }
}

/// Failures recorded at different times all count while they stay inside
/// the window: starting from no entry for `key` (never recorded, or
/// cleared), failures at the times `ts` (in clock order, each less than a
/// window before `now`) leave exactly `ts.len()` attempts counted at
/// `now`, so the key is limited exactly when that reaches the maximum.
pub proof fn lemma_failures_in_window(
    es: Seq<(Seq<char>, Seq<u64>)>,
    key: Seq<char>,
    ts: Seq<u64>,
    now: u64,
    window: u64,
    max: usize,
)
    requires
        keys_distinct(es),
        entry_of(es, key, 0) is None,
        max >= 1,
        forall|i: int, j: int| 0 <= i < j < ts.len() ==> ts[i] <= ts[j],
        forall|i: int| 0 <= i < ts.len() ==> (#[trigger] ts[i]) <= now && now - ts[i] < window,
    ensures
        keys_distinct(failures_at(es, key, ts, window)),
        times_of(failures_at(es, key, ts, window), key) == ts,
        attempts_at(failures_at(es, key, ts, window), key, now, window) == ts.len(),
        limited_at(failures_at(es, key, ts, window), key, now, window, max) == (ts.len() >= max),
    decreases ts.len(),
{
    if ts.len() == 0 {
        return;
    }
    let p = ts.drop_last();
    let t = ts.last();
    lemma_failures_in_window(es, key, p, now, window, max);
    let e = failures_at(es, key, p, window);
    assert forall|i: int| 0 <= i < p.len() implies (#[trigger] p[i]) <= t && t - p[i] < window by {
        assert(p[i] == ts[i]);
        assert(ts[i] <= ts[ts.len() - 1]);
    }
    lemma_recent_all(p, t, window);
    lemma_entry_of(e, key, 0);
    if p.len() == 0 {
        assert(e == es);
    }
    lemma_failure_appends(e, key, t, window);
    let r = failures_at(es, key, ts, window);
    assert(r == after_failure(e, key, t, window));
    assert(p.push(t) =~= ts);
    assert forall|i: int| 0 <= i < ts.len() implies (#[trigger] ts[i]) <= now && now - ts[i] < window by {}
    lemma_recent_all(ts, now, window);
}

/// Asking changes no answer: right after `is_limited` trims a key's
/// attempts, asking again at the same moment gives the same answer.
pub proof fn lemma_is_limited_repeatable(es: Seq<(Seq<char>, Seq<u64>)>, key: Seq<char>, now: u64, window: u64, max: usize)
    requires
        keys_distinct(es),
    ensures
        limited_at(after_check(es, key, now, window), key, now, window, max) == limited_at(es, key, now, window, max),
{
    lemma_after_check(es, key, now, window);
    lemma_entry_of(es, key, 0);
    if let Some(i) = entry_of(es, key, 0) {
        lemma_entry_unique(after_check(es, key, now, window), key, i);
    } else {
        lemma_entry_none(es, key, 0);
    }
}

proof fn lemma_failure_leaves_other(es: Seq<(Seq<char>, Seq<u64>)>, key: Seq<char>, other: Seq<char>, t: u64, window: u64)
    requires
        keys_distinct(es),
        entry_of(es, other, 0) is None,
        other != key,
    ensures
        entry_of(after_failure(es, key, t, window), other, 0) is None,
{
    lemma_entry_none(es, other, 0);
    lemma_entry_of(es, key, 0);
    let swept = if es.len() > sweep_threshold() {
        pruned(es, t, window)
    } else {
        es
    };
    if es.len() > sweep_threshold() {
        lemma_pruned_from(es, t, window);
        lemma_pruned_distinct(es, t, window);
        assert forall|m: int| 0 <= m < swept.len() implies (#[trigger] swept[m]).0 != other by {
            let j = choose|j: int|
                0 <= j < es.len() && #[trigger] swept[m] == (es[j].0, recent(es[j].1, t, window))
                    && recent(es[j].1, t, window).len() > 0;
            assert(es[j].0 != other);
        }
    }
    lemma_entry_none(swept, other, 0);
    lemma_entry_of(swept, key, 0);
    let r = after_failure(es, key, t, window);
    assert forall|m: int| 0 <= m < r.len() implies (#[trigger] r[m]).0 != other by {
        if m < swept.len() {
            if let Some(i) = entry_of(swept, key, 0) {
                if m == i {
                    assert(r[m].0 == key);
                } else {
                    assert(r[m] == swept[m]);
                }
            } else {
                assert(r[m] == swept[m]);
            }
        }
    }
    lemma_entry_none(r, other, 0);
}

proof fn lemma_failures_leave_other(
    es: Seq<(Seq<char>, Seq<u64>)>,
    key: Seq<char>,
    other: Seq<char>,
    ts: Seq<u64>,
    window: u64,
)
    requires
        keys_distinct(es),
        entry_of(es, other, 0) is None,
        other != key,
    ensures
        keys_distinct(failures_at(es, key, ts, window)),
        entry_of(failures_at(es, key, ts, window), other, 0) is None,
    decreases ts.len(),
{
    if ts.len() > 0 {
        lemma_failures_leave_other(es, key, other, ts.drop_last(), window);
        let e = failures_at(es, key, ts.drop_last(), window);
        lemma_failure_adds_one(e, key, ts.last(), window);
        lemma_failure_leaves_other(e, key, other, ts.last(), window);
    }
}

/// The count of a limiter made by `LoginRateLimiter::new(max, window_secs)`
/// (no entries, a window of `window_secs` seconds kept in milliseconds):
/// after `record_failure(key, t)` at each time `t` of `ts` (milliseconds, in
/// clock order, each less than a window before `now`), `is_limited(key, now)`
/// answers whether there are at least `max` of them, and `is_limited` of a
/// key never recorded answers no.
pub proof fn lemma_new_limiter_failures(
    key: Seq<char>,
    other: Seq<char>,
    ts: Seq<u64>,
    now: u64,
    window_secs: u64,
    max: usize,
)
    requires
        max >= 1,
        other != key,
        forall|i: int, j: int| 0 <= i < j < ts.len() ==> ts[i] <= ts[j],
        forall|i: int|
            0 <= i < ts.len() ==> (#[trigger] ts[i]) <= now && now - ts[i] < crate::num::clamp(
                window_secs * 1000,
                0,
                u64::MAX as int,
            ),
    ensures
        ({
            let w = crate::num::clamp(window_secs * 1000, 0, u64::MAX as int) as u64;
            &&& limited_at(failures_at(Seq::empty(), key, ts, w), key, now, w, max) == (ts.len() >= max)
            &&& !limited_at(failures_at(Seq::empty(), key, ts, w), other, now, w, max)
        }),
{
    let w = crate::num::clamp(window_secs * 1000, 0, u64::MAX as int) as u64;
    lemma_failures_in_window(Seq::empty(), key, ts, now, w, max);
    lemma_entry_none(Seq::<(Seq<char>, Seq<u64>)>::empty(), other, 0);
    lemma_failures_leave_other(Seq::empty(), key, other, ts, w);
}

/// The count after a clear: a cleared key, then failures at the times
/// `ts` inside the window, is limited exactly when there are at least
/// `max` of them.
pub proof fn lemma_failures_after_clear(
    es: Seq<(Seq<char>, Seq<u64>)>,
    key: Seq<char>,
    ts: Seq<u64>,
    now: u64,
    window: u64,
    max: usize,
)
    requires
        keys_distinct(es),
        max >= 1,
        forall|i: int, j: int| 0 <= i < j < ts.len() ==> ts[i] <= ts[j],
        forall|i: int| 0 <= i < ts.len() ==> (#[trigger] ts[i]) <= now && now - ts[i] < window,
    ensures
        limited_at(failures_at(without(es, key), key, ts, window), key, now, window, max) == (ts.len() >= max),
{
    lemma_without_distinct(es, key);
    lemma_clear_unblocks(es, key);
    lemma_failures_in_window(without(es, key), key, ts, now, window, max);
}


/// The user's entries after a login at `t` refused for a wrong password or
/// a wrong second-factor code: the check trims the user's attempts, then
/// the failure is recorded.
pub open spec fn refused_login(es: Seq<(Seq<char>, Seq<u64>)>, key: Seq<char>, t: u64, window: u64) -> Seq<
    (Seq<char>, Seq<u64>),
> {
    after_failure(after_check(es, key, t, window), key, t, window)
}

/// The user's entries after logins refused at each time of `ts`, in order.
pub open spec fn refused_logins(es: Seq<(Seq<char>, Seq<u64>)>, key: Seq<char>, ts: Seq<u64>, window: u64) -> Seq<
    (Seq<char>, Seq<u64>),
>
    decreases ts.len(),
{
    if ts.len() == 0 {
        es
    } else {
        refused_login(refused_logins(es, key, ts.drop_last(), window), key, ts.last(), window)
    }
}

/// Refused logins block the user: starting with no failure counted for the
/// user (never refused, or cleared by a login that passed), logins refused
/// for a wrong password or code at the times `ts` (in clock order, each less
/// than a window before `now`) leave exactly `ts.len()` failures counted at
/// `now`, so the user's next login at `now` is answered "too many attempts"
/// exactly when there are at least `max` of them.
pub proof fn lemma_refused_logins_block(
    es: Seq<(Seq<char>, Seq<u64>)>,
    key: Seq<char>,
    ts: Seq<u64>,
    now: u64,
    window: u64,
    max: usize,
)
    requires
        keys_distinct(es),
        entry_of(es, key, 0) is None,
        max >= 1,
        forall|i: int, j: int| 0 <= i < j < ts.len() ==> ts[i] <= ts[j],
        forall|i: int| 0 <= i < ts.len() ==> (#[trigger] ts[i]) <= now && now - ts[i] < window,
    ensures
        refused_logins(es, key, ts, window) == failures_at(es, key, ts, window),
        keys_distinct(refused_logins(es, key, ts, window)),
        attempts_at(refused_logins(es, key, ts, window), key, now, window) == ts.len(),
        limited_at(refused_logins(es, key, ts, window), key, now, window, max) == (ts.len() >= max),
    decreases ts.len(),
{
    lemma_failures_in_window(es, key, ts, now, window, max);
    if ts.len() == 0 {
        return;
    }
    let p = ts.drop_last();
    let t = ts.last();
    assert forall|i: int| 0 <= i < p.len() implies (#[trigger] p[i]) <= t && t - p[i] < window by {
        assert(p[i] == ts[i]);
        assert(ts[i] <= ts[ts.len() - 1]);
    }
    assert forall|i: int, j: int| 0 <= i < j < p.len() implies p[i] <= p[j] by {
        assert(p[i] == ts[i] && p[j] == ts[j]);
    }
    lemma_refused_logins_block(es, key, p, t, window, max);
    lemma_failures_in_window(es, key, p, t, window, max);
    let e = failures_at(es, key, p, window);
    lemma_recent_all(p, t, window);
    lemma_entry_of(e, key, 0);
    if let Some(i) = entry_of(e, key, 0) {
        assert(e[i].1 == p);
        assert(e.update(i, (key, p)) =~= e);
    }
    assert(after_check(e, key, t, window) == e);
}

proof fn lemma_recent_concat(a: Seq<u64>, b: Seq<u64>, now: u64, window: u64)
    ensures
        recent(a + b, now, window) == recent(a, now, window) + recent(b, now, window),
    decreases b.len(),
{
    if b.len() == 0 {
        assert(a + b =~= a);
        assert(recent(a, now, window) + recent(b, now, window) =~= recent(a, now, window));
    } else {
        let bd = b.drop_last();
        lemma_recent_concat(a, bd, now, window);
        assert((a + b).drop_last() =~= a + bd);
        assert((a + b).last() == b.last());
        let tail = if (if now >= b.last() {
            now - b.last()
        } else {
            0
        }) < window {
            seq![b.last()]
        } else {
            Seq::empty()
        };
        assert(recent(a + b, now, window) == recent(a + bd, now, window) + tail);
        assert(recent(b, now, window) == recent(bd, now, window) + tail);
        assert((recent(a, now, window) + recent(bd, now, window)) + tail =~= recent(a, now, window) + (recent(
            bd,
            now,
            window,
        ) + tail));
    }
}

proof fn lemma_check_times(es: Seq<(Seq<char>, Seq<u64>)>, key: Seq<char>, t: u64, window: u64)
    requires
        keys_distinct(es),
    ensures
        keys_distinct(after_check(es, key, t, window)),
        times_of(after_check(es, key, t, window), key) == recent(times_of(es, key), t, window),
{
    lemma_after_check(es, key, t, window);
    lemma_entry_of(es, key, 0);
    if let Some(i) = entry_of(es, key, 0) {
        lemma_entry_unique(after_check(es, key, t, window), key, i);
    }
}

proof fn lemma_failure_times(es: Seq<(Seq<char>, Seq<u64>)>, key: Seq<char>, t: u64, window: u64)
    requires
        keys_distinct(es),
    ensures
        keys_distinct(after_failure(es, key, t, window)),
        entry_of(after_failure(es, key, t, window), key, 0) is Some,
        times_of(after_failure(es, key, t, window), key) == recent(times_of(es, key), t, window).push(t),
{
    lemma_failure_adds_one(es, key, t, window);
    lemma_entry_of(es, key, 0);
    let sweep = es.len() > sweep_threshold();
    let swept = if sweep {
        pruned(es, t, window)
    } else {
        es
    };
    if sweep {
        lemma_pruned_from(es, t, window);
        lemma_pruned_keeps(es, t, window);
        lemma_pruned_distinct(es, t, window);
    }
    let r = after_failure(es, key, t, window);
    match entry_of(es, key, 0) {
        Some(i) => {
            let q = recent(es[i].1, t, window);
            lemma_recent_idempotent(es[i].1, t, window);
            if !sweep || q.len() > 0 {
                let k = if sweep {
                    choose|k: int| 0 <= k < swept.len() && swept[k] == (es[i].0, q)
                } else {
                    i
                };
                assert(swept[k].0 == key && recent(swept[k].1, t, window) == q);
                lemma_entry_unique(swept, key, k);
                assert(r == swept.update(k, (key, q.push(t))));
                lemma_entry_unique(r, key, k);
            } else {
                assert forall|m: int| 0 <= m < swept.len() implies (#[trigger] swept[m]).0 != key by {
                    let j = choose|j: int|
                        0 <= j < es.len() && #[trigger] swept[m] == (es[j].0, recent(es[j].1, t, window))
                            && recent(es[j].1, t, window).len() > 0;
                    if es[j].0 == key {
                        lemma_entry_unique(es, key, j);
                    }
                }
                lemma_entry_none(swept, key, 0);
                assert(r == swept.push((key, seq![t])));
                lemma_entry_unique(r, key, swept.len() as int);
                assert(q =~= Seq::<u64>::empty());
                assert(seq![t] =~= q.push(t));
            }
        },
        None => {
            lemma_entry_none(es, key, 0);
            if sweep {
                assert forall|m: int| 0 <= m < swept.len() implies (#[trigger] swept[m]).0 != key by {
                    let j = choose|j: int|
                        0 <= j < es.len() && #[trigger] swept[m] == (es[j].0, recent(es[j].1, t, window))
                            && recent(es[j].1, t, window).len() > 0;
                    assert(es[j].0 != key);
                }
            }
            lemma_entry_none(swept, key, 0);
            assert(r == swept.push((key, seq![t])));
            lemma_entry_unique(r, key, swept.len() as int);
            assert(seq![t] =~= Seq::<u64>::empty().push(t));
        },
    }
}

/// What is left of the earlier attempts `q` after logins refused at the
/// times `ts`: each refusal trims them to the window at its own time.
pub open spec fn carried(q: Seq<u64>, ts: Seq<u64>, window: u64) -> Seq<u64>
    decreases ts.len(),
{
    if ts.len() == 0 {
        q
    } else {
        recent(carried(q, ts.drop_last(), window), ts.last(), window)
    }
}

/// Refused logins block the user whatever came before: from any state of
/// the limiter, logins refused for a wrong password or code at the times
/// `ts` (in clock order, each less than a window before `now`) add their
/// attempts to whatever earlier failures still count, so the user is
/// answered "too many attempts" at `now` once there are `max` of them.
pub proof fn lemma_refused_logins_count(
    es: Seq<(Seq<char>, Seq<u64>)>,
    key: Seq<char>,
    ts: Seq<u64>,
    now: u64,
    window: u64,
    max: usize,
)
    requires
        keys_distinct(es),
        max >= 1,
        forall|i: int, j: int| 0 <= i < j < ts.len() ==> ts[i] <= ts[j],
        forall|i: int| 0 <= i < ts.len() ==> (#[trigger] ts[i]) <= now && now - ts[i] < window,
    ensures
        keys_distinct(refused_logins(es, key, ts, window)),
        times_of(refused_logins(es, key, ts, window), key) == carried(times_of(es, key), ts, window) + ts,
        ts.len() > 0 ==> entry_of(refused_logins(es, key, ts, window), key, 0) is Some,
        attempts_at(refused_logins(es, key, ts, window), key, now, window) >= ts.len(),
        ts.len() >= max ==> limited_at(refused_logins(es, key, ts, window), key, now, window, max),
    decreases ts.len(),
{
    let r = refused_logins(es, key, ts, window);
    if ts.len() == 0 {
        assert(carried(times_of(es, key), ts, window) + ts =~= times_of(es, key));
        return;
    }
    let p = ts.drop_last();
    let t = ts.last();
    assert forall|i: int| 0 <= i < p.len() implies (#[trigger] p[i]) <= t && t - p[i] < window by {
        assert(p[i] == ts[i]);
        assert(ts[i] <= ts[ts.len() - 1]);
    }
    assert forall|i: int, j: int| 0 <= i < j < p.len() implies p[i] <= p[j] by {
        assert(p[i] == ts[i] && p[j] == ts[j]);
    }
    lemma_refused_logins_count(es, key, p, t, window, max);
    let e = refused_logins(es, key, p, window);
    let c = carried(times_of(es, key), p, window);
    lemma_check_times(e, key, t, window);
    let e1 = after_check(e, key, t, window);
    lemma_recent_concat(c, p, t, window);
    lemma_recent_all(p, t, window);
    lemma_failure_times(e1, key, t, window);
    lemma_recent_concat(recent(c, t, window), p, t, window);
    lemma_recent_idempotent(c, t, window);
    assert(r == after_failure(e1, key, t, window));
    assert(times_of(r, key) == (recent(c, t, window) + p).push(t));
    assert(carried(times_of(es, key), ts, window) == recent(c, t, window));
    assert((recent(c, t, window) + p).push(t) =~= recent(c, t, window) + ts);
    let cr = carried(times_of(es, key), ts, window);
    assert forall|i: int| 0 <= i < ts.len() implies (#[trigger] ts[i]) <= now && now - ts[i] < window by {}
    lemma_recent_all(ts, now, window);
    lemma_recent_concat(cr, ts, now, window);
    lemma_entry_of(r, key, 0);
}

} // verus!
