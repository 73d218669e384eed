//! Countdown timers advanced by elapsed time: repeating ones for weapon
//! cooldowns, one-shot ones for bullet lifetimes.
use vstd::prelude::*;
use vstd::arithmetic::div_mod::{lemma_fundamental_div_mod_converse, lemma_fundamental_div_mod, lemma_mod_pos_bound};

verus! {

/// A timer of `duration` microseconds. A repeating timer wraps around each
/// time it completes; a one-shot timer stays finished.
#[derive(Clone, Copy, Debug, PartialEq, Eq, Structural)]
pub struct Timer {
    pub duration: u64,
    pub elapsed: u64,
    pub repeating: bool,
    /// Whether the last tick reached the duration (for a one-shot timer:
    /// whether it has ever reached it).
    pub finished: bool,
    /// How many times the last tick completed the timer.
    pub times_finished: u64,
}

impl Timer {
    pub open spec fn wf(self) -> bool {
        &&& self.duration > 0
        &&& if self.repeating {
            self.elapsed < self.duration
        } else {
            self.elapsed <= self.duration && self.finished == (self.elapsed == self.duration)
        }
    }

    /// The timer after `delta` more microseconds.
    pub open spec fn ticked(self, delta: int) -> Timer {
        if !self.repeating && self.finished {
            Timer { times_finished: 0, ..self }
        } else {
            let e = self.elapsed + delta;
            if e >= self.duration {
                if self.repeating {
                    Timer {
                        elapsed: (e % self.duration as int) as u64,
                        finished: true,
                        times_finished: (e / self.duration as int) as u64,
                        ..self
                    }
                } else {
                    Timer { elapsed: self.duration, finished: true, times_finished: 1, ..self }
                }
            } else {
                Timer { elapsed: e as u64, finished: false, times_finished: 0, ..self }
            }
        }
    }

    /// A fresh timer of `duration` microseconds.
    pub fn new(duration: u64, repeating: bool) -> (t: Timer)
        requires
            duration > 0,
        ensures
            t.wf(),
            t == (Timer { duration, elapsed: 0, repeating, finished: false, times_finished: 0 }),
    {
        Timer { duration, elapsed: 0, repeating, finished: false, times_finished: 0 }
    }

    /// Advances the timer by `delta` microseconds.
    pub fn tick(&mut self, delta: u64)
        requires
            old(self).wf(),
        ensures
            *final(self) == old(self).ticked(delta as int),
            final(self).wf(),
    {
        if !self.repeating && self.finished {
            self.times_finished = 0;
            return;
        }
        let e: u128 = self.elapsed as u128 + delta as u128;
        let d: u128 = self.duration as u128;
        if e >= d {
            if self.repeating {
                proof {
                    if d == 1 {
                        assert(e == delta);
                    }
                    assert(e / d <= u64::MAX) by (nonlinear_arith)
                        requires
                            d >= 1,
                            d == 1 ==> e <= u64::MAX,
                            e <= 2 * (u64::MAX as int),
                    ;
                    assert(e % d < d) by (nonlinear_arith)
                        requires
                            d >= 1,
                    ;
                }
                self.times_finished = (e / d) as u64;
                self.elapsed = (e % d) as u64;
            } else {
                self.times_finished = 1;
                self.elapsed = self.duration;
            }
            self.finished = true;
        } else {
            self.elapsed = e as u64;
            self.finished = false;
            self.times_finished = 0;
        }
    }

    /// Whether the last tick reached the duration.
    pub fn finished(&self) -> (r: bool)
        ensures
            r == self.finished,
    {
        self.finished
    }

    /// Whether the last tick completed the timer at least once.
    pub fn just_finished(&self) -> (r: bool)
        ensures
            r == (self.times_finished > 0),
    {
        self.times_finished > 0
    }
}

/// The sum of `ds`.
pub open spec fn total(ds: Seq<u64>) -> int
    decreases ds.len(),
{
    if ds.len() == 0 {
        0
    } else {
        total(ds.drop_last()) + ds.last()
    }
}

/// `t` after ticking by each of `ds` in turn.
pub open spec fn tick_all(t: Timer, ds: Seq<u64>) -> Timer
    decreases ds.len(),
{
    if ds.len() == 0 {
        t
    } else {
        tick_all(t, ds.drop_last()).ticked(ds.last() as int)
    }
}

/// How many of the ticks by `ds` left `t` finished.
pub open spec fn finishing_ticks(t: Timer, ds: Seq<u64>) -> nat
    decreases ds.len(),
{
    if ds.len() == 0 {
        0
    } else {
        finishing_ticks(t, ds.drop_last()) + if tick_all(t, ds).finished {
            1nat
        } else {
            0nat
        }
    }
}

/// A repeating timer ticked in steps no longer than its duration finishes
/// once per completed duration, and never more often: after steps totalling
/// `T`, it has finished `(elapsed + T) / duration` times, and `elapsed` has
/// become `(elapsed + T) % duration`.
pub proof fn lemma_fire_rate(t: Timer, ds: Seq<u64>)
    requires
        t.wf(),
        t.repeating,
        forall|i: int| 0 <= i < ds.len() ==> ds[i] <= t.duration,
    ensures
        finishing_ticks(t, ds) == (t.elapsed + total(ds)) / (t.duration as int),
        tick_all(t, ds).elapsed == (t.elapsed + total(ds)) % (t.duration as int),
        tick_all(t, ds).wf(),
        tick_all(t, ds).repeating,
        tick_all(t, ds).duration == t.duration,
    decreases ds.len(),
{
    let d = t.duration as int;
    if ds.len() == 0 {
        lemma_fundamental_div_mod_converse(t.elapsed as int, d, 0, t.elapsed as int);
    } else {
        let pre = ds.drop_last();
        assert forall|i: int| 0 <= i < pre.len() implies pre[i] <= t.duration by {
            assert(pre[i] == ds[i]);
        }
        lemma_fire_rate(t, pre);
        let p = tick_all(t, pre);
        let a = t.elapsed + total(pre);
        let q = finishing_ticks(t, pre) as int;
        let delta = ds.last() as int;
        assert(a == q * d + p.elapsed) by {
            vstd::arithmetic::div_mod::lemma_fundamental_div_mod(a, d);
        }
        let e = p.elapsed + delta;
        if e >= d {
            assert(a + delta == (q + 1) * d + (e - d)) by (nonlinear_arith)
                requires
                    a == q * d + p.elapsed,
                    e == p.elapsed + delta,
            ;
            lemma_fundamental_div_mod_converse(a + delta, d, q + 1, e - d);
            lemma_fundamental_div_mod_converse(e, d, 1, e - d);
        } else {
            lemma_fundamental_div_mod_converse(a + delta, d, q, e);
        }
    }
}

/// Whatever the lengths of the steps, a repeating timer never finishes more
/// often than once per completed duration: after steps totalling `T`, it has
/// finished at most `(elapsed + T) / duration` times, and `elapsed` has become
/// `(elapsed + T) % duration`.
pub proof fn lemma_fire_rate_bound(t: Timer, ds: Seq<u64>)
    requires
        t.wf(),
        t.repeating,
    ensures
        finishing_ticks(t, ds) <= (t.elapsed + total(ds)) / (t.duration as int),
        tick_all(t, ds).elapsed == (t.elapsed + total(ds)) % (t.duration as int),
        tick_all(t, ds).wf(),
        tick_all(t, ds).repeating,
        tick_all(t, ds).duration == t.duration,
    decreases ds.len(),
{
    let d = t.duration as int;
    if ds.len() == 0 {
        lemma_fundamental_div_mod_converse(t.elapsed as int, d, 0, t.elapsed as int);
    } else {
        let pre = ds.drop_last();
        lemma_fire_rate_bound(t, pre);
        let p = tick_all(t, pre);
        let a = t.elapsed + total(pre);
        let q = a / d;
        let delta = ds.last() as int;
        lemma_fundamental_div_mod(a, d);
        lemma_mod_pos_bound(a, d);
        let e = p.elapsed + delta;
        assert(a + delta == q * d + e);
        if e >= d {
            let k = e / d;
            lemma_fundamental_div_mod(e, d);
            lemma_mod_pos_bound(e, d);
            assert(k >= 1) by (nonlinear_arith)
                requires
                    e >= d,
                    d > 0,
                    e == d * k + e % d,
                    e % d < d,
            ;
            assert(a + delta == (q + k) * d + e % d) by (nonlinear_arith)
                requires
                    a + delta == q * d + e,
                    e == d * k + e % d,
            ;
            lemma_fundamental_div_mod_converse(a + delta, d, q + k, e % d);
        } else {
            lemma_fundamental_div_mod_converse(a + delta, d, q, e);
        }
    }
}

/// A fresh one-shot timer is finished exactly once the ticks have added up to
/// its duration, and stays finished from then on.
pub proof fn lemma_one_shot_expiry(t: Timer, ds: Seq<u64>)
    requires
        t.wf(),
        !t.repeating,
        !t.finished,
        t.elapsed == 0,
    ensures
        tick_all(t, ds).finished == (total(ds) >= t.duration),
        tick_all(t, ds).elapsed == if total(ds) >= t.duration {
            t.duration as int
        } else {
            total(ds)
        },
        tick_all(t, ds).wf(),
        !tick_all(t, ds).repeating,
        tick_all(t, ds).duration == t.duration,
    decreases ds.len(),
{
    if ds.len() > 0 {
        lemma_one_shot_expiry(t, ds.drop_last());
    }
}

} // verus!
