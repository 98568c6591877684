//! The timer registry: periodic application timers with no catch-up
//! bursts.
//!
//! Each registration fires at most once per pass, and only when a full
//! interval has passed since its last firing; the instants it fired at
//! are kept as ghost history, on which the firing-density law rests.

use vstd::prelude::*;

verus! {

/// One registered timer: its tag, its period in milliseconds, the
/// instant it last fired, and the ghost record of every firing.
pub struct TimerRegistration<T> {
    pub timer: T,
    pub interval: u64,
    pub last_fire: u64,
    pub fires: Ghost<Seq<u64>>,
}

impl<T> TimerRegistration<T> {
    /// Successive firings are at least one interval apart, and
    /// `last_fire` is the latest of them (or the registration instant,
    /// before the first).
    pub open spec fn wf(self) -> bool {
        &&& forall|i: int|
            0 <= i && i + 1 < self.fires@.len() ==> #[trigger] self.fires@[i] + self.interval
                <= self.fires@[i + 1]
        &&& self.fires@.len() > 0 ==> self.last_fire == self.fires@.last()
    }
}

/// How long until a registration is due again, never negative.
pub open spec fn timer_left<T>(reg: TimerRegistration<T>, now: u64) -> int {
    if now >= reg.last_fire {
        if now - reg.last_fire >= reg.interval {
            0
        } else {
            reg.last_fire + reg.interval - now
        }
    } else {
        reg.interval as int
    }
}

/// The least time until any registration is due, or the largest value
/// when none is registered.
pub open spec fn min_timer_left<T>(regs: Seq<TimerRegistration<T>>, now: u64) -> int
    decreases regs.len(),
{
    if regs.len() == 0 {
        u64::MAX as int
    } else if timer_left(regs.last(), now) < min_timer_left(regs.drop_last(), now) {
        timer_left(regs.last(), now)
    } else {
        min_timer_left(regs.drop_last(), now)
    }
}

/// Whether a registration is due at `now`.
pub open spec fn is_due<T>(reg: TimerRegistration<T>, now: u64) -> bool {
    now >= reg.last_fire && now - reg.last_fire >= reg.interval
}

/// The timer registry.
pub struct Timers<T> {
    pub regs: Vec<TimerRegistration<T>>,
}

impl<T> Timers<T> {
    /// Every registration is well formed.
    pub open spec fn wf(self) -> bool {
        forall|i: int| 0 <= i < self.regs@.len() ==> (#[trigger] self.regs@[i]).wf()
    }

    /// An empty registry.
    pub fn new() -> (r: Timers<T>)
        ensures
            r.wf(),
            r.regs@.len() == 0,
    {
        Timers { regs: Vec::new() }
    }

    /// Register a periodic timer: it first becomes due one interval
    /// after `now_ms`.
    pub fn register_timer(&mut self, timer: T, interval: u64, now_ms: u64)
        requires
            old(self).wf(),
        ensures
            final(self).wf(),
            final(self).regs@.len() == old(self).regs@.len() + 1,
            forall|i: int|
                0 <= i < old(self).regs@.len() ==> final(self).regs@[i] == old(self).regs@[i],
            final(self).regs@.last().timer == timer,
            final(self).regs@.last().interval == interval,
            final(self).regs@.last().last_fire == now_ms,
            final(self).regs@.last().fires@ == Seq::<u64>::empty(),
    {
        let reg = TimerRegistration { timer, interval, last_fire: now_ms, fires: Ghost(Seq::empty()) };
        self.regs.push(reg);
    }
}

impl<T: Copy> Timers<T> {
    /// One pass at `now_ms`: every registration due fires exactly once
    /// — its tag is returned, in registration order — and none fires
    /// again before a full interval has passed.  The second result is
    /// the sleep hint: the least time until any registration is due
    /// again, never negative.
    #[verifier::loop_isolation(false)]
    #[verifier::rlimit(100)]
    pub fn fire(&mut self, now_ms: u64) -> (r: (Vec<T>, u64))
        requires
            old(self).wf(),
        ensures
            final(self).wf(),
            final(self).regs@.len() == old(self).regs@.len(),
            forall|i: int|
                0 <= i < old(self).regs@.len() && is_due(#[trigger] old(self).regs@[i], now_ms)
                    ==> final(self).regs@[i] == (TimerRegistration {
                    last_fire: now_ms,
                    fires: Ghost(old(self).regs@[i].fires@.push(now_ms)),
                    ..old(self).regs@[i]
                }),
            forall|i: int|
                0 <= i < old(self).regs@.len() && !is_due(#[trigger] old(self).regs@[i], now_ms)
                    ==> final(self).regs@[i] == old(self).regs@[i],
            r.0@ == fired_tags(old(self).regs@, now_ms),
            r.1 == min_timer_left(final(self).regs@, now_ms),
    {
        let ghost regs0 = self.regs@;
        let mut fired: Vec<T> = Vec::new();
        let mut sleep: u64 = u64::MAX;
        let n = self.regs.len();
        let mut i: usize = 0;
        while i < n
            invariant
                0 <= i <= n,
                n == self.regs@.len(),
                self.regs@.len() == regs0.len(),
                forall|k: int| i <= k < n ==> self.regs@[k] == regs0[k],
                forall|k: int|
                    0 <= k < i && is_due(#[trigger] regs0[k], now_ms) ==> self.regs@[k]
                        == (TimerRegistration {
                        last_fire: now_ms,
                        fires: Ghost(regs0[k].fires@.push(now_ms)),
                        ..regs0[k]
                    }),
                forall|k: int|
                    0 <= k < i && !is_due(#[trigger] regs0[k], now_ms) ==> self.regs@[k]
                        == regs0[k],
                forall|k: int| 0 <= k < n ==> (#[trigger] self.regs@[k]).wf(),
                fired@ == fired_tags(regs0.subrange(0, i as int), now_ms),
                sleep == min_timer_left(self.regs@.subrange(0, i as int), now_ms),
            decreases n - i,
        {
            proof {
                assert(regs0.subrange(0, i + 1).drop_last() =~= regs0.subrange(0, i as int));
                assert(regs0.subrange(0, i + 1).last() == regs0[i as int]);
            }
            let due = now_ms >= self.regs[i].last_fire && now_ms - self.regs[i].last_fire
                >= self.regs[i].interval;
            let left: u64;
            if due {
                fired.push(self.regs[i].timer);
                let interval = self.regs[i].interval;
                let timer = self.regs[i].timer;
                let ghost old_fires = self.regs@[i as int].fires@;
                let ghost pre_regs = self.regs@;
                let reg = TimerRegistration {
                    timer,
                    interval,
                    last_fire: now_ms,
                    fires: Ghost(old_fires.push(now_ms)),
                };
                self.regs.set(i, reg);
                left = interval;
                proof {
                    assert(self.regs@.subrange(0, i as int) =~= pre_regs.subrange(0, i as int));
                    assert(min_timer_left(self.regs@.subrange(0, i as int), now_ms) == sleep);
                    assert(fired@ =~= fired_tags(regs0.subrange(0, i + 1), now_ms));
                    let nf = old_fires.push(now_ms);
                    assert forall|k: int| 0 <= k && k + 1 < nf.len() implies #[trigger] nf[k]
                        + interval <= nf[k + 1] by {
                        if k + 1 < old_fires.len() {
                            assert(nf[k] == old_fires[k]);
                            assert(nf[k + 1] == old_fires[k + 1]);
                            assert(old_fires[k] + interval <= old_fires[k + 1]);
                        } else {
                            assert(nf[k] == old_fires.last());
                            assert(nf[k + 1] == now_ms);
                        }
                    }
                    assert(self.regs@[i as int].wf());
                    assert(timer_left(self.regs@[i as int], now_ms) == interval as int);
                }
            } else {
                let reg_last = self.regs[i].last_fire;
                let interval = self.regs[i].interval;
                if now_ms >= reg_last {
                    left = interval - (now_ms - reg_last);
                } else {
                    left = interval;
                }
                proof {
                    assert(fired@ =~= fired_tags(regs0.subrange(0, i + 1), now_ms));
                    assert(left == timer_left(self.regs@[i as int], now_ms));
                }
            }
            if left < sleep {
                sleep = left;
            }
            proof {
                assert(self.regs@.subrange(0, i + 1).drop_last() =~= self.regs@.subrange(
                    0,
                    i as int,
                ));
                assert(self.regs@.subrange(0, i + 1).last() == self.regs@[i as int]);
            }
            i = i + 1;
        }
        proof {
            assert(regs0.subrange(0, n as int) =~= regs0);
            assert(self.regs@.subrange(0, n as int) =~= self.regs@);
        }
        (fired, sleep)
    }
}

/// The tags of the registrations due at `now`, in registration order.
pub open spec fn fired_tags<T>(regs: Seq<TimerRegistration<T>>, now: u64) -> Seq<T>
    decreases regs.len(),
{
    if regs.len() == 0 {
        Seq::empty()
    } else if is_due(regs.last(), now) {
        fired_tags(regs.drop_last(), now).push(regs.last().timer)
    } else {
        fired_tags(regs.drop_last(), now)
    }
}

/// Consecutive firings accumulate at least one interval each.
proof fn lemma_gap_accumulates(fires: Seq<u64>, interval: u64, i: int, j: int)
    requires
        forall|k: int|
            0 <= k && k + 1 < fires.len() ==> #[trigger] fires[k] + interval <= fires[k + 1],
        0 <= i <= j < fires.len(),
    ensures
        fires[i] + (j - i) * interval <= fires[j],
    decreases j - i,
{
    if i < j {
        lemma_gap_accumulates(fires, interval, i, j - 1);
        assert(fires[j - 1] + interval <= fires[j]);
        assert((j - 1 - i) * interval + interval == (j - i) * interval) by (nonlinear_arith);
    } else {
        assert((j - i) * interval == 0) by (nonlinear_arith)
            requires
                i == j,
        ;
    }
}

/// Law: a timer with interval `I` fires at most `T/I + 1` times over
/// any window of duration `T`.  Whenever the firings at indexes `i`
/// through `j` all fall in a window `[a, a + dur]`, their count
/// `j - i + 1` satisfies `(count - 1) * I <= dur`.
pub proof fn lemma_fire_density<T>(reg: TimerRegistration<T>, a: int, dur: int, i: int, j: int)
    requires
        reg.wf(),
        reg.interval >= 1,
        0 <= i <= j < reg.fires@.len(),
        dur >= 0,
        a <= reg.fires@[i],
        reg.fires@[j] <= a + dur,
    ensures
        (j - i) * reg.interval <= dur,
        j - i + 1 <= dur / (reg.interval as int) + 1,
{
    lemma_gap_accumulates(reg.fires@, reg.interval, i, j);
    assert((j - i) * reg.interval <= dur);
    assert(j - i <= dur / (reg.interval as int)) by (nonlinear_arith)
        requires
            (j - i) * reg.interval <= dur,
            reg.interval >= 1,
            dur >= 0,
            j - i >= 0,
    ;
}

} // verus!
