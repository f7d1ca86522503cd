//! Timing: ticks of a counter, a waiter that sleeps first and spins last, and cheap randomness.
//!
//! A period of a fraction of a millisecond cannot be slept, because the timer is too coarse, and
//! should not be spun, because that burns a core. `Waiter` sleeps until a margin before the
//! deadline and spins the rest. The margin is learned from how late the timer was.
use vstd::prelude::*;

verus! {

/// Division that drops the fraction, towards zero.
pub open spec fn quotient(a: int, b: int) -> int
    recommends
        b > 0,
{
    if a >= 0 {
        a / b
    } else {
        -((-a) / b)
    }
}

/// `ticks` of a counter with `qpf` ticks a second, in units of which a second holds `per_second`.
pub open spec fn rescaled(ticks: int, per_second: int, qpf: int) -> int {
    quotient(ticks * per_second, qpf)
}

/// The ticks in `us` microseconds, fractions dropped.
pub open spec fn micros(us: int, qpf: int) -> int {
    us * qpf / 1_000_000
}

/// A number of ticks changed to another unit; one that does not fit keeps its low 64 bits.
fn rescale(ticks: i64, per_second: i64, qpf: i64) -> (r: i64)
    requires
        qpf > 0,
        per_second > 0,
    ensures
        r == rescaled(ticks as int, per_second as int, qpf as int) as i64,
{
    let wide: i128 = ticks as i128;
    assert(-0x8000_0000_0000_0000 * 0x7fff_ffff_ffff_ffff <= wide * per_second <= 0x7fff_ffff_ffff_ffff
        * 0x7fff_ffff_ffff_ffff) by (nonlinear_arith)
        requires
            -0x8000_0000_0000_0000 <= wide <= 0x7fff_ffff_ffff_ffff,
            0 < per_second <= 0x7fff_ffff_ffff_ffff,
    ;
    let product: i128 = wide * per_second as i128;
    let whole: i128 = if product >= 0 {
        product / qpf as i128
    } else {
        -((-product) / qpf as i128)
    };
    whole as i64
}

/// `t` ticks in nanoseconds.
pub fn ticks_to_ns(t: i64, qpf: i64) -> (r: i64)
    requires
        qpf > 0,
    ensures
        r == rescaled(t as int, 1_000_000_000, qpf as int) as i64,
{
    rescale(t, 1_000_000_000, qpf)
}

/// What to hand a timer that counts in units of 100 ns and takes a relative time as a negative
/// number; nothing where there is nothing left to wait for.
pub fn due_time(ticks: i64, qpf: i64) -> (r: Option<i64>)
    requires
        qpf > 0,
    ensures
        ({
            let units = rescaled(ticks as int, 10_000_000, qpf as int) as i64;
            r == if units <= 0 {
                None::<i64>
            } else {
                Some((-units) as i64)
            }
        }),
{
    let units: i64 = rescale(ticks, 10_000_000, qpf);
    if units <= 0 {
        None
    } else {
        Some(-units)
    }
}

/// How many whole ticks there are in `us` microseconds.
pub fn ticks_in(us: i64, qpf: i64) -> (r: i64)
    requires
        qpf > 0,
        0 <= us <= 1_000_000,
    ensures
        r == micros(us as int, qpf as int),
        0 <= r <= qpf,
{
    assert(0 <= us * qpf <= 1_000_000 * 0x7fff_ffff_ffff_ffff && us * qpf <= 1_000_000 * qpf)
        by (nonlinear_arith)
        requires
            0 <= us <= 1_000_000,
            0 < qpf <= 0x7fff_ffff_ffff_ffff,
    ;
    (us as i128 * qpf as i128 / 1_000_000) as i64
}

/// What to do next on the way to a deadline.
#[derive(Clone, Copy, PartialEq, Eq, Structural, Debug)]
pub enum Wait {
    /// The deadline has passed.
    Done,
    /// Ask the timer for this many ticks, then look again.
    Sleep(i64),
    /// Spin until the deadline.
    Spin,
}

/// How a deadline is waited for, and what that has cost.
pub struct Waiter {
    /// Ticks in a second.
    pub qpf: i64,
    /// How far before the deadline to stop sleeping and start spinning.
    pub margin: i64,
    /// Decaying high-water mark of how late the timer was.
    pub overshoot: i64,
    pub min_margin: i64,
    pub max_margin: i64,
    /// Ticks spent spinning.
    pub spun: i64,
    /// Ticks spent asleep.
    pub slept: i64,
}

/// `x` held between `lo` and `hi`.
pub open spec fn clamped(x: int, lo: int, hi: int) -> int {
    if x < lo {
        lo
    } else if x > hi {
        hi
    } else {
        x
    }
}

impl Waiter {
    /// The largest margin that any period may have: 3 ms.
    pub open spec fn ceiling(self) -> int {
        micros(3000, self.qpf as int)
    }

    /// The shortest sleep worth asking the timer for: 0.5 ms. A fixed granularity, not the
    /// learned overshoot: that one is a high-water mark, and one unlucky sleep at a long period
    /// would raise it above a short period for good.
    pub open spec fn useful_sleep(self) -> int {
        micros(500, self.qpf as int)
    }

    /// The margin that an overshoot asks for, before the limits.
    pub open spec fn wanted(self, overshoot: int) -> int {
        overshoot + overshoot / 4 + self.min_margin
    }

    /// The smallest margin under a cap: it gives way where the cap is smaller still.
    pub open spec fn floor(self, cap: int) -> int {
        if self.min_margin < cap {
            self.min_margin as int
        } else {
            cap
        }
    }

    pub open spec fn wf(self) -> bool {
        &&& self.qpf > 0
        &&& self.min_margin == micros(50, self.qpf as int)
        &&& 0 <= self.min_margin
        &&& 0 <= self.floor(self.max_margin as int) <= self.margin <= self.max_margin
            <= self.ceiling()
        &&& self.overshoot >= 0
        &&& self.wanted(self.overshoot as int) <= i64::MAX
    }

    /// A waiter with a margin of 0.3 ms, held between 0.05 ms and 3 ms until a period caps it.
    pub fn new(qpf: i64) -> (r: Self)
        requires
            qpf > 0,
        ensures
            r.wf(),
            r.qpf == qpf,
            r.margin == micros(300, qpf as int),
            r.overshoot == 0,
            r.min_margin == micros(50, qpf as int),
            r.max_margin == micros(3000, qpf as int),
            r.spun == 0,
            r.slept == 0,
    {
        proof {
            lemma_micros_ordered(50, 300, qpf as int);
            lemma_micros_ordered(300, 3000, qpf as int);
        }
        Waiter {
            qpf,
            margin: ticks_in(300, qpf),
            overshoot: 0,
            min_margin: ticks_in(50, qpf),
            max_margin: ticks_in(3000, qpf),
            spun: 0,
            slept: 0,
        }
    }

    /// The waiter once its margin is capped for a loop with this period: at half of it, and at the
    /// ceiling.
    pub open spec fn with_period(self, period: int) -> Waiter {
        let cap = clamped(quotient(period, 2), 0, self.ceiling());
        Waiter {
            max_margin: cap as i64,
            margin: clamped(self.margin as int, self.floor(cap), cap) as i64,
            ..self
        }
    }

    /// Caps the margin for a loop with this period.
    ///
    /// Without the cap the learned margin can exceed a short period, and the loop then spins all
    /// the time. Half the period leaves the timer real work.
    pub fn set_period(&mut self, period: i64)
        requires
            old(self).wf(),
        ensures
            final(self).wf(),
            *final(self) == old(self).with_period(period as int),
    {
        let ceiling: i64 = ticks_in(3000, self.qpf);
        let half: i64 = if period >= 0 {
            period / 2
        } else {
            0
        };
        self.max_margin = if half > ceiling {
            ceiling
        } else {
            half
        };
        self.margin = self.held(self.margin);
    }

    /// A margin held between the smallest one and the cap.
    fn held(&self, margin: i64) -> (r: i64)
        requires
            0 <= self.max_margin,
        ensures
            r == clamped(
                margin as int,
                self.floor(self.max_margin as int),
                self.max_margin as int,
            ),
    {
        if margin > self.max_margin {
            self.max_margin
        } else if margin >= self.min_margin {
            margin
        } else if self.min_margin < self.max_margin {
            self.min_margin
        } else {
            self.max_margin
        }
    }

    /// What share of the time was spun: ticks spun, and ticks in all, where there were any.
    pub fn spin_share(&self) -> (r: Option<(i64, i64)>)
        requires
            i64::MIN <= self.spun + self.slept <= i64::MAX,
        ensures
            r == if self.spun + self.slept <= 0 {
                None::<(i64, i64)>
            } else {
                Some((self.spun, (self.spun + self.slept) as i64))
            },
    {
        let total: i64 = self.spun + self.slept;
        if total <= 0 {
            None
        } else {
            Some((self.spun, total))
        }
    }

    /// Starts counting the cost anew.
    pub fn reset_cost(&mut self)
        ensures
            *final(self) == (Waiter { spun: 0, slept: 0, ..*old(self) }),
    {
        self.spun = 0;
        self.slept = 0;
    }

    /// What to do at `now` about `deadline`.
    ///
    /// Deadlines are absolute: sleeping a fixed time would let every delay shift the phase.
    pub open spec fn planned(self, deadline: int, now: int) -> Wait {
        let remain = deadline - now;
        if remain <= 0 {
            Wait::Done
        } else if remain - self.margin >= self.useful_sleep() {
            Wait::Sleep((remain - self.margin) as i64)
        } else {
            Wait::Spin
        }
    }

    /// One step of waiting for `deadline`.
    pub fn wait_until(&self, deadline: i64, now: i64) -> (r: Wait)
        requires
            self.wf(),
            i64::MIN <= deadline - now <= i64::MAX,
        ensures
            r == self.planned(deadline as int, now as int),
            r matches Wait::Sleep(t) ==> 0 <= t <= deadline - now,
    {
        let remain: i64 = deadline - now;
        if remain <= 0 {
            return Wait::Done;
        }
        let sleep_for: i64 = remain - self.margin;
        if sleep_for >= ticks_in(500, self.qpf) {
            Wait::Sleep(sleep_for)
        } else {
            Wait::Spin
        }
    }

    /// The high-water mark after a sleep that was `over` ticks late.
    pub open spec fn marked(self, over: int) -> int {
        let decayed = self.overshoot - self.overshoot / 32;
        if over > decayed {
            over
        } else {
            decayed
        }
    }

    /// The waiter after a sleep that was `over` ticks late.
    pub open spec fn learned(self, over: int) -> Waiter {
        let mark = self.marked(over);
        Waiter {
            overshoot: mark as i64,
            margin: clamped(
                self.wanted(mark),
                self.floor(self.max_margin as int),
                self.max_margin as int,
            ) as i64,
            ..self
        }
    }

    /// The waiter after a run of sleeps, each late by its number of ticks.
    pub open spec fn learned_all(self, overs: Seq<int>) -> Waiter
        decreases overs.len(),
    {
        if overs.len() == 0 {
            self
        } else {
            self.learned_all(overs.drop_last()).learned(overs.last())
        }
    }

    /// Takes in a sleep that was asked for `asked` ticks at `now` and ended at `after`.
    pub fn woke(&mut self, now: i64, after: i64, asked: i64)
        requires
            old(self).wf(),
            i64::MIN <= after - now <= i64::MAX,
            i64::MIN <= old(self).slept + (after - now) <= i64::MAX,
            i64::MIN <= (after - now) - asked <= i64::MAX,
            old(self).wanted(old(self).marked((after - now) - asked)) <= i64::MAX,
        ensures
            final(self).wf(),
            *final(self) == (Waiter {
                slept: (old(self).slept + (after - now)) as i64,
                ..old(self).learned((after - now) - asked)
            }),
    {
        self.slept = self.slept + (after - now);
        self.learn((after - now) - asked);
    }

    /// Widens the margin towards what was seen, and lets it decay, so that one delay does not
    /// inflate it for good.
    pub fn learn(&mut self, over: i64)
        requires
            old(self).wf(),
            old(self).wanted(old(self).marked(over as int)) <= i64::MAX,
        ensures
            final(self).wf(),
            *final(self) == old(self).learned(over as int),
    {
        let decayed: i64 = self.overshoot - self.overshoot / 32;
        self.overshoot = if over > decayed {
            over
        } else {
            decayed
        };
        let want: i64 = self.overshoot + self.overshoot / 4 + self.min_margin;
        self.margin = self.held(want);
    }

    /// Takes in a spin from `start` to `end`.
    pub fn spun_until(&mut self, start: i64, end: i64)
        requires
            i64::MIN <= end - start <= i64::MAX,
            i64::MIN <= old(self).spun + (end - start) <= i64::MAX,
        ensures
            *final(self) == (Waiter {
                spun: (old(self).spun + (end - start)) as i64,
                ..*old(self)
            }),
    {
        self.spun = self.spun + (end - start);
    }
}

proof fn lemma_micros_ordered(a: int, b: int, qpf: int)
    requires
        0 <= a <= b,
        qpf > 0,
    ensures
        0 <= micros(a, qpf) <= micros(b, qpf),
{
    assert(0 <= a * qpf <= b * qpf) by (nonlinear_arith)
        requires
            0 <= a <= b,
            qpf > 0,
    ;
}

proof fn lemma_learning_keeps_limits(w: Waiter, overs: Seq<int>)
    requires
        w.floor(w.max_margin as int) <= w.margin <= w.max_margin,
        0 <= w.max_margin,
    ensures
        ({
            let later = w.learned_all(overs);
            &&& later.min_margin == w.min_margin
            &&& later.max_margin == w.max_margin
            &&& later.qpf == w.qpf
            &&& w.floor(w.max_margin as int) <= later.margin <= w.max_margin
        }),
    decreases overs.len(),
{
    if overs.len() > 0 {
        lemma_learning_keeps_limits(w, overs.drop_last());
    }
}

/// Once the period is set, the margin stays within half of it, however late the timer turns out
/// to be.
pub proof fn law_margin_within_half_period(w: Waiter, period: int, overs: Seq<int>)
    requires
        w.wf(),
        period >= 0,
    ensures
        2 * w.with_period(period).learned_all(overs).margin <= period,
{
    lemma_micros_ordered(50, 3000, w.qpf as int);
    lemma_micros_in_range(3000, w.qpf as int);
    lemma_learning_keeps_limits(w.with_period(period), overs);
}

/// A loop whose half period is worth a sleep always sleeps at least that half: no history of late
/// timers can force it to spin all the time.
pub proof fn law_half_period_is_slept(w: Waiter, period: int, overs: Seq<int>, now: int)
    requires
        w.wf(),
        0 < period <= i64::MAX,
        2 * w.useful_sleep() <= period,
    ensures
        w.with_period(period).learned_all(overs).planned(now + period, now) matches Wait::Sleep(t)
            && period <= 2 * t,
{
    lemma_micros_ordered(50, 500, w.qpf as int);
    lemma_micros_ordered(50, 3000, w.qpf as int);
    lemma_micros_in_range(3000, w.qpf as int);
    lemma_learning_keeps_limits(w.with_period(period), overs);
    law_margin_within_half_period(w, period, overs);
}

/// The margin covers what was just seen, unless the cap is in the way.
pub proof fn law_margin_covers_overshoot(w: Waiter, over: int)
    requires
        w.wf(),
        0 <= over,
        w.wanted(w.marked(over)) <= i64::MAX,
    ensures
        over <= w.learned(over).margin || w.learned(over).margin == w.max_margin,
{
}

/// Sleeps that are not late let the margin fall back: it never grows on one, and the mark
/// strictly falls while it is worth 32 ticks or more.
pub proof fn law_margin_decays(w: Waiter, over: int)
    requires
        w.wf(),
        over <= 0,
        w.margin == clamped(
            w.wanted(w.overshoot as int),
            w.floor(w.max_margin as int),
            w.max_margin as int,
        ),
    ensures
        w.learned(over).margin <= w.margin,
        w.learned(over).overshoot <= w.overshoot,
        w.overshoot >= 32 ==> w.learned(over).overshoot < w.overshoot,
{
}

proof fn lemma_micros_in_range(us: int, qpf: int)
    requires
        0 <= us <= 1_000_000,
        0 < qpf <= i64::MAX,
    ensures
        0 <= micros(us, qpf) <= qpf,
{
    assert(0 <= us * qpf <= 1_000_000 * qpf) by (nonlinear_arith)
        requires
            0 <= us <= 1_000_000,
            qpf > 0,
    ;
}

/// A sleep ends before the deadline, by exactly the margin that is then spun.
pub proof fn law_sleep_leaves_the_margin(w: Waiter, deadline: int, now: int)
    requires
        w.wf(),
        i64::MIN <= deadline - now <= i64::MAX,
        w.planned(deadline, now) is Sleep,
    ensures
        now + w.planned(deadline, now)->Sleep_0 + w.margin == deadline,
{
}

/// What a wait asks for.
#[derive(Clone, Copy, PartialEq, Eq, Structural, Debug)]
pub enum Pause {
    /// Read the counter.
    Look,
    /// Sleep on the timer for this many ticks.
    Sleep(i64),
    /// Spin until the counter gets there.
    Spin(i64),
    /// The deadline is reached.
    Over,
}

/// What a wait is told.
#[derive(Clone, Copy, PartialEq, Eq, Structural, Debug)]
pub enum Sign {
    Time(i64),
    /// The sleep is over, or there was none because the timer failed.
    Slept(bool),
    /// The spin is over.
    Spun,
}

/// How far a wait has come.
#[derive(Clone, Copy, PartialEq, Eq, Structural, Debug)]
pub enum Stage {
    /// About to learn what time it is.
    Looking,
    /// Asleep since `now`, for `asked` ticks.
    Sleeping { now: i64, asked: i64 },
    /// About to learn how long the sleep took.
    Waking { now: i64, asked: i64 },
    /// About to learn when the spin starts.
    Turning,
    /// Spinning since `start`.
    Spinning { start: i64 },
    /// About to learn how long the spin took.
    Stopping { start: i64 },
    Over,
}

/// A wait for a deadline: sleeps until a margin is left, as often as that takes, then spins.
pub struct Waiting {
    pub deadline: i64,
    pub stage: Stage,
}

impl Waiting {
    /// Whether this can be an answer to what was asked last.
    pub open spec fn expects(self, sign: Sign) -> bool {
        match self.stage {
            Stage::Sleeping { .. } => sign is Slept,
            Stage::Spinning { .. } => sign is Spun,
            Stage::Over => false,
            _ => sign is Time,
        }
    }

    /// Whether the times that come of an answer fit in a counter.
    pub open spec fn room(self, w: Waiter, sign: Sign) -> bool {
        match (self.stage, sign) {
            (Stage::Looking, Sign::Time(t)) => i64::MIN <= self.deadline - t <= i64::MAX,
            (Stage::Waking { now, asked }, Sign::Time(t)) => {
                &&& i64::MIN <= t - now <= i64::MAX
                &&& i64::MIN <= w.slept + (t - now) <= i64::MAX
                &&& i64::MIN <= t - now - asked <= i64::MAX
                &&& w.wanted(w.marked(t - now - asked)) <= i64::MAX
            },
            (Stage::Stopping { start }, Sign::Time(t)) => {
                &&& i64::MIN <= t - start <= i64::MAX
                &&& i64::MIN <= w.spun + (t - start) <= i64::MAX
            },
            _ => true,
        }
    }

    /// What an answer makes of the wait and of the waiter, and what is asked for next.
    pub open spec fn stepped(self, w: Waiter, sign: Sign) -> (Stage, Waiter, Pause) {
        match (self.stage, sign) {
            (Stage::Looking, Sign::Time(t)) => match w.planned(self.deadline as int, t as int) {
                Wait::Done => (Stage::Over, w, Pause::Over),
                Wait::Sleep(asked) => (Stage::Sleeping { now: t, asked }, w, Pause::Sleep(asked)),
                Wait::Spin => (Stage::Turning, w, Pause::Look),
            },
            (Stage::Sleeping { now, asked }, Sign::Slept(true)) => (
                Stage::Waking { now, asked },
                w,
                Pause::Look,
            ),
            (Stage::Sleeping { .. }, _) => (Stage::Turning, w, Pause::Look),
            (Stage::Waking { now, asked }, Sign::Time(t)) => (
                Stage::Looking,
                Waiter { slept: (w.slept + (t - now)) as i64, ..w.learned(t - now - asked) },
                Pause::Look,
            ),
            (Stage::Turning, Sign::Time(start)) => (
                Stage::Spinning { start },
                w,
                Pause::Spin(self.deadline),
            ),
            (Stage::Spinning { start }, _) => (Stage::Stopping { start }, w, Pause::Look),
            (Stage::Stopping { start }, Sign::Time(t)) => (
                Stage::Over,
                Waiter { spun: (w.spun + (t - start)) as i64, ..w },
                Pause::Over,
            ),
            _ => (self.stage, w, Pause::Look),
        }
    }

    /// A wait for a deadline. It asks to look first.
    pub fn start(deadline: i64) -> (r: Self)
        ensures
            r.deadline == deadline,
            r.stage == Stage::Looking,
    {
        Waiting { deadline, stage: Stage::Looking }
    }

    /// Whether the times that come of an answer fit in a counter.
    pub fn fits(&self, w: &Waiter, sign: Sign) -> (r: bool)
        requires
            w.wf(),
        ensures
            r == self.room(*w, sign),
    {
        let (least, most): (i128, i128) = (i64::MIN as i128, i64::MAX as i128);
        match (self.stage, sign) {
            (Stage::Looking, Sign::Time(t)) => {
                let left: i128 = self.deadline as i128 - t as i128;
                least <= left && left <= most
            },
            (Stage::Waking { now, asked }, Sign::Time(t)) => {
                let took: i128 = t as i128 - now as i128;
                let slept: i128 = w.slept as i128 + took;
                let over: i128 = took - asked as i128;
                let decayed: i128 = w.overshoot as i128 - w.overshoot as i128 / 32;
                let mark: i128 = if over > decayed {
                    over
                } else {
                    decayed
                };
                least <= took && took <= most && least <= slept && slept <= most && least <= over
                    && over <= most && mark + mark / 4 + w.min_margin as i128 <= most
            },
            (Stage::Stopping { start }, Sign::Time(t)) => {
                let took: i128 = t as i128 - start as i128;
                let spun: i128 = w.spun as i128 + took;
                least <= took && took <= most && least <= spun && spun <= most
            },
            _ => true,
        }
    }

    /// Takes in the answer to what was asked last, and asks for the next thing.
    pub fn next(&mut self, w: &mut Waiter, sign: Sign) -> (r: Pause)
        requires
            old(w).wf(),
            old(self).expects(sign),
            old(self).room(*old(w), sign),
        ensures
            final(w).wf(),
            final(self).deadline == old(self).deadline,
            (final(self).stage, *final(w), r) == old(self).stepped(*old(w), sign),
    {
        match (self.stage, sign) {
            (Stage::Looking, Sign::Time(t)) => match w.wait_until(self.deadline, t) {
                Wait::Done => {
                    self.stage = Stage::Over;
                    Pause::Over
                },
                Wait::Sleep(asked) => {
                    self.stage = Stage::Sleeping { now: t, asked };
                    Pause::Sleep(asked)
                },
                Wait::Spin => {
                    self.stage = Stage::Turning;
                    Pause::Look
                },
            },
            (Stage::Sleeping { now, asked }, Sign::Slept(slept)) => {
                self.stage = if slept {
                    Stage::Waking { now, asked }
                } else {
                    Stage::Turning
                };
                Pause::Look
            },
            (Stage::Waking { now, asked }, Sign::Time(t)) => {
                w.woke(now, t, asked);
                self.stage = Stage::Looking;
                Pause::Look
            },
            (Stage::Turning, Sign::Time(start)) => {
                self.stage = Stage::Spinning { start };
                Pause::Spin(self.deadline)
            },
            (Stage::Spinning { start }, _) => {
                self.stage = Stage::Stopping { start };
                Pause::Look
            },
            (Stage::Stopping { start }, Sign::Time(t)) => {
                w.spun_until(start, t);
                self.stage = Stage::Over;
                Pause::Over
            },
            _ => Pause::Look,
        }
    }
}

/// A wait is over only once the deadline was seen to have passed, or was spun to.
pub proof fn law_waits_reach_the_deadline(wait: Waiting, w: Waiter, sign: Sign)
    requires
        wait.expects(sign),
        wait.stepped(w, sign).2 is Over,
    ensures
        sign matches Sign::Time(t) && (wait.stage is Stopping || t >= wait.deadline),
{
}

/// A timer that fails costs precision and nothing else: the wait goes on by spinning.
pub proof fn law_a_failed_timer_is_spun_for(wait: Waiting, w: Waiter, start: i64)
    requires
        wait.stage is Sleeping,
    ensures
        ({
            let (turning, same, look) = wait.stepped(w, Sign::Slept(false));
            let then = Waiting { stage: turning, ..wait };
            &&& look == Pause::Look
            &&& then.expects(Sign::Time(start))
            &&& then.stepped(same, Sign::Time(start)) == (
                Stage::Spinning { start },
                w,
                Pause::Spin(wait.deadline),
            )
        }),
{
}

/// Which core the engine prefers: the last one, to stay away from core 0, for which the kernel
/// and most drivers contend already.
pub fn preferred_core(cores: usize) -> (r: usize)
    ensures
        r == if cores == 0 {
            0
        } else {
            cores - 1
        },
{
    if cores == 0 {
        0
    } else {
        cores - 1
    }
}

/// The affinity mask of one core.
pub open spec fn core_mask(core: usize) -> usize {
    1usize << core
}

/// The affinity mask of the first `cores` cores.
pub open spec fn cores_mask(cores: usize) -> usize {
    if cores >= usize::BITS {
        usize::MAX
    } else {
        ((1usize << cores) - 1) as usize
    }
}

/// The mask that pins a thread to one core.
pub fn pin_mask(core: usize) -> (r: usize)
    requires
        core < usize::BITS,
    ensures
        r == core_mask(core),
{
    1usize << core
}

/// The mask that lets a thread run on every core again.
pub fn unpin_mask(cores: usize) -> (r: usize)
    ensures
        r == cores_mask(cores),
{
    if cores >= usize::BITS as usize {
        usize::MAX
    } else {
        proof {
            lemma_bit_positive(cores);
        }
        (1usize << cores) - 1
    }
}

proof fn lemma_bit_positive(core: usize)
    requires
        core < usize::BITS,
    ensures
        1usize << core >= 1,
{
    assert(core < usize::BITS ==> 1usize << core >= 1) by (bit_vector);
}

/// Lifting the restriction never takes a core away that pinning had given.
pub proof fn law_unpinned_includes_pinned(core: usize, cores: usize)
    requires
        core < cores,
        core < usize::BITS,
    ensures
        core_mask(core) & cores_mask(cores) == core_mask(core),
        core_mask(core) != 0,
{
    assert(core < usize::BITS && core < cores && cores < usize::BITS ==> (1usize << core) & (((1usize
        << cores) - 1) as usize) == 1usize << core) by (bit_vector);
    let all = usize::MAX;
    assert(all <= !0usize) by (bit_vector);
    assert((1usize << core) & !0usize == 1usize << core) by (bit_vector);
    lemma_bit_positive(core);
    if cores < usize::BITS {
        lemma_bit_positive(cores);
    }
}

/// Whether the system's timer resolution was raised and has to be lowered again.
pub struct TimerPeriod(pub bool);

impl TimerPeriod {
    /// Takes in the answer to a request to raise the resolution: zero means that it was granted.
    pub fn acquire(code: u32) -> (r: Self)
        ensures
            r.0 == (code == 0),
    {
        TimerPeriod(code == 0)
    }
}

/// xorshift64*: jitter needs to be cheap, not unpredictable.
pub struct Rng(pub u64);

/// The state after one step.
pub open spec fn shifted(x: u64) -> u64 {
    let a = x ^ (x >> 12);
    let b = a ^ (a << 25);
    b ^ (b >> 27)
}

/// What a state gives out: its product with the multiplier, cut to 64 bits.
pub open spec fn scrambled(x: u64) -> nat {
    (x * 0x2545_F491_4F6C_DD1D) as nat % 0x1_0000_0000_0000_0000
}

impl Rng {
    /// A generator seeded by a reading of the counter.
    pub fn new(qpc: i64) -> (r: Self)
        ensures
            r.0 == (qpc as u64) | 1,
            r.0 != 0,
    {
        let seed: u64 = qpc as u64;
        assert(seed | 1 != 0) by (bit_vector);
        Rng(seed | 1)
    }

    /// The next 64 bits.
    pub fn next_u64(&mut self) -> (r: u64)
        ensures
            final(self).0 == shifted(old(self).0),
            r == scrambled(shifted(old(self).0)),
    {
        let mut x: u64 = self.0;
        x = x ^ (x >> 12);
        x = x ^ (x << 25);
        x = x ^ (x >> 27);
        self.0 = x;
        x.wrapping_mul(0x2545_F491_4F6C_DD1D)
    }

    /// The upper 53 of the next 64 bits: a fraction of 2^53, all that a double can tell apart.
    pub fn next_fraction(&mut self) -> (r: u64)
        ensures
            final(self).0 == shifted(old(self).0),
            r == scrambled(shifted(old(self).0)) / 2048,
            r < 0x20_0000_0000_0000,
    {
        let bits: u64 = self.next_u64();
        assert(bits >> 11 == bits / 2048) by (bit_vector);
        bits >> 11
    }
}

/// Multiplying by `k` and cutting to a remainder is undone by multiplying by the inverse of `k`.
pub proof fn lemma_product_undone(x: int, k: int, inverse: int, m: int)
    requires
        0 <= x < m,
        (k * inverse) % m == 1,
    ensures
        (((x * k) % m) * inverse) % m == x,
{
    vstd::arithmetic::div_mod::lemma_mul_mod_noop_left(x * k, inverse, m);
    vstd::arithmetic::mul::lemma_mul_is_associative(x, k, inverse);
    vstd::arithmetic::div_mod::lemma_mul_mod_noop_right(x, k * inverse, m);
    vstd::arithmetic::div_mod::lemma_small_mod(x as nat, m as nat);
}

proof fn lemma_scrambled_undone(x: u64)
    ensures
        (scrambled(x) * 0x5907_1d96_d81e_cd35) % 0x1_0000_0000_0000_0000 == x,
{
    lemma_product_undone(
        x as int,
        0x2545_F491_4F6C_DD1D,
        0x5907_1d96_d81e_cd35,
        0x1_0000_0000_0000_0000,
    );
}

/// The generator never gets stuck: only zero leads to zero, and no seed is zero. Nor does it ever
/// give out zero.
pub proof fn law_generator_never_sticks(x: u64)
    requires
        x != 0,
    ensures
        shifted(x) != 0,
        scrambled(shifted(x)) != 0,
{
    law_generator_is_one_to_one(x, 0);
    assert(shifted(0) == 0) by (bit_vector);
    assert(scrambled(0) == 0);
}

/// The generator merges nothing: different states lead to different states and give out different
/// numbers.
pub proof fn law_generator_is_one_to_one(x: u64, y: u64)
    requires
        x != y,
    ensures
        shifted(x) != shifted(y),
        scrambled(shifted(x)) != scrambled(shifted(y)),
{
    assert(x ^ (x >> 12) == y ^ (y >> 12) ==> x == y) by (bit_vector);
    let (a, b) = (x ^ (x >> 12), y ^ (y >> 12));
    assert(a ^ (a << 25) == b ^ (b << 25) ==> a == b) by (bit_vector);
    let (c, d) = (a ^ (a << 25), b ^ (b << 25));
    assert(c ^ (c >> 27) == d ^ (d >> 27) ==> c == d) by (bit_vector);
    lemma_scrambled_undone(shifted(x));
    lemma_scrambled_undone(shifted(y));
}

// ------------------------------------------------------- units, and a wait

/// Changing units loses less than one of the new ones, towards zero, and treats both directions of
/// time alike; a second is a second.
pub proof fn law_units_are_changed_exactly(ticks: int, per_second: int, qpf: int)
    requires
        qpf > 0,
        per_second > 0,
        ticks >= 0,
    ensures
        ({
            let r = rescaled(ticks, per_second, qpf);
            &&& r * qpf <= ticks * per_second < (r + 1) * qpf
            &&& rescaled(-ticks, per_second, qpf) == -r
            &&& rescaled(qpf, per_second, qpf) == per_second
        }),
{
    let p = ticks * per_second;
    assert(p >= 0) by (nonlinear_arith)
        requires
            ticks >= 0,
            per_second > 0,
            p == ticks * per_second,
    ;
    assert((-ticks) * per_second == -p) by (nonlinear_arith)
        requires
            p == ticks * per_second,
    ;
    vstd::arithmetic::div_mod::lemma_fundamental_div_mod(p, qpf);
    let r = p / qpf;
    assert(r * qpf <= p < (r + 1) * qpf) by (nonlinear_arith)
        requires
            p == qpf * r + p % qpf,
            0 <= p % qpf < qpf,
    ;
    if p == 0 {
        assert(0int / qpf == 0) by (nonlinear_arith)
            requires
                qpf > 0,
        ;
    }
    assert(qpf * per_second >= 0) by (nonlinear_arith)
        requires
            qpf > 0,
            per_second > 0,
    ;
    vstd::arithmetic::div_mod::lemma_div_multiples_vanish(per_second, qpf);
    assert(per_second * qpf == qpf * per_second) by (nonlinear_arith);
}

/// Microseconds in ticks, rounded down.
pub proof fn law_microseconds_in_ticks(us: int, qpf: int)
    requires
        us >= 0,
        qpf > 0,
    ensures
        1_000_000 * micros(us, qpf) <= us * qpf < 1_000_000 * (micros(us, qpf) + 1),
{
}

/// A wait is over once the deadline has come. Before that it sleeps, to where the margin is left, if
/// that is half a millisecond away or more; else it spins.
pub proof fn law_a_wait_is_planned_by_what_is_left(w: Waiter, deadline: int, now: int)
    requires
        w.wf(),
        deadline - now <= i64::MAX,
    ensures
        ({
            let left = deadline - now;
            let half_ms = 500 * w.qpf / 1_000_000;
            let plan = w.planned(deadline, now);
            &&& plan is Done <==> left <= 0
            &&& plan is Sleep <==> left > 0 && left - w.margin >= half_ms
            &&& plan matches Wait::Sleep(t) ==> t == left - w.margin
            &&& plan is Spin <==> left > 0 && left - w.margin < half_ms
        }),
{
    lemma_micros_in_range(500, w.qpf as int);
}

/// A period caps the margin at half of itself, and at three milliseconds. A margin within the cap
/// and not below the smallest one stays; one above it is cut to it; and what was learned and counted
/// stays.
pub proof fn law_a_period_caps_the_margin(w: Waiter, period: int)
    requires
        w.wf(),
        0 <= period <= i64::MAX,
    ensures
        ({
            let after = w.with_period(period);
            let half = period / 2;
            let three_ms = 3000 * w.qpf / 1_000_000;
            &&& after.max_margin == if half < three_ms {
                half
            } else {
                three_ms
            }
            &&& w.min_margin <= w.margin <= after.max_margin ==> after.margin == w.margin
            &&& w.margin > after.max_margin ==> after.margin == after.max_margin
            &&& w.margin < w.min_margin <= after.max_margin ==> after.margin == w.min_margin
            &&& after == (Waiter {
                margin: after.margin,
                max_margin: after.max_margin,
                ..w
            })
        }),
{
    lemma_micros_in_range(3000, w.qpf as int);
}

/// What is learned of a sleep: the mark is how late it was, or the old mark less a thirty-second of
/// it where that is more; and the margin is the mark and a quarter of it and the smallest margin,
/// held within the limits. Nothing else changes.
pub proof fn law_late_sleeps_are_learned(w: Waiter, over: int)
    requires
        w.wf(),
        over <= i64::MAX,
        w.wanted(w.marked(over)) <= i64::MAX,
    ensures
        ({
            let after = w.learned(over);
            let decayed = w.overshoot - w.overshoot / 32;
            let wish = after.overshoot + after.overshoot / 4 + w.min_margin;
            &&& after.overshoot == if over > decayed {
                over
            } else {
                decayed
            }
            &&& w.min_margin <= wish <= w.max_margin ==> after.margin == wish
            &&& wish > w.max_margin ==> after.margin == w.max_margin
            &&& after == (Waiter { margin: after.margin, overshoot: after.overshoot, ..w })
        }),
{
}

/// How a wait goes on. It sleeps for as long as was planned, learns from how long that took beyond
/// what was asked, and looks again. What is left it spins, until the deadline itself. The time asleep
/// and the time spun are counted, each in full.
pub proof fn law_a_wait_sleeps_then_spins(wait: Waiting, w: Waiter, t: i64)
    requires
        w.wf(),
        wait.room(w, Sign::Time(t)),
    ensures
        wait.stage == Stage::Looking ==> {
            let (stage, same, ask) = wait.stepped(w, Sign::Time(t));
            &&& same == w
            &&& t >= wait.deadline <==> ask == Pause::Over
            &&& ask matches Pause::Sleep(asked) ==> stage == (Stage::Sleeping { now: t, asked })
                && asked == wait.deadline - t - w.margin
            &&& t < wait.deadline && !(ask is Sleep) ==> stage == Stage::Turning && ask
                == Pause::Look
        },
        wait.stage matches Stage::Sleeping { now, asked } ==> wait.stepped(w, Sign::Slept(true)) == (
            Stage::Waking { now, asked },
            w,
            Pause::Look,
        ),
        wait.stage matches Stage::Waking { now, asked } ==> {
            let (stage, after, ask) = wait.stepped(w, Sign::Time(t));
            &&& stage == Stage::Looking
            &&& ask == Pause::Look
            &&& after.slept == w.slept + (t - now)
            &&& after.spun == w.spun
            &&& after == (Waiter { slept: after.slept, ..w.learned(t - now - asked) })
        },
        wait.stage == Stage::Turning ==> wait.stepped(w, Sign::Time(t)) == (
            Stage::Spinning { start: t },
            w,
            Pause::Spin(wait.deadline),
        ),
        wait.stage matches Stage::Spinning { start } ==> wait.stepped(w, Sign::Spun) == (
            Stage::Stopping { start },
            w,
            Pause::Look,
        ),
        wait.stage matches Stage::Stopping { start } ==> {
            let (stage, after, ask) = wait.stepped(w, Sign::Time(t));
            &&& ask == Pause::Over
            &&& after.spun == w.spun + (t - start)
            &&& after == (Waiter { spun: after.spun, ..w })
        },
{
    lemma_micros_in_range(500, w.qpf as int);
}

/// A mask of the first cores holds each of them and no other, and the mask of one core holds that
/// one.
pub proof fn law_masks_hold_their_cores(core: usize, cores: usize)
    requires
        core < usize::BITS,
    ensures
        cores_mask(cores) & (1usize << core) != 0 <==> core < cores,
        core_mask(core) == 1usize << core,
{
    assert(core < usize::BITS && cores < usize::BITS ==> (((((1usize << cores) - 1) as usize) & (
    1usize << core) != 0) <==> core < cores)) by (bit_vector);
    let all = usize::MAX;
    assert(!0usize & (1usize << core) == 1usize << core) by (bit_vector);
    lemma_bit_positive(core);
    if cores < usize::BITS {
        lemma_bit_positive(cores);
    } else {
        assert(all <= !0usize) by (bit_vector);
    }
}

/// A wait never gets stuck: whatever it asks for, exactly the answers to that are what it expects
/// next. An answer is taken wherever the times that come of it fit in a counter.
pub proof fn law_a_wait_can_always_be_answered(
    wait: Waiting,
    w: Waiter,
    sign: Sign,
    next: Sign,
    t: i64,
)
    requires
        w.wf(),
        wait.expects(sign),
    ensures
        ({
            let (stage, _, ask) = wait.stepped(w, sign);
            let after = Waiting { stage, ..wait };
            after.expects(next) <==> match ask {
                Pause::Look => next is Time,
                Pause::Sleep(_) => next is Slept,
                Pause::Spin(_) => next is Spun,
                Pause::Over => false,
            }
        }),
        wait.stage == Stage::Looking && i64::MIN <= wait.deadline - t <= i64::MAX ==> wait.room(
            w,
            Sign::Time(t),
        ),
        wait.stage == Stage::Turning ==> wait.room(w, Sign::Time(t)),
        wait.stage matches Stage::Stopping { start } ==> (i64::MIN <= t - start <= i64::MAX && i64::MIN
            <= w.spun + (t - start) <= i64::MAX ==> wait.room(w, Sign::Time(t))),
        wait.stage matches Stage::Waking { now, asked } ==> (0 <= now <= t < 0x1000_0000_0000_0000
            && 0 <= asked < 0x1000_0000_0000_0000 && 0 <= w.slept < 0x1000_0000_0000_0000
            && w.overshoot < 0x1000_0000_0000_0000 && w.min_margin < 0x1000_0000_0000_0000
            ==> wait.room(w, Sign::Time(t))),
{
}

} // verus!
