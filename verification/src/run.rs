//! A job in progress: what it asks for, one thing after the other, and how the answers move it on.
//!
//! A job neither waits nor sends by itself. It asks for one thing, is told when that is done or
//! what came of it, and asks for the next.
//!
//! Deadlines are absolute and moved on every turn, so that a delay cannot shift the phase for
//! good. What is owed after a long delay is dropped, never repaid in a burst.
use vstd::prelude::*;
use crate::clock;
use crate::engine;
use crate::engine::{Heard, Job, Mode, Next};
use crate::inject;
use crate::inject::{Btn, Input};
use crate::macros;
use crate::macros::{Span, Step};
use crate::signal::Signal;

verus! {

/// What a job asks for.
#[derive(Debug)]
pub enum Do {
    /// Look whether something was told, without waiting for it.
    Listen,
    /// Wait until the counter gets there.
    Wait(i64),
    Send(Input),
    /// Read the counter.
    Clock,
    /// Take in that an event, or a pass, was over: how long after the one before, and how many
    /// there are now.
    Measure { ticks: i64, events: u64 },
    /// Publish what waiting has cost.
    Publish,
    /// Say how many ticks the next period takes.
    Jitter,
    /// The job is over.
    End(Next),
}

/// What a job is told.
#[derive(Debug)]
pub enum Ev {
    Done,
    Heard(Heard),
    Time(i64),
    Period(i64),
}

/// Where the next deadline lies, `p` ticks on. One that has passed already is moved to `p` ticks
/// from now.
pub open spec fn moved_on(deadline: int, p: int, now: int) -> int {
    if deadline + p < now {
        now + p
    } else {
        deadline + p
    }
}

/// Whether `n` events, or passes, are as many as there were to be.
pub open spec fn reached(limit: Option<u64>, n: int) -> bool {
    limit matches Some(most) && n >= most
}

fn is_reached(limit: Option<u64>, n: u64) -> (r: bool)
    ensures
        r == reached(limit, n as int),
{
    match limit {
        Some(most) => n >= most,
        None => false,
    }
}

// ---------------------------------------------------------------- clicking

/// What a click loop waits to be told about.
#[derive(Clone, Copy, PartialEq, Eq, Structural, Debug)]
pub enum Phase {
    /// Whether something was told.
    Listening,
    /// The deadline.
    Waiting,
    /// The press.
    Pressing,
    /// The time of the press, to hold the button from.
    Pressed,
    /// The end of the hold.
    Holding,
    /// The release.
    LettingGo,
    /// The time of the release.
    LetGo,
    /// The measurement.
    Measuring,
    /// That the cost is published.
    Publishing,
    /// The next period, where it jitters.
    Striding,
    Ended,
}

/// A loop of clicks, in ticks.
pub struct Clicks {
    pub phase: Phase,
    pub btn: Btn,
    /// Nothing observable is sent.
    pub dry: bool,
    pub period: i64,
    pub hold: i64,
    /// Each period is different.
    pub jitters: bool,
    pub limit: Option<u64>,
    pub deadline: i64,
    /// When the last event was sent.
    pub prev: i64,
    /// Events sent.
    pub n: u64,
    pub tick: u32,
}

impl Clicks {
    /// What is sent to press the button. A dry run moves by nothing, which costs the same.
    pub open spec fn press(self) -> Input {
        if self.dry {
            inject::mouse_record(inject::MOUSE_MOVE, 0, 0, 0)
        } else {
            inject::button_record(self.btn, true)
        }
    }

    /// What is sent to let it go.
    pub open spec fn release(self) -> Input {
        if self.dry {
            inject::mouse_record(inject::MOUSE_MOVE, 0, 0, 0)
        } else {
            inject::button_record(self.btn, false)
        }
    }

    /// Whether this can be an answer to what was asked last.
    pub open spec fn expects(self, ev: Ev) -> bool {
        match self.phase {
            Phase::Listening => ev is Heard,
            Phase::Pressed | Phase::LetGo => ev is Time,
            Phase::Striding => ev is Period,
            Phase::Ended => false,
            _ => ev is Done,
        }
    }

    /// Whether the deadline can be moved on by `p` ticks.
    pub open spec fn room_for(self, p: int) -> bool {
        self.deadline + p <= i64::MAX && self.prev + p <= i64::MAX
    }

    /// Whether what was measured is all that was left of a turn.
    pub open spec fn turn_over(self) -> bool {
        self.phase == Phase::Publishing || (self.phase == Phase::Measuring && self.tick % 64 != 0)
    }

    /// Whether the times that come of an answer fit in a counter.
    pub open spec fn room(self, ev: Ev) -> bool {
        match ev {
            Ev::Time(t) => if self.phase == Phase::Pressed {
                t + self.hold <= i64::MAX
            } else {
                i64::MIN <= t - self.prev <= i64::MAX && self.n < u64::MAX
            },
            Ev::Period(p) => self.room_for(if p < 1 { 1 } else { p as int }),
            _ => self.turn_over() && !reached(self.limit, self.n as int) && !self.jitters
                ==> self.room_for(self.period as int),
        }
    }

    /// The loop with its deadline moved on, at the start of the next turn.
    pub open spec fn moved(self, p: int) -> (Clicks, Do) {
        (
            Clicks {
                phase: Phase::Listening,
                deadline: moved_on(self.deadline as int, p, self.prev as int) as i64,
                ..self
            },
            Do::Listen,
        )
    }

    /// What follows a turn: the end where the limit is reached, else the next turn.
    pub open spec fn followed(self) -> (Clicks, Do) {
        if reached(self.limit, self.n as int) {
            (Clicks { phase: Phase::Ended, ..self }, Do::End(Next::Idle))
        } else if self.jitters {
            (Clicks { phase: Phase::Striding, ..self }, Do::Jitter)
        } else {
            self.moved(self.period as int)
        }
    }

    /// What an answer makes of the loop, and what it asks for next.
    ///
    /// Something that is told is heeded between clicks only, and a limit of zero leaves no click to
    /// make. A late click is not made up for: the
    /// deadline moves on from where it was, or from now where that has passed.
    pub open spec fn stepped(self, ev: Ev) -> (Clicks, Do) {
        match (self.phase, ev) {
            (Phase::Listening, Ev::Heard(heard)) => match engine::ended_by(heard) {
                Some(next) => (Clicks { phase: Phase::Ended, ..self }, Do::End(next)),
                None => if reached(self.limit, self.n as int) {
                    (Clicks { phase: Phase::Ended, ..self }, Do::End(Next::Idle))
                } else {
                    (Clicks { phase: Phase::Waiting, ..self }, Do::Wait(self.deadline))
                },
            },
            (Phase::Waiting, _) => (
                Clicks { phase: Phase::Pressing, ..self },
                Do::Send(self.press()),
            ),
            (Phase::Pressing, _) => if !self.dry && self.hold > 0 {
                (Clicks { phase: Phase::Pressed, ..self }, Do::Clock)
            } else {
                (Clicks { phase: Phase::LettingGo, ..self }, Do::Send(self.release()))
            },
            (Phase::Pressed, Ev::Time(t)) => (
                Clicks { phase: Phase::Holding, ..self },
                Do::Wait((t + self.hold) as i64),
            ),
            (Phase::Holding, _) => (
                Clicks { phase: Phase::LettingGo, ..self },
                Do::Send(self.release()),
            ),
            (Phase::LettingGo, _) => (Clicks { phase: Phase::LetGo, ..self }, Do::Clock),
            (Phase::LetGo, Ev::Time(now)) => (
                Clicks {
                    phase: Phase::Measuring,
                    prev: now,
                    n: (self.n + 1) as u64,
                    tick: ((self.tick + 1) as nat % 0x1_0000_0000) as u32,
                    ..self
                },
                Do::Measure { ticks: (now - self.prev) as i64, events: (self.n + 1) as u64 },
            ),
            (Phase::Measuring, _) => if self.tick % 64 == 0 {
                (Clicks { phase: Phase::Publishing, ..self }, Do::Publish)
            } else {
                self.followed()
            },
            (Phase::Publishing, _) => self.followed(),
            (Phase::Striding, Ev::Period(p)) => self.moved(if p < 1 { 1 } else { p as int }),
            _ => (self, Do::Listen),
        }
    }

    /// A loop that starts at `now`, with a period of one tick at least. It asks to listen first.
    pub fn start(job: &Job, period: i64, hold: i64, jitters: bool, now: i64, prev: i64) -> (r: Self)
        requires
            now + (if period < 1 {
                1
            } else {
                period as int
            }) <= i64::MAX,
        ensures
            r.phase == Phase::Listening,
            r.btn == job.btn,
            r.dry == (job.mode == Mode::Benchmark),
            r.period == (if period < 1 {
                1
            } else {
                period as int
            }),
            r.hold == hold,
            r.jitters == jitters,
            r.limit == job.limit,
            r.deadline == now + r.period,
            r.prev == prev,
            r.n == 0,
            r.tick == 0,
            r == Clicks::begun(*job, period, hold, jitters, now, prev),
    {
        let period: i64 = if period < 1 {
            1
        } else {
            period
        };
        Clicks {
            phase: Phase::Listening,
            btn: job.btn,
            dry: job.mode == Mode::Benchmark,
            period,
            hold,
            jitters,
            limit: job.limit,
            deadline: now + period,
            prev,
            n: 0,
            tick: 0,
        }
    }

    fn press_record(&self) -> (r: Input)
        ensures
            r == self.press(),
    {
        if self.dry {
            inject::nop()
        } else {
            inject::mouse(self.btn, true)
        }
    }

    fn release_record(&self) -> (r: Input)
        ensures
            r == self.release(),
    {
        if self.dry {
            inject::nop()
        } else {
            inject::mouse(self.btn, false)
        }
    }

    fn has_room_for(&self, p: i64) -> (r: bool)
        requires
            p >= 0,
        ensures
            r == self.room_for(p as int),
    {
        self.deadline <= i64::MAX - p && self.prev <= i64::MAX - p
    }

    /// Whether the times that come of an answer fit in a counter.
    pub fn fits(&self, ev: &Ev) -> (r: bool)
        requires
            self.period >= 1,
        ensures
            r == self.room(*ev),
    {
        match ev {
            Ev::Time(t) => {
                if self.phase == Phase::Pressed {
                    self.hold <= 0 || *t <= i64::MAX - self.hold
                } else {
                    let apart: i128 = *t as i128 - self.prev as i128;
                    i64::MIN as i128 <= apart && apart <= i64::MAX as i128 && self.n < u64::MAX
                }
            },
            Ev::Period(p) => self.has_room_for(
                if *p < 1 {
                    1
                } else {
                    *p
                },
            ),
            _ => {
                let over: bool = self.phase == Phase::Publishing || (self.phase == Phase::Measuring
                    && self.tick % 64 != 0);
                !over || is_reached(self.limit, self.n) || self.jitters || self.has_room_for(
                    self.period,
                )
            },
        }
    }

    fn move_on(&mut self, p: i64) -> (r: Do)
        requires
            p >= 1,
            old(self).room_for(p as int),
        ensures
            (*final(self), r) == old(self).moved(p as int),
    {
        self.deadline = self.deadline + p;
        if self.deadline < self.prev {
            self.deadline = self.prev + p;
        }
        self.phase = Phase::Listening;
        Do::Listen
    }

    fn follow(&mut self) -> (r: Do)
        requires
            old(self).period >= 1,
            !reached(old(self).limit, old(self).n as int) && !old(self).jitters ==> old(
                self,
            ).room_for(old(self).period as int),
        ensures
            (*final(self), r) == old(self).followed(),
    {
        if is_reached(self.limit, self.n) {
            self.phase = Phase::Ended;
            Do::End(Next::Idle)
        } else if self.jitters {
            self.phase = Phase::Striding;
            Do::Jitter
        } else {
            self.move_on(self.period)
        }
    }

    /// Takes in the answer to what was asked last, and asks for the next thing.
    pub fn next(&mut self, ev: Ev) -> (r: Do)
        requires
            old(self).period >= 1,
            old(self).expects(ev),
            old(self).room(ev),
        ensures
            (*final(self), r) == old(self).stepped(ev),
    {
        match self.phase {
            Phase::Listening => match ev {
                Ev::Heard(heard) => match engine::interrupted(heard) {
                    Some(next) => {
                        self.phase = Phase::Ended;
                        Do::End(next)
                    },
                    None => {
                        if is_reached(self.limit, self.n) {
                            self.phase = Phase::Ended;
                            Do::End(Next::Idle)
                        } else {
                            self.phase = Phase::Waiting;
                            Do::Wait(self.deadline)
                        }
                    },
                },
                _ => Do::Listen,
            },
            Phase::Waiting => {
                self.phase = Phase::Pressing;
                Do::Send(self.press_record())
            },
            Phase::Pressing => {
                if !self.dry && self.hold > 0 {
                    self.phase = Phase::Pressed;
                    Do::Clock
                } else {
                    self.phase = Phase::LettingGo;
                    Do::Send(self.release_record())
                }
            },
            Phase::Pressed => match ev {
                Ev::Time(t) => {
                    self.phase = Phase::Holding;
                    Do::Wait((t as i128 + self.hold as i128) as i64)
                },
                _ => Do::Listen,
            },
            Phase::Holding => {
                self.phase = Phase::LettingGo;
                Do::Send(self.release_record())
            },
            Phase::LettingGo => {
                self.phase = Phase::LetGo;
                Do::Clock
            },
            Phase::LetGo => match ev {
                Ev::Time(now) => {
                    let ticks: i64 = now - self.prev;
                    self.prev = now;
                    self.n = self.n + 1;
                    self.tick = self.tick.wrapping_add(1);
                    self.phase = Phase::Measuring;
                    Do::Measure { ticks, events: self.n }
                },
                _ => Do::Listen,
            },
            Phase::Measuring => {
                if self.tick % 64 == 0 {
                    self.phase = Phase::Publishing;
                    Do::Publish
                } else {
                    self.follow()
                }
            },
            Phase::Publishing => self.follow(),
            Phase::Striding => match ev {
                Ev::Period(p) => self.move_on(
                    if p < 1 {
                        1
                    } else {
                        p
                    },
                ),
                _ => Do::Listen,
            },
            Phase::Ended => Do::Listen,
        }
    }
}

/// The deadline after a run of turns with the same period, each ending at its time.
pub open spec fn deadline_after(deadline: int, p: int, nows: Seq<int>) -> int
    decreases nows.len(),
{
    if nows.len() == 0 {
        deadline
    } else {
        moved_on(deadline_after(deadline, p, nows.drop_last()), p, nows.last())
    }
}

/// What is owed is never repaid in a burst: the next deadline is never in the past, and after a
/// delay it is a whole period away.
pub proof fn law_no_burst(deadline: int, p: int, now: int)
    requires
        p > 0,
    ensures
        moved_on(deadline, p, now) >= now,
        deadline + p < now ==> moved_on(deadline, p, now) == now + p,
{
}

/// The phase is kept: as long as no turn ends later than the deadline after it, the deadlines are
/// exact multiples of the period, whatever the turns took.
pub proof fn law_phase_is_kept(deadline: int, p: int, nows: Seq<int>)
    requires
        forall|i: int| 0 <= i < nows.len() ==> #[trigger] nows[i] <= deadline + (i + 1) * p,
    ensures
        deadline_after(deadline, p, nows) == deadline + nows.len() * p,
    decreases nows.len(),
{
    if nows.len() > 0 {
        let init = nows.drop_last();
        assert(forall|i: int| 0 <= i < init.len() ==> init[i] == nows[i]);
        law_phase_is_kept(deadline, p, init);
        let k = init.len();
        assert(nows[k as int] <= deadline + (k + 1) * p);
        assert((k + 1) * p == k * p + p) by (nonlinear_arith);
    }
}

// ---------------------------------------------------------------- sequence

/// What plays a step; a delay plays nothing.
pub open spec fn played(step: Step) -> Option<Input> {
    match step {
        Step::Button { btn, down } => Some(inject::button_record(macros::numbered(btn), down)),
        Step::Key { vk, scan, down } => Some(
            if scan != 0 {
                inject::scan_record(scan, down)
            } else {
                inject::vk_record(vk, down)
            },
        ),
        Step::Wheel { delta } => Some(
            inject::mouse_record(inject::MOUSE_WHEEL, inject::wheel_data(delta) as u32, 0, 0),
        ),
        Step::Move { dx, dy } => Some(inject::mouse_record(inject::MOUSE_MOVE, 0, dx, dy)),
        Step::Delay { .. } => None,
    }
}

/// The record that plays a step.
pub fn play(step: &Step) -> (r: Option<Input>)
    ensures
        r == played(*step),
{
    match *step {
        Step::Button { btn, down } => Some(inject::mouse(macros::btn_of(btn), down)),
        Step::Key { vk, scan, down } => {
            if scan != 0 {
                Some(inject::key_scan(scan, down))
            } else {
                Some(inject::key_vk(vk, down))
            }
        },
        Step::Wheel { delta } => Some(inject::wheel(delta)),
        Step::Move { dx, dy } => Some(inject::move_rel(dx, dy)),
        Step::Delay { .. } => None,
    }
}

/// Whether `t` is the shortest of the delays among the first `n` steps.
pub open spec fn shortest(steps: Seq<Step>, ticks: Seq<i64>, n: int, t: Option<i64>) -> bool {
    match t {
        None => forall|i: int| 0 <= i < n ==> !(#[trigger] steps[i] is Delay),
        Some(least) => {
            &&& exists|i: int| 0 <= i < n && #[trigger] steps[i] is Delay && ticks[i] == least
            &&& forall|i: int| 0 <= i < n && #[trigger] steps[i] is Delay ==> least <= ticks[i]
        },
    }
}

/// The period that a waiter is set to for a sequence: its shortest delay, 8 ms where it has none,
/// one tick at least. `ticks` gives the length of each step that is a delay.
pub fn sequence_period(steps: &Vec<Step>, ticks: &Vec<i64>, qpf: i64) -> (r: i64)
    requires
        steps.len() == ticks.len(),
        qpf > 0,
    ensures
        exists|t: Option<i64>| #[trigger]
            shortest(steps@, ticks@, steps@.len() as int, t) && r == ({
                let p = match t {
                    Some(least) => least as int,
                    None => clock::micros(8000, qpf as int),
                };
                if p < 1 {
                    1
                } else {
                    p
                }
            }),
{
    let mut least: Option<i64> = None;
    let mut i: usize = 0;
    while i < steps.len()
        invariant
            i <= steps.len(),
            steps.len() == ticks.len(),
            shortest(steps@, ticks@, i as int, least),
        decreases steps.len() - i,
    {
        let ghost before = least;
        if let Step::Delay { .. } = steps[i] {
            let t: i64 = ticks[i];
            assert(steps@[i as int] is Delay);
            least = match least {
                Some(l) => if t < l {
                    Some(t)
                } else {
                    Some(l)
                },
                None => Some(t),
            };
        }
        i += 1;
    }
    let p: i64 = match least {
        Some(l) => l,
        None => clock::ticks_in(8000, qpf),
    };
    if p < 1 {
        1
    } else {
        p
    }
}

/// What a sequence waits to be told about.
#[derive(Clone, Copy, PartialEq, Eq, Structural, Debug)]
pub enum Part {
    /// Whether something was told, before each step.
    Listening,
    /// The step.
    Acting,
    /// The time at the end of a pass.
    Passing,
    /// The measurement of a pass.
    Measuring,
    Ended,
}

/// A sequence being played. Its delays add up on one timeline, so that its length stays honest
/// even where a step is late.
pub struct Playback {
    pub part: Part,
    pub steps: Vec<Step>,
    /// How long each step that is a delay takes.
    pub ticks: Vec<i64>,
    /// The step that comes next.
    pub at: usize,
    pub limit: Option<u64>,
    pub passes: u64,
    /// How far the timeline has come.
    pub clock_base: i64,
    /// When the last pass ended.
    pub prev_pass: i64,
}

impl Playback {
    /// The invariant: each step has its ticks, and while the sequence listens there is a step to
    /// come.
    pub open spec fn wf(self) -> bool {
        &&& self.steps@.len() == self.ticks@.len()
        &&& self.steps@.len() > 0
        &&& self.at <= self.steps@.len()
        &&& self.part == Part::Listening ==> self.at < self.steps@.len()
    }

    /// Whether this can be an answer to what was asked last.
    pub open spec fn expects(self, ev: Ev) -> bool {
        match self.part {
            Part::Listening => ev is Heard,
            Part::Acting | Part::Measuring => ev is Done,
            Part::Passing => ev is Time,
            Part::Ended => false,
        }
    }

    /// The step that comes next.
    pub open spec fn step(self) -> Step {
        self.steps@[self.at as int]
    }

    /// How far the timeline is after the step that comes next.
    pub open spec fn base_after_step(self) -> int {
        if self.step() is Delay {
            self.clock_base + self.ticks@[self.at as int]
        } else {
            self.clock_base as int
        }
    }

    /// Whether the times that come of an answer fit in a counter.
    pub open spec fn room(self, ev: Ev) -> bool {
        match ev {
            Ev::Heard(_) => i64::MIN <= self.base_after_step() <= i64::MAX,
            Ev::Time(now) => i64::MIN <= now - self.prev_pass <= i64::MAX && self.passes
                < u64::MAX,
            _ => true,
        }
    }

    /// What an answer makes of the sequence, and what it asks for next.
    ///
    /// Something that is told is heeded before each step, and a limit of zero leaves no pass to
    /// play. The timeline never falls behind, or a
    /// long macro would be caught up with in a burst.
    pub open spec fn stepped(self, ev: Ev) -> (Playback, Do) {
        match (self.part, ev) {
            (Part::Listening, Ev::Heard(heard)) => match engine::ended_by(heard) {
                Some(next) => (Playback { part: Part::Ended, ..self }, Do::End(next)),
                None => if reached(self.limit, self.passes as int) {
                    (Playback { part: Part::Ended, ..self }, Do::End(Next::Idle))
                } else {
                    (
                        Playback {
                            part: Part::Acting,
                            at: (self.at + 1) as usize,
                            clock_base: self.base_after_step() as i64,
                            ..self
                        },
                        match played(self.step()) {
                            Some(input) => Do::Send(input),
                            None => Do::Wait(self.base_after_step() as i64),
                        },
                    )
                },
            },
            (Part::Acting, _) => if self.at < self.steps@.len() {
                (Playback { part: Part::Listening, ..self }, Do::Listen)
            } else {
                (Playback { part: Part::Passing, ..self }, Do::Clock)
            },
            (Part::Passing, Ev::Time(now)) => (
                Playback {
                    part: Part::Measuring,
                    passes: (self.passes + 1) as u64,
                    prev_pass: now,
                    clock_base: if self.clock_base < now {
                        now
                    } else {
                        self.clock_base
                    },
                    ..self
                },
                Do::Measure {
                    ticks: (now - self.prev_pass) as i64,
                    events: (self.passes + 1) as u64,
                },
            ),
            (Part::Measuring, _) => if reached(self.limit, self.passes as int) {
                (Playback { part: Part::Ended, ..self }, Do::End(Next::Idle))
            } else {
                (Playback { part: Part::Listening, at: 0, ..self }, Do::Listen)
            },
            _ => (self, Do::Listen),
        }
    }

    /// Starts a sequence at `now`; one without steps does not start. It asks to listen first.
    pub fn start(
        steps: Vec<Step>,
        ticks: Vec<i64>,
        limit: Option<u64>,
        now: i64,
    ) -> (r: Option<Self>)
        requires
            steps.len() == ticks.len(),
        ensures
            r is None <==> steps.len() == 0,
            r matches Some(p) ==> p == Playback::begun(steps, ticks, limit, now),
            r matches Some(p) ==> p.wf() && p == (Playback {
                part: Part::Listening,
                steps,
                ticks,
                at: 0,
                limit,
                passes: 0,
                clock_base: now,
                prev_pass: now,
            }),
    {
        if steps.len() == 0 {
            None
        } else {
            Some(
                Playback {
                    part: Part::Listening,
                    steps,
                    ticks,
                    at: 0,
                    limit,
                    passes: 0,
                    clock_base: now,
                    prev_pass: now,
                },
            )
        }
    }

    /// Whether the times that come of an answer fit in a counter.
    pub fn fits(&self, ev: &Ev) -> (r: bool)
        requires
            self.wf(),
            self.expects(*ev),
        ensures
            r == self.room(*ev),
    {
        match ev {
            Ev::Heard(_) => match self.steps[self.at] {
                Step::Delay { .. } => {
                    let base: i128 = self.clock_base as i128 + self.ticks[self.at] as i128;
                    i64::MIN as i128 <= base && base <= i64::MAX as i128
                },
                _ => true,
            },
            Ev::Time(now) => {
                let apart: i128 = *now as i128 - self.prev_pass as i128;
                i64::MIN as i128 <= apart && apart <= i64::MAX as i128 && self.passes < u64::MAX
            },
            _ => true,
        }
    }

    /// Takes in the answer to what was asked last, and asks for the next thing.
    pub fn next(&mut self, ev: Ev) -> (r: Do)
        requires
            old(self).wf(),
            old(self).expects(ev),
            old(self).room(ev),
        ensures
            final(self).wf(),
            (*final(self), r) == old(self).stepped(ev),
    {
        match self.part {
            Part::Listening => match ev {
                Ev::Heard(heard) => match engine::interrupted(heard) {
                    Some(next) => {
                        self.part = Part::Ended;
                        Do::End(next)
                    },
                    None => {
                        if is_reached(self.limit, self.passes) {
                            self.part = Part::Ended;
                            return Do::End(Next::Idle);
                        }
                        let i: usize = self.at;
                        assert(i < self.steps.len());
                        let step = self.steps[i];
                        self.part = Part::Acting;
                        self.at = i + 1;
                        match play(&step) {
                            Some(input) => Do::Send(input),
                            None => {
                                self.clock_base = self.clock_base + self.ticks[i];
                                Do::Wait(self.clock_base)
                            },
                        }
                    },
                },
                _ => Do::Listen,
            },
            Part::Acting => {
                if self.at < self.steps.len() {
                    self.part = Part::Listening;
                    Do::Listen
                } else {
                    self.part = Part::Passing;
                    Do::Clock
                }
            },
            Part::Passing => match ev {
                Ev::Time(now) => {
                    let ticks: i64 = now - self.prev_pass;
                    self.part = Part::Measuring;
                    self.passes = self.passes + 1;
                    self.prev_pass = now;
                    if self.clock_base < now {
                        self.clock_base = now;
                    }
                    Do::Measure { ticks, events: self.passes }
                },
                _ => Do::Listen,
            },
            Part::Measuring => {
                if is_reached(self.limit, self.passes) {
                    self.part = Part::Ended;
                    Do::End(Next::Idle)
                } else {
                    self.part = Part::Listening;
                    self.at = 0;
                    Do::Listen
                }
            },
            Part::Ended => Do::Listen,
        }
    }
}

// -------------------------------------------------------------------- jobs

/// A job in progress, of either sort.
pub enum Run {
    Clicks(Clicks),
    Playback(Playback),
}

impl Run {
    pub open spec fn wf(self) -> bool {
        match self {
            Run::Clicks(c) => c.period >= 1,
            Run::Playback(p) => p.wf(),
        }
    }

    /// Whether this can be an answer to what was asked last.
    pub open spec fn expects(self, ev: Ev) -> bool {
        match self {
            Run::Clicks(c) => c.expects(ev),
            Run::Playback(p) => p.expects(ev),
        }
    }

    /// Whether the times that come of an answer fit in a counter.
    pub open spec fn room(self, ev: Ev) -> bool {
        match self {
            Run::Clicks(c) => c.room(ev),
            Run::Playback(p) => p.room(ev),
        }
    }

    /// What an answer makes of the job, and what it asks for next.
    pub open spec fn stepped(self, ev: Ev) -> (Run, Do) {
        match self {
            Run::Clicks(c) => {
                let (after, ask) = c.stepped(ev);
                (Run::Clicks(after), ask)
            },
            Run::Playback(p) => {
                let (after, ask) = p.stepped(ev);
                (Run::Playback(after), ask)
            },
        }
    }

    /// Whether the times that come of an answer fit in a counter.
    pub fn fits(&self, ev: &Ev) -> (r: bool)
        requires
            self.wf(),
            self.expects(*ev),
        ensures
            r == self.room(*ev),
    {
        match self {
            Run::Clicks(c) => c.fits(ev),
            Run::Playback(p) => p.fits(ev),
        }
    }

    /// Takes in the answer to what was asked last, and asks for the next thing.
    pub fn next(&mut self, ev: Ev) -> (r: Do)
        requires
            old(self).wf(),
            old(self).expects(ev),
            old(self).room(ev),
        ensures
            final(self).wf(),
            (*final(self), r) == old(self).stepped(ev),
    {
        match self {
            Run::Clicks(c) => c.next(ev),
            Run::Playback(p) => p.next(ev),
        }
    }
}

impl Run {
    /// Starts a job at `now`. Clicking goes by a period and a hold, a sequence by the ticks of each
    /// of its delays; one without steps does not start. A job asks to listen first.
    pub fn start(
        job: &Job,
        period: i64,
        hold: i64,
        jitters: bool,
        ticks: Vec<i64>,
        now: i64,
        prev: i64,
    ) -> (r: Option<Self>)
        requires
            job.mode == Mode::Sequence ==> job.steps.len() == ticks.len(),
            job.mode != Mode::Sequence ==> now + (if period < 1 {
                1
            } else {
                period as int
            }) <= i64::MAX,
        ensures
            r is None <==> job.mode == Mode::Sequence && job.steps@.len() == 0,
            r matches Some(run) ==> run.wf(),
            r matches Some(Run::Playback(p)) ==> {
                &&& job.mode == Mode::Sequence
                &&& p.part == Part::Listening
                &&& p.steps@ == job.steps@
                &&& p.ticks == ticks
                &&& (p.at, p.limit, p.passes) == (0usize, job.limit, 0u64)
                &&& (p.clock_base, p.prev_pass) == (now, now)
            },
            r matches Some(Run::Playback(p)) ==> p == Playback::begun(
                p.steps,
                ticks,
                job.limit,
                now,
            ),
            r matches Some(Run::Clicks(c)) ==> c == Clicks::begun(
                *job,
                period,
                hold,
                jitters,
                now,
                prev,
            ),
            r matches Some(Run::Clicks(c)) ==> {
                &&& job.mode != Mode::Sequence
                &&& c == (Clicks {
                    phase: Phase::Listening,
                    btn: job.btn,
                    dry: job.mode == Mode::Benchmark,
                    period: if period < 1 {
                        1
                    } else {
                        period
                    },
                    hold,
                    jitters,
                    limit: job.limit,
                    deadline: (now + c.period) as i64,
                    prev,
                    n: 0,
                    tick: 0,
                })
            },
    {
        if job.mode == Mode::Sequence {
            let steps = job.steps.clone();
            assert(steps@ == job.steps@);
            match Playback::start(steps, ticks, job.limit, now) {
                Some(p) => Some(Run::Playback(p)),
                None => None,
            }
        } else {
            Some(Run::Clicks(Clicks::start(job, period, hold, jitters, now, prev)))
        }
    }
}

/// How far the timeline is after the first `n` steps.
pub open spec fn timeline(base: int, steps: Seq<Step>, ticks: Seq<i64>, n: nat) -> int
    decreases n,
{
    if n == 0 {
        base
    } else {
        timeline(base, steps, ticks, (n - 1) as nat) + if steps[n - 1] is Delay {
            ticks[n - 1] as int
        } else {
            0
        }
    }
}

/// A replay keeps the time of the recording: where each delay takes the ticks that were recorded,
/// a step comes as long after the start of the pass as the delays before it add up to.
pub proof fn law_replay_keeps_time(base: int, steps: Seq<Step>, ticks: Seq<i64>, n: nat)
    requires
        n <= steps.len(),
        forall|i: int|
            0 <= i < steps.len() ==> (#[trigger] steps[i] matches Step::Delay { span } ==> span
                matches Span::Ticks { ticks: t, .. } && ticks[i] == t),
    ensures
        timeline(base, steps, ticks, n) == base + macros::delayed(steps.take(n as int)),
    decreases n,
{
    if n > 0 {
        law_replay_keeps_time(base, steps, ticks, (n - 1) as nat);
        assert(steps.take(n as int).drop_last() == steps.take(n - 1));
        assert(steps.take(n as int).last() == steps[n - 1]);
    }
}

/// A replay sends what was recorded: a key by its scancode where it has one, a button by its
/// number, a wheel notch in its direction; and all of it marked as sent by this program.
pub proof fn law_replay_sends_what_was_heard(signal: Signal, down: bool)
    ensures
        macros::playable(signal, down) matches Some(step) ==> {
            &&& played(step) is Some
            &&& played(step)->0.tagged()
            &&& match signal {
                Signal::MouseButton { index, .. } => played(step)->0 == inject::button_record(
                    macros::numbered(index),
                    down,
                ),
                Signal::Key { vk, scancode, .. } => played(step)->0 == if scancode != 0 {
                    inject::scan_record(scancode, down)
                } else {
                    inject::vk_record(vk, down)
                },
                Signal::Wheel { up, .. } => played(step)->0 == inject::mouse_record(
                    inject::MOUSE_WHEEL,
                    if up {
                        120
                    } else {
                        0xFFFF_FF88
                    },
                    0,
                    0,
                ),
                Signal::HidBit { .. } => false,
            }
        },
{
}

// ------------------------------------------------------------- whole clicks

/// Whether an answer says that the job has to end.
pub open spec fn told_to_end(ev: Ev) -> bool {
    ev matches Ev::Heard(heard) && engine::ended_by(heard) is Some
}

impl Clicks {
    /// The loop after a run of answers.
    pub open spec fn after(self, evs: Seq<Ev>) -> Clicks
        decreases evs.len(),
    {
        if evs.len() == 0 {
            self
        } else {
            self.after(evs.drop_last()).stepped(evs.last()).0
        }
    }

    /// All that it asked to send on the way.
    pub open spec fn sent(self, evs: Seq<Ev>) -> Seq<Input>
        decreases evs.len(),
    {
        if evs.len() == 0 {
            Seq::empty()
        } else {
            let before = self.sent(evs.drop_last());
            match self.after(evs.drop_last()).stepped(evs.last()).1 {
                Do::Send(input) => before.push(input),
                _ => before,
            }
        }
    }

    /// Whether each answer is one to what was asked, with times that fit.
    pub open spec fn answered(self, evs: Seq<Ev>) -> bool
        decreases evs.len(),
    {
        evs.len() == 0 || {
            &&& self.answered(evs.drop_last())
            &&& self.after(evs.drop_last()).expects(evs.last())
            &&& self.after(evs.drop_last()).room(evs.last())
        }
    }

    /// How much of a click that is not counted yet was sent.
    pub open spec fn under_way(self) -> int {
        match self.phase {
            Phase::Pressing | Phase::Pressed | Phase::Holding => 1,
            Phase::LettingGo | Phase::LetGo => 2,
            _ => 0,
        }
    }

    /// Whether a turn was measured and what follows it is not decided.
    pub open spec fn undecided(self) -> bool {
        self.phase == Phase::Measuring || self.phase == Phase::Publishing
    }
}

/// Clicks are whole: presses and releases of the one button alternate, a job that ends has let go
/// of it however it was ended, and one that ends by itself has clicked as often as it was to.
pub proof fn law_clicks_are_whole(c: Clicks, evs: Seq<Ev>)
    requires
        c.phase == Phase::Listening,
        c.n == 0,
        c.answered(evs),
    ensures
        ({
            let a = c.after(evs);
            let s = c.sent(evs);
            &&& s.len() == 2 * a.n + a.under_way()
            &&& forall|i: int|
                0 <= i < s.len() ==> #[trigger] s[i] == if i % 2 == 0 {
                    c.press()
                } else {
                    c.release()
                }
            &&& a.phase == Phase::Ended ==> s.len() == 2 * a.n
            &&& c.limit matches Some(most) ==> a.n <= most
            &&& a.phase == Phase::Ended && !told_to_end(evs.last()) ==> c.limit == Some(a.n)
        }),
{
    lemma_clicks(c, evs);
}

proof fn lemma_clicks(c: Clicks, evs: Seq<Ev>)
    requires
        c.phase == Phase::Listening,
        c.n == 0,
        c.answered(evs),
    ensures
        ({
            let a = c.after(evs);
            let s = c.sent(evs);
            &&& (a.btn, a.dry, a.limit) == (c.btn, c.dry, c.limit)
            &&& s.len() == 2 * a.n + a.under_way()
            &&& forall|i: int|
                0 <= i < s.len() ==> #[trigger] s[i] == if i % 2 == 0 {
                    c.press()
                } else {
                    c.release()
                }
            &&& c.limit matches Some(most) ==> a.n <= most
            &&& !a.undecided() && a.phase != Phase::Ended && a.phase != Phase::Listening
                ==> !reached(c.limit, a.n as int)
            &&& a.phase == Phase::Ended && !told_to_end(evs.last()) ==> reached(c.limit, a.n as int)
        }),
    decreases evs.len(),
{
    if evs.len() > 0 {
        lemma_clicks(c, evs.drop_last());
    }
}

// ------------------------------------------------------------- whole passes

impl Playback {
    /// The sequence after `n` steps that nothing interrupts, and what it asked to send.
    pub open spec fn undisturbed(self, n: nat) -> (Playback, Seq<Input>)
        decreases n,
    {
        if n == 0 {
            (self, Seq::empty())
        } else {
            let (before, sent) = self.undisturbed((n - 1) as nat);
            let (acting, ask) = before.stepped(Ev::Heard(Heard::Nothing));
            (
                acting.stepped(Ev::Done).0,
                match ask {
                    Do::Send(input) => sent.push(input),
                    _ => sent,
                },
            )
        }
    }
}

/// What the first `n` steps send.
pub open spec fn records(steps: Seq<Step>, n: nat) -> Seq<Input>
    decreases n,
{
    if n == 0 {
        Seq::empty()
    } else {
        match played(steps[n - 1]) {
            Some(input) => records(steps, (n - 1) as nat).push(input),
            None => records(steps, (n - 1) as nat),
        }
    }
}

/// A pass that nothing interrupts sends every step in order, each after the delays before it, and
/// then asks for the time.
pub proof fn law_a_pass_plays_every_step(p: Playback, n: nat)
    requires
        p.wf(),
        p.part == Part::Listening,
        p.at == 0,
        !reached(p.limit, p.passes as int),
        n <= p.steps@.len(),
        forall|k: nat|
            k <= n ==> i64::MIN <= #[trigger] timeline(
                p.clock_base as int,
                p.steps@,
                p.ticks@,
                k,
            ) <= i64::MAX,
    ensures
        ({
            let (after, sent) = p.undisturbed(n);
            &&& sent == records(p.steps@, n)
            &&& after.at == n
            &&& after.steps == p.steps
            &&& after.ticks == p.ticks
            &&& (after.limit, after.passes) == (p.limit, p.passes)
            &&& after.clock_base == timeline(p.clock_base as int, p.steps@, p.ticks@, n)
            &&& after.part == if n < p.steps@.len() {
                Part::Listening
            } else {
                Part::Passing
            }
        }),
    decreases n,
{
    if n > 0 {
        law_a_pass_plays_every_step(p, (n - 1) as nat);
        assert(p.steps.len() <= usize::MAX);
        assert(i64::MIN <= timeline(p.clock_base as int, p.steps@, p.ticks@, n) <= i64::MAX);
    }
}

impl Playback {
    /// The sequence after a run of answers.
    pub open spec fn after(self, evs: Seq<Ev>) -> Playback
        decreases evs.len(),
    {
        if evs.len() == 0 {
            self
        } else {
            self.after(evs.drop_last()).stepped(evs.last()).0
        }
    }

    /// All that it asked to send on the way.
    pub open spec fn sent(self, evs: Seq<Ev>) -> Seq<Input>
        decreases evs.len(),
    {
        if evs.len() == 0 {
            Seq::empty()
        } else {
            let before = self.sent(evs.drop_last());
            match self.after(evs.drop_last()).stepped(evs.last()).1 {
                Do::Send(input) => before.push(input),
                _ => before,
            }
        }
    }

    /// How many steps of a pass that is not counted yet were played.
    pub open spec fn under_way(self) -> nat {
        if self.part == Part::Measuring || (self.part == Part::Ended && self.at
            == self.steps@.len()) {
            0
        } else {
            self.at as nat
        }
    }

    /// Whether each answer is one to what was asked, with times that fit.
    pub open spec fn answered(self, evs: Seq<Ev>) -> bool
        decreases evs.len(),
    {
        evs.len() == 0 || {
            &&& self.answered(evs.drop_last())
            &&& self.after(evs.drop_last()).expects(evs.last())
            &&& self.after(evs.drop_last()).room(evs.last())
        }
    }
}

proof fn lemma_passes(p: Playback, evs: Seq<Ev>)
    requires
        p.part == Part::Listening,
        p.passes == 0,
        p.answered(evs),
    ensures
        ({
            let a = p.after(evs);
            &&& a.limit == p.limit
            &&& p.limit matches Some(most) ==> a.passes <= most
            &&& a.part == Part::Acting || a.part == Part::Passing ==> !reached(
                p.limit,
                a.passes as int,
            )
            &&& a.part == Part::Ended && !told_to_end(evs.last()) ==> reached(
                p.limit,
                a.passes as int,
            )
        }),
    decreases evs.len(),
{
    if evs.len() > 0 {
        lemma_passes(p, evs.drop_last());
    }
}

/// A sequence that ends by itself has been played as often as it was to, and none is played more
/// often than that.
pub proof fn law_passes_are_exact(p: Playback, evs: Seq<Ev>)
    requires
        p.part == Part::Listening,
        p.passes == 0,
        p.answered(evs),
    ensures
        p.limit matches Some(most) ==> p.after(evs).passes <= most,
        p.after(evs).part == Part::Ended && !told_to_end(evs.last()) ==> p.limit == Some(
            p.after(evs).passes,
        ),
{
    lemma_passes(p, evs);
}

/// The same, so many times over.
pub open spec fn repeated(inputs: Seq<Input>, n: nat) -> Seq<Input>
    decreases n,
{
    if n == 0 {
        Seq::empty()
    } else {
        repeated(inputs, (n - 1) as nat) + inputs
    }
}

/// A playback sends its steps in order, pass after pass, and nothing else: at any time the passes
/// that are counted were sent whole, and of the one under way the steps that were come to. One
/// that ends by itself has sent all of its steps exactly as often as it was to.
pub proof fn law_playback_sends_whole_passes(p: Playback, evs: Seq<Ev>)
    requires
        p.wf(),
        p.part == Part::Listening,
        p.at == 0,
        p.passes == 0,
        p.answered(evs),
    ensures
        ({
            let a = p.after(evs);
            let pass = records(p.steps@, p.steps@.len());
            &&& p.sent(evs) == repeated(pass, a.passes as nat) + records(p.steps@, a.under_way())
            &&& a.part == Part::Ended && !told_to_end(evs.last()) ==> {
                &&& p.limit is Some
                &&& p.sent(evs) == repeated(pass, p.limit->0 as nat)
            }
        }),
{
    lemma_sent(p, evs);
    lemma_passes(p, evs);
    let pass = records(p.steps@, p.steps@.len());
    let whole = repeated(pass, p.after(evs).passes as nat);
    assert(whole + Seq::<Input>::empty() == whole);
}

proof fn lemma_sent(p: Playback, evs: Seq<Ev>)
    requires
        p.wf(),
        p.part == Part::Listening,
        p.at == 0,
        p.passes == 0,
        p.answered(evs),
    ensures
        ({
            let a = p.after(evs);
            let pass = records(p.steps@, p.steps@.len());
            &&& a.wf()
            &&& a.steps == p.steps
            &&& a.ticks == p.ticks
            &&& a.limit == p.limit
            &&& a.part == Part::Passing || a.part == Part::Measuring ==> a.at == p.steps@.len()
            &&& (a.part == Part::Listening && a.at > 0) || a.part == Part::Acting
                ==> !reached(p.limit, a.passes as int)
            &&& a.part == Part::Ended && !told_to_end(evs.last()) ==> a.under_way() == 0
            &&& p.sent(evs) == repeated(pass, a.passes as nat) + records(p.steps@, a.under_way())
        }),
    decreases evs.len(),
{
    let pass = records(p.steps@, p.steps@.len());
    if evs.len() == 0 {
        assert(p.sent(evs) == repeated(pass, 0) + records(p.steps@, 0));
    } else {
        let init = evs.drop_last();
        lemma_sent(p, init);
        let b = p.after(init);
        let a = p.after(evs);
        assert(p.steps.len() <= usize::MAX);
        let whole = repeated(pass, b.passes as nat);
        assert(p.sent(evs) == repeated(pass, a.passes as nat) + records(p.steps@, a.under_way()));
    }
}

// ------------------------------------------------------------ times of clicks

impl Clicks {
    /// The deadlines that it asked to wait for before its presses, in order.
    pub open spec fn due(self, evs: Seq<Ev>) -> Seq<int>
        decreases evs.len(),
    {
        if evs.len() == 0 {
            Seq::empty()
        } else {
            let before = self.due(evs.drop_last());
            let (after, ask) = self.after(evs.drop_last()).stepped(evs.last());
            match ask {
                Do::Wait(t) if after.phase == Phase::Waiting => before.push(t as int),
                _ => before,
            }
        }
    }

    /// The times at which its clicks were over, in order.
    pub open spec fn ends(self, evs: Seq<Ev>) -> Seq<int>
        decreases evs.len(),
    {
        if evs.len() == 0 {
            Seq::empty()
        } else {
            let before = self.ends(evs.drop_last());
            match evs.last() {
                Ev::Time(t) if self.after(evs.drop_last()).phase == Phase::LetGo => before.push(
                    t as int,
                ),
                _ => before,
            }
        }
    }

    /// What it asked to have measured, in order: how long since the last one, and how many.
    pub open spec fn measured(self, evs: Seq<Ev>) -> Seq<(int, int)>
        decreases evs.len(),
    {
        if evs.len() == 0 {
            Seq::empty()
        } else {
            let before = self.measured(evs.drop_last());
            match self.after(evs.drop_last()).stepped(evs.last()).1 {
                Do::Measure { ticks, events } => before.push((ticks as int, events as int)),
                _ => before,
            }
        }
    }

    /// The lengths of its periods that were told, in order.
    pub open spec fn strides(self, evs: Seq<Ev>) -> Seq<int>
        decreases evs.len(),
    {
        if evs.len() == 0 {
            Seq::empty()
        } else {
            let before = self.strides(evs.drop_last());
            match evs.last() {
                Ev::Period(t) => before.push(
                    if t < 1 {
                        1
                    } else {
                        t as int
                    },
                ),
                _ => before,
            }
        }
    }

    /// Whether a turn is between its wait and its measurement.
    spec fn turning(self) -> bool {
        match self.phase {
            Phase::Waiting | Phase::Pressing | Phase::Pressed | Phase::Holding | Phase::LettingGo
            | Phase::LetGo => true,
            _ => false,
        }
    }
}

/// The deadline `p` ticks after one that was due at `d`, where the click was over at `end`: `p`
/// ticks on, unless that is in the past.
pub open spec fn next_due(d: int, p: int, end: int) -> int {
    if end <= d + p {
        d + p
    } else {
        end + p
    }
}

spec fn length_of_turn(c: Clicks, evs: Seq<Ev>, k: int) -> int {
    if c.jitters {
        c.strides(evs)[k]
    } else {
        c.period as int
    }
}

proof fn lemma_due(c: Clicks, evs: Seq<Ev>)
    requires
        c.phase == Phase::Listening,
        c.period >= 1,
        c.n == 0,
        c.answered(evs),
    ensures
        ({
            let a = c.after(evs);
            let due = c.due(evs);
            let ends = c.ends(evs);
            &&& (a.period, a.jitters, a.limit, a.hold) == (c.period, c.jitters, c.limit, c.hold)
            &&& ends.len() == a.n
            &&& c.measured(evs).len() == a.n
            &&& a.prev == if a.n == 0 {
                c.prev as int
            } else {
                ends[a.n - 1]
            }
            &&& due.len() == a.n + if a.turning() {
                1int
            } else {
                0
            }
            &&& a.turning() ==> a.deadline == due.last()
            &&& a.undecided() || a.phase == Phase::Striding ==> a.n > 0 && a.deadline == due.last()
            &&& a.phase == Phase::Striding ==> c.jitters
            &&& a.phase == Phase::Listening && a.n == 0 ==> a.deadline == c.deadline
            &&& c.jitters && a.phase != Phase::Ended ==> c.strides(evs).len() == a.n - if a.undecided()
                || a.phase == Phase::Striding {
                1int
            } else {
                0
            }
            &&& !c.jitters ==> c.strides(evs).len() == 0
            &&& a.phase == Phase::Listening && a.n > 0 ==> a.deadline == next_due(
                due.last(),
                length_of_turn(c, evs, a.n - 1),
                ends.last(),
            )
            &&& due.len() > 0 ==> due[0] == c.deadline
            &&& forall|k: int|
                0 <= k < due.len() - 1 ==> #[trigger] due[k + 1] == next_due(
                    due[k],
                    length_of_turn(c, evs, k),
                    ends[k],
                )
            &&& c.jitters ==> c.strides(evs).len() + 1 >= due.len()
            &&& forall|k: int|
                0 <= k < a.n ==> #[trigger] c.measured(evs)[k] == (
                    ends[k] - if k == 0 {
                        c.prev as int
                    } else {
                        ends[k - 1]
                    },
                    k + 1,
                )
        }),
    decreases evs.len(),
{
    if evs.len() > 0 {
        let init = evs.drop_last();
        lemma_due(c, init);
        let b = c.after(init);
        let a = c.after(evs);
        assert forall|k: int| 0 <= k < c.due(evs).len() - 1 implies #[trigger] c.due(evs)[k + 1]
            == next_due(c.due(evs)[k], length_of_turn(c, evs, k), c.ends(evs)[k]) by {
            if k + 1 < c.due(init).len() {
                assert(c.due(init)[k + 1] == next_due(
                    c.due(init)[k],
                    length_of_turn(c, init, k),
                    c.ends(init)[k],
                ));
            }
        }
    }
}

/// The loop clicks at the rate that was asked for: over any run of answers, it waits before its
/// first press for its first deadline, and before each later one for a whole period after the
/// deadline before it, or after the end of the click before it where that was later still. So no
/// deadline comes less than a period after the one before, whatever the machine does; and where
/// no click is late they are exactly a period apart. A period that jitters is as long as it was
/// told to be, one tick at least. Each click is measured from the end of the one before, and
/// counted.
pub proof fn law_clicks_keep_their_rate(c: Clicks, evs: Seq<Ev>, k: int)
    requires
        c.phase == Phase::Listening,
        c.period >= 1,
        c.n == 0,
        c.answered(evs),
        0 <= k,
    ensures
        ({
            let due = c.due(evs);
            let ends = c.ends(evs);
            let period = if c.jitters {
                c.strides(evs)[k]
            } else {
                c.period as int
            };
            &&& due.len() > 0 ==> due[0] == c.deadline
            &&& ends.len() <= due.len() <= ends.len() + 1
            &&& k + 1 < due.len() ==> {
                &&& period >= 1
                &&& due[k + 1] >= due[k] + period
                &&& due[k + 1] >= ends[k]
                &&& ends[k] <= due[k] + period ==> due[k + 1] == due[k] + period
                &&& ends[k] > due[k] + period ==> due[k + 1] == ends[k] + period
            }
            &&& !c.jitters && k < due.len() && (forall|i: int|
                0 <= i < k ==> #[trigger] ends[i] <= c.deadline + (i + 1) * c.period) ==> due[k]
                == c.deadline + k * c.period
            &&& c.measured(evs).len() == ends.len()
            &&& k < ends.len() ==> c.measured(evs)[k] == (
                ends[k] - if k == 0 {
                    c.prev as int
                } else {
                    ends[k - 1]
                },
                k + 1,
            )
        }),
{
    lemma_due(c, evs);
    lemma_strides(c, evs);
    let due = c.due(evs);
    if k + 1 < due.len() {
        assert(due[k + 1] == next_due(due[k], length_of_turn(c, evs, k), c.ends(evs)[k]));
    }
    if !c.jitters && k < due.len() && (forall|i: int|
        0 <= i < k ==> #[trigger] c.ends(evs)[i] <= c.deadline + (i + 1) * c.period) {
        lemma_on_time(c, evs, k);
    }
}

proof fn lemma_strides(c: Clicks, evs: Seq<Ev>)
    ensures
        forall|k: int| 0 <= k < c.strides(evs).len() ==> #[trigger] c.strides(evs)[k] >= 1,
    decreases evs.len(),
{
    if evs.len() > 0 {
        let init = evs.drop_last();
        lemma_strides(c, init);
        assert forall|k: int| 0 <= k < c.strides(evs).len() implies #[trigger] c.strides(evs)[k]
            >= 1 by {
            if k < c.strides(init).len() {
                assert(c.strides(init)[k] >= 1);
            }
        }
    }
}

proof fn lemma_on_time(c: Clicks, evs: Seq<Ev>, k: int)
    requires
        c.phase == Phase::Listening,
        c.period >= 1,
        c.n == 0,
        !c.jitters,
        c.answered(evs),
        0 <= k < c.due(evs).len(),
        forall|i: int|
            0 <= i < k ==> #[trigger] c.ends(evs)[i] <= c.deadline + (i + 1) * c.period,
    ensures
        c.due(evs)[k] == c.deadline + k * c.period,
    decreases k,
{
    lemma_due(c, evs);
    if k > 0 {
        lemma_on_time(c, evs, k - 1);
        let j = k - 1;
        assert(c.due(evs)[j + 1] == next_due(
            c.due(evs)[j],
            length_of_turn(c, evs, j),
            c.ends(evs)[j],
        ));
        assert(c.ends(evs)[j] <= c.deadline + (j + 1) * c.period);
        assert(k * c.period == (k - 1) * c.period + c.period) by (nonlinear_arith);
    } else {
        assert(k * c.period == 0) by (nonlinear_arith)
            requires
                k == 0,
        ;
    }
}

/// A click is a press of the job's own button and then its release, with the hold between them
/// where there is one: the release waits until the hold has gone by since the press was over. A
/// dry run moves the pointer by nothing, twice, without a hold. The cost of waiting is published
/// after every sixty-fourth click.
pub proof fn law_a_click_is_held(c: Clicks, t: i64)
    requires
        t + c.hold <= i64::MAX,
    ensures
        c.dry ==> c.press() == c.release() && c.press() == inject::mouse_record(1, 0, 0, 0),
        !c.dry ==> c.press() == inject::button_record(c.btn, true) && c.release()
            == inject::button_record(c.btn, false),
        c.phase == Phase::Waiting ==> c.stepped(Ev::Done).1 == Do::Send(c.press()),
        c.phase == Phase::Pressing && (c.dry || c.hold <= 0) ==> c.stepped(Ev::Done).1 == Do::Send(
            c.release(),
        ),
        c.phase == Phase::Pressing && !c.dry && c.hold > 0 ==> {
            let (pressed, read) = c.stepped(Ev::Done);
            let (holding, wait) = pressed.stepped(Ev::Time(t));
            let (_, sent) = holding.stepped(Ev::Done);
            &&& read == Do::Clock
            &&& wait == Do::Wait((t + c.hold) as i64)
            &&& sent == Do::Send(c.release())
        },
        c.phase == Phase::Measuring ==> (c.stepped(Ev::Done).1 == Do::Publish <==> c.tick % 64 == 0),
        c.phase == Phase::LetGo ==> c.stepped(Ev::Time(t)).0.tick == if c.tick == u32::MAX {
            0
        } else {
            c.tick + 1
        },
{
}

// ---------------------------------------------------------- times of a replay

/// Every step is played as what it says: a button by its number, a key by its scancode and only
/// without one by its virtual key, a wheel by its distance, a move by its own. All of it bears the
/// program's mark, and a delay sends nothing.
pub proof fn law_every_step_is_played(step: Step)
    ensures
        match step {
            Step::Button { btn, down } => played(step) == Some(
                inject::button_record(
                    if btn == 1 {
                        Btn::Left
                    } else if btn == 2 {
                        Btn::Right
                    } else if btn == 3 {
                        Btn::Middle
                    } else if btn == 4 {
                        Btn::X1
                    } else {
                        Btn::X2
                    },
                    down,
                ),
            ),
            Step::Key { vk, scan, down } => played(step) matches Some(Input::Key(k)) && {
                &&& k.scan == scan
                &&& k.vk == if scan == 0 {
                    vk
                } else {
                    0
                }
                &&& k.flags == (if scan != 0 {
                    8int
                } else {
                    0
                }) + if down {
                    0int
                } else {
                    2
                }
                &&& k.tag == 0x4849_4446
            },
            Step::Wheel { delta } => played(step) matches Some(Input::Mouse(m)) && {
                &&& m.flags == 0x0800
                &&& m.data == if delta >= 0 {
                    delta as int
                } else {
                    delta + 0x1_0000_0000
                }
                &&& m.dx == 0
                &&& m.dy == 0
                &&& m.tag == 0x4849_4446
            },
            Step::Move { dx, dy } => played(step) matches Some(Input::Mouse(m)) && {
                &&& m.flags == 1
                &&& m.data == 0
                &&& m.dx == dx
                &&& m.dy == dy
                &&& m.tag == 0x4849_4446
            },
            Step::Delay { .. } => played(step) is None,
        },
{
}

impl Playback {
    /// Where the timeline of the pass under way began: at the start of the first, and at each later
    /// one where the timeline had come, or at the time of that moment where it had fallen behind.
    pub open spec fn began(self, evs: Seq<Ev>) -> int
        decreases evs.len(),
    {
        if evs.len() == 0 {
            self.clock_base as int
        } else {
            let before = self.began(evs.drop_last());
            match evs.last() {
                Ev::Time(now) => {
                    let over = timeline(before, self.steps@, self.ticks@, self.steps@.len());
                    if over < now {
                        now as int
                    } else {
                        over
                    }
                },
                _ => before,
            }
        }
    }

    /// The times at which its passes were over, in order.
    pub open spec fn ends(self, evs: Seq<Ev>) -> Seq<int>
        decreases evs.len(),
    {
        if evs.len() == 0 {
            Seq::empty()
        } else {
            let before = self.ends(evs.drop_last());
            match evs.last() {
                Ev::Time(now) => before.push(now as int),
                _ => before,
            }
        }
    }
}

proof fn lemma_replay_times(p: Playback, evs: Seq<Ev>)
    requires
        p.wf(),
        p.part == Part::Listening,
        p.at == 0,
        p.passes == 0,
        p.answered(evs),
    ensures
        ({
            let a = p.after(evs);
            &&& a.part != Part::Measuring && a.part != Part::Ended ==> a.clock_base == timeline(
                p.began(evs),
                p.steps@,
                p.ticks@,
                a.at as nat,
            )
            &&& a.part == Part::Measuring ==> a.clock_base == p.began(evs)
            &&& p.ends(evs).len() == a.passes
            &&& a.prev_pass == if a.passes == 0 {
                p.prev_pass as int
            } else {
                p.ends(evs).last()
            }
        }),
    decreases evs.len(),
{
    if evs.len() > 0 {
        let init = evs.drop_last();
        lemma_replay_times(p, init);
        lemma_sent(p, init);
        lemma_sent(p, evs);
        assert(p.steps.len() <= usize::MAX);
    }
}

/// A replay keeps time: over any run of answers, each delay is waited for until the delays of its
/// pass so far have gone by since the pass began. A pass begins where the timeline of the one
/// before had come, or when that was over where it had fallen behind. Each pass is measured from
/// the end of the one before, and counted.
pub proof fn law_delays_add_up(p: Playback, evs: Seq<Ev>, ev: Ev)
    requires
        p.wf(),
        p.part == Part::Listening,
        p.at == 0,
        p.passes == 0,
        p.answered(evs.push(ev)),
    ensures
        ({
            let (after, ask) = p.after(evs).stepped(ev);
            &&& ask matches Do::Wait(t) ==> {
                &&& 0 < after.at <= p.steps@.len()
                &&& p.steps@[after.at - 1] is Delay
                &&& t == timeline(p.began(evs), p.steps@, p.ticks@, after.at as nat)
            }
            &&& ask matches Do::Send(input) ==> {
                &&& 0 < after.at <= p.steps@.len()
                &&& played(p.steps@[after.at - 1]) == Some(input)
            }
            &&& ask matches Do::Measure { ticks, events } ==> (ev matches Ev::Time(now) && {
                &&& events == p.ends(evs).len() + 1
                &&& ticks == now - if p.ends(evs).len() == 0 {
                    p.prev_pass as int
                } else {
                    p.ends(evs).last()
                }
            })
        }),
{
    let all = evs.push(ev);
    assert(all.drop_last() == evs);
    assert(p.steps.len() <= usize::MAX);
    lemma_replay_times(p, evs);
    lemma_sent(p, evs);
}

// ----------------------------------------------------------------- beginning

impl Clicks {
    /// A loop as a job begins it.
    pub open spec fn begun(
        job: Job,
        period: i64,
        hold: i64,
        jitters: bool,
        now: i64,
        prev: i64,
    ) -> Clicks {
        let ticks: i64 = if period < 1 {
            1
        } else {
            period
        };
        Clicks {
            phase: Phase::Listening,
            btn: job.btn,
            dry: job.mode == Mode::Benchmark,
            period: ticks,
            hold,
            jitters,
            limit: job.limit,
            deadline: (now + ticks) as i64,
            prev,
            n: 0,
            tick: 0,
        }
    }
}

impl Playback {
    /// A sequence as a job begins it.
    pub open spec fn begun(steps: Vec<Step>, ticks: Vec<i64>, limit: Option<u64>, now: i64) -> Playback {
        Playback {
            part: Part::Listening,
            steps,
            ticks,
            at: 0,
            limit,
            passes: 0,
            clock_base: now,
            prev_pass: now,
        }
    }
}

/// A loop begins with its first click a period away, with nothing sent and the job's own button,
/// limit and hold; only a benchmark sends nothing that can be seen. A sequence begins with its first
/// step, its timeline at the time of its start.
pub proof fn law_jobs_begin_afresh(
    job: Job,
    period: i64,
    hold: i64,
    jitters: bool,
    now: i64,
    prev: i64,
    steps: Vec<Step>,
    ticks: Vec<i64>,
)
    requires
        now + period <= i64::MAX,
        now < i64::MAX,
    ensures
        ({
            let c = Clicks::begun(job, period, hold, jitters, now, prev);
            let p = Playback::begun(steps, ticks, job.limit, now);
            &&& c.period >= 1
            &&& period >= 1 ==> c.period == period && c.deadline == now + period
            &&& period < 1 ==> c.deadline == now + 1
            &&& c.phase == Phase::Listening
            &&& c.n == 0
            &&& c.tick == 0
            &&& c.btn == job.btn
            &&& c.limit == job.limit
            &&& c.hold == hold
            &&& c.jitters == jitters
            &&& c.prev == prev
            &&& job.mode == Mode::AutoClick ==> !c.dry
            &&& job.mode == Mode::Benchmark ==> c.dry
            &&& p.part == Part::Listening
            &&& p.at == 0
            &&& p.passes == 0
            &&& p.steps == steps
            &&& p.ticks == ticks
            &&& p.limit == job.limit
            &&& p.clock_base == now
            &&& p.prev_pass == now
        }),
{
}

/// The shortest delay is one of the delays, and none is shorter; only a list without delays has none.
pub proof fn law_no_delay_is_shorter(steps: Seq<Step>, ticks: Seq<i64>, t: Option<i64>, i: int)
    requires
        shortest(steps, ticks, steps.len() as int, t),
        0 <= i < steps.len(),
        steps[i] matches Step::Delay { .. },
    ensures
        t is Some,
        t->0 <= ticks[i],
        exists|j: int|
            0 <= j < steps.len() && #[trigger] ticks[j] == t->0 && steps[j] is Delay,
{
    let j = choose|j: int|
        0 <= j < steps.len() && #[trigger] steps[j] is Delay && ticks[j] == t->0;
    assert(ticks[j] == t->0 && steps[j] is Delay);
}

// ------------------------------------------------------------ ask and answer

/// Whether an answer is of the sort that something asked for calls for.
pub open spec fn answers(ask: Do, ev: Ev) -> bool {
    match ask {
        Do::Listen => ev is Heard,
        Do::Clock => ev is Time,
        Do::Jitter => ev is Period,
        Do::End(_) => false,
        _ => ev is Done,
    }
}

/// A loop never gets stuck: whatever it asks for, exactly the answers to that are what it expects
/// next, and it begins by listening.
pub proof fn law_a_loop_can_always_be_answered(c: Clicks, ev: Ev, next: Ev)
    requires
        c.expects(ev),
    ensures
        ({
            let (after, ask) = c.stepped(ev);
            after.expects(next) <==> answers(ask, next)
        }),
        c.phase == Phase::Listening ==> (c.expects(next) <==> next is Heard),
{
}

/// A sequence never gets stuck either.
pub proof fn law_a_sequence_can_always_be_answered(p: Playback, ev: Ev, next: Ev)
    requires
        p.expects(ev),
    ensures
        ({
            let (after, ask) = p.stepped(ev);
            after.expects(next) <==> answers(ask, next)
        }),
        p.part == Part::Listening ==> (p.expects(next) <==> next is Heard),
{
}

/// What is told is heeded between any two clicks, and before any step: a click is waited for, and a
/// step played, only right after listening, and only where nothing was told. What is told then ends
/// the job at once, and nothing more is sent.
pub proof fn law_what_is_told_is_heeded(
    c: Clicks,
    p: Playback,
    ev: Ev,
    job: Job,
    opts: engine::Opts,
    heard: Heard,
)
    ensures
        c.expects(ev) && c.stepped(ev).0.phase == Phase::Waiting ==> c.phase == Phase::Listening && ev
            == Ev::Heard(Heard::Nothing),
        c.expects(ev) && c.stepped(ev).1 == Do::Send(c.press()) && c.phase != Phase::Waiting
            ==> c.phase == Phase::Pressing || c.phase == Phase::Holding,
        p.expects(ev) && (p.stepped(ev).1 is Send || p.stepped(ev).1 is Wait) ==> p.part
            == Part::Listening && ev == Ev::Heard(Heard::Nothing),
        c.phase == Phase::Listening && !(heard is Nothing) ==> {
            let (after, ask) = c.stepped(Ev::Heard(heard));
            &&& after.phase == Phase::Ended
            &&& heard == Heard::Told(engine::Cmd::Start(job, opts)) ==> ask == Do::End(
                Next::Run(job, opts),
            )
            &&& heard == Heard::Told(engine::Cmd::Stop) ==> ask == Do::End(Next::Idle)
            &&& heard == Heard::Told(engine::Cmd::Quit) ==> ask == Do::End(Next::Quit)
            &&& heard == Heard::Gone ==> ask == Do::End(Next::Quit)
        },
        p.part == Part::Listening && !(heard is Nothing) ==> {
            let (after, ask) = p.stepped(Ev::Heard(heard));
            &&& after.part == Part::Ended
            &&& heard == Heard::Told(engine::Cmd::Start(job, opts)) ==> ask == Do::End(
                Next::Run(job, opts),
            )
            &&& heard == Heard::Told(engine::Cmd::Stop) ==> ask == Do::End(Next::Idle)
            &&& heard == Heard::Told(engine::Cmd::Quit) ==> ask == Do::End(Next::Quit)
            &&& heard == Heard::Gone ==> ask == Do::End(Next::Quit)
        },
{
}

/// An answer is taken wherever the times that come of it fit in a counter: nothing short of that is
/// in its way.
pub proof fn law_answers_that_fit_are_taken(c: Clicks, p: Playback, t: i64, heard: Heard)
    ensures
        c.phase == Phase::Pressed && t + c.hold <= i64::MAX ==> c.room(Ev::Time(t)),
        c.phase == Phase::LetGo && i64::MIN <= t - c.prev <= i64::MAX && c.n < u64::MAX ==> c.room(
            Ev::Time(t),
        ),
        t >= 1 && c.deadline + t <= i64::MAX && c.prev + t <= i64::MAX ==> c.room(Ev::Period(t)),
        c.deadline + c.period <= i64::MAX && c.prev + c.period <= i64::MAX ==> c.room(Ev::Done)
            && c.room(Ev::Heard(heard)),
        c.phase == Phase::Waiting || c.phase == Phase::Pressing || c.phase == Phase::Holding
            || c.phase == Phase::LettingGo ==> c.room(Ev::Done),
        c.phase == Phase::Listening ==> c.room(Ev::Heard(heard)),
        p.room(Ev::Done),
        p.steps@[p.at as int] is Delay && i64::MIN <= p.clock_base + p.ticks@[p.at as int]
            <= i64::MAX ==> p.room(Ev::Heard(heard)),
        !(p.steps@[p.at as int] is Delay) ==> p.room(Ev::Heard(heard)),
        i64::MIN <= t - p.prev_pass <= i64::MAX && p.passes < u64::MAX ==> p.room(Ev::Time(t)),
{
}

} // verus!
