//! What the program as a whole does about input, profiles, recording and the window.
//!
//! Nothing here touches the engine, the disk or the screen: each function changes the state and
//! says, in order, what is to be done.
use std::collections::HashMap;
use vstd::prelude::*;
use vstd::string::StringExecFns;
use crate::engine::{Job, JobModel, Mode, Opts};
use crate::inject::Btn;
use crate::macros;
use crate::macros::{Action, Cycle, Macro, MacroModel, Profile, ProfileModel, Real};
use crate::macros::{Recorder, RecorderModel, Slot, SlotModel, Step, Store, StoreModel};
use crate::signal::{Event, Signal};
use crate::text;

verus! {

/// What the main area shows.
#[derive(Clone, Copy, PartialEq, Eq, Structural, Debug)]
pub enum Tab {
    Buttons,
    Macros,
    Scope,
    CpsTest,
    Devices,
}

/// A test of how fast a hand clicks.
#[derive(Clone, Copy, PartialEq, Eq, Structural, Debug)]
pub enum Test {
    Idle,
    Running { start: i64, end: i64 },
    Done { start: i64, end: i64 },
}

/// Something to be done outside.
#[derive(Debug)]
pub enum Effect {
    /// Have the engine do a job.
    Run(Job, Opts),
    /// Have the engine stop.
    Stop,
    /// Write this to disk, and report how that went.
    Save(Store),
    /// Write this to disk, whether that works or not.
    Keep(Store),
    /// Report this.
    Status(String),
    /// Close the window and end.
    Close,
    /// Make the window visible.
    Show,
    /// Bring the window to the front.
    Focus,
    /// Do not close the window after all.
    CancelClose,
    /// Make the window invisible.
    Hide,
}

/// What an effect is.
#[verifier::ext_equal]
pub enum EffectModel {
    Run(JobModel, Opts),
    Stop,
    Save(StoreModel),
    Keep(StoreModel),
    Status(Seq<char>),
    Close,
    Show,
    Focus,
    CancelClose,
    Hide,
}

impl View for Effect {
    type V = EffectModel;

    open spec fn view(&self) -> EffectModel {
        match self {
            Effect::Run(job, opts) => EffectModel::Run(job@, *opts),
            Effect::Stop => EffectModel::Stop,
            Effect::Save(store) => EffectModel::Save(store@),
            Effect::Keep(store) => EffectModel::Keep(store@),
            Effect::Status(text) => EffectModel::Status(text@),
            Effect::Close => EffectModel::Close,
            Effect::Show => EffectModel::Show,
            Effect::Focus => EffectModel::Focus,
            Effect::CancelClose => EffectModel::CancelClose,
            Effect::Hide => EffectModel::Hide,
        }
    }
}

/// What a list of effects is.
pub open spec fn effect_models(v: Seq<Effect>) -> Seq<EffectModel> {
    Seq::new(v.len(), |i: int| v[i]@)
}

/// The state of the program.
pub struct App {
    /// The profile in use, as it is being edited. It goes back into the store when it is saved.
    pub cfg: Profile,
    pub store: Store,
    pub tab: Tab,
    /// Waiting for a button to learn.
    pub learning: bool,
    pub learn_log: Vec<(Signal, bool)>,
    /// The signals that are held. A key that repeats by itself is held, not pressed again.
    pub pressed: Vec<Signal>,
    /// Slot by slot, whether its toggle is on.
    pub toggled: HashMap<usize, bool>,
    /// The slot that drives the engine while its button is held.
    pub holding: Option<usize>,
    pub sel_slot: Option<usize>,
    pub sel_macro: Option<usize>,
    pub recorder: Option<Recorder>,
    /// The macro that is being recorded.
    pub rec_into: Option<usize>,
    pub test: Test,
    pub test_clicks: Vec<i64>,
    /// The window is hidden; macros keep running.
    pub hidden: bool,
}

/// What the state is.
#[verifier::ext_equal]
pub struct AppModel {
    pub cfg: ProfileModel,
    pub store: StoreModel,
    pub tab: Tab,
    pub learning: bool,
    pub learn_log: Seq<(Signal, bool)>,
    pub pressed: Set<Signal>,
    pub toggled: Map<usize, bool>,
    pub holding: Option<usize>,
    pub sel_slot: Option<usize>,
    pub sel_macro: Option<usize>,
    pub recorder: Option<RecorderModel>,
    pub rec_into: Option<usize>,
    pub test: Test,
    pub test_clicks: Seq<i64>,
    pub hidden: bool,
}

/// The signals in a list.
pub open spec fn signals(v: Seq<Signal>) -> Set<Signal> {
    Set::new(|s: Signal| v.contains(s))
}

impl View for App {
    type V = AppModel;

    open spec fn view(&self) -> AppModel {
        AppModel {
            cfg: self.cfg@,
            store: self.store@,
            tab: self.tab,
            learning: self.learning,
            learn_log: self.learn_log@,
            pressed: signals(self.pressed@),
            toggled: self.toggled@,
            holding: self.holding,
            sel_slot: self.sel_slot,
            sel_macro: self.sel_macro,
            recorder: match self.recorder {
                Some(r) => Some(r@),
                None => None,
            },
            rec_into: self.rec_into,
            test: self.test,
            test_clicks: self.test_clicks@,
            hidden: self.hidden,
        }
    }
}

/// What a step of the program comes to: the state after it, and what is to be done.
pub type Outcome = (AppModel, Seq<EffectModel>);

impl AppModel {
    /// The state at the start.
    pub open spec fn fresh(store: StoreModel) -> AppModel {
        AppModel {
            cfg: store.profiles[store.active as int],
            store,
            tab: Tab::Buttons,
            learning: false,
            learn_log: seq![],
            pressed: Set::empty(),
            toggled: Map::empty(),
            holding: None,
            sel_slot: None,
            sel_macro: None,
            recorder: None,
            rec_into: None,
            test: Test::Idle,
            test_clicks: seq![],
            hidden: false,
        }
    }

    /// The store with the profile in use put back into it.
    pub open spec fn committed(self) -> StoreModel {
        StoreModel {
            profiles: self.store.profiles.update(self.store.active as int, self.cfg),
            ..self.store
        }
    }

    /// The state with the profile saved.
    pub open spec fn saved(self) -> Outcome {
        (
            AppModel { store: self.committed(), ..self },
            seq![EffectModel::Save(self.committed())],
        )
    }

    /// The state with everything stopped.
    pub open spec fn stopped(self) -> Outcome {
        (AppModel { holding: None, toggled: Map::empty(), ..self }, seq![EffectModel::Stop])
    }
}

impl App {
    /// The invariant: a profile is in use, no signal is held twice, and recorded times are those
    /// of a counter.
    pub open spec fn wf(self) -> bool {
        &&& self.store@.wf()
        &&& self.pressed@.no_duplicates()
        &&& self.recorder matches Some(r) ==> (r.last matches Some(t) ==> t >= 0)
    }

    /// Starts with the profile that the store says is in use.
    pub fn new(store: Store) -> (r: Self)
        requires
            store@.wf(),
        ensures
            r.wf(),
            r@ == AppModel::fresh(store@),
    {
        let cfg = store.profiles[store.active].clone();
        let r = App {
            cfg,
            store,
            tab: Tab::Buttons,
            learning: false,
            learn_log: Vec::new(),
            pressed: Vec::new(),
            toggled: HashMap::new(),
            holding: None,
            sel_slot: None,
            sel_macro: None,
            recorder: None,
            rec_into: None,
            test: Test::Idle,
            test_clicks: Vec::new(),
            hidden: false,
        };
        assert(signals(r.pressed@) == Set::<Signal>::empty());
        r
    }

    /// Puts the profile in use back into the store, and has the store written.
    pub fn save(&mut self, out: &mut Vec<Effect>)
        requires
            old(self).wf(),
        ensures
            final(self).wf(),
            final(self)@ == old(self)@.saved().0,
            effect_models(final(out)@) == effect_models(old(out)@) + old(self)@.saved().1,
    {
        let i: usize = self.store.active;
        let cfg = self.cfg.clone();
        let ghost before = self.store.profiles@;
        self.store.profiles.set(i, cfg);
        assert(macros::profile_models(self.store.profiles@) == macros::profile_models(
            before,
        ).update(i as int, cfg@));
        out.push(Effect::Save(self.store.clone()));
    }

    /// Stops whatever runs.
    pub fn stop(&mut self, out: &mut Vec<Effect>)
        requires
            old(self).wf(),
        ensures
            final(self).wf(),
            final(self)@ == old(self)@.stopped().0,
            effect_models(final(out)@) == effect_models(old(out)@) + old(self)@.stopped().1,
    {
        out.push(Effect::Stop);
        self.holding = None;
        self.toggled.clear();
    }
}

// ------------------------------------------------------------------- firing

impl ProfileModel {
    /// Clicking at the rates of the profile.
    pub open spec fn click_job(self, btn: Btn) -> JobModel {
        JobModel {
            jitter_pct: self.jitter_pct,
            ..JobModel::click(btn, self.cps, self.hold_ms)
        }
    }

    /// What a slot has the engine do; nothing where there is no such slot, it has no action, or
    /// its macro is missing.
    pub open spec fn slot_job(self, slot: int, limit: Option<u64>) -> Option<JobModel> {
        if !(0 <= slot < self.slots.len()) {
            None
        } else {
            match self.slots[slot].action {
                Action::Nothing => None,
                Action::RapidFire { btn } => Some(
                    JobModel { limit, ..self.click_job(macros::numbered(btn)) },
                ),
                Action::Macro { index } => if index < self.macros.len() {
                    Some(JobModel { limit, ..macro_play(self.macros[index as int]) })
                } else {
                    None
                },
            }
        }
    }

    /// The effect of firing a slot.
    pub open spec fn fired(self, slot: int, limit: Option<u64>) -> Seq<EffectModel> {
        match self.slot_job(slot, limit) {
            Some(job) => seq![
                EffectModel::Run(
                    job,
                    Opts { time_critical: true, pin_core: true, raise_timer_period: false },
                ),
            ],
            None => seq![],
        }
    }
}

/// Playing a macro without an end.
pub open spec fn macro_play(m: MacroModel) -> JobModel {
    JobModel {
        mode: Mode::Sequence,
        steps: m.steps,
        speed: m.speed,
        ..JobModel::click(Btn::Left, Real { bits: macros::ONE }, Real { bits: macros::ZERO })
    }
}

/// A job that plays a macro.
pub fn macro_job(m: &Macro) -> (r: Job)
    ensures
        r@ == macro_play(m@),
        r.mode == Mode::Sequence,
        r.steps@ == m.steps@,
        r.speed == m.speed,
        r.limit is None,
{
    let steps = m.steps.clone();
    assert(steps@ == m.steps@);
    let mut job = Job::click(Btn::Left, Real { bits: macros::ONE }, Real { bits: macros::ZERO });
    job.mode = Mode::Sequence;
    job.steps = steps;
    job.speed = m.speed;
    job
}

impl App {
    /// A job that clicks at the rates of the profile in use.
    pub fn click_job(&self, btn: Btn) -> (r: Job)
        ensures
            r@ == self@.cfg.click_job(btn),
    {
        let mut job = Job::click(btn, self.cfg.cps, self.cfg.hold_ms);
        job.jitter_pct = self.cfg.jitter_pct;
        job
    }

    /// Starts what a slot says, with the given limit.
    pub fn fire(&self, slot: usize, limit: Option<u64>, out: &mut Vec<Effect>)
        ensures
            effect_models(final(out)@) == effect_models(old(out)@) + self@.cfg.fired(
                slot as int,
                limit,
            ),
    {
        if slot >= self.cfg.slots.len() {
            return;
        }
        match self.cfg.slots[slot].action {
            Action::Nothing => {},
            Action::RapidFire { btn } => {
                let mut job = self.click_job(macros::btn_of(btn));
                job.limit = limit;
                out.push(Effect::Run(job, Opts::default()));
            },
            Action::Macro { index } => {
                if index < self.cfg.macros.len() {
                    let mut job = macro_job(&self.cfg.macros[index]);
                    job.limit = limit;
                    out.push(Effect::Run(job, Opts::default()));
                }
            },
        }
    }
}

// ---------------------------------------------------------------- recording

impl AppModel {
    /// The end of a recording: the steps go into the macro that was recorded, if it is still
    /// there, and are saved.
    pub open spec fn recording_finished(self) -> Outcome {
        let idle = AppModel { recorder: None, rec_into: None, ..self };
        match (self.recorder, self.rec_into) {
            (Some(rec), Some(idx)) => {
                let m = if idx < self.cfg.macros.len() {
                    AppModel {
                        cfg: ProfileModel {
                            macros: self.cfg.macros.update(
                                idx as int,
                                MacroModel {
                                    steps: rec.steps,
                                    ..self.cfg.macros[idx as int]
                                },
                            ),
                            ..self.cfg
                        },
                        ..idle
                    }
                } else {
                    idle
                };
                (
                    m.saved().0,
                    seq![
                        EffectModel::Status(
                            "recorded "@ + text::decimal(rec.steps.len()) + " steps"@,
                        ),
                    ] + m.saved().1,
                )
            },
            _ => (idle, seq![]),
        }
    }
}

impl App {
    /// Ends a recording.
    pub fn finish_recording(&mut self, out: &mut Vec<Effect>)
        requires
            old(self).wf(),
        ensures
            final(self).wf(),
            final(self)@ == old(self)@.recording_finished().0,
            effect_models(final(out)@) == effect_models(old(out)@) + old(
                self,
            )@.recording_finished().1,
    {
        let rec = self.recorder.take();
        let into = self.rec_into.take();
        match (rec, into) {
            (Some(rec), Some(idx)) => {
                let n: usize = rec.steps.len();
                if idx < self.cfg.macros.len() {
                    let ghost before = self.cfg.macros@;
                    let kept = &self.cfg.macros[idx];
                    let changed = Macro {
                        name: kept.name.clone(),
                        steps: rec.steps,
                        cycle: kept.cycle,
                        speed: kept.speed,
                    };
                    self.cfg.macros.set(idx, changed);
                    assert(macros::macro_models(self.cfg.macros@) == macros::macro_models(
                        before,
                    ).update(idx as int, changed@));
                }
                let mut text = String::from_str("recorded ");
                text::push_decimal(&mut text, n as u64);
                text.append(" steps");
                out.push(Effect::Status(text));
                self.save(out);
            },
            _ => {},
        }
    }
}

// ----------------------------------------------------------------- learning

/// Whether a slot is bound to this signal.
pub open spec fn bound(slots: Seq<SlotModel>, signal: Signal) -> bool {
    exists|i: int| 0 <= i < slots.len() && (#[trigger] slots[i]).signal == signal
}

impl AppModel {
    /// A button that was learned: a new slot without an action, selected and saved; a button that
    /// is there already is not added again.
    pub open spec fn learned(self, signal: Signal) -> Outcome {
        if bound(self.cfg.slots, signal) {
            (self, seq![EffectModel::Status(signal.title() + " is already in the list"@)])
        } else {
            let m = AppModel {
                cfg: ProfileModel {
                    slots: self.cfg.slots.push(
                        SlotModel {
                            name: signal.title(),
                            signal,
                            action: Action::Nothing,
                            cycle: Cycle::UntilReleased,
                        },
                    ),
                    ..self.cfg
                },
                sel_slot: Some(self.cfg.slots.len() as usize),
                ..self
            };
            (
                m.saved().0,
                seq![EffectModel::Status("button learned — now assign it an action"@)]
                    + m.saved().1,
            )
        }
    }

    /// The signal log with one more entry; the oldest goes when there are more than 24.
    pub open spec fn logged(self, e: Event) -> Seq<(Signal, bool)> {
        let log = self.learn_log.push((e.signal, e.down));
        if log.len() > 24 {
            log.drop_first()
        } else {
            log
        }
    }

    /// An event while a button is being learned. It is taken on its release, and only if its press
    /// was seen: that tells a button from an axis that twitched. A device that floods is ignored.
    pub open spec fn learning_heard(self, e: Event, flooding: bool) -> Outcome {
        if e.signal is HidBit && flooding {
            (self, seq![])
        } else {
            let m = AppModel { learn_log: self.logged(e), ..self };
            if !e.down && m.learn_log.contains((e.signal, true)) {
                let done = m.learned(e.signal);
                (AppModel { learning: false, ..done.0 }, done.1)
            } else {
                (m, seq![])
            }
        }
    }
}

impl App {
    fn is_bound(&self, signal: &Signal) -> (r: bool)
        ensures
            r == bound(self@.cfg.slots, *signal),
    {
        let mut i: usize = 0;
        while i < self.cfg.slots.len()
            invariant
                i <= self.cfg.slots.len(),
                forall|j: int| 0 <= j < i ==> (#[trigger] self.cfg.slots@[j]).signal != *signal,
            decreases self.cfg.slots.len() - i,
        {
            if self.cfg.slots[i].signal == *signal {
                assert(self@.cfg.slots[i as int].signal == *signal);
                return true;
            }
            i += 1;
        }
        assert forall|j: int| 0 <= j < self@.cfg.slots.len() implies (
        #[trigger] self@.cfg.slots[j]).signal != *signal by {
            assert(self.cfg.slots@[j].signal != *signal);
        }
        false
    }

    /// Adds a slot for a signal that was learned.
    pub fn add_slot(&mut self, signal: Signal, out: &mut Vec<Effect>)
        requires
            old(self).wf(),
        ensures
            final(self).wf(),
            final(self)@ == old(self)@.learned(signal).0,
            effect_models(final(out)@) == effect_models(old(out)@) + old(self)@.learned(signal).1,
    {
        if self.is_bound(&signal) {
            let mut text = signal.label();
            text.append(" is already in the list");
            out.push(Effect::Status(text));
            return;
        }
        let ghost before = self.cfg.slots@;
        let slot = Slot {
            name: signal.label(),
            signal,
            action: Action::Nothing,
            cycle: Cycle::UntilReleased,
        };
        self.cfg.slots.push(slot);
        assert(macros::slot_models(self.cfg.slots@) == macros::slot_models(before).push(slot@));
        self.sel_slot = Some(self.cfg.slots.len() - 1);
        out.push(
            Effect::Status(String::from_str("button learned — now assign it an action")),
        );
        self.save(out);
    }

    fn log_has_press(&self, signal: &Signal) -> (r: bool)
        ensures
            r == self.learn_log@.contains((*signal, true)),
    {
        let mut i: usize = 0;
        while i < self.learn_log.len()
            invariant
                i <= self.learn_log.len(),
                forall|j: int| 0 <= j < i ==> self.learn_log@[j] != (*signal, true),
            decreases self.learn_log.len() - i,
        {
            let entry = &self.learn_log[i];
            if entry.1 && entry.0 == *signal {
                assert(self.learn_log@[i as int] == (*signal, true));
                return true;
            }
            i += 1;
        }
        false
    }

    /// The latest entries of the signal log, the last one first, a dozen at most.
    pub fn recent_log(&self) -> (r: Vec<(Signal, bool)>)
        ensures
            ({
                let log = self.learn_log@.reverse();
                r@ == log.take(if log.len() < 12 { log.len() as int } else { 12 })
            }),
    {
        let mut out: Vec<(Signal, bool)> = Vec::new();
        let n: usize = self.learn_log.len();
        while out.len() < n && out.len() < 12
            invariant
                n == self.learn_log@.len(),
                out.len() <= n,
                out.len() <= 12,
                out@ == self.learn_log@.reverse().take(out@.len() as int),
            decreases n - out.len(),
        {
            let i: usize = n - 1 - out.len();
            let entry = (self.learn_log[i].0, self.learn_log[i].1);
            out.push(entry);
        }
        out
    }

    fn hear_learning(&mut self, e: &Event, flooding: bool, out: &mut Vec<Effect>)
        requires
            old(self).wf(),
        ensures
            final(self).wf(),
            final(self)@ == old(self)@.learning_heard(*e, flooding).0,
            effect_models(final(out)@) == effect_models(old(out)@) + old(self)@.learning_heard(
                *e,
                flooding,
            ).1,
    {
        if let Signal::HidBit { .. } = e.signal {
            if flooding {
                return;
            }
        }
        self.learn_log.push((e.signal, e.down));
        if self.learn_log.len() > 24 {
            let _ = self.learn_log.remove(0);
            assert(self.learn_log@ == old(self).learn_log@.push((e.signal, e.down)).drop_first());
        }
        if !e.down && self.log_has_press(&e.signal) {
            self.add_slot(e.signal, out);
            self.learning = false;
        }
    }
}

// ----------------------------------------------------------------- dispatch

/// Whether a toggle is on; one that was never touched is off.
pub open spec fn is_on(toggled: Map<usize, bool>, slot: usize) -> bool {
    toggled.dom().contains(slot) && toggled[slot]
}

impl AppModel {
    /// A slot's own button going down or up.
    pub open spec fn slot_heard(self, slot: usize, down: bool) -> Outcome {
        match self.cfg.slots[slot as int].cycle {
            Cycle::UntilReleased => if down {
                (AppModel { holding: Some(slot), ..self }, self.cfg.fired(slot as int, None))
            } else if self.holding == Some(slot) {
                (AppModel { holding: None, ..self }, seq![EffectModel::Stop])
            } else {
                (self, seq![])
            },
            Cycle::UntilClickedAgain => if !down {
                (self, seq![])
            } else if is_on(self.toggled, slot) {
                (
                    AppModel { toggled: self.toggled.insert(slot, false), ..self },
                    seq![EffectModel::Stop],
                )
            } else {
                (
                    AppModel { toggled: self.toggled.insert(slot, true), ..self },
                    self.cfg.fired(slot as int, None),
                )
            },
            Cycle::Times(n) => if !down {
                (self, seq![])
            } else {
                (self, self.cfg.fired(slot as int, Some(if n == 0 { 1 } else { n as u64 })))
            },
        }
    }

    /// An event handed to the first `n` slots: each that is bound to its signal hears it, in
    /// order.
    pub open spec fn dispatched(self, e: Event, n: nat) -> Outcome
        decreases n,
    {
        if n == 0 {
            (self, seq![])
        } else {
            let before = self.dispatched(e, (n - 1) as nat);
            if self.cfg.slots[n - 1].signal == e.signal {
                let more = before.0.slot_heard((n - 1) as usize, e.down);
                (more.0, before.1 + more.1)
            } else {
                before
            }
        }
    }

    /// A click that counts in a running test: a press of the left button.
    pub open spec fn test_heard(self, e: Event) -> AppModel {
        if self.test is Running && e.down && (e.signal matches Signal::MouseButton { index, .. }
            && index == 1) {
            AppModel { test_clicks: self.test_clicks.push(e.qpc), ..self }
        } else {
            self
        }
    }

    /// The state with a test over whose time is up.
    pub open spec fn expired(self, now: i64) -> AppModel {
        AppModel {
            test: match self.test {
                Test::Running { start, end } if now >= end => Test::Done { start, end },
                other => other,
            },
            ..self
        }
    }

    /// The emergency stop: everything stops, whatever was going on.
    pub open spec fn panicked(self) -> Outcome {
        let stopped = self.stopped();
        let quiet = if self.recorder is Some {
            stopped.0.recording_finished()
        } else {
            (stopped.0, seq![])
        };
        (
            AppModel { learning: false, ..quiet.0 },
            (stopped.1 + quiet.1).push(EffectModel::Status("stopped (Esc)"@)),
        )
    }

    /// The state with one more signal held, or one less.
    pub open spec fn with_held(self, e: Event) -> AppModel {
        AppModel {
            pressed: if e.down {
                self.pressed.insert(e.signal)
            } else {
                self.pressed.remove(e.signal)
            },
            ..self
        }
    }

    /// One event. A press of what is held already is a repetition and is swallowed, but for the
    /// key that stops everything: where its release was missed it still has to stop. A release is
    /// never filtered, because where its press was missed stopping is the safe failure.
    pub open spec fn heard(self, e: Event, flooding: bool, qpf: i64) -> Outcome {
        if e.down && is_panic_key(e.signal) {
            self.with_held(e).panicked()
        } else if e.down && self.pressed.contains(e.signal) {
            (self, seq![])
        } else {
            let m = self.with_held(e);
            if m.learning {
                m.learning_heard(e, flooding)
            } else if let Some(rec) = m.recorder {
                (
                    AppModel {
                        recorder: Some(rec.fed(e.signal, e.down, e.qpc, qpf)),
                        ..m
                    },
                    seq![],
                )
            } else {
                m.test_heard(e).dispatched(e, m.cfg.slots.len())
            }
        }
    }

    /// The first `n` of a batch of events, in order.
    pub open spec fn heard_all(self, events: Seq<Event>, n: nat, qpf: i64) -> Outcome
        decreases n,
    {
        if n == 0 {
            (self, seq![])
        } else {
            let before = self.heard_all(events, (n - 1) as nat, qpf);
            let e = events[n - 1];
            let more = before.0.heard(
                e,
                self.learning && hid_bits(events, e.signal.source(), events.len()) > 6,
                qpf,
            );
            (more.0, before.1 + more.1)
        }
    }
}

/// The key that always stops everything.
pub open spec fn is_panic_key(signal: Signal) -> bool {
    signal matches Signal::Key { vk, .. } && vk == 0x1B
}

/// How many of the first `n` events are bits of generic reports of this device.
pub open spec fn hid_bits(events: Seq<Event>, device: i64, n: nat) -> nat
    decreases n,
{
    if n == 0 {
        0
    } else {
        hid_bits(events, device, (n - 1) as nat) + if events[n - 1].signal is HidBit
            && events[n - 1].signal.source() == device {
            1nat
        } else {
            0
        }
    }
}

fn floods(events: &Vec<Event>, device: i64) -> (r: bool)
    ensures
        r == (hid_bits(events@, device, events@.len()) > 6),
{
    let mut n: usize = 0;
    let mut i: usize = 0;
    while i < events.len()
        invariant
            i <= events.len(),
            n <= i,
            n == hid_bits(events@, device, i as nat),
        decreases events.len() - i,
    {
        if let Signal::HidBit { .. } = events[i].signal {
            if events[i].signal.device() == device {
                n += 1;
            }
        }
        i += 1;
    }
    n > 6
}

impl App {
    /// Where a signal stands among those that are held.
    fn held_at(&self, signal: &Signal) -> (r: Option<usize>)
        ensures
            r is Some <==> self@.pressed.contains(*signal),
            r matches Some(i) ==> i < self.pressed@.len() && self.pressed@[i as int] == *signal,
    {
        let mut i: usize = 0;
        while i < self.pressed.len()
            invariant
                i <= self.pressed.len(),
                forall|j: int| 0 <= j < i ==> self.pressed@[j] != *signal,
            decreases self.pressed.len() - i,
        {
            if self.pressed[i] == *signal {
                assert(self.pressed@.contains(*signal));
                return Some(i);
            }
            i += 1;
        }
        None
    }

    fn hold(&mut self, e: &Event)
        requires
            old(self).wf(),
            e.down ==> !old(self)@.pressed.contains(e.signal),
        ensures
            final(self).wf(),
            final(self)@ == old(self)@.with_held(*e),
    {
        let ghost before = self.pressed@;
        if e.down {
            self.pressed.push(e.signal);
            assert forall|s: Signal| self.pressed@.contains(s) <==> before.contains(s) || s
                == e.signal by {
                if before.contains(s) {
                    let k = choose|k: int| 0 <= k < before.len() && before[k] == s;
                    assert(self.pressed@[k] == s);
                }
                if s == e.signal {
                    assert(self.pressed@[before.len() as int] == s);
                }
            }
            assert(signals(self.pressed@) == signals(before).insert(e.signal));
        } else if let Some(i) = self.held_at(&e.signal) {
            let _ = self.pressed.remove(i);
            assert forall|s: Signal| self.pressed@.contains(s) <==> before.contains(s) && s
                != e.signal by {
                if before.contains(s) && s != e.signal {
                    let k = choose|k: int| 0 <= k < before.len() && before[k] == s;
                    if k < i {
                        assert(self.pressed@[k] == s);
                    } else {
                        assert(self.pressed@[k - 1] == s);
                    }
                }
            }
            assert(signals(self.pressed@) == signals(before).remove(e.signal));
        } else {
            assert(signals(self.pressed@) == signals(before).remove(e.signal));
        }
    }

    fn panic_stop(&mut self, out: &mut Vec<Effect>)
        requires
            old(self).wf(),
        ensures
            final(self).wf(),
            final(self)@ == old(self)@.panicked().0,
            effect_models(final(out)@) == effect_models(old(out)@) + old(self)@.panicked().1,
    {
        let ghost first = self@.stopped();
        self.stop(out);
        let ghost more = if self.recorder is Some {
            first.0.recording_finished().1
        } else {
            seq![]
        };
        if self.recorder.is_some() {
            self.finish_recording(out);
        }
        self.learning = false;
        assert(effect_models(out@) == effect_models(old(out)@) + (first.1 + more));
        let ghost before = effect_models(out@);
        out.push(Effect::Status(String::from_str("stopped (Esc)")));
        assert(effect_models(out@) == before.push(EffectModel::Status("stopped (Esc)"@)));
        assert(old(self)@.panicked().1 == (first.1 + more).push(
            EffectModel::Status("stopped (Esc)"@),
        ));
    }

    fn hear_slot(&mut self, slot: usize, down: bool, out: &mut Vec<Effect>)
        requires
            old(self).wf(),
            slot < old(self).cfg.slots@.len(),
        ensures
            final(self).wf(),
            final(self)@ == old(self)@.slot_heard(slot, down).0,
            final(self).cfg == old(self).cfg,
            effect_models(final(out)@) == effect_models(old(out)@) + old(self)@.slot_heard(
                slot,
                down,
            ).1,
    {
        match self.cfg.slots[slot].cycle {
            Cycle::UntilReleased => {
                if down {
                    self.holding = Some(slot);
                    self.fire(slot, None, out);
                } else {
                    let held: bool = match self.holding {
                        Some(h) => h == slot,
                        None => false,
                    };
                    if held {
                        self.holding = None;
                        out.push(Effect::Stop);
                    }
                }
            },
            Cycle::UntilClickedAgain => {
                if down {
                    let on: bool = match self.toggled.get(&slot) {
                        Some(on) => *on,
                        None => false,
                    };
                    if on {
                        self.toggled.insert(slot, false);
                        out.push(Effect::Stop);
                    } else {
                        self.toggled.insert(slot, true);
                        self.fire(slot, None, out);
                    }
                }
            },
            Cycle::Times(n) => {
                if down {
                    let times: u64 = if n == 0 {
                        1
                    } else {
                        n as u64
                    };
                    self.fire(slot, Some(times), out);
                }
            },
        }
    }

    fn dispatch(&mut self, e: &Event, out: &mut Vec<Effect>)
        requires
            old(self).wf(),
        ensures
            final(self).wf(),
            final(self)@ == old(self)@.dispatched(*e, old(self)@.cfg.slots.len()).0,
            effect_models(final(out)@) == effect_models(old(out)@) + old(self)@.dispatched(
                *e,
                old(self)@.cfg.slots.len(),
            ).1,
    {
        let mut i: usize = 0;
        while i < self.cfg.slots.len()
            invariant
                self.wf(),
                i <= self.cfg.slots@.len(),
                self.cfg == old(self).cfg,
                self@ == old(self)@.dispatched(*e, i as nat).0,
                effect_models(out@) == effect_models(old(out)@) + old(self)@.dispatched(
                    *e,
                    i as nat,
                ).1,
            decreases self.cfg.slots.len() - i,
        {
            if self.cfg.slots[i].signal == e.signal {
                self.hear_slot(i, e.down, out);
            }
            i += 1;
        }
    }

    fn count_click(&mut self, e: &Event)
        requires
            old(self).wf(),
        ensures
            final(self).wf(),
            final(self)@ == old(self)@.test_heard(*e),
    {
        if let Test::Running { .. } = self.test {
            if let Signal::MouseButton { index, .. } = e.signal {
                if e.down && index == 1 {
                    self.test_clicks.push(e.qpc);
                }
            }
        }
    }

    /// Takes in one event. `flooding` says that its device sends more bits at a time than a
    /// button does.
    pub fn hear(&mut self, e: &Event, flooding: bool, qpf: i64, out: &mut Vec<Effect>)
        requires
            old(self).wf(),
            e.qpc >= 0,
        ensures
            final(self).wf(),
            final(self)@ == old(self)@.heard(*e, flooding, qpf).0,
            effect_models(final(out)@) == effect_models(old(out)@) + old(self)@.heard(
                *e,
                flooding,
                qpf,
            ).1,
    {
        let held: bool = self.held_at(&e.signal).is_some();
        if e.down {
            if let Signal::Key { vk, .. } = e.signal {
                if vk == 0x1B {
                    if !held {
                        self.hold(e);
                    }
                    assert(self@ == old(self)@.with_held(*e));
                    self.panic_stop(out);
                    return;
                }
            }
        }
        if e.down && held {
            return;
        }
        self.hold(e);
        if self.learning {
            self.hear_learning(e, flooding, out);
            return;
        }
        match self.recorder.take() {
            Some(rec) => {
                let mut rec = rec;
                let _ = rec.feed(&e.signal, e.down, e.qpc, qpf);
                self.recorder = Some(rec);
                return;
            },
            None => {},
        }
        self.count_click(e);
        self.dispatch(e, out);
    }

    /// Takes in a batch of events. While a button is being learned, a device with more than six
    /// bits in one batch floods: brushing a touch surface must not bind anything.
    pub fn handle_input(&mut self, events: &Vec<Event>, qpf: i64) -> (out: Vec<Effect>)
        requires
            old(self).wf(),
            forall|i: int| 0 <= i < events@.len() ==> (#[trigger] events@[i]).qpc >= 0,
        ensures
            final(self).wf(),
            final(self)@ == old(self)@.heard_all(events@, events@.len(), qpf).0,
            effect_models(out@) == old(self)@.heard_all(events@, events@.len(), qpf).1,
    {
        let mut out: Vec<Effect> = Vec::new();
        let learning: bool = self.learning;
        let mut i: usize = 0;
        while i < events.len()
            invariant
                self.wf(),
                i <= events.len(),
                learning == old(self).learning,
                forall|j: int| 0 <= j < events@.len() ==> (#[trigger] events@[j]).qpc >= 0,
                self@ == old(self)@.heard_all(events@, i as nat, qpf).0,
                effect_models(out@) == old(self)@.heard_all(events@, i as nat, qpf).1,
            decreases events.len() - i,
        {
            let e = &events[i];
            let flooding: bool = learning && floods(events, e.signal.device());
            self.hear(e, flooding, qpf, &mut out);
            i += 1;
        }
        out
    }

    /// Ends a test whose time is up at `now`.
    pub fn expire_test(&mut self, now: i64)
        requires
            old(self).wf(),
        ensures
            final(self).wf(),
            final(self)@ == old(self)@.expired(now),
            final(self)@ == (AppModel {
                test: match old(self).test {
                    Test::Running { start, end } if now >= end => Test::Done { start, end },
                    other => other,
                },
                ..old(self)@
            }),
    {
        if let Test::Running { start, end } = self.test {
            if now >= end {
                self.test = Test::Done { start, end };
            }
        }
    }
}

// ----------------------------------------------------------------- profiles

impl AppModel {
    /// Another profile in use. What belongs to the old one must not run under the new one.
    pub open spec fn switched(self, i: usize) -> Outcome {
        if i >= self.store.profiles.len() || i == self.store.active {
            (self, seq![])
        } else {
            let stopped = self.stopped();
            let saved = stopped.0.saved();
            let store = StoreModel { active: i, ..saved.0.store };
            let cfg = store.profiles[i as int];
            (
                AppModel {
                    store,
                    cfg,
                    sel_slot: None,
                    sel_macro: None,
                    pressed: Set::empty(),
                    ..saved.0
                },
                stopped.1 + saved.1 + seq![
                    EffectModel::Status("profile: "@ + cfg.name),
                    EffectModel::Keep(store),
                ],
            )
        }
    }

    /// One more profile, in use at once.
    pub open spec fn with_new_profile(self) -> Outcome {
        let saved = self.saved();
        let cfg = ProfileModel::named(
            "Profile "@ + text::decimal((self.store.profiles.len() + 1) as nat),
        );
        let store = StoreModel {
            profiles: saved.0.store.profiles.push(cfg),
            active: self.store.profiles.len() as usize,
        };
        (
            AppModel { store, cfg, sel_slot: None, sel_macro: None, ..saved.0 },
            saved.1 + seq![EffectModel::Keep(store)],
        )
    }

    /// The profile in use gone, and the first one in use; the only one stays.
    pub open spec fn without_profile(self) -> Outcome {
        if self.store.profiles.len() <= 1 {
            (self, seq![])
        } else {
            let store = StoreModel {
                profiles: self.store.profiles.remove(self.store.active as int),
                active: 0,
            };
            (
                AppModel {
                    store,
                    cfg: store.profiles[0],
                    sel_slot: None,
                    sel_macro: None,
                    ..self
                },
                seq![EffectModel::Keep(store), EffectModel::Status("profile deleted"@)],
            )
        }
    }
}

impl App {
    /// Saves the profile in use, and puts another one in use.
    pub fn switch_profile(&mut self, i: usize, out: &mut Vec<Effect>)
        requires
            old(self).wf(),
        ensures
            final(self).wf(),
            final(self)@ == old(self)@.switched(i).0,
            effect_models(final(out)@) == effect_models(old(out)@) + old(self)@.switched(i).1,
    {
        if i >= self.store.profiles.len() || i == self.store.active {
            return;
        }
        self.stop(out);
        self.save(out);
        self.store.active = i;
        self.cfg = self.store.profiles[i].clone();
        self.sel_slot = None;
        self.sel_macro = None;
        self.pressed.clear();
        assert(signals(self.pressed@) == Set::<Signal>::empty());
        let mut text = String::from_str("profile: ");
        text.append(self.cfg.name.as_str());
        let ghost before = out@;
        let status = Effect::Status(text);
        let keep = Effect::Keep(self.store.clone());
        assert(effect_models(before.push(status).push(keep)) == effect_models(before) + seq![
            status@,
            keep@,
        ]);
        out.push(status);
        out.push(keep);
    }

    /// Adds an empty profile and puts it in use.
    pub fn new_profile(&mut self, out: &mut Vec<Effect>)
        requires
            old(self).wf(),
            old(self).store.profiles@.len() < usize::MAX,
        ensures
            final(self).wf(),
            final(self)@ == old(self)@.with_new_profile().0,
            effect_models(final(out)@) == effect_models(old(out)@) + old(
                self,
            )@.with_new_profile().1,
    {
        let n: usize = self.store.profiles.len() + 1;
        self.save(out);
        let mut name = String::from_str("Profile ");
        text::push_decimal(&mut name, n as u64);
        let ghost before = self.store.profiles@;
        let fresh = Profile::named(name);
        self.cfg = fresh.clone();
        self.store.profiles.push(fresh);
        assert(macros::profile_models(self.store.profiles@) == macros::profile_models(
            before,
        ).push(fresh@));
        self.store.active = self.store.profiles.len() - 1;
        self.sel_slot = None;
        self.sel_macro = None;
        let ghost before = out@;
        let keep = Effect::Keep(self.store.clone());
        assert(effect_models(before.push(keep)) == effect_models(before) + seq![keep@]);
        out.push(keep);
    }

    /// Deletes the profile in use, unless it is the only one.
    pub fn delete_profile(&mut self, out: &mut Vec<Effect>)
        requires
            old(self).wf(),
        ensures
            final(self).wf(),
            final(self)@ == old(self)@.without_profile().0,
            effect_models(final(out)@) == effect_models(old(out)@) + old(
                self,
            )@.without_profile().1,
    {
        if self.store.profiles.len() <= 1 {
            return;
        }
        let ghost before = self.store.profiles@;
        let i: usize = self.store.active;
        let _ = self.store.profiles.remove(i);
        assert(macros::profile_models(self.store.profiles@) == macros::profile_models(
            before,
        ).remove(i as int));
        self.store.active = 0;
        self.cfg = self.store.profiles[0].clone();
        self.sel_slot = None;
        self.sel_macro = None;
        out.push(Effect::Keep(self.store.clone()));
        out.push(Effect::Status(String::from_str("profile deleted")));
    }
}

// ------------------------------------------------------------------- macros

/// An action once the macro at `gone` is deleted: those behind it have moved up by one, and
/// nothing may run in place of the one that is gone.
pub open spec fn without_macro(action: Action, gone: int) -> Action {
    match action {
        Action::Macro { index } => if index == gone {
            Action::Nothing
        } else if index > gone {
            Action::Macro { index: (index - 1) as usize }
        } else {
            action
        },
        _ => action,
    }
}

/// Slots once the macro at `gone` is deleted.
pub open spec fn slots_without(slots: Seq<SlotModel>, gone: int) -> Seq<SlotModel> {
    Seq::new(
        slots.len(),
        |i: int| SlotModel { action: without_macro(slots[i].action, gone), ..slots[i] },
    )
}

impl AppModel {
    /// The macro that is selected, where it is there.
    pub open spec fn chosen_macro(self) -> Option<usize> {
        match self.sel_macro {
            Some(i) if i < self.cfg.macros.len() => Some(i),
            _ => None,
        }
    }

    /// One more macro, selected.
    pub open spec fn with_new_macro(self) -> Outcome {
        AppModel {
            cfg: ProfileModel {
                macros: self.cfg.macros.push(
                    MacroModel {
                        name: "Macro "@ + text::decimal((self.cfg.macros.len() + 1) as nat),
                        steps: seq![],
                        cycle: Cycle::Times(1),
                        speed: Real { bits: macros::ONE },
                    },
                ),
                ..self.cfg
            },
            sel_macro: Some(self.cfg.macros.len() as usize),
            ..self
        }.saved()
    }

    /// The selected macro gone, and every slot still with the macro it had.
    pub open spec fn without_chosen_macro(self) -> Outcome {
        match self.chosen_macro() {
            None => (self, seq![]),
            Some(i) => AppModel {
                cfg: ProfileModel {
                    macros: self.cfg.macros.remove(i as int),
                    slots: slots_without(self.cfg.slots, i as int),
                    ..self.cfg
                },
                sel_macro: None,
                ..self
            }.saved(),
        }
    }

    /// A step of a macro gone.
    pub open spec fn without_step(self, mi: int, step: int) -> Outcome {
        AppModel {
            cfg: ProfileModel {
                macros: self.cfg.macros.update(
                    mi,
                    MacroModel {
                        steps: self.cfg.macros[mi].steps.remove(step),
                        ..self.cfg.macros[mi]
                    },
                ),
                ..self.cfg
            },
            ..self
        }.saved()
    }
}

fn reassigned(slots: &Vec<Slot>, gone: usize) -> (r: Vec<Slot>)
    ensures
        macros::slot_models(r@) == slots_without(macros::slot_models(slots@), gone as int),
{
    let mut out: Vec<Slot> = Vec::new();
    let mut i: usize = 0;
    while i < slots.len()
        invariant
            i <= slots.len(),
            macros::slot_models(out@) == slots_without(
                macros::slot_models(slots@),
                gone as int,
            ).take(i as int),
        decreases slots.len() - i,
    {
        let ghost before = out@;
        let slot = Slot {
            name: slots[i].name.clone(),
            signal: slots[i].signal,
            action: action_without(slots[i].action, gone),
            cycle: slots[i].cycle,
        };
        out.push(slot);
        assert(macros::slot_models(out@) == macros::slot_models(before).push(slot@));
        i += 1;
    }
    out
}

fn action_without(action: Action, gone: usize) -> (r: Action)
    ensures
        r == without_macro(action, gone as int),
{
    match action {
        Action::Macro { index } => {
            if index == gone {
                Action::Nothing
            } else if index > gone {
                Action::Macro { index: index - 1 }
            } else {
                action
            }
        },
        _ => action,
    }
}

impl App {
    /// The macro that is selected, where it is there.
    pub fn selected_macro(&self) -> (r: Option<usize>)
        ensures
            r == self@.chosen_macro(),
    {
        match self.sel_macro {
            Some(i) => if i < self.cfg.macros.len() {
                Some(i)
            } else {
                None
            },
            None => None,
        }
    }

    /// Adds an empty macro and selects it.
    pub fn new_macro(&mut self, out: &mut Vec<Effect>)
        requires
            old(self).wf(),
            old(self).cfg.macros@.len() < usize::MAX,
        ensures
            final(self).wf(),
            final(self)@ == old(self)@.with_new_macro().0,
            effect_models(final(out)@) == effect_models(old(out)@) + old(
                self,
            )@.with_new_macro().1,
    {
        let n: usize = self.cfg.macros.len() + 1;
        let mut name = String::from_str("Macro ");
        text::push_decimal(&mut name, n as u64);
        let ghost before = self.cfg.macros@;
        let fresh = Macro::new(name);
        self.cfg.macros.push(fresh);
        assert(macros::macro_models(self.cfg.macros@) == macros::macro_models(before).push(fresh@));
        self.sel_macro = Some(self.cfg.macros.len() - 1);
        self.save(out);
    }

    /// Deletes the selected macro.
    pub fn delete_macro(&mut self, out: &mut Vec<Effect>)
        requires
            old(self).wf(),
        ensures
            final(self).wf(),
            final(self)@ == old(self)@.without_chosen_macro().0,
            effect_models(final(out)@) == effect_models(old(out)@) + old(
                self,
            )@.without_chosen_macro().1,
    {
        if let Some(i) = self.selected_macro() {
            let ghost before = self.cfg.macros@;
            let _ = self.cfg.macros.remove(i);
            assert(macros::macro_models(self.cfg.macros@) == macros::macro_models(before).remove(
                i as int,
            ));
            self.cfg.slots = reassigned(&self.cfg.slots, i);
            self.sel_macro = None;
            self.save(out);
        }
    }

    /// Deletes a step of a macro.
    pub fn delete_step(&mut self, mi: usize, step: usize, out: &mut Vec<Effect>)
        requires
            old(self).wf(),
            mi < old(self).cfg.macros@.len(),
            step < old(self).cfg.macros@[mi as int].steps@.len(),
        ensures
            final(self).wf(),
            final(self)@ == old(self)@.without_step(mi as int, step as int).0,
            effect_models(final(out)@) == effect_models(old(out)@) + old(self)@.without_step(
                mi as int,
                step as int,
            ).1,
    {
        let ghost before = self.cfg.macros@;
        let mut changed = self.cfg.macros[mi].clone();
        let _ = changed.steps.remove(step);
        self.cfg.macros.set(mi, changed);
        assert(macros::macro_models(self.cfg.macros@) == macros::macro_models(before).update(
            mi as int,
            changed@,
        ));
        self.save(out);
    }

    /// Starts to record a macro.
    pub fn start_recording(&mut self, mi: usize, out: &mut Vec<Effect>)
        requires
            old(self).wf(),
        ensures
            final(self).wf(),
            final(self)@ == (AppModel {
                recorder: Some(RecorderModel::empty()),
                rec_into: Some(mi),
                ..old(self)@
            }),
            final(self)@ == old(self)@.recording_started(mi),
            effect_models(final(out)@) == effect_models(old(out)@).push(
                EffectModel::Status("recording…"@),
            ),
    {
        self.recorder = Some(Recorder::new());
        self.rec_into = Some(mi);
        out.push(Effect::Status(String::from_str("recording…")));
    }

    /// The steps to show for a macro: those recorded so far while it is recorded, else its own.
    pub fn shown_steps(&self, mi: usize) -> (r: Vec<Step>)
        requires
            mi < self.cfg.macros@.len(),
        ensures
            r@ == (match self.recorder {
                Some(rec) if self.rec_into == Some(mi) => rec.steps@,
                _ => self.cfg.macros@[mi as int].steps@,
            }),
            r@ == self@.steps_shown(mi),
    {
        if let Some(rec) = &self.recorder {
            if let Some(into) = self.rec_into {
                if into == mi {
                    let steps = rec.steps.clone();
                    assert(steps@ == rec.steps@);
                    return steps;
                }
            }
        }
        let steps = self.cfg.macros[mi].steps.clone();
        assert(steps@ == self.cfg.macros@[mi as int].steps@);
        steps
    }

    /// Plays a macro once.
    pub fn play_once(&self, mi: usize, out: &mut Vec<Effect>)
        requires
            mi < self.cfg.macros@.len(),
        ensures
            effect_models(final(out)@) == effect_models(old(out)@).push(
                EffectModel::Run(
                    JobModel { limit: Some(1), ..macro_play(self@.cfg.macros[mi as int]) },
                    Opts { time_critical: true, pin_core: true, raise_timer_period: false },
                ),
            ),
            final(out)@.len() == old(out)@.len() + 1,
            final(out)@.last() matches Effect::Run(job, _) && {
                &&& job.mode == Mode::Sequence
                &&& job.steps@ == self.cfg.macros@[mi as int].steps@
                &&& job.speed == self.cfg.macros@[mi as int].speed
                &&& job.limit == Some(1u64)
            },
    {
        let mut job = macro_job(&self.cfg.macros[mi]);
        job.limit = Some(1);
        out.push(Effect::Run(job, Opts::default()));
    }
}

// -------------------------------------------------------------------- slots

impl AppModel {
    /// A slot changed and saved.
    pub open spec fn with_slot(self, i: int, slot: SlotModel) -> Outcome {
        AppModel {
            cfg: ProfileModel { slots: self.cfg.slots.update(i, slot), ..self.cfg },
            ..self
        }.saved()
    }

    /// A slot gone, and none selected.
    pub open spec fn without_slot(self, i: int) -> Outcome {
        AppModel {
            cfg: ProfileModel { slots: self.cfg.slots.remove(i), ..self.cfg },
            sel_slot: None,
            ..self
        }.saved()
    }

    /// A slot with another action, saved.
    pub open spec fn with_action(self, i: int, action: Action) -> Outcome {
        self.with_slot(i, SlotModel { action, ..self.cfg.slots[i] })
    }

    /// A slot with another cycle, saved.
    pub open spec fn with_cycle(self, i: int, cycle: Cycle) -> Outcome {
        self.with_slot(i, SlotModel { cycle, ..self.cfg.slots[i] })
    }

    /// The state once a button is to be learned.
    pub open spec fn learning_started(self) -> AppModel {
        AppModel { learning: true, learn_log: seq![], ..self }
    }

    /// The state once a macro is being recorded.
    pub open spec fn recording_started(self, mi: usize) -> AppModel {
        AppModel { recorder: Some(RecorderModel::empty()), rec_into: Some(mi), ..self }
    }

    /// The state once a test runs.
    pub open spec fn test_started(self, now: i64, end: i64) -> AppModel {
        AppModel { test: Test::Running { start: now, end }, test_clicks: seq![], ..self }
    }

    /// The steps that are shown for a macro.
    pub open spec fn steps_shown(self, mi: usize) -> Seq<Step> {
        match self.recorder {
            Some(rec) if self.rec_into == Some(mi) => rec.steps,
            _ => self.cfg.macros[mi as int].steps,
        }
    }

    /// What a picked cycle starts as: counting starts at fifty.
    pub open spec fn picked(cycle: Cycle) -> Cycle {
        match cycle {
            Cycle::Times(_) => Cycle::Times(50),
            other => other,
        }
    }
}

impl App {
    /// Starts to learn a button, with an empty log.
    pub fn start_learning(&mut self)
        requires
            old(self).wf(),
        ensures
            final(self).wf(),
            final(self)@ == (AppModel { learning: true, learn_log: seq![], ..old(self)@ }),
            final(self)@ == old(self)@.learning_started(),
    {
        self.learning = true;
        self.learn_log.clear();
    }

    /// Removes a slot.
    pub fn remove_slot(&mut self, i: usize, out: &mut Vec<Effect>)
        requires
            old(self).wf(),
            i < old(self).cfg.slots@.len(),
        ensures
            final(self).wf(),
            final(self)@ == old(self)@.without_slot(i as int).0,
            effect_models(final(out)@) == effect_models(old(out)@) + old(self)@.without_slot(
                i as int,
            ).1,
            ({
                let done = AppModel {
                    cfg: ProfileModel {
                        slots: old(self)@.cfg.slots.remove(i as int),
                        ..old(self)@.cfg
                    },
                    sel_slot: None,
                    ..old(self)@
                }.saved();
                final(self)@ == done.0 && effect_models(final(out)@) == effect_models(old(out)@)
                    + done.1
            }),
    {
        let ghost before = self.cfg.slots@;
        let _ = self.cfg.slots.remove(i);
        assert(macros::slot_models(self.cfg.slots@) == macros::slot_models(before).remove(
            i as int,
        ));
        self.sel_slot = None;
        self.save(out);
    }

    /// Gives a slot an action and saves it.
    pub fn set_action(&mut self, i: usize, action: Action, out: &mut Vec<Effect>)
        requires
            old(self).wf(),
            i < old(self).cfg.slots@.len(),
        ensures
            final(self).wf(),
            ({
                let slot = SlotModel { action, ..old(self)@.cfg.slots[i as int] };
                let done = old(self)@.with_slot(i as int, slot);
                final(self)@ == done.0 && effect_models(final(out)@) == effect_models(old(out)@)
                    + done.1
            }),
            final(self)@ == old(self)@.with_action(i as int, action).0,
    {
        let ghost before = self.cfg.slots@;
        let mut slot = self.cfg.slots[i].clone();
        slot.action = action;
        self.cfg.slots.set(i, slot);
        assert(macros::slot_models(self.cfg.slots@) == macros::slot_models(before).update(
            i as int,
            slot@,
        ));
        self.save(out);
    }

    /// Picks how a slot's trigger behaves and saves it. Fifty times is where counting starts.
    pub fn pick_cycle(&mut self, i: usize, cycle: Cycle, out: &mut Vec<Effect>)
        requires
            old(self).wf(),
            i < old(self).cfg.slots@.len(),
        ensures
            final(self).wf(),
            ({
                let slot = SlotModel {
                    cycle: match cycle {
                        Cycle::Times(_) => Cycle::Times(50),
                        other => other,
                    },
                    ..old(self)@.cfg.slots[i as int]
                };
                let done = old(self)@.with_slot(i as int, slot);
                final(self)@ == done.0 && effect_models(final(out)@) == effect_models(old(out)@)
                    + done.1
            }),
            final(self)@ == old(self)@.with_cycle(i as int, AppModel::picked(cycle)).0,
    {
        let cycle = match cycle {
            Cycle::Times(_) => Cycle::Times(50),
            other => other,
        };
        self.set_cycle(i, cycle, out);
    }

    /// Sets how a slot's trigger behaves and saves it.
    pub fn set_cycle(&mut self, i: usize, cycle: Cycle, out: &mut Vec<Effect>)
        requires
            old(self).wf(),
            i < old(self).cfg.slots@.len(),
        ensures
            final(self).wf(),
            ({
                let slot = SlotModel { cycle, ..old(self)@.cfg.slots[i as int] };
                let done = old(self)@.with_slot(i as int, slot);
                final(self)@ == done.0 && effect_models(final(out)@) == effect_models(old(out)@)
                    + done.1
            }),
            final(self)@ == old(self)@.with_cycle(i as int, cycle).0,
    {
        let ghost before = self.cfg.slots@;
        let mut slot = self.cfg.slots[i].clone();
        slot.cycle = cycle;
        self.cfg.slots.set(i, slot);
        assert(macros::slot_models(self.cfg.slots@) == macros::slot_models(before).update(
            i as int,
            slot@,
        ));
        self.save(out);
    }
}

// ------------------------------------------------------------------- window

impl AppModel {
    /// Whether input has to be captured. Nothing is listened to without need; but a macro that
    /// runs is one, because the key that stops everything is read from captured input.
    pub open spec fn wants_capture(self, running: bool) -> bool {
        running || self.learning || self.recorder is Some || self.cfg.slots.len() > 0
            || self.test is Running || self.tab == Tab::Devices
    }

    /// Requests of the tray, and of the window's close button. Quitting comes before all else.
    /// Closing only hides the window where there is a tray icon to get it back from.
    pub open spec fn tray_heard(
        self,
        quit: bool,
        stop: bool,
        show: bool,
        close: bool,
        tray: bool,
    ) -> Outcome {
        if quit {
            let stopped = self.stopped();
            let saved = stopped.0.saved();
            (saved.0, stopped.1 + saved.1 + seq![EffectModel::Close])
        } else {
            let first = if stop {
                (
                    self.stopped().0,
                    self.stopped().1.push(EffectModel::Status("stopped from tray"@)),
                )
            } else {
                (self, seq![])
            };
            let second = if show {
                (
                    AppModel { hidden: false, ..first.0 },
                    first.1 + seq![EffectModel::Show, EffectModel::Focus],
                )
            } else {
                first
            };
            if close && tray {
                let hidden = AppModel { hidden: true, ..second.0 };
                (
                    hidden.saved().0,
                    second.1 + seq![EffectModel::CancelClose, EffectModel::Hide]
                        + hidden.saved().1,
                )
            } else if close {
                (second.0.saved().0, second.1 + second.0.saved().1)
            } else {
                second
            }
        }
    }
}

impl App {
    /// Whether input has to be captured, given whether the engine runs.
    pub fn wanted_capture(&self, running: bool) -> (r: bool)
        ensures
            r == self@.wants_capture(running),
    {
        let testing: bool = match self.test {
            Test::Running { .. } => true,
            _ => false,
        };
        running || self.learning || self.recorder.is_some() || self.cfg.slots.len() > 0 || testing
            || self.tab == Tab::Devices
    }

    /// Whether the window has to be drawn again before long.
    pub fn wants_frames(&self, running: bool) -> (r: bool)
        ensures
            r == (running || self.learning || self.recorder is Some || self.test is Running),
    {
        let testing: bool = match self.test {
            Test::Running { .. } => true,
            _ => false,
        };
        running || self.learning || self.recorder.is_some() || testing
    }

    /// Takes in the requests of the tray, and whether the window was to be closed while a tray
    /// icon was there.
    pub fn handle_tray(
        &mut self,
        quit: bool,
        stop: bool,
        show: bool,
        close: bool,
        tray: bool,
    ) -> (out: Vec<Effect>)
        requires
            old(self).wf(),
        ensures
            final(self).wf(),
            final(self)@ == old(self)@.tray_heard(quit, stop, show, close, tray).0,
            effect_models(out@) == old(self)@.tray_heard(quit, stop, show, close, tray).1,
    {
        let mut out: Vec<Effect> = Vec::new();
        if quit {
            self.stop(&mut out);
            self.save(&mut out);
            out.push(Effect::Close);
            return out;
        }
        if stop {
            self.stop(&mut out);
            out.push(Effect::Status(String::from_str("stopped from tray")));
        }
        if show {
            self.hidden = false;
            out.push(Effect::Show);
            out.push(Effect::Focus);
        }
        if close {
            if tray {
                out.push(Effect::CancelClose);
                out.push(Effect::Hide);
                self.hidden = true;
                self.save(&mut out);
            } else {
                self.save(&mut out);
            }
        }
        out
    }
}

// --------------------------------------------------------------- click test

impl App {
    /// Starts a test at `now` that ends at `end`.
    pub fn start_test(&mut self, now: i64, end: i64)
        requires
            old(self).wf(),
        ensures
            final(self).wf(),
            final(self)@ == (AppModel {
                test: Test::Running { start: now, end },
                test_clicks: seq![],
                ..old(self)@
            }),
            final(self)@ == old(self)@.test_started(now, end),
    {
        self.test_clicks.clear();
        self.test = Test::Running { start: now, end };
    }
}

} // verus!
