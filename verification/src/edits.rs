//! What each thing that a user does changes, and that it leaves everything else as it was.
use vstd::prelude::*;
use crate::app;
use crate::app::{AppModel, EffectModel, Tab, Test};
use crate::engine::Mode;
use crate::inject::Btn;
use crate::macros::{Action, Cycle, MacroModel, ProfileModel, SlotModel, StoreModel};
use crate::signal::Signal;
use crate::text;

verus! {

// ------------------------------------------------------------------- firing

/// A slot that runs a macro has the engine play that macro: its own steps, all of them, at its own
/// speed, and as often as it is to.
pub proof fn law_a_slot_plays_its_macro(
    p: ProfileModel,
    slot: int,
    index: usize,
    limit: Option<u64>,
)
    requires
        0 <= slot < p.slots.len(),
        p.slots[slot].action == (Action::Macro { index }),
    ensures
        ({
            let effects = p.fired(slot, limit);
            &&& index >= p.macros.len() ==> effects.len() == 0
            &&& index < p.macros.len() ==> {
                &&& effects.len() == 1
                &&& effects[0] matches EffectModel::Run(job, opts) && {
                    &&& job.mode == Mode::Sequence
                    &&& job.steps == p.macros[index as int].steps
                    &&& job.speed == p.macros[index as int].speed
                    &&& job.limit == limit
                    &&& opts.time_critical
                    &&& opts.pin_core
                    &&& !opts.raise_timer_period
                }
            }
        }),
{
}

/// A slot that fires a button has the engine click that one, at the rates of the profile, and as
/// often as it is to; a slot without an action, or one that is not there, has it do nothing.
pub proof fn law_a_slot_fires_its_button(p: ProfileModel, slot: int, limit: Option<u64>)
    ensures
        ({
            let effects = p.fired(slot, limit);
            &&& !(0 <= slot < p.slots.len()) ==> effects.len() == 0
            &&& 0 <= slot < p.slots.len() && p.slots[slot].action == Action::Nothing
                ==> effects.len() == 0
            &&& 0 <= slot < p.slots.len() ==> (p.slots[slot].action matches Action::RapidFire {
                btn,
            } ==> {
                &&& effects.len() == 1
                &&& effects[0] matches EffectModel::Run(job, opts) && {
                    &&& job.mode == Mode::AutoClick
                    &&& job.btn == if btn == 1 {
                        Btn::Left
                    } else if btn == 2 {
                        Btn::Right
                    } else if btn == 3 {
                        Btn::Middle
                    } else if btn == 4 {
                        Btn::X1
                    } else {
                        Btn::X2
                    }
                    &&& job.cps == p.cps
                    &&& job.hold_ms == p.hold_ms
                    &&& job.jitter_pct == p.jitter_pct
                    &&& job.limit == limit
                    &&& opts.time_critical
                    &&& opts.pin_core
                    &&& !opts.raise_timer_period
                }
            })
        }),
{
}

/// Clicking by hand of the user goes by the rates of the profile, without an end.
pub proof fn law_clicking_goes_by_the_profile(p: ProfileModel, btn: Btn)
    ensures
        ({
            let job = p.click_job(btn);
            &&& job.mode == Mode::AutoClick
            &&& job.btn == btn
            &&& job.cps == p.cps
            &&& job.hold_ms == p.hold_ms
            &&& job.jitter_pct == p.jitter_pct
            &&& job.limit is None
            &&& job.steps.len() == 0
        }),
{
}

/// A job made of a macro has its steps and its speed, whatever they are.
pub proof fn law_a_macro_is_played_as_it_is(m: MacroModel)
    ensures
        app::macro_play(m).mode == Mode::Sequence,
        app::macro_play(m).steps == m.steps,
        app::macro_play(m).speed == m.speed,
        app::macro_play(m).limit is None,
{
}

// ------------------------------------------------------- saving and stopping

/// Saving puts the profile in use where it belongs, leaves the others alone, and has exactly the
/// store written that there is then. Nothing else changes.
pub proof fn law_saving_keeps_the_edits(m: AppModel, i: int)
    requires
        m.store.wf(),
        0 <= i < m.store.profiles.len(),
    ensures
        ({
            let (after, effects) = m.saved();
            &&& after.store.profiles.len() == m.store.profiles.len()
            &&& after.store.profiles[m.store.active as int] == m.cfg
            &&& i != m.store.active ==> after.store.profiles[i] == m.store.profiles[i]
            &&& after.store.active == m.store.active
            &&& after == (AppModel { store: after.store, ..m })
            &&& effects == seq![EffectModel::Save(after.store)]
        }),
{
}

/// Stopping stops the engine, and forgets who held it and what was toggled. Nothing else changes.
pub proof fn law_stopping_only_stops(m: AppModel)
    ensures
        ({
            let (after, effects) = m.stopped();
            &&& effects == seq![EffectModel::Stop]
            &&& after.holding is None
            &&& after.toggled.dom() =~= Set::<usize>::empty()
            &&& after == (AppModel { holding: None, toggled: after.toggled, ..m })
        }),
{
}

/// The program starts with the profile in use, and with nothing held, selected or under way.
pub proof fn law_the_program_starts_quiet(store: StoreModel)
    requires
        store.wf(),
    ensures
        ({
            let m = AppModel::fresh(store);
            &&& m.cfg == store.profiles[store.active as int]
            &&& m.store == store
            &&& !m.learning
            &&& !m.hidden
            &&& m.learn_log.len() == 0
            &&& m.test_clicks.len() == 0
            &&& m.test == Test::Idle
            &&& m.tab == Tab::Buttons
            &&& m.recorder is None
            &&& m.rec_into is None
            &&& m.holding is None
            &&& m.sel_slot is None
            &&& m.sel_macro is None
            &&& forall|s: Signal| !m.pressed.contains(s)
            &&& forall|slot: usize| !m.toggled.dom().contains(slot)
        }),
{
}

// ----------------------------------------------------------------- profiles

/// Deleting takes away the profile in use and no other, whichever place it has: those in front of
/// it are where they were, those behind it have moved up by one, and the first one is in use. The
/// only profile stays. What is written is what there is then.
pub proof fn law_deletion_takes_the_profile_in_use(m: AppModel, i: int)
    requires
        m.store.wf(),
    ensures
        ({
            let (after, effects) = m.without_profile();
            &&& m.store.profiles.len() == 1 ==> after == m && effects.len() == 0
            &&& m.store.profiles.len() >= 2 ==> {
                &&& after.store.profiles.len() == m.store.profiles.len() - 1
                &&& 0 <= i < m.store.active ==> after.store.profiles[i] == m.store.profiles[i]
                &&& m.store.active < i < m.store.profiles.len() ==> after.store.profiles[i - 1]
                    == m.store.profiles[i]
                &&& after.store.active == 0
                &&& after.cfg == m.store.profiles[if m.store.active == 0 {
                    1
                } else {
                    0
                }]
                &&& after.sel_slot is None
                &&& after.sel_macro is None
                &&& after == (AppModel {
                    store: after.store,
                    cfg: after.cfg,
                    sel_slot: None,
                    sel_macro: None,
                    ..m
                })
                &&& effects == seq![
                    EffectModel::Keep(after.store),
                    EffectModel::Status("profile deleted"@),
                ]
            }
        }),
{
}

/// A new profile comes behind all others and is in use at once. It is empty and goes by its number.
/// The others stay as they are, the one that was in use with its edits.
pub proof fn law_a_new_profile_comes_last(m: AppModel, i: int)
    requires
        m.store.wf(),
        m.store.profiles.len() < usize::MAX,
        0 <= i < m.store.profiles.len(),
    ensures
        ({
            let (after, effects) = m.with_new_profile();
            let n = m.store.profiles.len() as int;
            &&& after.store.profiles.len() == n + 1
            &&& after.store.active == n
            &&& after.cfg == after.store.profiles[n]
            &&& after.cfg.name == "Profile "@ + text::decimal((n + 1) as nat)
            &&& after.cfg.macros.len() == 0
            &&& after.cfg.slots.len() == 0
            &&& after.store.profiles[m.store.active as int] == m.cfg
            &&& i != m.store.active ==> after.store.profiles[i] == m.store.profiles[i]
            &&& after == (AppModel {
                store: after.store,
                cfg: after.cfg,
                sel_slot: None,
                sel_macro: None,
                ..m
            })
            &&& effects.len() == 2
            &&& effects[0] matches EffectModel::Save(before) && {
                &&& before.active == m.store.active
                &&& before.profiles.len() == n
                &&& before.profiles[m.store.active as int] == m.cfg
            }
            &&& effects[1] == EffectModel::Keep(after.store)
        }),
{
}

/// Switching to a profile that is in use already, or that is not there, does nothing. Otherwise the
/// engine stops, the edits are written, and then what is in use is written with the other one in
/// use; nothing that was held counts any more.
pub proof fn law_switching_is_written(m: AppModel, to: usize, i: int)
    requires
        m.store.wf(),
        0 <= i < m.store.profiles.len(),
    ensures
        ({
            let (after, effects) = m.switched(to);
            let moves = to < m.store.profiles.len() && to != m.store.active;
            &&& !moves ==> after == m && effects.len() == 0
            &&& moves ==> {
                &&& after.store.active == to
                &&& after.store.profiles.len() == m.store.profiles.len()
                &&& after.store.profiles[m.store.active as int] == m.cfg
                &&& i != m.store.active ==> after.store.profiles[i] == m.store.profiles[i]
                &&& after.cfg == m.store.profiles[to as int]
                &&& forall|s: Signal| !after.pressed.contains(s)
                &&& after.holding is None
                &&& after.toggled == Map::<usize, bool>::empty()
                &&& after == (AppModel {
                    store: after.store,
                    cfg: after.cfg,
                    pressed: after.pressed,
                    holding: None,
                    toggled: after.toggled,
                    sel_slot: None,
                    sel_macro: None,
                    ..m
                })
                &&& effects == seq![
                    EffectModel::Stop,
                    EffectModel::Save(StoreModel { active: m.store.active, ..after.store }),
                    EffectModel::Status("profile: "@ + after.cfg.name),
                    EffectModel::Keep(after.store),
                ]
            }
        }),
{
}

// ------------------------------------------------------------------- macros

/// A new macro comes behind the others, is empty, plays once at its own speed, goes by its number,
/// and is selected and saved. Nothing else in the profile changes.
pub proof fn law_a_new_macro_comes_last(m: AppModel, i: int)
    requires
        m.store.wf(),
        m.cfg.macros.len() < usize::MAX,
    ensures
        ({
            let (after, effects) = m.with_new_macro();
            let n = m.cfg.macros.len() as int;
            &&& after.cfg.macros.len() == n + 1
            &&& 0 <= i < n ==> after.cfg.macros[i] == m.cfg.macros[i]
            &&& after.cfg.macros[n].name == "Macro "@ + text::decimal((n + 1) as nat)
            &&& after.cfg.macros[n].steps.len() == 0
            &&& after.cfg.macros[n].cycle == Cycle::Times(1)
            &&& after.cfg.macros[n].speed.bits == 0x3FF0_0000_0000_0000
            &&& after.sel_macro == Some(n as usize)
            &&& after.cfg == (ProfileModel { macros: after.cfg.macros, ..m.cfg })
            &&& after == (AppModel {
                cfg: after.cfg,
                sel_macro: after.sel_macro,
                store: after.store,
                ..m
            })
            &&& after.store.profiles[m.store.active as int] == after.cfg
            &&& effects == seq![EffectModel::Save(after.store)]
        }),
{
}

/// Deleting a macro takes away the one that is selected and no other: those in front of it are
/// where they were, those behind it have moved up by one. The slots keep their names, their buttons
/// and their cycles. Where none is selected nothing happens.
pub proof fn law_deletion_takes_the_selected_macro(m: AppModel, i: int, slot: int)
    requires
        m.store.wf(),
    ensures
        ({
            let (after, effects) = m.without_chosen_macro();
            let there = m.sel_macro is Some && m.sel_macro->0 < m.cfg.macros.len();
            let gone = m.sel_macro->0 as int;
            &&& !there ==> after == m && effects.len() == 0
            &&& there ==> {
                &&& after.cfg.macros.len() == m.cfg.macros.len() - 1
                &&& 0 <= i < gone ==> after.cfg.macros[i] == m.cfg.macros[i]
                &&& gone < i < m.cfg.macros.len() ==> after.cfg.macros[i - 1] == m.cfg.macros[i]
                &&& after.cfg.slots.len() == m.cfg.slots.len()
                &&& 0 <= slot < m.cfg.slots.len() ==> after.cfg.slots[slot] == (SlotModel {
                    action: after.cfg.slots[slot].action,
                    ..m.cfg.slots[slot]
                })
                &&& after.cfg == (ProfileModel {
                    macros: after.cfg.macros,
                    slots: after.cfg.slots,
                    ..m.cfg
                })
                &&& after == (AppModel {
                    cfg: after.cfg,
                    sel_macro: None,
                    store: after.store,
                    ..m
                })
                &&& after.store.profiles[m.store.active as int] == after.cfg
                &&& effects == seq![EffectModel::Save(after.store)]
            }
        }),
{
}

/// Deleting a step takes away that one and no other: those in front of it are where they were, those
/// behind it have moved up by one. Name, cycle and speed stay, and so does every other macro.
pub proof fn law_deletion_takes_one_step(m: AppModel, mi: int, step: int, i: int)
    requires
        m.store.wf(),
        0 <= mi < m.cfg.macros.len(),
        0 <= step < m.cfg.macros[mi].steps.len(),
    ensures
        ({
            let (after, effects) = m.without_step(mi, step);
            let was = m.cfg.macros[mi];
            let is = after.cfg.macros[mi];
            &&& after.cfg.macros.len() == m.cfg.macros.len()
            &&& is.steps.len() == was.steps.len() - 1
            &&& 0 <= i < step ==> is.steps[i] == was.steps[i]
            &&& step < i < was.steps.len() ==> is.steps[i - 1] == was.steps[i]
            &&& is == (MacroModel { steps: is.steps, ..was })
            &&& 0 <= i < m.cfg.macros.len() && i != mi ==> after.cfg.macros[i] == m.cfg.macros[i]
            &&& after.cfg == (ProfileModel { macros: after.cfg.macros, ..m.cfg })
            &&& after == (AppModel { cfg: after.cfg, store: after.store, ..m })
            &&& after.store.profiles[m.store.active as int] == after.cfg
            &&& effects == seq![EffectModel::Save(after.store)]
        }),
{
}

/// What was recorded becomes the steps of the macro it was recorded for, all of it and nothing else,
/// and is saved. Its name, cycle and speed stay, and so does every other macro; where that macro is
/// gone none changes. Either way the recording is over.
pub proof fn law_a_recording_goes_into_its_macro(m: AppModel, i: int)
    requires
        m.store.wf(),
    ensures
        ({
            let (after, effects) = m.recording_finished();
            let under_way = m.recorder is Some && m.rec_into is Some;
            let into = m.rec_into->0 as int;
            &&& after.recorder is None
            &&& after.rec_into is None
            &&& after == (AppModel {
                recorder: None,
                rec_into: None,
                cfg: after.cfg,
                store: after.store,
                ..m
            })
            &&& !under_way ==> after.cfg == m.cfg && after.store == m.store && effects.len() == 0
            &&& under_way ==> {
                &&& after.cfg == (ProfileModel { macros: after.cfg.macros, ..m.cfg })
                &&& after.cfg.macros.len() == m.cfg.macros.len()
                &&& into < m.cfg.macros.len() ==> after.cfg.macros[into] == (MacroModel {
                    steps: m.recorder->0.steps,
                    ..m.cfg.macros[into]
                })
                &&& 0 <= i < m.cfg.macros.len() && i != into ==> after.cfg.macros[i]
                    == m.cfg.macros[i]
                &&& after.store.profiles[m.store.active as int] == after.cfg
                &&& effects == seq![
                    EffectModel::Status(
                        "recorded "@ + text::decimal(m.recorder->0.steps.len()) + " steps"@,
                    ),
                    EffectModel::Save(after.store),
                ]
            }
        }),
{
}

// -------------------------------------------------------------------- slots

/// Changing a slot changes that one only, and saves it.
pub proof fn law_one_slot_is_changed(m: AppModel, i: int, slot: SlotModel, j: int)
    requires
        m.store.wf(),
        0 <= i < m.cfg.slots.len(),
    ensures
        ({
            let (after, effects) = m.with_slot(i, slot);
            &&& after.cfg.slots.len() == m.cfg.slots.len()
            &&& after.cfg.slots[i] == slot
            &&& 0 <= j < m.cfg.slots.len() && j != i ==> after.cfg.slots[j] == m.cfg.slots[j]
            &&& after.cfg == (ProfileModel { slots: after.cfg.slots, ..m.cfg })
            &&& after == (AppModel { cfg: after.cfg, store: after.store, ..m })
            &&& after.store.profiles[m.store.active as int] == after.cfg
            &&& effects == seq![EffectModel::Save(after.store)]
        }),
{
}

/// A button that is new to the profile gets a slot behind the others: bound to it, called by its
/// label, without an action, to run until released; it is selected and saved. One that has a slot
/// already gets no other, and nothing changes.
pub proof fn law_a_learned_button_gets_a_slot(m: AppModel, signal: Signal, i: int)
    requires
        m.store.wf(),
        m.cfg.slots.len() <= usize::MAX,
    ensures
        ({
            let (after, effects) = m.learned(signal);
            let known = exists|k: int|
                0 <= k < m.cfg.slots.len() && (#[trigger] m.cfg.slots[k]).signal == signal;
            let n = m.cfg.slots.len() as int;
            &&& known ==> {
                &&& after == m
                &&& effects == seq![
                    EffectModel::Status(signal.title() + " is already in the list"@),
                ]
            }
            &&& !known ==> {
                &&& after.cfg.slots.len() == n + 1
                &&& 0 <= i < n ==> after.cfg.slots[i] == m.cfg.slots[i]
                &&& after.cfg.slots[n].signal == signal
                &&& after.cfg.slots[n].name == signal.title()
                &&& after.cfg.slots[n].action == Action::Nothing
                &&& after.cfg.slots[n].cycle == Cycle::UntilReleased
                &&& after.sel_slot == Some(n as usize)
                &&& after.cfg == (ProfileModel { slots: after.cfg.slots, ..m.cfg })
                &&& after == (AppModel {
                    cfg: after.cfg,
                    sel_slot: after.sel_slot,
                    store: after.store,
                    ..m
                })
                &&& after.store.profiles[m.store.active as int] == after.cfg
                &&& effects.len() == 2
                &&& effects[0] is Status
                &&& effects[1] == EffectModel::Save(after.store)
            }
        }),
{
}

/// Removing a slot takes away that one and no other: those in front of it are where they were, those
/// behind it have moved up by one, and the macros stay.
pub proof fn law_one_slot_is_removed(m: AppModel, i: int, j: int)
    requires
        m.store.wf(),
        0 <= i < m.cfg.slots.len(),
    ensures
        ({
            let (after, effects) = m.without_slot(i);
            &&& after.cfg.slots.len() == m.cfg.slots.len() - 1
            &&& 0 <= j < i ==> after.cfg.slots[j] == m.cfg.slots[j]
            &&& i < j < m.cfg.slots.len() ==> after.cfg.slots[j - 1] == m.cfg.slots[j]
            &&& after.sel_slot is None
            &&& after.cfg == (ProfileModel { slots: after.cfg.slots, ..m.cfg })
            &&& after == (AppModel { cfg: after.cfg, sel_slot: None, store: after.store, ..m })
            &&& after.store.profiles[m.store.active as int] == after.cfg
            &&& effects == seq![EffectModel::Save(after.store)]
        }),
{
}

/// A cycle is picked as it is, but for counting, which starts at fifty.
pub proof fn law_counting_starts_at_fifty(n: u32)
    ensures
        AppModel::picked(Cycle::UntilReleased) == Cycle::UntilReleased,
        AppModel::picked(Cycle::UntilClickedAgain) == Cycle::UntilClickedAgain,
        AppModel::picked(Cycle::Times(n)) == Cycle::Times(50),
{
}

/// A test ends once its time is up, with its times and its clicks kept, and not before; nothing else
/// changes, and a test that does not run stays as it is.
pub proof fn law_a_test_ends_in_time(m: AppModel, now: i64)
    ensures
        ({
            let after = m.expired(now);
            &&& m.test matches Test::Running { start, end } ==> after.test == if end <= now {
                Test::Done { start, end }
            } else {
                m.test
            }
            &&& !(m.test is Running) ==> after.test == m.test
            &&& after == (AppModel { test: after.test, ..m })
        }),
{
}

/// A slot that is given an action, or a cycle, gets that one and keeps everything else; no other slot
/// is touched, and it is saved.
pub proof fn law_a_slot_gets_what_it_is_given(
    m: AppModel,
    i: int,
    j: int,
    action: Action,
    cycle: Cycle,
)
    requires
        m.store.wf(),
        0 <= i < m.cfg.slots.len(),
    ensures
        ({
            let (acts, _) = m.with_action(i, action);
            let (cycles, _) = m.with_cycle(i, cycle);
            let was = m.cfg.slots[i];
            &&& acts.cfg.slots.len() == m.cfg.slots.len()
            &&& acts.cfg.slots[i].action == action
            &&& (acts.cfg.slots[i].cycle, acts.cfg.slots[i].signal) == (was.cycle, was.signal)
            &&& acts.cfg.slots[i].name == was.name
            &&& cycles.cfg.slots.len() == m.cfg.slots.len()
            &&& cycles.cfg.slots[i].cycle == cycle
            &&& (cycles.cfg.slots[i].action, cycles.cfg.slots[i].signal) == (
                was.action,
                was.signal,
            )
            &&& cycles.cfg.slots[i].name == was.name
            &&& 0 <= j < m.cfg.slots.len() && j != i ==> acts.cfg.slots[j] == m.cfg.slots[j]
                && cycles.cfg.slots[j] == m.cfg.slots[j]
            &&& acts.store.profiles[m.store.active as int] == acts.cfg
            &&& cycles.store.profiles[m.store.active as int] == cycles.cfg
        }),
{
}

/// Learning starts with an empty log, a recording with nothing recorded and for the macro that it is
/// for, a test with no clicks and its own times. Each changes nothing else.
pub proof fn law_what_starts_starts_afresh(m: AppModel, mi: usize, now: i64, end: i64)
    ensures
        ({
            let learning = m.learning_started();
            let recording = m.recording_started(mi);
            let testing = m.test_started(now, end);
            &&& learning.learning
            &&& learning.learn_log.len() == 0
            &&& learning == (AppModel { learning: true, learn_log: learning.learn_log, ..m })
            &&& recording.recorder is Some
            &&& recording.recorder->0.steps.len() == 0
            &&& recording.recorder->0.last is None
            &&& !recording.recorder->0.armed
            &&& recording.rec_into == Some(mi)
            &&& recording == (AppModel {
                recorder: recording.recorder,
                rec_into: recording.rec_into,
                ..m
            })
            &&& testing.test == (Test::Running { start: now, end })
            &&& testing.test_clicks.len() == 0
            &&& testing == (AppModel {
                test: testing.test,
                test_clicks: testing.test_clicks,
                ..m
            })
        }),
{
}

/// What is shown of a macro are its own steps; only of the one that is being recorded it is what was
/// recorded so far.
pub proof fn law_a_recording_is_shown_as_it_grows(m: AppModel, mi: usize)
    ensures
        m.recorder is None || m.rec_into != Some(mi) ==> m.steps_shown(mi)
            == m.cfg.macros[mi as int].steps,
        m.recorder is Some && m.rec_into == Some(mi) ==> m.steps_shown(mi) == m.recorder->0.steps,
{
}

} // verus!
