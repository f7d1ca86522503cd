//! What holds of the program as a whole, whatever is pressed and in whatever order.
use vstd::prelude::*;
use crate::app;
use crate::app::{AppModel, EffectModel};
use crate::macros::{Action, Cycle, SlotModel};
use crate::signal::{Event, Signal};

verus! {

/// The emergency stop: a press of Esc, whatever is going on, stops the engine before anything else, and ends holding,
/// toggles, recording and learning. Nothing is started, and what was recorded is kept.
pub proof fn law_esc_stops_everything(m: AppModel, e: Event, flooding: bool, qpf: i64)
    requires
        e.down,
        app::is_panic_key(e.signal),
    ensures
        ({
            let (after, effects) = m.heard(e, flooding, qpf);
            &&& effects.len() >= 2
            &&& effects[0] == EffectModel::Stop
            &&& effects.last() == EffectModel::Status("stopped (Esc)"@)
            &&& forall|i: int| 0 <= i < effects.len() ==> !(#[trigger] effects[i] is Run)
            &&& after.holding is None
            &&& after.toggled == Map::<usize, bool>::empty()
            &&& after.recorder is None
            &&& !after.learning
            &&& m.recorder is Some && m.rec_into is Some && m.rec_into->0 < m.cfg.macros.len()
                ==> after.cfg.macros[m.rec_into->0 as int].steps == m.recorder->0.steps
        }),
{
}

/// While the engine runs, input is captured, so that Esc is heard.
pub proof fn law_running_is_listened_to(m: AppModel)
    ensures
        m.wants_capture(true),
{
}

/// Where nothing needs input, none is captured.
pub proof fn law_idle_is_not_listened_to(m: AppModel)
    requires
        !m.learning,
        m.recorder is None,
        m.cfg.slots.len() == 0,
        !(m.test is Running),
        m.tab != app::Tab::Devices,
    ensures
        !m.wants_capture(false),
{
}

/// A key that repeats by itself while it is held does nothing more, unless it is the one that stops
/// everything.
pub proof fn law_repetition_is_swallowed(
    m: AppModel,
    e: Event,
    again: Event,
    flooding: bool,
    qpf: i64,
)
    requires
        e.down,
        again.down,
        again.signal == e.signal,
        !app::is_panic_key(e.signal),
    ensures
        ({
            let once = m.heard(e, flooding, qpf).0;
            once.heard(again, flooding, qpf) == (once, Seq::<EffectModel>::empty())
        }),
{
    lemma_slots_hold_nothing(m.with_held(e).test_heard(e), e, m.cfg.slots.len());
}

proof fn lemma_slots_hold_nothing(m: AppModel, e: Event, n: nat)
    ensures
        m.dispatched(e, n).0.pressed == m.pressed,
    decreases n,
{
    if n > 0 {
        lemma_slots_hold_nothing(m, e, (n - 1) as nat);
    }
}

/// The one slot that is bound to a signal.
pub open spec fn only_slot(slots: Seq<SlotModel>, slot: usize, signal: Signal) -> bool {
    &&& slot < slots.len()
    &&& slots[slot as int].signal == signal
    &&& forall|j: int| 0 <= j < slots.len() && j != slot ==> (#[trigger] slots[j]).signal != signal
}

/// A program that is neither learning nor recording, and a slot whose button is not held.
pub open spec fn ready(m: AppModel, slot: usize, signal: Signal) -> bool {
    &&& !m.learning
    &&& m.recorder is None
    &&& !m.pressed.contains(signal)
    &&& !app::is_panic_key(signal)
    &&& only_slot(m.cfg.slots, slot, signal)
}

proof fn lemma_only_slot_hears(m: AppModel, e: Event, slot: usize, n: nat)
    requires
        only_slot(m.cfg.slots, slot, e.signal),
        n <= m.cfg.slots.len(),
    ensures
        n <= slot ==> m.dispatched(e, n) == (m, Seq::<EffectModel>::empty()),
        n > slot ==> m.dispatched(e, n) == m.slot_heard(slot, e.down),
    decreases n,
{
    if n > 0 {
        lemma_only_slot_hears(m, e, slot, (n - 1) as nat);
        if n - 1 == slot {
            assert(Seq::<EffectModel>::empty() + m.slot_heard(slot, e.down).1 == m.slot_heard(
                slot,
                e.down,
            ).1);
        }
    }
}

proof fn lemma_ready_hears(m: AppModel, e: Event, slot: usize, flooding: bool, qpf: i64)
    requires
        !m.learning,
        m.recorder is None,
        e.down ==> !m.pressed.contains(e.signal),
        !app::is_panic_key(e.signal),
        only_slot(m.cfg.slots, slot, e.signal),
    ensures
        m.heard(e, flooding, qpf) == m.with_held(e).test_heard(e).slot_heard(slot, e.down),
{
    lemma_only_slot_hears(m.with_held(e).test_heard(e), e, slot, m.cfg.slots.len());
}

/// Cycle until released: the press starts the slot's job without a limit, and the release stops
/// it.
pub proof fn law_until_released(
    m: AppModel,
    slot: usize,
    press: Event,
    release: Event,
    flooding: bool,
    qpf: i64,
)
    requires
        ready(m, slot, press.signal),
        m.cfg.slots[slot as int].cycle == Cycle::UntilReleased,
        press.down,
        !release.down,
        release.signal == press.signal,
    ensures
        ({
            let (pressed, started) = m.heard(press, flooding, qpf);
            let (released, ended) = pressed.heard(release, flooding, qpf);
            &&& started == m.cfg.fired(slot as int, None)
            &&& pressed.holding == Some(slot)
            &&& ended == seq![EffectModel::Stop]
            &&& released.holding is None
        }),
{
    lemma_ready_hears(m, press, slot, flooding, qpf);
    let pressed = m.heard(press, flooding, qpf).0;
    lemma_ready_hears(pressed, release, slot, flooding, qpf);
}

/// Cycle until clicked again: one click starts the slot's job without a limit, its release does
/// nothing, and the next click stops it.
pub proof fn law_until_clicked_again(
    m: AppModel,
    slot: usize,
    press: Event,
    release: Event,
    again: Event,
    flooding: bool,
    qpf: i64,
)
    requires
        ready(m, slot, press.signal),
        m.cfg.slots[slot as int].cycle == Cycle::UntilClickedAgain,
        !app::is_on(m.toggled, slot),
        press.down,
        !release.down,
        again.down,
        release.signal == press.signal,
        again.signal == press.signal,
    ensures
        ({
            let (pressed, started) = m.heard(press, flooding, qpf);
            let (released, nothing) = pressed.heard(release, flooding, qpf);
            let (clicked, ended) = released.heard(again, flooding, qpf);
            &&& started == m.cfg.fired(slot as int, None)
            &&& app::is_on(pressed.toggled, slot)
            &&& nothing.len() == 0
            &&& app::is_on(released.toggled, slot)
            &&& ended == seq![EffectModel::Stop]
            &&& !app::is_on(clicked.toggled, slot)
        }),
{
    lemma_ready_hears(m, press, slot, flooding, qpf);
    let pressed = m.heard(press, flooding, qpf).0;
    lemma_ready_hears(pressed, release, slot, flooding, qpf);
    let released = pressed.heard(release, flooding, qpf).0;
    lemma_ready_hears(released, again, slot, flooding, qpf);
}

/// Cycle exactly N times: the press starts the slot's job with that limit, once at least, and the
/// release does nothing.
pub proof fn law_specified_times(
    m: AppModel,
    slot: usize,
    times: u32,
    press: Event,
    release: Event,
    flooding: bool,
    qpf: i64,
)
    requires
        ready(m, slot, press.signal),
        m.cfg.slots[slot as int].cycle == Cycle::Times(times),
        press.down,
        !release.down,
        release.signal == press.signal,
    ensures
        ({
            let (pressed, started) = m.heard(press, flooding, qpf);
            let (_, nothing) = pressed.heard(release, flooding, qpf);
            &&& times >= 1 ==> started == m.cfg.fired(slot as int, Some(times as u64))
            &&& times == 0 ==> started == m.cfg.fired(slot as int, Some(1))
            &&& nothing.len() == 0
        }),
{
    lemma_ready_hears(m, press, slot, flooding, qpf);
    let pressed = m.heard(press, flooding, qpf).0;
    lemma_ready_hears(pressed, release, slot, flooding, qpf);
}

/// A button that no slot is bound to has no effect on the engine.
pub proof fn law_unbound_does_nothing(m: AppModel, e: Event, flooding: bool, qpf: i64)
    requires
        !m.learning,
        !app::is_panic_key(e.signal),
        !app::bound(m.cfg.slots, e.signal),
    ensures
        m.heard(e, flooding, qpf).1.len() == 0,
{
    lemma_unbound_is_not_dispatched(m.with_held(e).test_heard(e), e, m.cfg.slots.len());
}

proof fn lemma_unbound_is_not_dispatched(m: AppModel, e: Event, n: nat)
    requires
        n <= m.cfg.slots.len(),
        !app::bound(m.cfg.slots, e.signal),
    ensures
        m.dispatched(e, n).1.len() == 0,
    decreases n,
{
    if n > 0 {
        lemma_unbound_is_not_dispatched(m, e, (n - 1) as nat);
    }
}

/// Slots with different signals only.
pub open spec fn distinct_signals(slots: Seq<SlotModel>) -> bool {
    forall|i: int, j: int|
        0 <= i < j < slots.len() ==> (#[trigger] slots[i]).signal != (#[trigger] slots[j]).signal
}

/// Learning never binds one button twice, and binds no other than the one that was pressed.
pub proof fn law_learning_binds_once(m: AppModel, signal: Signal)
    requires
        distinct_signals(m.cfg.slots),
    ensures
        ({
            let after = m.learned(signal).0;
            &&& distinct_signals(after.cfg.slots)
            &&& app::bound(after.cfg.slots, signal)
            &&& after.cfg.slots.len() <= m.cfg.slots.len() + 1
            &&& forall|i: int| 0 <= i < m.cfg.slots.len() ==> after.cfg.slots[i] == m.cfg.slots[i]
        }),
{
    let after = m.learned(signal).0;
    if !app::bound(m.cfg.slots, signal) {
        let n = m.cfg.slots.len() as int;
        assert(after.cfg.slots[n].signal == signal);
    }
}

/// A button is learned on its release and only once its press was seen, and never from a device
/// that floods.
pub proof fn law_learning_takes_a_click(m: AppModel, e: Event, flooding: bool, qpf: i64)
    requires
        m.learning,
        !app::is_panic_key(e.signal),
        e.down || (e.signal is HidBit && flooding) || !m.logged(e).contains((e.signal, true)),
    ensures
        m.heard(e, flooding, qpf).0.learning,
        m.heard(e, flooding, qpf).0.cfg == m.cfg,
        m.heard(e, flooding, qpf).1.len() == 0,
{
}

/// Deleting a macro leaves every slot with the macro it had: one that ran another macro still
/// runs that one, one that ran the deleted macro runs nothing, and a missing macro stays missing.
pub proof fn law_deletion_keeps_assignments(m: AppModel, gone: usize, slot: int)
    requires
        m.chosen_macro() == Some(gone),
        0 <= slot < m.cfg.slots.len(),
    ensures
        ({
            let after = m.without_chosen_macro().0;
            &&& after.cfg.slots.len() == m.cfg.slots.len()
            &&& after.cfg.macros.len() == m.cfg.macros.len() - 1
            &&& match m.cfg.slots[slot].action {
                Action::Macro { index } => if index == gone {
                    after.cfg.slots[slot].action == Action::Nothing
                } else if index < m.cfg.macros.len() {
                    after.cfg.slots[slot].action matches Action::Macro { index: now } && now
                        < after.cfg.macros.len() && after.cfg.macros[now as int]
                        == m.cfg.macros[index as int]
                } else {
                    after.cfg.slots[slot].action matches Action::Macro { index: now } && now
                        >= after.cfg.macros.len()
                },
                other => after.cfg.slots[slot].action == other,
            }
        }),
{
}

/// Switching to another profile stops what runs, loses no edit, and leaves the other profiles as
/// they were; switching back gives the first one as it was left.
pub proof fn law_switching_keeps_edits(m: AppModel, to: usize)
    requires
        m.store.wf(),
        to < m.store.profiles.len(),
        to != m.store.active,
    ensures
        ({
            let (there, effects) = m.switched(to);
            let (back, _) = there.switched(m.store.active);
            &&& effects[0] == EffectModel::Stop
            &&& there.holding is None
            &&& there.toggled == Map::<usize, bool>::empty()
            &&& there.store.active == to
            &&& there.cfg == m.store.profiles[to as int]
            &&& there.store.profiles[m.store.active as int] == m.cfg
            &&& forall|i: int|
                0 <= i < m.store.profiles.len() && i != m.store.active
                    ==> there.store.profiles[i] == m.store.profiles[i]
            &&& back.cfg == m.cfg
            &&& back.store.active == m.store.active
        }),
{
}

/// A new profile takes nothing away, and deleting it again brings the others back.
pub proof fn law_new_profile_adds(m: AppModel)
    requires
        m.store.wf(),
        m.store.profiles.len() < usize::MAX,
    ensures
        ({
            let with = m.with_new_profile().0;
            let without = with.without_profile().0;
            &&& with.store.profiles.len() == m.store.profiles.len() + 1
            &&& with.store.wf()
            &&& without.store.profiles == m.committed().profiles
            &&& without.store.wf()
        }),
{
}

/// Closing the window hides it where there is a tray icon, and leaves every trigger armed;
/// where there is none the window is never hidden, because nothing could bring it back.
pub proof fn law_closing_leaves_macros_armed(m: AppModel, show: bool, tray: bool)
    ensures
        ({
            let (after, effects) = m.tray_heard(false, false, show, true, tray);
            &&& after.cfg == m.cfg
            &&& after.holding == m.holding
            &&& after.toggled == m.toggled
            &&& !effects.contains(EffectModel::Stop)
            &&& tray ==> after.hidden && effects.contains(EffectModel::Hide) && effects.contains(
                EffectModel::CancelClose,
            )
            &&& !tray ==> !effects.contains(EffectModel::Hide) && !effects.contains(
                EffectModel::CancelClose,
            )
        }),
{
    let (after, effects) = m.tray_heard(false, false, show, true, tray);
    let k: int = if show {
        2
    } else {
        0
    };
    if tray {
        assert(effects[k] == EffectModel::CancelClose);
        assert(effects[k + 1] == EffectModel::Hide);
    }
}

/// Quitting from the tray stops what runs and saves before the window closes.
pub proof fn law_quitting_stops_and_saves(
    m: AppModel,
    stop: bool,
    show: bool,
    close: bool,
    tray: bool,
)
    ensures
        m.tray_heard(true, stop, show, close, tray).1 == seq![
            EffectModel::Stop,
            EffectModel::Save(m.committed()),
            EffectModel::Close,
        ],
{
}

/// A click of a button that floods nothing is learned: after its press and its release a slot is
/// bound to it, and learning is over.
pub proof fn law_learning_takes_the_button(
    m: AppModel,
    press: Event,
    release: Event,
    flooding: bool,
    qpf: i64,
)
    requires
        m.learning,
        press.down,
        !release.down,
        release.signal == press.signal,
        !m.pressed.contains(press.signal),
        !app::is_panic_key(press.signal),
        !(press.signal is HidBit && flooding),
    ensures
        ({
            let pressed = m.heard(press, flooding, qpf).0;
            let released = pressed.heard(release, flooding, qpf).0;
            &&& pressed.learning
            &&& !released.learning
            &&& app::bound(released.cfg.slots, press.signal)
        }),
{
    let pressed = m.heard(press, flooding, qpf).0;
    let log = m.logged(press);
    assert(log[log.len() - 1] == (press.signal, true));
    let more = pressed.logged(release);
    assert(more[more.len() - 2] == (press.signal, true));
    let held = pressed.with_held(release);
    let seen = AppModel { learn_log: more, ..held };
    if !app::bound(seen.cfg.slots, press.signal) {
        let n = seen.cfg.slots.len() as int;
        assert(seen.learned(press.signal).0.cfg.slots[n].signal == press.signal);
    }
}

proof fn lemma_learning_is_not_started(m: AppModel, e: Event, flooding: bool, qpf: i64)
    requires
        !m.learning,
    ensures
        !m.heard(e, flooding, qpf).0.learning,
        m.heard(e, flooding, qpf) == m.heard(e, false, qpf),
{
    lemma_slots_learn_nothing(m.with_held(e).test_heard(e), e, m.cfg.slots.len());
}

proof fn lemma_slots_learn_nothing(m: AppModel, e: Event, n: nat)
    ensures
        m.dispatched(e, n).0.learning == m.learning,
    decreases n,
{
    if n > 0 {
        lemma_slots_learn_nothing(m, e, (n - 1) as nat);
    }
}

proof fn lemma_batch_learns_nothing(m: AppModel, events: Seq<Event>, n: nat, qpf: i64)
    requires
        !m.learning,
        n <= events.len(),
    ensures
        !m.heard_all(events, n, qpf).0.learning,
    decreases n,
{
    if n > 0 {
        lemma_batch_learns_nothing(m, events, (n - 1) as nat, qpf);
        lemma_learning_is_not_started(
            m.heard_all(events, (n - 1) as nat, qpf).0,
            events[n - 1],
            false,
            qpf,
        );
    }
}

proof fn lemma_batch_prefix(m: AppModel, a: Seq<Event>, b: Seq<Event>, n: nat, qpf: i64)
    requires
        !m.learning,
        n <= a.len(),
    ensures
        m.heard_all(a + b, n, qpf) == m.heard_all(a, n, qpf),
    decreases n,
{
    if n > 0 {
        lemma_batch_prefix(m, a, b, (n - 1) as nat, qpf);
        assert((a + b)[n - 1] == a[n - 1]);
    }
}

proof fn lemma_batch_suffix(m: AppModel, a: Seq<Event>, b: Seq<Event>, n: nat, qpf: i64)
    requires
        !m.learning,
        n <= b.len(),
    ensures
        ({
            let first = m.heard_all(a, a.len(), qpf);
            let second = first.0.heard_all(b, n, qpf);
            m.heard_all(a + b, a.len() + n, qpf) == (second.0, first.1 + second.1)
        }),
    decreases n,
{
    let first = m.heard_all(a, a.len(), qpf);
    lemma_batch_learns_nothing(m, a, a.len(), qpf);
    if n == 0 {
        lemma_batch_prefix(m, a, b, a.len(), qpf);
        assert(first.1 + Seq::<EffectModel>::empty() == first.1);
    } else {
        lemma_batch_suffix(m, a, b, (n - 1) as nat, qpf);
        assert((a + b)[a.len() + n - 1] == b[n - 1]);
        let before = first.0.heard_all(b, (n - 1) as nat, qpf);
        let more = before.0.heard(b[n - 1], false, qpf);
        assert(first.1 + before.1 + more.1 == first.1 + (before.1 + more.1));
    }
}

/// What a run of batches makes of the program, and all that it asks for.
pub open spec fn heard_in_batches(
    m: AppModel,
    batches: Seq<Seq<Event>>,
    qpf: i64,
) -> (AppModel, Seq<EffectModel>)
    decreases batches.len(),
{
    if batches.len() == 0 {
        (m, Seq::empty())
    } else {
        let before = heard_in_batches(m, batches.drop_last(), qpf);
        let more = before.0.heard_all(batches.last(), batches.last().len(), qpf);
        (more.0, before.1 + more.1)
    }
}

/// The events of all batches, in order.
pub open spec fn joined(batches: Seq<Seq<Event>>) -> Seq<Event>
    decreases batches.len(),
{
    if batches.len() == 0 {
        Seq::empty()
    } else {
        joined(batches.drop_last()) + batches.last()
    }
}

/// Except while a button is learned, it makes no difference in how many batches, and in what ones,
/// events arrive.
pub proof fn law_batches_do_not_matter(m: AppModel, batches: Seq<Seq<Event>>, qpf: i64)
    requires
        !m.learning,
    ensures
        heard_in_batches(m, batches, qpf) == m.heard_all(
            joined(batches),
            joined(batches).len(),
            qpf,
        ),
    decreases batches.len(),
{
    if batches.len() > 0 {
        let init = batches.drop_last();
        law_batches_do_not_matter(m, init, qpf);
        lemma_batch_suffix(m, joined(init), batches.last(), batches.last().len(), qpf);
    }
}

/// Whether event `i` of a run of events of one signal is a press that is no repetition: it goes
/// down, and the one before it did not.
pub open spec fn is_press(events: Seq<Event>, i: int) -> bool {
    events[i].down && (i == 0 || !events[i - 1].down)
}

/// The presses among the first `n` events of one signal.
pub open spec fn presses(events: Seq<Event>, n: nat) -> nat
    decreases n,
{
    if n == 0 {
        0
    } else {
        presses(events, (n - 1) as nat) + if is_press(events, n - 1) {
            1nat
        } else {
            0
        }
    }
}

/// What a toggle asks for on the first `n` events of its signal: every odd press starts `start`,
/// every even one stops it, and nothing else does anything.
pub open spec fn toggling(start: Seq<EffectModel>, events: Seq<Event>, n: nat) -> Seq<EffectModel>
    decreases n,
{
    if n == 0 {
        Seq::empty()
    } else {
        let before = toggling(start, events, (n - 1) as nat);
        if !is_press(events, n - 1) {
            before
        } else if presses(events, n) % 2 == 1 {
            before + start
        } else {
            before.push(EffectModel::Stop)
        }
    }
}

/// A toggle goes by the number of presses: after any run of events of its button, in whatever
/// batches they arrive, it is on exactly where the number of presses that are no repetition is
/// odd. Odd presses start its job without a limit, even ones stop it, and releases do nothing.
pub proof fn law_toggles_go_by_parity(
    m: AppModel,
    slot: usize,
    signal: Signal,
    batches: Seq<Seq<Event>>,
    qpf: i64,
)
    requires
        ready(m, slot, signal),
        m.cfg.slots[slot as int].cycle == Cycle::UntilClickedAgain,
        !app::is_on(m.toggled, slot),
        forall|i: int|
            0 <= i < joined(batches).len() ==> (#[trigger] joined(batches)[i]).signal == signal,
    ensures
        ({
            let events = joined(batches);
            let (after, effects) = heard_in_batches(m, batches, qpf);
            &&& app::is_on(after.toggled, slot) <==> presses(events, events.len()) % 2 == 1
            &&& effects == toggling(m.cfg.fired(slot as int, None), events, events.len())
            &&& after.cfg == m.cfg
            &&& after.pressed.contains(signal) <==> events.len() > 0 && events.last().down
        }),
{
    law_batches_do_not_matter(m, batches, qpf);
    lemma_toggles(m, slot, signal, joined(batches), joined(batches).len(), qpf);
}

proof fn lemma_toggles(
    m: AppModel,
    slot: usize,
    signal: Signal,
    events: Seq<Event>,
    n: nat,
    qpf: i64,
)
    requires
        ready(m, slot, signal),
        m.cfg.slots[slot as int].cycle == Cycle::UntilClickedAgain,
        !app::is_on(m.toggled, slot),
        n <= events.len(),
        forall|i: int| 0 <= i < events.len() ==> (#[trigger] events[i]).signal == signal,
    ensures
        ({
            let (after, effects) = m.heard_all(events, n, qpf);
            &&& app::is_on(after.toggled, slot) <==> presses(events, n) % 2 == 1
            &&& effects == toggling(m.cfg.fired(slot as int, None), events, n)
            &&& after.cfg == m.cfg
            &&& !after.learning
            &&& after.recorder is None
            &&& after.pressed.contains(signal) <==> n > 0 && events[n - 1].down
        }),
    decreases n,
{
    if n > 0 {
        lemma_toggles(m, slot, signal, events, (n - 1) as nat, qpf);
        let before = m.heard_all(events, (n - 1) as nat, qpf).0;
        let e = events[n - 1];
        assert(e.signal == signal);
        let start = m.cfg.fired(slot as int, None);
        let sofar = toggling(start, events, (n - 1) as nat);
        if !e.down || !before.pressed.contains(signal) {
            lemma_ready_hears(before, e, slot, false, qpf);
            assert(sofar + seq![EffectModel::Stop] == sofar.push(EffectModel::Stop));
        }
        assert(sofar + Seq::<EffectModel>::empty() == sofar);
    }
}

} // verus!
