//! What the program does about each thing that it hears, whatever state it is in.
use vstd::prelude::*;
use crate::app;
use crate::app::{AppModel, EffectModel, Tab, Test};
use crate::macros::{Cycle, SlotModel};
use crate::signal::{Event, Signal};

verus! {

/// The key that stops everything is Esc, on whatever keyboard and by whatever scancode, and no other
/// key, button, notch or bit.
pub proof fn law_esc_is_the_emergency_key(signal: Signal)
    ensures
        app::is_panic_key(signal) <==> (signal matches Signal::Key { vk, .. } && vk == 27),
{
}

proof fn lemma_slots_change_little(m: AppModel, e: Event, n: nat)
    ensures
        ({
            let after = m.dispatched(e, n).0;
            after == (AppModel { holding: after.holding, toggled: after.toggled, ..m })
        }),
    decreases n,
{
    if n > 0 {
        lemma_slots_change_little(m, e, (n - 1) as nat);
    }
}

/// What is held is known exactly: a signal that went down is held, one that went up is not, and no
/// event changes whether another one is. So a missed release of one key never affects another.
pub proof fn law_what_is_held_is_known(
    m: AppModel,
    e: Event,
    flooding: bool,
    qpf: i64,
    other: Signal,
)
    ensures
        ({
            let after = m.heard(e, flooding, qpf).0;
            &&& after.pressed.contains(e.signal) <==> e.down
            &&& other != e.signal ==> (after.pressed.contains(other) <==> m.pressed.contains(other))
        }),
{
    lemma_slots_change_little(m.with_held(e).test_heard(e), e, m.cfg.slots.len());
}

/// While a macro is recorded, what is heard goes into the recording and nowhere else: nothing runs,
/// nothing is counted, and nothing but the recording and what is held changes.
pub proof fn law_recording_takes_all_input(m: AppModel, e: Event, flooding: bool, qpf: i64)
    requires
        !m.learning,
        m.recorder is Some,
        e.down ==> !m.pressed.contains(e.signal),
        !(e.down && (e.signal matches Signal::Key { vk, .. } && vk == 27)),
    ensures
        ({
            let (after, effects) = m.heard(e, flooding, qpf);
            &&& effects.len() == 0
            &&& after.recorder == Some(m.recorder->0.fed(e.signal, e.down, e.qpc, qpf))
            &&& after == (AppModel { recorder: after.recorder, pressed: after.pressed, ..m })
        }),
{
}

/// A test counts the presses of the left button, each at its time, and nothing else; and only while
/// it runs.
pub proof fn law_a_test_counts_left_clicks(m: AppModel, e: Event, flooding: bool, qpf: i64)
    requires
        !m.learning,
        m.recorder is None,
        e.down ==> !m.pressed.contains(e.signal),
    ensures
        ({
            let after = m.heard(e, flooding, qpf).0;
            let counts = e.down && (m.test matches Test::Running { .. }) && (
            e.signal matches Signal::MouseButton { index, .. } && index == 1);
            &&& after.test_clicks == if counts {
                m.test_clicks.push(e.qpc)
            } else {
                m.test_clicks
            }
            &&& after.test == m.test
        }),
{
    lemma_slots_change_little(m.with_held(e).test_heard(e), e, m.cfg.slots.len());
}

// -------------------------------------------------------------------- slots

/// What one slot does about its button, by its own state alone.
spec fn answer(m: AppModel, slot: int, down: bool, on: bool) -> Seq<EffectModel> {
    match m.cfg.slots[slot].cycle {
        Cycle::UntilReleased => if down {
            m.cfg.fired(slot, None)
        } else if m.holding == Some(slot as usize) {
            seq![EffectModel::Stop]
        } else {
            seq![]
        },
        Cycle::UntilClickedAgain => if !down {
            seq![]
        } else if on {
            seq![EffectModel::Stop]
        } else {
            m.cfg.fired(slot, None)
        },
        Cycle::Times(n) => if !down {
            seq![]
        } else if n == 0 {
            m.cfg.fired(slot, Some(1))
        } else {
            m.cfg.fired(slot, Some(n as u64))
        },
    }
}

/// Whether a toggle is on.
spec fn on(toggled: Map<usize, bool>, slot: int) -> bool {
    toggled.dom().contains(slot as usize) && toggled[slot as usize]
}

proof fn lemma_all_bound_hear(m: AppModel, e: Event, n: nat)
    requires
        n <= m.cfg.slots.len(),
        m.cfg.slots.len() <= usize::MAX,
    ensures
        ({
            let (after, effects) = m.dispatched(e, n);
            &&& after.cfg == m.cfg
            &&& forall|k: int|
                0 <= k < m.cfg.slots.len() ==> on(after.toggled, k) == if k < n && (
                #[trigger] m.cfg.slots[k]).signal == e.signal && m.cfg.slots[k].cycle
                    == Cycle::UntilClickedAgain && e.down {
                    !on(m.toggled, k)
                } else {
                    on(m.toggled, k)
                }
            &&& forall|k: int, x: EffectModel|
                0 <= k < n && (#[trigger] m.cfg.slots[k]).signal == e.signal && (
                #[trigger] answer(m, k, e.down, on(m.toggled, k)).contains(x)) ==> effects.contains(
                    x,
                )
            &&& forall|x: EffectModel| #[trigger]
                effects.contains(x) ==> exists|k: int|
                    0 <= k < n && (#[trigger] m.cfg.slots[k]).signal == e.signal && answer(
                        m,
                        k,
                        e.down,
                        on(m.toggled, k),
                    ).contains(x)
            &&& !e.down ==> after.holding == m.holding || after.holding is None
            &&& !e.down && after.holding is None && m.holding is Some ==> m.holding->0 < n
            &&& e.down ==> (forall|k: int|
                0 <= k < n && (#[trigger] m.cfg.slots[k]).signal == e.signal && m.cfg.slots[k].cycle
                    == Cycle::UntilReleased && (forall|j: int|
                    k < j < n && (#[trigger] m.cfg.slots[j]).signal == e.signal
                        ==> m.cfg.slots[j].cycle != Cycle::UntilReleased) ==> after.holding == Some(
                    k as usize,
                ))
        }),
    decreases n,
{
    if n > 0 {
        let k = n - 1;
        lemma_all_bound_hear(m, e, k as nat);
        let (before, sofar) = m.dispatched(e, k as nat);
        let (after, effects) = m.dispatched(e, n);
        if m.cfg.slots[k].signal == e.signal {
            let more = before.slot_heard(k as usize, e.down).1;
            assert(more == answer(m, k, e.down, on(m.toggled, k))) by {
                if !e.down && m.cfg.slots[k].cycle == Cycle::UntilReleased {
                    if m.holding == Some(k as usize) {
                        assert(before.holding == m.holding);
                    }
                }
            }
            assert(effects == sofar + more);
            assert forall|x: EffectModel| effects.contains(x) <==> sofar.contains(x)
                || more.contains(x) by {
                if sofar.contains(x) {
                    let i = choose|i: int| 0 <= i < sofar.len() && sofar[i] == x;
                    assert(effects[i] == x);
                }
                if more.contains(x) {
                    let i = choose|i: int| 0 <= i < more.len() && more[i] == x;
                    assert(effects[sofar.len() + i] == x);
                }
            }
        }
    }
}

/// Every slot that is bound to what is heard answers it, by its own cycle and its own toggle, and no
/// other slot does: what is asked for is exactly what those slots ask for. A toggle flips where its
/// own button went down, and every other one stays as it is.
///
/// Until released: a press starts the slot's job without a limit, and its release stops what it
/// started. Until clicked again: a press starts it without a limit where it is off, and stops it
/// where it is on. So many times: a press starts it with that limit, once at least.
pub proof fn law_every_bound_slot_answers(
    m: AppModel,
    e: Event,
    flooding: bool,
    qpf: i64,
    k: int,
    x: EffectModel,
)
    requires
        !m.learning,
        m.recorder is None,
        e.down ==> !m.pressed.contains(e.signal),
        !(e.down && (e.signal matches Signal::Key { vk, .. } && vk == 27)),
        m.cfg.slots.len() <= usize::MAX,
        0 <= k < m.cfg.slots.len(),
    ensures
        ({
            let (after, effects) = m.heard(e, flooding, qpf);
            let slot = k as usize;
            let bound = m.cfg.slots[k].signal == e.signal;
            let was_on = m.toggled.dom().contains(slot) && m.toggled[slot];
            let is_on = after.toggled.dom().contains(slot) && after.toggled[slot];
            &&& after.cfg == m.cfg
            &&& after.store == m.store
            &&& bound && e.down ==> match m.cfg.slots[k].cycle {
                Cycle::UntilReleased => {
                    &&& m.cfg.fired(k, None).contains(x) ==> effects.contains(x)
                    &&& is_on == was_on
                    &&& after.holding is Some
                },
                Cycle::UntilClickedAgain => {
                    &&& !was_on && m.cfg.fired(k, None).contains(x) ==> effects.contains(x)
                    &&& was_on ==> effects.contains(EffectModel::Stop)
                    &&& is_on == !was_on
                },
                Cycle::Times(n) => {
                    &&& m.cfg.fired(
                        k,
                        Some(
                            if n == 0 {
                                1
                            } else {
                                n as u64
                            },
                        ),
                    ).contains(x) ==> effects.contains(x)
                    &&& is_on == was_on
                },
            }
            &&& bound && !e.down && m.cfg.slots[k].cycle == Cycle::UntilReleased && m.holding
                == Some(slot) ==> effects.contains(EffectModel::Stop) && after.holding is None
            &&& !bound ==> is_on == was_on
            &&& !e.down ==> is_on == was_on
            &&& !e.down && effects.contains(x) ==> x == EffectModel::Stop && m.holding is Some
                && m.holding->0 < m.cfg.slots.len() && m.cfg.slots[m.holding->0 as int].signal
                == e.signal
            &&& (forall|j: int|
                0 <= j < m.cfg.slots.len() ==> (#[trigger] m.cfg.slots[j]).signal != e.signal)
                ==> effects.len() == 0 && after.holding == m.holding
        }),
{
    let h = m.with_held(e).test_heard(e);
    let n = m.cfg.slots.len();
    let (after, effects) = m.heard(e, flooding, qpf);
    lemma_all_bound_hear(h, e, n);
    lemma_slots_change_little(h, e, n);
    assert(on(after.toggled, k) == if h.cfg.slots[k].signal == e.signal && h.cfg.slots[k].cycle
        == Cycle::UntilClickedAgain && e.down {
        !on(h.toggled, k)
    } else {
        on(h.toggled, k)
    });
    if m.cfg.slots[k].signal == e.signal {
        let a = answer(h, k, e.down, on(h.toggled, k));
        if a.contains(x) {
            assert(effects.contains(x));
        }
        if a.len() > 0 && a[0] == EffectModel::Stop {
            assert(a.contains(EffectModel::Stop));
            assert(effects.contains(EffectModel::Stop));
        }
        if e.down && m.cfg.slots[k].cycle == Cycle::UntilReleased {
            lemma_press_is_held(h, e, n, k);
        }
        if !e.down && m.cfg.slots[k].cycle == Cycle::UntilReleased && m.holding == Some(
            k as usize,
        ) {
            lemma_release_lets_go(h, e, n, k);
        }
    }
    if !e.down && effects.contains(x) {
        let j = choose|j: int|
            0 <= j < n && (#[trigger] h.cfg.slots[j]).signal == e.signal && answer(
                h,
                j,
                e.down,
                on(h.toggled, j),
            ).contains(x);
        assert(h.cfg.slots[j].cycle == Cycle::UntilReleased);
    }
    if forall|j: int| 0 <= j < m.cfg.slots.len() ==> (#[trigger] m.cfg.slots[j]).signal != e.signal {
        if effects.len() > 0 {
            assert(effects.contains(effects[0]));
        }
        lemma_unbound_holds_nothing(h, e, n);
    }
}

proof fn lemma_press_is_held(m: AppModel, e: Event, n: nat, k: int)
    requires
        e.down,
        0 <= k < n <= m.cfg.slots.len(),
        m.cfg.slots.len() <= usize::MAX,
        m.cfg.slots[k].signal == e.signal,
        m.cfg.slots[k].cycle == Cycle::UntilReleased,
    ensures
        m.dispatched(e, n).0.holding is Some,
    decreases n,
{
    lemma_slots_change_little(m, e, (n - 1) as nat);
    if k < n - 1 {
        lemma_press_is_held(m, e, (n - 1) as nat, k);
    }
}

proof fn lemma_release_lets_go(m: AppModel, e: Event, n: nat, k: int)
    requires
        !e.down,
        0 <= k < n <= m.cfg.slots.len(),
        m.cfg.slots.len() <= usize::MAX,
        m.cfg.slots[k].signal == e.signal,
        m.cfg.slots[k].cycle == Cycle::UntilReleased,
        m.holding == Some(k as usize),
    ensures
        m.dispatched(e, n).0.holding is None,
    decreases n,
{
    lemma_slots_change_little(m, e, (n - 1) as nat);
    lemma_all_bound_hear(m, e, (n - 1) as nat);
    if k < n - 1 {
        lemma_release_lets_go(m, e, (n - 1) as nat, k);
    }
}

proof fn lemma_unbound_holds_nothing(m: AppModel, e: Event, n: nat)
    requires
        n <= m.cfg.slots.len(),
        forall|j: int|
            0 <= j < m.cfg.slots.len() ==> (#[trigger] m.cfg.slots[j]).signal != e.signal,
    ensures
        m.dispatched(e, n).0.holding == m.holding,
    decreases n,
{
    if n > 0 {
        lemma_unbound_holds_nothing(m, e, (n - 1) as nat);
    }
}

// ----------------------------------------------------------------- learning

/// The log keeps what came last, in order, two dozen entries of it.
pub proof fn law_the_log_keeps_the_latest(m: AppModel, e: Event)
    requires
        m.learn_log.len() <= 24,
    ensures
        ({
            let log = m.logged(e);
            let all = m.learn_log.push((e.signal, e.down));
            &&& log.len() == if m.learn_log.len() < 24 {
                m.learn_log.len() + 1
            } else {
                24
            }
            &&& log == all.skip(all.len() - log.len())
            &&& log.last() == (e.signal, e.down)
        }),
{
}

/// How many of a batch of events are bits of generic reports of a device.
pub open spec fn bits_of(events: Seq<Event>, device: i64) -> nat {
    events.filter(
        |e: Event| e.signal matches Signal::HidBit { device: d, .. } && d == device,
    ).len()
}

proof fn lemma_bits_are_counted(events: Seq<Event>, device: i64, n: nat)
    requires
        n <= events.len(),
    ensures
        app::hid_bits(events, device, n) == bits_of(events.take(n as int), device),
    decreases n,
{
    reveal(Seq::filter);
    if n > 0 {
        lemma_bits_are_counted(events, device, (n - 1) as nat);
        let some = events.take(n as int);
        assert(some.drop_last() == events.take(n - 1));
        assert(some.last() == events[n - 1]);
    }
}

/// Slots that were there first, and behind them some that are not bound to a bit of this device.
spec fn grown_without(before: Seq<SlotModel>, after: Seq<SlotModel>, device: i64) -> bool {
    &&& after.len() >= before.len()
    &&& forall|i: int| 0 <= i < before.len() ==> (#[trigger] after[i]) == before[i]
    &&& forall|i: int|
        before.len() <= i < after.len() ==> !((
        #[trigger] after[i]).signal matches Signal::HidBit { device: d, .. } && d == device)
}

/// A touch surface binds nothing: where a batch has more than six bits of one device while a button
/// is learned, none of them becomes a slot; and no slot that was there is changed.
pub proof fn law_flooding_binds_nothing(m: AppModel, events: Seq<Event>, device: i64, qpf: i64)
    requires
        m.learning,
        bits_of(events, device) > 6,
    ensures
        ({
            let slots = m.heard_all(events, events.len(), qpf).0.cfg.slots;
            &&& slots.len() >= m.cfg.slots.len()
            &&& forall|i: int| 0 <= i < m.cfg.slots.len() ==> (#[trigger] slots[i])
                == m.cfg.slots[i]
            &&& forall|i: int|
                m.cfg.slots.len() <= i < slots.len() ==> !((
                #[trigger] slots[i]).signal matches Signal::HidBit { device: d, .. } && d == device)
        }),
{
    assert(events.take(events.len() as int) == events);
    lemma_bits_are_counted(events, device, events.len());
    lemma_flood(m, events, device, events.len(), qpf);
}

proof fn lemma_flood(m: AppModel, events: Seq<Event>, device: i64, n: nat, qpf: i64)
    requires
        m.learning,
        n <= events.len(),
        app::hid_bits(events, device, events.len()) > 6,
    ensures
        grown_without(m.cfg.slots, m.heard_all(events, n, qpf).0.cfg.slots, device),
    decreases n,
{
    if n > 0 {
        lemma_flood(m, events, device, (n - 1) as nat, qpf);
        let before = m.heard_all(events, (n - 1) as nat, qpf).0;
        let e = events[n - 1];
        lemma_slots_change_little(before.with_held(e).test_heard(e), e, before.cfg.slots.len());
    }
}

/// A run of events without any flood.
pub open spec fn heard_one_by_one(
    m: AppModel,
    events: Seq<Event>,
    n: nat,
    qpf: i64,
) -> (AppModel, Seq<EffectModel>)
    decreases n,
{
    if n == 0 {
        (m, Seq::empty())
    } else {
        let before = heard_one_by_one(m, events, (n - 1) as nat, qpf);
        let more = before.0.heard(events[n - 1], false, qpf);
        (more.0, before.1 + more.1)
    }
}

/// A batch is heard event by event, in order, each in the state that the one before has left. Six
/// bits of a device in one batch are no flood, and where no button is learned there is none at all.
pub proof fn law_batches_are_heard_in_order(m: AppModel, events: Seq<Event>, n: nat, qpf: i64)
    requires
        n <= events.len(),
        m.learning ==> forall|device: i64| #[trigger] bits_of(events, device) <= 6,
    ensures
        m.heard_all(events, n, qpf) == heard_one_by_one(m, events, n, qpf),
    decreases n,
{
    if n > 0 {
        law_batches_are_heard_in_order(m, events, (n - 1) as nat, qpf);
        let device = events[n - 1].signal.source();
        assert(events.take(events.len() as int) == events);
        lemma_bits_are_counted(events, device, events.len());
        if m.learning {
            assert(bits_of(events, device) <= 6);
        }
    }
}

/// While a button is learned nothing runs and nothing is recorded or counted: at most a slot comes of
/// what is heard.
pub proof fn law_learning_runs_nothing(m: AppModel, e: Event, flooding: bool, qpf: i64)
    requires
        m.learning,
        !(e.down && (e.signal matches Signal::Key { vk, .. } && vk == 27)),
    ensures
        ({
            let (after, effects) = m.heard(e, flooding, qpf);
            &&& forall|i: int| 0 <= i < effects.len() ==> !((#[trigger] effects[i]) is Run)
                && !(effects[i] is Stop)
            &&& after.recorder == m.recorder
            &&& after.test_clicks == m.test_clicks
            &&& after.holding == m.holding
            &&& after.toggled == m.toggled
            &&& after.cfg.macros == m.cfg.macros
            &&& e.down ==> after.learning && after.cfg == m.cfg && effects.len() == 0
        }),
{
}

// ------------------------------------------------------------------- window

/// Input is captured exactly where something needs it: a job that runs, for it must be possible to
/// stop it; a button that is learned; a recording; a slot that waits for its button; a test; or the
/// page that shows what the devices send.
pub proof fn law_input_is_captured_where_it_is_needed(m: AppModel, running: bool)
    ensures
        m.wants_capture(running) == (running || m.learning || m.recorder is Some || m.cfg.slots.len()
            >= 1 || (m.test matches Test::Running { .. }) || m.tab == Tab::Devices),
{
}

/// What the tray asks for is done and nothing else: stopping stops the engine and says so, showing
/// shows the window and brings it to the front, and where nothing is asked for nothing happens.
/// Closing the window writes the store, and where there is a tray icon hides the window instead.
pub proof fn law_the_tray_is_obeyed(m: AppModel, stop: bool, show: bool, close: bool, tray: bool)
    requires
        m.store.wf(),
    ensures
        ({
            let (after, effects) = m.tray_heard(false, stop, show, close, tray);
            let stopped = if stop {
                seq![EffectModel::Stop, EffectModel::Status("stopped from tray"@)]
            } else {
                seq![]
            };
            let shown = if show {
                seq![EffectModel::Show, EffectModel::Focus]
            } else {
                seq![]
            };
            let hidden = if close && tray {
                seq![EffectModel::CancelClose, EffectModel::Hide]
            } else {
                seq![]
            };
            let written = if close {
                seq![EffectModel::Save(after.store)]
            } else {
                seq![]
            };
            &&& effects == stopped + shown + hidden + written
            &&& after.hidden == if close && tray {
                true
            } else if show {
                false
            } else {
                m.hidden
            }
            &&& after.cfg == m.cfg
            &&& !stop ==> after.holding == m.holding && after.toggled == m.toggled
            &&& stop ==> after.holding is None && after.toggled == Map::<usize, bool>::empty()
            &&& close ==> after.store.profiles[m.store.active as int] == m.cfg
            &&& !close ==> after.store == m.store
            &&& after == (AppModel {
                hidden: after.hidden,
                holding: after.holding,
                toggled: after.toggled,
                store: after.store,
                ..m
            })
        }),
{
}

/// Esc stops and nothing else: besides holding, toggles, learning and recording, everything is as it
/// was. Where nothing is recorded the profile and the store are untouched, and all that is asked for
/// is to stop and to say so; a recording is brought to its end first.
pub proof fn law_esc_only_stops(m: AppModel, e: Event, flooding: bool, qpf: i64)
    requires
        e.down,
        e.signal matches Signal::Key { vk, .. } && vk == 27,
    ensures
        ({
            let (after, effects) = m.heard(e, flooding, qpf);
            let over = AppModel { holding: None, toggled: Map::empty(), ..m }.recording_finished();
            &&& m.recorder is None ==> {
                &&& effects == seq![EffectModel::Stop, EffectModel::Status("stopped (Esc)"@)]
                &&& after.cfg == m.cfg
                &&& after.store == m.store
            }
            &&& m.recorder is Some ==> {
                &&& effects == seq![EffectModel::Stop] + over.1 + seq![
                    EffectModel::Status("stopped (Esc)"@),
                ]
                &&& after.cfg == over.0.cfg
                &&& after.store.active == m.store.active
                &&& after.rec_into is None
            }
            &&& after == (AppModel {
                cfg: after.cfg,
                store: after.store,
                pressed: after.pressed,
                holding: None,
                toggled: Map::empty(),
                learning: false,
                recorder: None,
                rec_into: after.rec_into,
                ..m
            })
        }),
{
}

/// While a button is learned, everything that is heard is logged, but for the bits of a device that
/// floods: those leave no trace.
pub proof fn law_learning_logs_what_is_heard(m: AppModel, e: Event, flooding: bool, qpf: i64)
    requires
        m.learning,
        e.down ==> !m.pressed.contains(e.signal),
        !(e.down && (e.signal matches Signal::Key { vk, .. } && vk == 27)),
        m.learn_log.len() < 24,
    ensures
        ({
            let (after, effects) = m.heard(e, flooding, qpf);
            let ignored = flooding && (e.signal matches Signal::HidBit { .. });
            &&& !ignored ==> after.learn_log == m.learn_log.push((e.signal, e.down))
            &&& ignored ==> effects.len() == 0 && after == (AppModel { pressed: after.pressed, ..m })
        }),
{
}

/// A key that repeats by itself does nothing at all, in whatever state: only Esc is never swallowed.
pub proof fn law_held_keys_do_nothing(m: AppModel, e: Event, flooding: bool, qpf: i64)
    requires
        e.down,
        m.pressed.contains(e.signal),
        !(e.signal matches Signal::Key { vk, .. } && vk == 27),
    ensures
        m.heard(e, flooding, qpf) == (m, Seq::<EffectModel>::empty()),
{
}

} // verus!
