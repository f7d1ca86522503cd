use hidforge::app::{macro_job, App, Effect, Tab, Test};
use hidforge::engine::{Job, Mode};
use hidforge::inject::Btn;
use hidforge::macros::{Action, Cycle, Macro, Profile, Slot, Step, Store, ONE, TWENTY};
use hidforge::signal::{Event, Signal};

const QPF: i64 = 10_000_000;

fn key(vk: u16) -> Signal {
    Signal::Key { device: 1, scancode: vk, vk }
}

fn button(index: u8) -> Signal {
    Signal::MouseButton { device: 2, index }
}

fn vendor(bit: u8) -> Signal {
    Signal::HidBit { device: 3, page: 0xFF00, usage: 1, byte: 0, bit }
}

fn event(signal: Signal, down: bool, qpc: i64) -> Event {
    Event { signal, down, qpc }
}

fn slot(signal: Signal, action: Action, cycle: Cycle) -> Slot {
    Slot { name: signal.label(), signal, action, cycle }
}

fn fresh() -> App {
    App::new(Store::default())
}

/// A program with one slot on a side button.
fn armed(action: Action, cycle: Cycle) -> App {
    let mut a = fresh();
    a.cfg.slots.push(slot(button(4), action, cycle));
    a
}

fn feed(a: &mut App, events: Vec<Event>) -> Vec<Effect> {
    a.handle_input(&events, QPF)
}

fn press(a: &mut App, signal: Signal) -> Vec<Effect> {
    feed(a, vec![event(signal, true, 0)])
}

fn lift(a: &mut App, signal: Signal) -> Vec<Effect> {
    feed(a, vec![event(signal, false, 0)])
}

fn job_of(effects: Vec<Effect>) -> Job {
    let mut effects = effects;
    assert_eq!(effects.len(), 1);
    match effects.pop() {
        Some(Effect::Run(job, _)) => job,
        other => panic!("{other:?}"),
    }
}

fn status_of(e: &Effect) -> &str {
    match e {
        Effect::Status(s) => s.as_str(),
        other => panic!("{other:?}"),
    }
}

fn saved(e: &Effect) -> &Store {
    match e {
        Effect::Save(s) => s,
        other => panic!("{other:?}"),
    }
}

fn kept(e: &Effect) -> &Store {
    match e {
        Effect::Keep(s) => s,
        other => panic!("{other:?}"),
    }
}

#[test]
fn the_program_starts_idle() {
    let a = App::new(Store {
        profiles: vec![Profile::named(String::from("a")), Profile::named(String::from("b"))],
        active: 1,
    });
    assert_eq!(a.cfg.name, "b");
    assert_eq!((a.tab, a.test), (Tab::Buttons, Test::Idle));
    assert!(!a.learning && !a.hidden && a.recorder.is_none());
    assert!(!a.wanted_capture(false));
    assert!(!a.wants_frames(false));
}

#[test]
fn holding_runs_until_released() {
    let mut a = armed(Action::RapidFire { btn: 2 }, Cycle::UntilReleased);
    let job = job_of(press(&mut a, button(4)));
    assert_eq!((job.mode, job.btn, job.limit), (Mode::AutoClick, Btn::Right, None));
    assert_eq!((job.cps.bits, job.hold_ms.bits), (TWENTY, ONE));
    assert_eq!(a.holding, Some(0));
    let out = lift(&mut a, button(4));
    assert!(matches!(out[..], [Effect::Stop]));
    assert_eq!(a.holding, None);
    // A second release has nothing to stop.
    assert!(lift(&mut a, button(4)).is_empty());
}

#[test]
fn toggling_runs_until_clicked_again() {
    let mut a = armed(Action::RapidFire { btn: 1 }, Cycle::UntilClickedAgain);
    let job = job_of(press(&mut a, button(4)));
    assert_eq!(job.limit, None);
    assert!(lift(&mut a, button(4)).is_empty());
    let out = press(&mut a, button(4));
    assert!(matches!(out[..], [Effect::Stop]));
    assert!(lift(&mut a, button(4)).is_empty());
    assert_eq!(job_of(press(&mut a, button(4))).btn, Btn::Left);
}

#[test]
fn counting_runs_so_many_times() {
    let mut a = armed(Action::Macro { index: 0 }, Cycle::Times(7));
    let mut m = Macro::new(String::from("m"));
    m.steps = vec![Step::Wheel { delta: 120 }];
    a.cfg.macros.push(m);
    let job = job_of(press(&mut a, button(4)));
    assert_eq!((job.mode, job.limit), (Mode::Sequence, Some(7)));
    assert_eq!(job.steps, vec![Step::Wheel { delta: 120 }]);
    assert!(lift(&mut a, button(4)).is_empty());
    a.cfg.slots[0].cycle = Cycle::Times(0);
    assert_eq!(job_of(press(&mut a, button(4))).limit, Some(1));
}

#[test]
fn slots_without_anything_to_run_stay_quiet() {
    let mut a = armed(Action::Nothing, Cycle::Times(1));
    assert!(press(&mut a, button(4)).is_empty());
    let mut a = armed(Action::Macro { index: 0 }, Cycle::Times(1));
    assert!(press(&mut a, button(4)).is_empty());
    let mut out = Vec::new();
    a.fire(5, None, &mut out);
    assert!(out.is_empty());
    assert!(press(&mut a, button(5)).is_empty());
}

#[test]
fn repetition_is_swallowed() {
    let mut a = fresh();
    a.cfg.slots.push(slot(key(65), Action::RapidFire { btn: 1 }, Cycle::UntilClickedAgain));
    let out = feed(&mut a, vec![event(key(65), true, 0), event(key(65), true, 1), event(key(65), true, 2)]);
    assert_eq!(out.len(), 1);
    assert_eq!(a.toggled.get(&0), Some(&true));
}

#[test]
fn one_signal_can_drive_two_slots() {
    let mut a = armed(Action::RapidFire { btn: 1 }, Cycle::Times(1));
    a.cfg.slots.push(slot(button(4), Action::RapidFire { btn: 3 }, Cycle::Times(2)));
    let out = press(&mut a, button(4));
    assert_eq!(out.len(), 2);
    assert!(matches!(&out[1], Effect::Run(j, _) if j.btn == Btn::Middle && j.limit == Some(2)));
}

#[test]
fn esc_stops_everything() {
    let mut a = armed(Action::RapidFire { btn: 1 }, Cycle::UntilReleased);
    a.cfg.slots.push(slot(key(0x1B), Action::RapidFire { btn: 1 }, Cycle::Times(1)));
    press(&mut a, button(4));
    a.toggled.insert(3, true);
    a.learning = true;
    let out = press(&mut a, key(0x1B));
    assert_eq!(out.len(), 2);
    assert!(matches!(out[0], Effect::Stop));
    assert_eq!(status_of(&out[1]), "stopped (Esc)");
    assert!(a.holding.is_none() && a.toggled.is_empty() && !a.learning);
}

#[test]
fn esc_keeps_what_was_recorded() {
    let mut a = fresh();
    let mut out = Vec::new();
    a.new_macro(&mut out);
    a.start_recording(0, &mut out);
    assert!(feed(&mut a, vec![event(button(1), true, 0), event(button(1), false, QPF)]).is_empty());
    assert_eq!(a.shown_steps(0).len(), 3);
    let out = press(&mut a, key(0x1B));
    assert!(matches!(out[0], Effect::Stop));
    assert_eq!(status_of(&out[1]), "recorded 3 steps");
    assert_eq!(saved(&out[2]).profiles[0].macros[0].steps.len(), 3);
    assert_eq!(status_of(&out[3]), "stopped (Esc)");
    assert!(a.recorder.is_none() && a.rec_into.is_none());
    assert_eq!(a.cfg.macros[0].steps.len(), 3);
}

#[test]
fn esc_stops_though_its_release_was_missed() {
    let mut a = armed(Action::RapidFire { btn: 1 }, Cycle::UntilReleased);
    assert_eq!(press(&mut a, key(0x1B)).len(), 2);
    press(&mut a, button(4));
    assert_eq!(a.holding, Some(0));
    let out = press(&mut a, key(0x1B));
    assert!(matches!(out[0], Effect::Stop));
    assert_eq!(status_of(&out[1]), "stopped (Esc)");
    assert_eq!(a.holding, None);
    assert_eq!(a.pressed.iter().filter(|s| **s == key(0x1B)).count(), 1);
    assert!(lift(&mut a, key(0x1B)).is_empty());
    assert_eq!(press(&mut a, key(0x1B)).len(), 2);
}

#[test]
fn recording_into_a_macro_that_is_gone_keeps_the_others() {
    let mut a = fresh();
    let mut out = Vec::new();
    a.start_recording(4, &mut out);
    press(&mut a, button(1));
    let mut out = Vec::new();
    a.finish_recording(&mut out);
    assert_eq!(status_of(&out[0]), "recorded 1 steps");
    assert!(saved(&out[1]).profiles[0].macros.is_empty());
    let mut none = Vec::new();
    a.finish_recording(&mut none);
    assert!(none.is_empty());
}

#[test]
fn a_button_is_learned_on_its_release() {
    let mut a = fresh();
    a.start_learning();
    assert!(lift(&mut a, button(1)).is_empty());
    assert!(a.learning);
    assert!(press(&mut a, button(5)).is_empty());
    assert!(a.learning);
    let out = lift(&mut a, button(5));
    assert_eq!(status_of(&out[0]), "button learned — now assign it an action");
    assert_eq!(saved(&out[1]).profiles[0].slots.len(), 1);
    assert!(!a.learning);
    assert_eq!(a.sel_slot, Some(0));
    let s = &a.cfg.slots[0];
    assert_eq!((s.name.as_str(), s.signal), ("Side forward (X2)", button(5)));
    assert_eq!((s.action, s.cycle), (Action::Nothing, Cycle::UntilReleased));
}

#[test]
fn a_button_is_learned_once() {
    let mut a = armed(Action::Nothing, Cycle::UntilReleased);
    a.start_learning();
    let out = feed(&mut a, vec![event(button(4), true, 0), event(button(4), false, 1)]);
    assert_eq!(out.len(), 1);
    assert_eq!(status_of(&out[0]), "Side back (X1) is already in the list");
    assert_eq!(a.cfg.slots.len(), 1);
    assert!(!a.learning);
}

#[test]
fn a_flooding_device_is_not_learned() {
    let mut a = fresh();
    a.start_learning();
    let mut batch = Vec::new();
    for b in 0..7 {
        batch.push(event(vendor(b), true, 0));
    }
    batch.push(event(vendor(0), false, 1));
    assert!(feed(&mut a, batch).is_empty());
    assert!(a.learning && a.learn_log.is_empty());
    let out = feed(&mut a, vec![event(vendor(7), true, 2), event(vendor(7), false, 3)]);
    assert_eq!(out.len(), 2);
    assert_eq!(a.cfg.slots[0].signal, vendor(7));
    // Six bits in one batch are not a flood.
    let mut b = fresh();
    b.start_learning();
    let mut batch = Vec::new();
    for i in 0..3 {
        batch.push(event(vendor(i), true, 0));
    }
    for i in 0..3 {
        batch.push(event(vendor(i), false, 1));
    }
    assert_eq!(feed(&mut b, batch).len(), 2);
}

#[test]
fn the_signal_log_is_short() {
    let mut a = fresh();
    a.start_learning();
    for vk in 0..30u16 {
        press(&mut a, key(vk + 100));
    }
    assert_eq!(a.learn_log.len(), 24);
    assert_eq!(a.learn_log[0], (key(106), true));
    let recent = a.recent_log();
    assert_eq!(recent.len(), 12);
    assert_eq!((recent[0], recent[11]), ((key(129), true), (key(118), true)));
    a.start_learning();
    assert!(a.recent_log().is_empty());
    // A press that has left the log no longer counts.
    press(&mut a, button(3));
    for vk in 200..224u16 {
        press(&mut a, key(vk));
    }
    assert!(lift(&mut a, button(3)).is_empty());
    assert!(a.learning);
}

#[test]
fn the_click_test_counts_left_presses() {
    let mut a = fresh();
    a.test_clicks = vec![1, 2, 3];
    a.start_test(100, 200);
    assert!(a.test_clicks.is_empty());
    assert!(a.wanted_capture(false) && a.wants_frames(false));
    feed(
        &mut a,
        vec![
            event(button(1), true, 110),
            event(button(1), false, 120),
            event(button(2), true, 130),
            event(button(1), true, 140),
        ],
    );
    assert_eq!(a.test_clicks, vec![110, 140]);
    a.expire_test(199);
    assert_eq!(a.test, Test::Running { start: 100, end: 200 });
    a.expire_test(200);
    assert_eq!(a.test, Test::Done { start: 100, end: 200 });
    lift(&mut a, button(1));
    press(&mut a, button(1));
    assert_eq!(a.test_clicks.len(), 2);
}

#[test]
fn input_is_captured_only_when_needed() {
    let mut a = fresh();
    assert!(a.wanted_capture(true));
    assert!(a.wants_frames(true));
    a.tab = Tab::Devices;
    assert!(a.wanted_capture(false));
    assert!(!a.wants_frames(false));
    a.tab = Tab::Scope;
    a.learning = true;
    assert!(a.wanted_capture(false) && a.wants_frames(false));
    a.learning = false;
    a.start_recording(0, &mut Vec::new());
    assert!(a.wanted_capture(false) && a.wants_frames(false));
    let b = armed(Action::Nothing, Cycle::UntilReleased);
    assert!(b.wanted_capture(false));
    assert!(!b.wants_frames(false));
}

#[test]
fn switching_profiles_keeps_edits() {
    let mut a = fresh();
    let mut out = Vec::new();
    a.new_profile(&mut out);
    assert_eq!((a.cfg.name.as_str(), a.store.active), ("Profile 2", 1));
    assert_eq!(saved(&out[0]).profiles.len(), 1);
    assert_eq!(kept(&out[1]).profiles.len(), 2);
    a.cfg.name = String::from("Games");
    a.holding = Some(0);
    a.sel_macro = Some(0);
    press(&mut a, key(65));
    let mut out = Vec::new();
    a.switch_profile(0, &mut out);
    assert!(matches!(out[0], Effect::Stop));
    assert_eq!(saved(&out[1]).profiles[1].name, "Games");
    assert_eq!(saved(&out[1]).active, 1);
    assert_eq!(status_of(&out[2]), "profile: Default");
    assert_eq!(kept(&out[3]).active, 0);
    assert!(a.pressed.is_empty() && a.holding.is_none() && a.sel_macro.is_none());
    let mut back = Vec::new();
    a.switch_profile(1, &mut back);
    assert_eq!(a.cfg.name, "Games");
    let mut none = Vec::new();
    a.switch_profile(1, &mut none);
    a.switch_profile(9, &mut none);
    assert!(none.is_empty());
}

#[test]
fn the_last_profile_stays() {
    let mut a = fresh();
    let mut out = Vec::new();
    a.delete_profile(&mut out);
    assert!(out.is_empty());
    a.new_profile(&mut Vec::new());
    a.delete_profile(&mut out);
    assert_eq!(kept(&out[0]).profiles.len(), 1);
    assert_eq!(status_of(&out[1]), "profile deleted");
    assert_eq!((a.cfg.name.as_str(), a.store.active), ("Default", 0));
}

#[test]
fn deleting_a_macro_keeps_assignments() {
    let mut a = fresh();
    for _ in 0..3 {
        a.new_macro(&mut Vec::new());
    }
    assert_eq!(a.cfg.macros[2].name, "Macro 3");
    assert_eq!(a.selected_macro(), Some(2));
    for (i, action) in [
        Action::Macro { index: 0 },
        Action::Macro { index: 1 },
        Action::Macro { index: 2 },
        Action::Macro { index: 9 },
        Action::RapidFire { btn: 1 },
        Action::Nothing,
    ]
    .into_iter()
    .enumerate()
    {
        a.cfg.slots.push(slot(key(i as u16 + 60), action, Cycle::UntilReleased));
    }
    a.sel_macro = Some(1);
    let mut out = Vec::new();
    a.delete_macro(&mut out);
    assert_eq!(saved(&out[0]).profiles[0].macros.len(), 2);
    let actions: Vec<Action> = a.cfg.slots.iter().map(|s| s.action).collect();
    assert_eq!(
        actions,
        vec![
            Action::Macro { index: 0 },
            Action::Nothing,
            Action::Macro { index: 1 },
            Action::Macro { index: 8 },
            Action::RapidFire { btn: 1 },
            Action::Nothing,
        ]
    );
    assert_eq!(a.cfg.macros[1].name, "Macro 3");
    assert_eq!(a.sel_macro, None);
    let mut none = Vec::new();
    a.delete_macro(&mut none);
    a.sel_macro = Some(5);
    a.delete_macro(&mut none);
    assert!(none.is_empty());
    assert_eq!(a.selected_macro(), None);
}

#[test]
fn macros_are_edited_and_played() {
    let mut a = fresh();
    a.new_macro(&mut Vec::new());
    a.cfg.macros[0].steps = vec![Step::Wheel { delta: 1 }, Step::Wheel { delta: 2 }];
    let mut out = Vec::new();
    a.delete_step(0, 0, &mut out);
    assert_eq!(a.shown_steps(0), vec![Step::Wheel { delta: 2 }]);
    assert_eq!(saved(&out[0]).profiles[0].macros[0].steps.len(), 1);
    let mut out = Vec::new();
    a.play_once(0, &mut out);
    let job = job_of(out);
    assert_eq!((job.mode, job.limit, job.btn), (Mode::Sequence, Some(1), Btn::Left));
    assert_eq!(job.steps, vec![Step::Wheel { delta: 2 }]);
    assert_eq!(macro_job(&a.cfg.macros[0]).limit, None);
    let mut out = Vec::new();
    a.start_recording(0, &mut out);
    assert_eq!(status_of(&out[0]), "recording…");
    assert!(a.shown_steps(0).is_empty());
}

#[test]
fn slots_are_edited() {
    let mut a = armed(Action::Nothing, Cycle::UntilReleased);
    let mut out = Vec::new();
    a.set_action(0, Action::RapidFire { btn: 5 }, &mut out);
    assert_eq!(saved(&out[0]).profiles[0].slots[0].action, Action::RapidFire { btn: 5 });
    a.pick_cycle(0, Cycle::Times(0), &mut out);
    assert_eq!(a.cfg.slots[0].cycle, Cycle::Times(50));
    a.set_cycle(0, Cycle::Times(3), &mut out);
    assert_eq!(a.cfg.slots[0].cycle, Cycle::Times(3));
    a.pick_cycle(0, Cycle::UntilClickedAgain, &mut out);
    assert_eq!(a.cfg.slots[0].cycle, Cycle::UntilClickedAgain);
    assert_eq!(out.len(), 4);
    a.sel_slot = Some(0);
    let mut out = Vec::new();
    a.remove_slot(0, &mut out);
    assert!(a.cfg.slots.is_empty() && a.sel_slot.is_none());
    assert!(saved(&out[0]).profiles[0].slots.is_empty());
}

#[test]
fn closing_hides_where_a_tray_icon_is() {
    let mut a = armed(Action::Nothing, Cycle::UntilReleased);
    a.holding = Some(0);
    let out = a.handle_tray(false, false, false, true, true);
    assert!(matches!(out[..], [Effect::CancelClose, Effect::Hide, Effect::Save(_)]));
    assert!(a.hidden);
    assert_eq!(a.holding, Some(0));
    let out = a.handle_tray(false, false, true, false, true);
    assert!(matches!(out[..], [Effect::Show, Effect::Focus]));
    assert!(!a.hidden);
    let out = a.handle_tray(false, false, false, true, false);
    assert!(matches!(out[..], [Effect::Save(_)]));
    assert!(!a.hidden);
}

#[test]
fn the_tray_stops_and_quits() {
    let mut a = fresh();
    a.toggled.insert(0, true);
    let out = a.handle_tray(false, true, false, false, true);
    assert!(matches!(out[0], Effect::Stop));
    assert_eq!(status_of(&out[1]), "stopped from tray");
    assert!(a.toggled.is_empty());
    let out = a.handle_tray(true, true, true, true, true);
    assert!(matches!(out[..], [Effect::Stop, Effect::Save(_), Effect::Close]));
    assert!(a.handle_tray(false, false, false, false, true).is_empty());
}

#[test]
fn click_jobs_use_the_rates_of_the_profile() {
    let mut a = fresh();
    a.cfg.jitter_pct.bits = TWENTY;
    let j = a.click_job(Btn::Middle);
    assert_eq!((j.btn, j.cps.bits, j.hold_ms.bits), (Btn::Middle, TWENTY, ONE));
    assert_eq!(j.jitter_pct.bits, TWENTY);
    let mut out = Vec::new();
    a.save(&mut out);
    assert_eq!(saved(&out[0]).profiles[0].jitter_pct.bits, TWENTY);
    a.stop(&mut out);
    assert!(matches!(out[1], Effect::Stop));
}

#[test]
fn batches_do_not_matter() {
    let events = vec![
        event(button(4), true, 1),
        event(button(4), true, 2),
        event(key(65), true, 3),
        event(button(4), false, 4),
        event(button(4), true, 5),
        event(key(0x1B), true, 6),
    ];
    let mut one = armed(Action::RapidFire { btn: 1 }, Cycle::UntilClickedAgain);
    let all: Vec<String> = feed(&mut one, events.clone()).iter().map(|e| format!("{e:?}")).collect();
    let mut two = armed(Action::RapidFire { btn: 1 }, Cycle::UntilClickedAgain);
    let mut parts: Vec<String> = Vec::new();
    for e in events {
        parts.extend(feed(&mut two, vec![e]).iter().map(|e| format!("{e:?}")));
    }
    assert_eq!(all, parts);
    assert_eq!(one.pressed, two.pressed);
    assert_eq!(all.len(), 4);
}

#[test]
fn toggles_go_by_parity() {
    let mut a = armed(Action::RapidFire { btn: 1 }, Cycle::UntilClickedAgain);
    let downs = [true, true, false, false, true, false, true, true, true, false, true];
    let (mut presses, mut before) = (0, false);
    for (i, down) in downs.into_iter().enumerate() {
        let out = feed(&mut a, vec![event(button(4), down, i as i64)]);
        if down && !before {
            presses += 1;
            if presses % 2 == 1 {
                assert!(matches!(&out[..], [Effect::Run(j, _)] if j.limit.is_none()));
            } else {
                assert!(matches!(out[..], [Effect::Stop]));
            }
        } else {
            assert!(out.is_empty());
        }
        before = down;
        assert_eq!(a.toggled.get(&0).copied().unwrap_or(false), presses % 2 == 1);
    }
    assert_eq!(presses, 4);
}
