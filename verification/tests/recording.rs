use hidforge::inject::{
    key_scan, key_vk, mouse, move_rel, nop, wheel, Btn, Input, KeyInput, MouseInput, TAG,
};
use hidforge::macros::{
    btn_of, default_cps, default_cycle, default_hold, default_name, Action, Cycle, Macro, Profile,
    Real, Recorder, Span, Step, Store, ONE, TWENTY, ZERO,
};
use hidforge::signal::Signal;

const QPF: i64 = 10_000_000;

fn left() -> Signal {
    Signal::MouseButton { device: 1, index: 1 }
}

fn delay(ticks: i64) -> Step {
    Step::Delay { span: Span::Ticks { ticks, qpf: QPF } }
}

#[test]
fn records_carry_the_tag() {
    assert_eq!(TAG, 0x4849_4446);
    let want = |flags: u32, data: u32| {
        Input::Mouse(MouseInput { dx: 0, dy: 0, data, flags, tag: TAG })
    };
    assert_eq!(mouse(Btn::Left, true), want(0x0002, 0));
    assert_eq!(mouse(Btn::Left, false), want(0x0004, 0));
    assert_eq!(mouse(Btn::Right, true), want(0x0008, 0));
    assert_eq!(mouse(Btn::Right, false), want(0x0010, 0));
    assert_eq!(mouse(Btn::Middle, true), want(0x0020, 0));
    assert_eq!(mouse(Btn::Middle, false), want(0x0040, 0));
    assert_eq!(mouse(Btn::X1, true), want(0x0080, 1));
    assert_eq!(mouse(Btn::X1, false), want(0x0100, 1));
    assert_eq!(mouse(Btn::X2, true), want(0x0080, 2));
    assert_eq!(mouse(Btn::X2, false), want(0x0100, 2));
    assert_eq!(wheel(120), want(0x0800, 120));
    assert_eq!(wheel(-120), want(0x0800, 0xFFFF_FF88));
    assert_eq!(nop(), want(0x0001, 0));
    assert_eq!(
        move_rel(37, -23),
        Input::Mouse(MouseInput { dx: 37, dy: -23, data: 0, flags: 0x0001, tag: TAG })
    );
}

#[test]
fn keys_are_sent_by_scancode_or_virtual_key() {
    let want = |vk: u16, scan: u16, flags: u32| Input::Key(KeyInput { vk, scan, flags, tag: TAG });
    assert_eq!(key_scan(0x23, true), want(0, 0x23, 0x0008));
    assert_eq!(key_scan(0x23, false), want(0, 0x23, 0x000A));
    assert_eq!(key_vk(0x1B, true), want(0x1B, 0, 0));
    assert_eq!(key_vk(0x1B, false), want(0x1B, 0, 2));
}

#[test]
fn buttons_are_numbered_from_one() {
    let all = [Btn::Left, Btn::Right, Btn::Middle, Btn::X1, Btn::X2];
    for (i, b) in all.iter().enumerate() {
        assert_eq!(btn_of(i as u8 + 1), *b);
    }
    assert_eq!(btn_of(0), Btn::X2);
    assert_eq!(btn_of(200), Btn::X2);
    let names: Vec<&str> = all.iter().map(|b| b.name()).collect();
    assert_eq!(names, vec!["Left", "Right", "Middle", "X1 (back)", "X2 (fwd)"]);
}

#[test]
fn steps_say_what_they_are() {
    assert_eq!(Step::Button { btn: 4, down: true }.label(""), "X1 (back) down");
    assert_eq!(Step::Button { btn: 1, down: false }.label(""), "Left up");
    assert_eq!(Step::Key { vk: 0x48, scan: 0x23, down: true }.label(""), "key down sc0x23 vk0x48");
    assert_eq!(Step::Key { vk: 1, scan: 0xE01D, down: false }.label(""), "key up   sc0xe01d vk0x01");
    assert_eq!(Step::Wheel { delta: 120 }.label(""), "wheel +120");
    assert_eq!(Step::Wheel { delta: -120 }.label(""), "wheel -120");
    assert_eq!(Step::Move { dx: 0, dy: -3 }.label(""), "move +0,-3");
    assert_eq!(delay(1).label("12.5"), "delay 12.5 ms");
}

#[test]
fn cycles_and_actions_say_what_they_are() {
    assert_eq!(Cycle::UntilReleased.label(), "Cycle until the key is released");
    assert_eq!(Cycle::UntilClickedAgain.label(), "Cycle until the key is clicked again");
    assert_eq!(Cycle::Times(3).label(), "Specified cycle times");
    let macros = vec![Macro::new(String::from("Combo"))];
    assert_eq!(Action::Nothing.label(&macros), "— not assigned —");
    assert_eq!(Action::RapidFire { btn: 2 }.label(&macros), "Rapid fire: Right");
    assert_eq!(Action::Macro { index: 0 }.label(&macros), "Macro: Combo");
    assert_eq!(Action::Macro { index: 1 }.label(&macros), "Macro: <missing>");
}

#[test]
fn constants_are_the_bits_of_doubles() {
    assert_eq!(f64::from_bits(ZERO), 0.0);
    assert_eq!(f64::from_bits(ONE), 1.0);
    assert_eq!(f64::from_bits(TWENTY), 20.0);
}

#[test]
fn recording_waits_for_a_press() {
    let mut r = Recorder::new();
    assert!(!r.feed(&left(), false, 100, QPF));
    assert!(r.steps.is_empty());
    assert!(r.feed(&left(), true, 200, QPF));
    assert!(r.feed(&left(), false, 300, QPF));
    assert_eq!(
        r.steps,
        vec![Step::Button { btn: 1, down: true }, Step::Button { btn: 1, down: false }]
    );
}

#[test]
fn recording_keeps_gaps_of_a_millisecond() {
    let mut r = Recorder::new();
    assert!(r.feed(&left(), true, 0, QPF));
    assert!(r.feed(&left(), false, 10_000, QPF));
    assert!(r.feed(&left(), true, 19_999, QPF));
    assert!(r.feed(&left(), false, 200_000, QPF));
    assert_eq!(
        r.steps,
        vec![
            Step::Button { btn: 1, down: true },
            delay(10_000),
            Step::Button { btn: 1, down: false },
            Step::Button { btn: 1, down: true },
            delay(180_001),
            Step::Button { btn: 1, down: false },
        ]
    );
    assert_eq!(r.last, Some(200_000));
}

#[test]
fn recording_takes_what_can_be_played() {
    let mut r = Recorder::new();
    let key = Signal::Key { device: 1, scancode: 0x23, vk: 0x48 };
    assert!(r.feed(&key, true, 0, QPF));
    let up = Signal::Wheel { device: 1, up: true };
    let down = Signal::Wheel { device: 1, up: false };
    assert!(r.feed(&up, true, 1, QPF));
    assert!(!r.feed(&up, false, 1, QPF));
    assert!(r.feed(&down, true, 2, QPF));
    let extra = Signal::MouseButton { device: 1, index: 6 };
    assert!(!r.feed(&extra, true, 3, QPF));
    let vendor = Signal::HidBit { device: 1, page: 1, usage: 1, byte: 0, bit: 0 };
    assert!(!r.feed(&vendor, true, 4, QPF));
    assert_eq!(
        r.steps,
        vec![
            Step::Key { vk: 0x48, scan: 0x23, down: true },
            Step::Wheel { delta: 120 },
            Step::Wheel { delta: -120 },
        ]
    );
    // What was not recorded does not move the clock on.
    assert_eq!(r.last, Some(2));
}

#[test]
fn an_unplayable_press_records_nothing() {
    let mut r = Recorder::new();
    let vendor = Signal::HidBit { device: 1, page: 1, usage: 1, byte: 0, bit: 0 };
    assert!(!r.feed(&vendor, true, 0, QPF));
    assert!(!r.feed(&left(), false, 1, QPF));
    assert!(r.steps.is_empty() && !r.armed);
    assert!(r.feed(&left(), true, 2, QPF));
    assert!(!r.feed(&vendor, false, 30_000, QPF));
    assert!(r.feed(&left(), false, 40_000, QPF));
    // The gap counts from the last recorded step, not from what came in between.
    assert_eq!(
        r.steps,
        vec![
            Step::Button { btn: 1, down: true },
            delay(39_998),
            Step::Button { btn: 1, down: false },
        ]
    );
}

#[test]
fn the_delay_test_is_that_of_the_float_formula() {
    for qpf in [3i64, 1000, 3_579_545, 10_000_000, 2_893_411_000] {
        for gap in [0, 1, qpf / 1000 - 1, qpf / 1000, qpf / 1000 + 1, qpf] {
            let mut r = Recorder::new();
            r.feed(&left(), true, 50, qpf);
            r.feed(&left(), false, 50 + gap, qpf);
            let float = gap as f64 * 1000.0 / qpf as f64 >= 1.0;
            assert_eq!(r.steps.len(), if float { 3 } else { 2 });
        }
    }
}

#[test]
fn fresh_profiles_and_macros() {
    let m = Macro::new(String::from("Macro 1"));
    assert_eq!((m.name.as_str(), m.cycle, m.speed), ("Macro 1", Cycle::Times(1), Real { bits: ONE }));
    assert!(m.steps.is_empty());
    let p = Profile::default();
    assert_eq!(p.name, "Default");
    assert_eq!(default_name(), "Default");
    assert_eq!(f64::from_bits(p.cps.bits), 20.0);
    assert_eq!(f64::from_bits(p.hold_ms.bits), 1.0);
    assert_eq!(f64::from_bits(p.jitter_pct.bits), 0.0);
    assert_eq!((default_cps(), default_hold()), (p.cps, p.hold_ms));
    assert_eq!(default_cycle(), Cycle::UntilReleased);
    assert_eq!(Profile::named(String::from("Work")).name, "Work");
}

#[test]
fn loading_mends_what_a_file_lacks() {
    let fresh = Store::load(None, None);
    assert_eq!((fresh.profiles.len(), fresh.active), (1, 0));
    assert_eq!(fresh.profiles[0].name, "Default");
    let empty = Store::load(Some(Store { profiles: Vec::new(), active: 4 }), None);
    assert_eq!((empty.profiles.len(), empty.active), (1, 0));
    let two = || vec![Profile::named(String::from("a")), Profile::named(String::from("b"))];
    let far = Store::load(Some(Store { profiles: two(), active: 9 }), None);
    assert_eq!((far.profiles.len(), far.active), (2, 1));
    let fine = Store::load(Some(Store { profiles: two(), active: 0 }), None);
    assert_eq!((fine.profiles.len(), fine.active), (2, 0));
    let old = Store::load(None, Some(Profile::named(String::from("old"))));
    assert_eq!((old.profiles[0].name.as_str(), old.active), ("old", 0));
    // The layout with profiles comes first.
    let both = Store::load(
        Some(Store { profiles: two(), active: 1 }),
        Some(Profile::named(String::from("old"))),
    );
    assert_eq!(both.profiles[1].name, "b");
}

#[test]
fn copies_hold_the_same() {
    let mut m = Macro::new(String::from("m"));
    m.steps = vec![delay(5), Step::Wheel { delta: 1 }];
    m.speed = Real { bits: TWENTY };
    let c = m.clone();
    assert_eq!((c.name, c.steps, c.cycle, c.speed), (m.name, m.steps, m.cycle, m.speed));
}

#[test]
fn no_two_button_records_are_alike() {
    let mut seen: Vec<Input> = vec![nop(), move_rel(0, 0)];
    assert_eq!(seen[0], seen[1]);
    for btn in [Btn::Left, Btn::Right, Btn::Middle, Btn::X1, Btn::X2] {
        for down in [true, false] {
            let record = mouse(btn, down);
            assert!(!seen.contains(&record));
            seen.push(record);
        }
    }
}

#[test]
fn an_unhurried_recording_is_exact() {
    let mut r = Recorder::new();
    let times = [5_000i64, 15_000, 40_123, 900_000, 910_000];
    for (i, t) in times.iter().enumerate() {
        assert!(r.feed(&left(), i % 2 == 0, *t, QPF));
    }
    let total: i64 = r
        .steps
        .iter()
        .map(|s| match s {
            Step::Delay { span: Span::Ticks { ticks, .. } } => *ticks,
            _ => 0,
        })
        .sum();
    assert_eq!(total, 905_000);
    assert_eq!(r.steps.len(), 9);
}
