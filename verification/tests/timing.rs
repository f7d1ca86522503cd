use hidforge::clock::{
    due_time, pin_mask, preferred_core, ticks_in, ticks_to_ns, unpin_mask, Pause, Rng, Sign,
    TimerPeriod, Wait, Waiter, Waiting,
};

const QPF: i64 = 10_000_000;

#[test]
fn ticks_become_nanoseconds() {
    assert_eq!(ticks_to_ns(1, QPF), 100);
    assert_eq!(ticks_to_ns(QPF, QPF), 1_000_000_000);
    assert_eq!(ticks_to_ns(0, QPF), 0);
    assert_eq!(ticks_to_ns(-15, QPF), -1500);
    assert_eq!(ticks_to_ns(7, 3), 2_333_333_333);
    assert_eq!(ticks_to_ns(-7, 3), -2_333_333_333);
}

#[test]
fn ticks_agree_with_the_float_formula() {
    for qpf in [1, 999, 3_579_545, 10_000_000, 24_000_000, 2_893_411_000] {
        for (us, ms) in [(50i64, 0.05f64), (300, 0.30), (500, 0.5), (3000, 3.0), (8000, 8.0)] {
            assert_eq!(ticks_in(us, qpf), (ms * qpf as f64 / 1000.0) as i64);
        }
    }
}

#[test]
fn timer_takes_negative_units() {
    assert_eq!(due_time(5_000, QPF), Some(-5_000));
    assert_eq!(due_time(3_579_545, 3_579_545), Some(-10_000_000));
    assert_eq!(due_time(0, QPF), None);
    assert_eq!(due_time(-1, QPF), None);
    // Less than one unit of the timer.
    assert_eq!(due_time(1, 1_000_000_000), None);
}

#[test]
fn waiter_starts_with_its_defaults() {
    let w = Waiter::new(QPF);
    assert_eq!(w.margin, 3_000);
    assert_eq!(w.min_margin, 500);
    assert_eq!(w.max_margin, 30_000);
    assert_eq!((w.overshoot, w.spun, w.slept), (0, 0, 0));
}

#[test]
fn margin_is_capped_at_half_the_period() {
    let mut w = Waiter::new(QPF);
    w.learn(100_000);
    assert_eq!(w.margin, 30_000);
    w.set_period(10_000);
    assert_eq!((w.max_margin, w.margin), (5_000, 5_000));
    w.learn(100_000);
    assert_eq!(w.margin, 5_000);
    // The smallest margin gives way to a short period.
    w.set_period(500);
    assert_eq!((w.max_margin, w.margin), (250, 250));
    w.learn(100_000);
    assert_eq!(w.margin, 250);
    w.set_period(1);
    assert_eq!((w.max_margin, w.margin), (0, 0));
    w.set_period(10_000_000);
    assert_eq!((w.max_margin, w.margin), (30_000, 500));
    w.set_period(-10);
    assert_eq!((w.max_margin, w.margin), (0, 0));
    let mut fresh = Waiter::new(QPF);
    fresh.set_period(500);
    assert_eq!(fresh.margin, 250);
}

#[test]
fn waiting_sleeps_then_spins() {
    let w = Waiter::new(QPF);
    assert_eq!(w.wait_until(100, 100), Wait::Done);
    assert_eq!(w.wait_until(100, 101), Wait::Done);
    assert_eq!(w.wait_until(101, 100), Wait::Spin);
    // A margin of 3000 and a useful sleep of 5000.
    assert_eq!(w.wait_until(8_000, 0), Wait::Sleep(5_000));
    assert_eq!(w.wait_until(7_999, 0), Wait::Spin);
    assert_eq!(w.wait_until(1_000_000, 0), Wait::Sleep(997_000));
}

#[test]
fn a_millisecond_period_still_sleeps() {
    let mut w = Waiter::new(QPF);
    w.set_period(10_000);
    w.learn(90_000);
    // However late the timer was, half of the period is left to it.
    assert_eq!(w.wait_until(10_000, 0), Wait::Sleep(5_000));
}

#[test]
fn margin_widens_and_decays() {
    let mut w = Waiter::new(QPF);
    w.learn(4_000);
    assert_eq!((w.overshoot, w.margin), (4_000, 5_500));
    w.learn(0);
    assert_eq!((w.overshoot, w.margin), (3_875, 3_875 + 968 + 500));
    for _ in 0..500 {
        w.learn(-10);
    }
    assert!(w.overshoot <= 31);
    assert!(w.margin < 600);
}

#[test]
fn waking_counts_the_sleep_and_learns() {
    let mut w = Waiter::new(QPF);
    w.woke(1_000, 8_000, 5_000);
    assert_eq!((w.slept, w.overshoot, w.margin), (7_000, 2_000, 3_000));
    w.spun_until(8_000, 9_000);
    assert_eq!(w.spun, 1_000);
    assert_eq!(w.spin_share(), Some((1_000, 8_000)));
    w.reset_cost();
    assert_eq!(w.spin_share(), None);
}

#[test]
fn cores_and_masks() {
    assert_eq!(preferred_core(8), 7);
    assert_eq!(preferred_core(1), 0);
    assert_eq!(preferred_core(0), 0);
    assert_eq!(pin_mask(0), 1);
    assert_eq!(pin_mask(7), 128);
    assert_eq!(unpin_mask(8), 255);
    assert_eq!(unpin_mask(0), 0);
    assert_eq!(unpin_mask(usize::BITS as usize), usize::MAX);
    assert_eq!(unpin_mask(1000), usize::MAX);
    for core in 0..8 {
        assert_eq!(pin_mask(core) & unpin_mask(8), pin_mask(core));
    }
}

#[test]
fn timer_period_is_held_only_when_granted() {
    assert!(TimerPeriod::acquire(0).0);
    assert!(!TimerPeriod::acquire(97).0);
}

#[test]
fn generator_gives_known_numbers() {
    let mut r = Rng::new(0);
    assert_eq!(r.0, 1);
    assert_eq!(r.next_u64(), 0x47E4_CE4B_896C_DD1D);
    assert_eq!(r.0, 0x0200_0001);
    let mut a = Rng::new(42);
    let mut b = Rng::new(43);
    assert_eq!(a.0, 43);
    assert_eq!(a.next_u64(), b.next_u64());
}

#[test]
fn generator_fractions_stay_below_one() {
    let mut r = Rng::new(-1);
    let mut twin = Rng::new(-1);
    for _ in 0..1000 {
        let f = r.next_fraction();
        assert!(f < 1 << 53);
        assert_eq!(f, twin.next_u64() >> 11);
        let bipolar = f as f64 / (1u64 << 53) as f64 * 2.0 - 1.0;
        assert!((-1.0..=1.0).contains(&bipolar));
        assert_ne!(r.0, 0);
    }
}

#[test]
fn a_wait_sleeps_looks_again_and_spins() {
    let mut w = Waiter::new(QPF);
    let mut wait = Waiting::start(20_000);
    assert_eq!(wait.next(&mut w, Sign::Time(0)), Pause::Sleep(17_000));
    assert_eq!(wait.next(&mut w, Sign::Slept(true)), Pause::Look);
    // The timer was 400 ticks late.
    assert_eq!(wait.next(&mut w, Sign::Time(17_400)), Pause::Look);
    assert_eq!((w.slept, w.overshoot, w.margin), (17_400, 400, 1_000));
    assert_eq!(wait.next(&mut w, Sign::Time(17_410)), Pause::Look);
    assert_eq!(wait.next(&mut w, Sign::Time(17_420)), Pause::Spin(20_000));
    assert_eq!(wait.next(&mut w, Sign::Spun), Pause::Look);
    assert_eq!(wait.next(&mut w, Sign::Time(20_003)), Pause::Over);
    assert_eq!(w.spun, 2_583);
}

#[test]
fn a_wait_that_is_late_is_over_at_once() {
    let mut w = Waiter::new(QPF);
    let mut wait = Waiting::start(100);
    assert_eq!(wait.next(&mut w, Sign::Time(100)), Pause::Over);
    assert_eq!((w.slept, w.spun), (0, 0));
}

#[test]
fn a_failed_timer_is_spun_for() {
    let mut w = Waiter::new(QPF);
    let mut wait = Waiting::start(50_000);
    assert_eq!(wait.next(&mut w, Sign::Time(0)), Pause::Sleep(47_000));
    assert_eq!(wait.next(&mut w, Sign::Slept(false)), Pause::Look);
    assert_eq!(wait.next(&mut w, Sign::Time(10)), Pause::Spin(50_000));
    assert_eq!((w.slept, w.overshoot), (0, 0));
}

#[test]
fn a_wait_notices_times_that_do_not_fit() {
    let w = Waiter::new(QPF);
    assert!(!Waiting::start(i64::MAX).fits(&w, Sign::Time(-1)));
    assert!(Waiting::start(i64::MAX).fits(&w, Sign::Time(0)));
}

#[test]
fn generator_merges_nothing() {
    let mut seen: Vec<(u64, u64)> = Vec::new();
    for seed in 1..500u64 {
        let mut r = Rng(seed);
        let out = r.next_u64();
        assert!(r.0 != 0 && out != 0);
        assert!(seen.iter().all(|(s, o)| *s != r.0 && *o != out));
        seen.push((r.0, out));
    }
}
