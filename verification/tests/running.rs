use hidforge::cps::{best_second, min_gap};
use hidforge::engine::{
    engage, interrupted, lower, restore, Cmd, Heard, Job, Mode, News, Next, Opts, Order, Post, Privilege,
    Tel, Worker, NB,
};
use hidforge::inject::{key_scan, key_vk, mouse, move_rel, nop, wheel, Btn};
use hidforge::macros::{Real, Span, Step, ONE, TWENTY, ZERO};
use hidforge::run::{play, sequence_period, Do, Ev, Run};

fn job() -> Job {
    Job::click(Btn::X1, Real { bits: TWENTY }, Real { bits: ONE })
}

fn pause() -> Step {
    Step::Delay { span: Span::Millis(Real { bits: ONE }) }
}

#[test]
fn click_jobs_have_no_end_and_no_jitter() {
    let j = job();
    assert_eq!((j.mode, j.btn, j.limit), (Mode::AutoClick, Btn::X1, None));
    assert_eq!((j.cps.bits, j.hold_ms.bits), (TWENTY, ONE));
    assert_eq!((j.jitter_pct.bits, j.speed.bits), (ZERO, ONE));
    assert!(j.steps.is_empty());
    let o = Opts::default();
    assert!(o.time_critical && o.pin_core && !o.raise_timer_period);
}

#[test]
fn commands_end_a_job() {
    assert!(interrupted(Heard::Nothing).is_none());
    assert!(matches!(interrupted(Heard::Told(Cmd::Stop)), Some(Next::Idle)));
    assert!(matches!(interrupted(Heard::Told(Cmd::Quit)), Some(Next::Quit)));
    assert!(matches!(interrupted(Heard::Gone), Some(Next::Quit)));
    match interrupted(Heard::Told(Cmd::Start(job(), Opts::default()))) {
        Some(Next::Run(j, _)) => assert_eq!(j.btn, Btn::X1),
        _ => panic!("the job was dropped"),
    }
}

fn told(w: &mut Worker, news: News) -> Vec<String> {
    assert!(w.fits(&news));
    w.next(news).iter().map(|o| shown(o)).collect()
}

fn shown(o: &Order) -> String {
    match o {
        Order::Work(j) => format!("Work({:?})", j.btn),
        other => format!("{other:?}"),
    }
}

#[test]
fn two_jobs_and_a_quit() {
    let mut w = Worker::new(8);
    let plain = Opts { time_critical: true, pin_core: false, raise_timer_period: false };
    let second = Job::click(Btn::Right, Real { bits: ONE }, Real { bits: ZERO });
    let begin = told(&mut w, News::Told(Some(Cmd::Start(job(), Opts::default()))));
    assert_eq!(
        begin,
        vec![
            "Apply(Affinity(128))",
            "Apply(TimeCritical(true))",
            "Running(true)",
            "ForgetCost",
            "Work(X1)",
        ]
    );
    // Another job is to start while the first one runs.
    let next = interrupted(Heard::Told(Cmd::Start(second, plain))).unwrap();
    assert_eq!(
        told(&mut w, News::Ended(next)),
        vec![
            "Running(false)",
            "Apply(TimeCritical(false))",
            "Apply(Affinity(255))",
            "Clear",
            "Apply(TimeCritical(true))",
            "Running(true)",
            "ForgetCost",
            "Work(Right)",
        ]
    );
    let next = interrupted(Heard::Told(Cmd::Quit)).unwrap();
    assert_eq!(
        told(&mut w, News::Ended(next)),
        vec!["Running(false)", "Apply(TimeCritical(false))", "Exit"]
    );
    assert_eq!(w.post, Post::Gone);
}

#[test]
fn an_idle_engine_listens() {
    let mut w = Worker::new(4);
    assert_eq!(told(&mut w, News::Told(Some(Cmd::Stop))), vec!["Listen"]);
    let mut quits = Worker::new(4);
    assert_eq!(told(&mut quits, News::Told(Some(Cmd::Quit))), vec!["Exit"]);
    let mut alone = Worker::new(4);
    assert_eq!(told(&mut alone, News::Told(None)), vec!["Exit"]);
    told(&mut w, News::Told(Some(Cmd::Start(job(), Opts::default()))));
    let after = told(&mut w, News::Ended(Next::Idle));
    assert_eq!(after.last().unwrap(), "Listen");
    assert_eq!(w.post, Post::Idle);
}

#[test]
fn a_core_beyond_the_mask_is_noticed() {
    let w = Worker::new(1000);
    let free = Opts { time_critical: true, pin_core: false, raise_timer_period: false };
    assert!(!w.fits(&News::Told(Some(Cmd::Start(job(), Opts::default())))));
    assert!(w.fits(&News::Told(Some(Cmd::Start(job(), free)))));
    assert!(w.fits(&News::Told(Some(Cmd::Stop))));
}

#[test]
fn privileges_are_taken_and_given_back() {
    let o = Opts { time_critical: true, pin_core: true, raise_timer_period: true };
    assert_eq!(
        engage(&o, 8),
        vec![
            Privilege::RaiseTimer,
            Privilege::Affinity(128),
            Privilege::TimeCritical(true),
        ]
    );
    assert_eq!(lower(&o, 8), vec![Privilege::TimeCritical(false), Privilege::Affinity(255)]);
    assert_eq!(restore(&o), vec![Privilege::RestoreTimer]);
    let none = Opts { time_critical: false, pin_core: false, raise_timer_period: false };
    assert_eq!(engage(&none, 8), vec![Privilege::TimeCritical(false)]);
    assert_eq!(lower(&none, 8), vec![Privilege::TimeCritical(false)]);
    assert!(restore(&none).is_empty());
}

#[test]
fn telemetry_counts_periods() {
    let mut t = Tel::new();
    assert_eq!(t.snapshot().min_ns, 0);
    assert_eq!(t.min_ns, u64::MAX);
    t.record(0, 3);
    t.record(-5, 3);
    assert_eq!((t.count, t.hist[3]), (0, 0));
    t.record(1_000, 3);
    t.record(3_000, 4);
    t.record(2_000, 4);
    t.events = 3;
    let s = t.snapshot();
    assert_eq!((s.total, s.count, s.sum_ns), (3, 3, 6_000));
    assert_eq!((s.min_ns, s.max_ns, s.events), (1_000, 3_000, 3));
    assert_eq!((s.hist[3], s.hist[4], s.hist.len()), (1, 2, NB));
    assert_eq!(s.peak(), 2);
    t.running = true;
    t.spin_pct = 4_200;
    t.margin_us = 300;
    t.reset(77);
    assert_eq!((t.events, t.count, t.sum_ns, t.max_ns), (0, 0, 0, 0));
    assert_eq!((t.min_ns, t.started, t.hist[4]), (u64::MAX, 77, 0));
    // What the waiter cost, and whether a job runs, is not a measurement of the run.
    assert_eq!((t.running, t.spin_pct, t.margin_us), (true, 4_200, 300));
    assert_eq!(t.snapshot().peak(), 1);
}

#[test]
fn percentiles_come_off_the_histogram() {
    let mut t = Tel::new();
    assert_eq!(t.snapshot().percentile(0), None);
    for (bucket, n) in [(10usize, 50), (20, 45), (30, 4), (NB - 1, 1)] {
        for _ in 0..n {
            t.record(1, bucket);
        }
    }
    let s = t.snapshot();
    assert_eq!(s.total, 100);
    // One sample at least has to be reached.
    assert_eq!(s.percentile(0), Some(10));
    assert_eq!(s.percentile(1), Some(10));
    assert_eq!(s.percentile(50), Some(10));
    assert_eq!(s.percentile(51), Some(20));
    assert_eq!(s.percentile(95), Some(20));
    assert_eq!(s.percentile(99), Some(30));
    assert_eq!(s.percentile(100), Some(NB - 1));
    assert_eq!(s.percentile(1_000), Some(NB - 1));
}

/// Answers what a job asks for, without interruptions: the counter reads `now`, and what is asked
/// is written down.
fn quiet(run: &mut Run, ask: Do, now: i64) -> Do {
    let ev = match ask {
        Do::Listen => Ev::Heard(Heard::Nothing),
        Do::Clock => Ev::Time(now),
        Do::Jitter => panic!("the period does not jitter"),
        Do::End(_) => panic!("the job is over"),
        _ => Ev::Done,
    };
    assert!(run.fits(&ev));
    run.next(ev)
}

fn clicking(j: &Job, period: i64, hold: i64, now: i64) -> Run {
    Run::start(j, period, hold, false, Vec::new(), now, now).unwrap()
}

fn deadline_of(run: &Run) -> i64 {
    match run {
        Run::Clicks(c) => c.deadline,
        Run::Playback(_) => panic!("not a click loop"),
    }
}

#[test]
fn clicking_presses_holds_and_lets_go() {
    let mut j = job();
    j.limit = Some(2);
    let mut run = Run::start(&j, 100, 7, false, Vec::new(), 1_000, 1_001).unwrap();
    let ask = quiet(&mut run, Do::Listen, 0);
    assert!(matches!(ask, Do::Wait(1_100)));
    let ask = quiet(&mut run, ask, 0);
    assert!(matches!(&ask, Do::Send(i) if *i == mouse(Btn::X1, true)));
    let ask = quiet(&mut run, ask, 0);
    assert!(matches!(ask, Do::Clock));
    let ask = quiet(&mut run, ask, 1_105);
    assert!(matches!(ask, Do::Wait(1_112)));
    let ask = quiet(&mut run, ask, 0);
    assert!(matches!(&ask, Do::Send(i) if *i == mouse(Btn::X1, false)));
    let ask = quiet(&mut run, ask, 0);
    let ask = quiet(&mut run, ask, 1_112);
    assert!(matches!(ask, Do::Measure { ticks: 111, events: 1 }));
    let ask = quiet(&mut run, ask, 0);
    assert!(matches!(ask, Do::Listen));
    assert_eq!(deadline_of(&run), 1_200);
    let mut ask = ask;
    while !matches!(ask, Do::Measure { .. }) {
        ask = quiet(&mut run, ask, 1_205);
    }
    assert!(matches!(ask, Do::Measure { ticks: 93, events: 2 }));
    assert!(matches!(quiet(&mut run, ask, 0), Do::End(Next::Idle)));
}

#[test]
fn a_dry_run_sends_nothing_observable() {
    let mut j = job();
    j.mode = Mode::Benchmark;
    let mut run = clicking(&j, 0, 7, 0);
    assert_eq!(deadline_of(&run), 1);
    let ask = quiet(&mut run, Do::Listen, 0);
    let ask = quiet(&mut run, ask, 0);
    assert!(matches!(&ask, Do::Send(i) if *i == nop()));
    // Not held, but sent twice all the same.
    let ask = quiet(&mut run, ask, 0);
    assert!(matches!(&ask, Do::Send(i) if *i == nop()));
    assert!(matches!(quiet(&mut run, ask, 0), Do::Clock));
}

#[test]
fn a_job_is_stopped_between_clicks() {
    for heard in [Heard::Told(Cmd::Stop), Heard::Told(Cmd::Quit), Heard::Gone] {
        let mut run = clicking(&job(), 10, 5, 0);
        let mut ask = Do::Listen;
        let mut sent = Vec::new();
        for _ in 0..20 {
            ask = quiet(&mut run, ask, 10);
            if let Do::Send(i) = &ask {
                sent.push(*i);
            }
        }
        while !matches!(ask, Do::Listen) {
            ask = quiet(&mut run, ask, 10);
            if let Do::Send(i) = &ask {
                sent.push(*i);
            }
        }
        let quits = !matches!(heard, Heard::Told(Cmd::Stop));
        match run.next(Ev::Heard(heard)) {
            Do::End(Next::Idle) => assert!(!quits),
            Do::End(Next::Quit) => assert!(quits),
            other => panic!("{other:?}"),
        }
        // Whatever went down has come up.
        assert_eq!(sent.len() % 2, 0);
        for (i, record) in sent.iter().enumerate() {
            assert_eq!(*record, mouse(Btn::X1, i % 2 == 0));
        }
    }
}

#[test]
fn deadlines_keep_the_phase_and_never_burst() {
    let mut run = clicking(&job(), 100, 0, 0);
    let mut turn = |now: i64| {
        let mut ask = quiet(&mut run, Do::Listen, now);
        while !matches!(ask, Do::Listen) {
            ask = quiet(&mut run, ask, now);
        }
        deadline_of(&run)
    };
    // Late, but not by a whole period.
    assert_eq!(turn(130), 200);
    assert_eq!(turn(299), 300);
    assert_eq!(turn(300), 400);
    // A long delay: the next deadline is a period away, nothing is made up for.
    assert_eq!(turn(10_000), 10_100);
    assert_eq!(turn(10_100), 10_200);
}

#[test]
fn periods_can_jitter() {
    let mut run = Run::start(&job(), 100, 0, true, Vec::new(), 0, 0).unwrap();
    let mut turn = |period: i64, now: i64| {
        let mut ask = Do::Listen;
        loop {
            ask = match ask {
                Do::Jitter => run.next(Ev::Period(period)),
                other => quiet(&mut run, other, now),
            };
            if matches!(ask, Do::Listen) {
                return deadline_of(&run);
            }
        }
    };
    assert_eq!(turn(150, 100), 250);
    assert_eq!(turn(60, 250), 310);
    // One tick at least.
    assert_eq!(turn(-5, 310), 311);
    assert_eq!(turn(0, 1_000), 1_001);
}

#[test]
fn cost_is_published_every_64_clicks() {
    let mut run = clicking(&job(), 1, 0, 0);
    let mut ask = Do::Listen;
    let (mut clicks, mut published) = (0u64, Vec::new());
    while clicks < 200 {
        ask = quiet(&mut run, ask, clicks as i64);
        match ask {
            Do::Measure { events, .. } => clicks = events,
            Do::Publish => published.push(clicks),
            _ => {}
        }
    }
    assert_eq!(published, vec![64, 128, 192]);
}

#[test]
fn times_that_do_not_fit_are_noticed() {
    let mut run = clicking(&job(), 10, 0, 0);
    let ask = quiet(&mut run, Do::Listen, 0);
    let ask = quiet(&mut run, ask, 0);
    let ask = quiet(&mut run, ask, 0);
    assert!(matches!(quiet(&mut run, ask, 0), Do::Clock));
    assert!(run.fits(&Ev::Time(i64::MAX)));
    assert!(!clicking(&job(), 10, 0, 5).fits(&Ev::Period(i64::MAX)));
    assert!(matches!(run.next(Ev::Time(i64::MAX)), Do::Measure { .. }));
    assert!(!run.fits(&Ev::Done));
}

#[test]
fn steps_are_played() {
    assert_eq!(play(&Step::Button { btn: 3, down: true }), Some(mouse(Btn::Middle, true)));
    assert_eq!(play(&Step::Key { vk: 7, scan: 9, down: false }), Some(key_scan(9, false)));
    assert_eq!(play(&Step::Key { vk: 7, scan: 0, down: true }), Some(key_vk(7, true)));
    assert_eq!(play(&Step::Wheel { delta: -120 }), Some(wheel(-120)));
    assert_eq!(play(&Step::Move { dx: 1, dy: 2 }), Some(move_rel(1, 2)));
    assert_eq!(play(&pause()), None);
}

#[test]
fn a_sequence_waits_by_its_shortest_delay() {
    let qpf = 10_000_000;
    let none = vec![Step::Wheel { delta: 1 }];
    assert_eq!(sequence_period(&none, &vec![5], qpf), 80_000);
    let steps = vec![pause(), Step::Wheel { delta: 1 }, pause()];
    assert_eq!(sequence_period(&steps, &vec![900, 1, 400], qpf), 400);
    assert_eq!(sequence_period(&steps, &vec![900, 1, 0], qpf), 1);
}

#[test]
fn playback_keeps_one_timeline() {
    let mut j = job();
    j.mode = Mode::Sequence;
    j.limit = Some(2);
    j.steps = vec![
        Step::Button { btn: 1, down: true },
        pause(),
        Step::Button { btn: 1, down: false },
        pause(),
    ];
    let mut run = Run::start(&j, 0, 0, false, vec![0, 200, 0, 300], 1_000, 0).unwrap();
    let mut ask = Do::Listen;
    let mut pass = |now: i64| {
        let (mut sent, mut waits) = (Vec::new(), Vec::new());
        loop {
            ask = quiet(&mut run, std::mem::replace(&mut ask, Do::Listen), now);
            match &ask {
                Do::Send(i) => sent.push(*i),
                Do::Wait(t) => waits.push(*t),
                Do::Measure { ticks, events } => {
                    let measured = (*ticks, *events);
                    ask = quiet(&mut run, std::mem::replace(&mut ask, Do::Listen), now);
                    return (sent, waits, measured, matches!(ask, Do::End(Next::Idle)));
                }
                _ => {}
            }
        }
    };
    let click = vec![mouse(Btn::Left, true), mouse(Btn::Left, false)];
    assert_eq!(pass(1_510), (click.clone(), vec![1_200, 1_500], (510, 1), false));
    // The timeline had fallen behind by ten ticks.
    assert_eq!(pass(2_005), (click, vec![1_710, 2_010], (495, 2), true));
}

#[test]
fn a_sequence_is_stopped_before_a_step() {
    let mut j = job();
    j.mode = Mode::Sequence;
    j.steps = vec![Step::Wheel { delta: 1 }, Step::Wheel { delta: 2 }];
    let mut run = Run::start(&j, 0, 0, false, vec![0, 0], 0, 0).unwrap();
    let ask = quiet(&mut run, Do::Listen, 0);
    assert!(matches!(&ask, Do::Send(i) if *i == wheel(1)));
    assert!(matches!(quiet(&mut run, ask, 0), Do::Listen));
    let again = Cmd::Start(job(), Opts::default());
    assert!(matches!(run.next(Ev::Heard(Heard::Told(again))), Do::End(Next::Run(_, _))));
}

#[test]
fn an_empty_sequence_does_not_start() {
    let mut j = job();
    j.mode = Mode::Sequence;
    assert!(Run::start(&j, 1, 0, false, Vec::new(), 0, 0).is_none());
}

#[test]
fn best_second_slides_over_the_clicks() {
    assert_eq!(best_second(&Vec::new(), 10), 0);
    assert_eq!(best_second(&vec![5], 10), 1);
    assert_eq!(best_second(&vec![0, 9, 10, 11, 20, 21], 10), 3);
    assert_eq!(best_second(&vec![0, 100, 101, 102, 103, 200], 10), 4);
    // Both ends of the window count.
    assert_eq!(best_second(&vec![0, 10], 10), 2);
    assert_eq!(best_second(&vec![0, 11], 10), 1);
}

#[test]
fn the_shortest_gap_is_found() {
    assert_eq!(min_gap(&Vec::new()), None);
    assert_eq!(min_gap(&vec![7]), None);
    assert_eq!(min_gap(&vec![0, 50, 58, 100]), Some(8));
    assert_eq!(min_gap(&vec![0, 50]), Some(50));
}

#[test]
fn a_limit_of_zero_does_nothing() {
    let mut j = job();
    j.limit = Some(0);
    let mut run = clicking(&j, 100, 7, 0);
    assert!(matches!(quiet(&mut run, Do::Listen, 0), Do::End(Next::Idle)));
    j.mode = Mode::Sequence;
    j.steps = vec![Step::Wheel { delta: 1 }];
    let mut run = Run::start(&j, 0, 0, false, vec![0], 0, 0).unwrap();
    assert!(matches!(quiet(&mut run, Do::Listen, 0), Do::End(Next::Idle)));
    // What is told comes first.
    let mut run = Run::start(&j, 0, 0, false, vec![0], 0, 0).unwrap();
    assert!(matches!(run.next(Ev::Heard(Heard::Told(Cmd::Quit))), Do::End(Next::Quit)));
}

#[test]
fn percentiles_of_one_sample_are_its_bucket() {
    let mut t = Tel::new();
    t.record(1_000_000, 256);
    let s = t.snapshot();
    for share in [0.50f64, 0.95, 0.99] {
        assert_eq!(s.percentile((s.total as f64 * share) as u64), Some(256));
    }
    assert_eq!((s.min_ns, s.max_ns, s.sum_ns, s.count), (1_000_000, 1_000_000, 1_000_000, 1));
}

#[test]
fn a_sequence_sends_its_steps_as_often_as_it_is_to() {
    let mut j = job();
    j.mode = Mode::Sequence;
    j.limit = Some(3);
    j.steps = vec![
        Step::Key { vk: 0x48, scan: 0x23, down: true },
        pause(),
        Step::Key { vk: 0x48, scan: 0, down: false },
    ];
    let mut run = Run::start(&j, 0, 0, false, vec![0, 50, 0], 0, 0).unwrap();
    let mut ask = Do::Listen;
    let mut sent = Vec::new();
    let mut now: i64 = 0;
    while !matches!(ask, Do::End(_)) {
        now += 10;
        ask = quiet(&mut run, ask, now);
        if let Do::Send(i) = &ask {
            sent.push(*i);
        }
    }
    assert!(matches!(ask, Do::End(Next::Idle)));
    let pass = vec![key_scan(0x23, true), key_vk(0x48, false)];
    assert_eq!(sent, pass.repeat(3));
}

#[test]
fn measurements_are_cleared_before_the_timer_is_given_back() {
    let mut w = Worker::new(2);
    let all = Opts { time_critical: true, pin_core: true, raise_timer_period: true };
    assert_eq!(
        told(&mut w, News::Told(Some(Cmd::Start(job(), all)))),
        vec![
            "Apply(RaiseTimer)",
            "Apply(Affinity(2))",
            "Apply(TimeCritical(true))",
            "Running(true)",
            "ForgetCost",
            "Work(X1)",
        ]
    );
    let plain = Opts { time_critical: false, pin_core: false, raise_timer_period: false };
    assert_eq!(
        told(&mut w, News::Ended(Next::Run(job(), plain))),
        vec![
            "Running(false)",
            "Apply(TimeCritical(false))",
            "Apply(Affinity(3))",
            "Clear",
            "Apply(RestoreTimer)",
            "Apply(TimeCritical(false))",
            "Running(true)",
            "ForgetCost",
            "Work(X1)",
        ]
    );
    told(&mut w, News::Ended(Next::Idle));
    told(&mut w, News::Told(Some(Cmd::Start(job(), all))));
    assert_eq!(
        told(&mut w, News::Ended(Next::Idle)),
        vec![
            "Running(false)",
            "Apply(TimeCritical(false))",
            "Apply(Affinity(3))",
            "Apply(RestoreTimer)",
            "Listen",
        ]
    );
}

#[test]
fn all_buttons_are_offered() {
    assert_eq!(Btn::ALL, [Btn::Left, Btn::Right, Btn::Middle, Btn::X1, Btn::X2]);
}
