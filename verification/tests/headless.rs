use hidforge::bench::{finished, sample_count, Tally};

#[test]
fn samples_are_two_seconds_within_bounds() {
    assert_eq!(sample_count(10), 200);
    assert_eq!(sample_count(100), 200);
    assert_eq!(sample_count(500), 1000);
    assert_eq!(sample_count(2000), 4000);
    assert_eq!(sample_count(10_000), 4000);
}

#[test]
fn a_run_is_over_when_it_stopped_and_is_complete() {
    assert!(finished(false, 40, 40));
    assert!(finished(false, 41, 40));
    assert!(!finished(true, 40, 40));
    assert!(!finished(false, 39, 40));
}

#[test]
fn signals_are_ranked_by_count_then_name() {
    let mut t = Tally::new();
    for (signal, device) in [
        ("Wheel up", 1),
        ("Left click", 2),
        ("Wheel up", 3),
        ("Key sc0x01", 4),
        ("Left click", 5),
        ("Éclair", 6),
        ("Key", 7),
    ] {
        t.note(String::from(signal), device);
    }
    assert_eq!(t.seen, 7);
    let rows: Vec<(String, u64, i64)> =
        t.ranking().into_iter().map(|r| (r.signal, r.events, r.device)).collect();
    let want: Vec<(String, u64, i64)> = vec![
        (String::from("Left click"), 2, 2),
        (String::from("Wheel up"), 2, 1),
        (String::from("Key"), 1, 7),
        (String::from("Key sc0x01"), 1, 4),
        (String::from("Éclair"), 1, 6),
    ];
    assert_eq!(rows, want);
}

#[test]
fn the_ranking_is_that_of_a_sorted_map() {
    let mut t = Tally::new();
    let mut map: std::collections::BTreeMap<String, (u64, i64)> = Default::default();
    let mut x: u64 = 12345;
    for i in 0..400i64 {
        x = x.wrapping_mul(6364136223846793005).wrapping_add(1442695040888963407);
        let name = format!("signal {}", (x >> 33) % 23);
        let entry = map.entry(name.clone()).or_insert((0, i));
        entry.0 += 1;
        t.note(name, i);
    }
    let mut want: Vec<(String, u64, i64)> =
        map.into_iter().map(|(s, (n, d))| (s, n, d)).collect();
    want.sort_by_key(|(_, n, _)| std::cmp::Reverse(*n));
    let rows: Vec<(String, u64, i64)> =
        t.ranking().into_iter().map(|r| (r.signal, r.events, r.device)).collect();
    assert_eq!(rows, want);
}

#[test]
fn nothing_heard_ranks_nothing() {
    let t = Tally::new();
    assert_eq!(t.seen, 0);
    assert!(t.ranking().is_empty());
}
