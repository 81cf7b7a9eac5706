use caprand::health::{
    AdaptiveProportionTest, RepetitionTest, TotalHealth, PROPORTION_CUTOFF, PROPORTION_WINDOW,
    REPETITION_CUTOFF,
};

#[test]
fn repetition_run_fails_exactly_at_cutoff() {
    for cutoff in [2usize, 3, 5, 17] {
        let mut t = RepetitionTest::new(cutoff);
        for len in 1..cutoff {
            assert_eq!(t.test(9), Ok(()), "cutoff {} len {}", cutoff, len);
        }
        assert_eq!(t.test(9), Err(()));
        // a longer run keeps failing
        assert_eq!(t.test(9), Err(()));
    }
}

#[test]
fn repetition_run_of_zero_from_fresh_state() {
    // the initial remembered value plays no part
    let mut t = RepetitionTest::new(3);
    assert_eq!(t.test(0), Ok(()));
    assert_eq!(t.test(0), Ok(()));
    assert_eq!(t.test(0), Err(()));
}

#[test]
fn repetition_new_value_restarts_run() {
    let mut t = RepetitionTest::new(3);
    assert_eq!(t.test(1), Ok(()));
    assert_eq!(t.test(1), Ok(()));
    assert_eq!(t.test(2), Ok(()));
    assert_eq!(t.test(2), Ok(()));
    assert_eq!(t.test(2), Err(()));
    assert_eq!(t.test(1), Ok(()));
}

#[test]
fn repetition_alternating_never_fails() {
    let mut t = RepetitionTest::new(2);
    for i in 0..100_000u32 {
        assert_eq!(t.test((i % 2) as u8 * 7), Ok(()));
    }
}

#[test]
fn repetition_cutoff_one_always_fails() {
    let mut t = RepetitionTest::new(1);
    assert_eq!(t.test(1), Err(()));
    assert_eq!(t.test(2), Err(()));
}

#[test]
fn proportion_fails_when_first_value_recurs_cutoff_times() {
    // window 8, cutoff 3: the first value, then three recurrences
    let mut t = AdaptiveProportionTest::new(8, 3);
    assert_eq!(t.test(5), Ok(()));
    assert_eq!(t.test(5), Ok(()));
    assert_eq!(t.test(1), Ok(()));
    assert_eq!(t.test(5), Ok(()));
    // third recurrence reaches the cutoff
    assert_eq!(t.test(5), Err(()));
    // that was this window's one failure
    assert_eq!(t.test(2), Ok(()));
    assert_eq!(t.test(5), Ok(()));
    assert_eq!(t.test(5), Ok(()));
    // the window of 8 is over: a new one starts with this value
    assert_eq!(t.test(5), Ok(()));
    assert_eq!(t.test(1), Ok(()));
}

#[test]
fn proportion_resets_every_window_regardless_of_outcome() {
    let w = 6usize;
    let mut t = AdaptiveProportionTest::new(w, 2);
    for window in 0..50 {
        // a window where the first value recurs on every feed
        let mut fails = 0;
        for _ in 0..w {
            if t.test(window as u8).is_err() {
                fails += 1;
            }
        }
        // feeds 2..=6 count 1..=5 recurrences; only the one reaching 2 fails
        assert_eq!(fails, 1);
    }
}

#[test]
fn proportion_window_four_cutoff_one() {
    let mut t = AdaptiveProportionTest::new(4, 1);
    assert_eq!(t.test(7), Ok(()));
    assert_eq!(t.test(7), Err(()));
    assert_eq!(t.test(7), Ok(()));
    assert_eq!(t.test(7), Ok(()));
    // next window
    assert_eq!(t.test(7), Ok(()));
    assert_eq!(t.test(7), Err(()));
}

#[test]
fn proportion_recurrences_below_cutoff_never_fail() {
    let mut t = AdaptiveProportionTest::new(10, 5);
    for _ in 0..20 {
        for v in [1u8, 1, 1, 1, 1, 2, 3, 4, 5, 6] {
            assert_eq!(t.test(v), Ok(()));
        }
    }
}

#[test]
fn total_health_runs_both_tests_on_every_sample() {
    let mut total = TotalHealth::new();
    let mut a = AdaptiveProportionTest::new(PROPORTION_WINDOW, PROPORTION_CUTOFF);
    let mut r = RepetitionTest::new(REPETITION_CUTOFF);
    // long runs trip both tests, at different feeds
    let mut seq = Vec::new();
    for round in 0..6u32 {
        seq.extend(std::iter::repeat(round as u8).take(450));
        seq.extend((0..100u32).map(|i| (i % 7) as u8));
    }
    let mut fails = 0;
    for v in seq {
        let ra = a.test(v);
        let rr = r.test(v);
        let rt = total.test(v);
        assert_eq!(rt.is_ok(), ra.is_ok() && rr.is_ok());
        if rt.is_err() {
            fails += 1;
        }
    }
    assert!(fails > 0);
}

#[test]
fn proportion_distinct_values_pass() {
    let mut t = AdaptiveProportionTest::new(16, 2);
    for i in 0..1000u32 {
        assert_eq!(t.test((i % 16) as u8), Ok(()));
    }
}

#[test]
fn total_health_constant_fails_on_repetition_cutoff() {
    let mut h = TotalHealth::new();
    for _ in 1..REPETITION_CUTOFF {
        assert_eq!(h.test(42), Ok(()));
    }
    assert_eq!(h.test(42), Err(()));
}

#[test]
fn total_health_parameters() {
    assert_eq!(PROPORTION_WINDOW, 512);
    assert_eq!(PROPORTION_CUTOFF, 410);
    assert_eq!(REPETITION_CUTOFF, 201);
}

#[test]
fn total_health_counter_pattern_passes() {
    let mut h = TotalHealth::new();
    for i in 0..10_000u32 {
        assert_eq!(h.test((i % 64) as u8), Ok(()));
    }
}
