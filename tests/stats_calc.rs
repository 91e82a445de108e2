use press_stats::{Stats, StatsError, calc_stats, calc_stats_windows};

fn alternating(durations: &[u64]) -> Vec<(u64, bool)> {
    durations.iter().enumerate().map(|(i, d)| (*d, i % 2 == 1)).collect()
}

fn naive_sum(w: &[(u64, bool)]) -> u64 {
    w.iter().map(|(d, _)| *d).sum()
}

#[test]
fn four_even_presses() {
    let deltas = vec![(600, false), (600, true), (600, false), (600, true)];
    let st = calc_stats(&deltas, 2400).unwrap();
    assert_eq!(st.avg, 600);
    assert_eq!(st.tempo(), (15000, 600));
    assert_eq!(st.tempo().0 / st.tempo().1, 25);
    assert_eq!(st.sq_dev, 0);
    assert_eq!(st.balance().0, 0);
    assert_eq!(st, Stats { count: 4, sum: 2400, sum_x: 1200, avg: 600, sq_dev: 0 });
}

#[test]
fn deviation_is_exact() {
    let deltas = vec![(100, false), (200, true), (300, false)];
    let st = calc_stats(&deltas, 600).unwrap();
    assert_eq!(st.avg, 200);
    assert_eq!(st.sq_dev, 20000);
    assert_eq!(st.sum_x, 400);
    assert_eq!(st.balance(), (200, 1200));
}

#[test]
fn mean_is_truncated() {
    let deltas = vec![(1, false), (2, true)];
    let st = calc_stats(&deltas, 3).unwrap();
    assert_eq!(st.avg, 1);
    assert_eq!(st.sq_dev, 1);
    assert_eq!(st.tempo(), (15000, 1));
}

#[test]
fn zero_mean_has_zero_tempo() {
    let deltas = vec![(0, false), (0, true)];
    let st = calc_stats(&deltas, 0).unwrap();
    assert_eq!(st.tempo(), (0, 1));
}

#[test]
fn identical_durations_have_no_deviation() {
    for n in 2..30u64 {
        let deltas: Vec<(u64, bool)> = (0..n).map(|i| (437, i % 3 == 0)).collect();
        let st = calc_stats(&deltas, 437 * n).unwrap();
        assert_eq!(st.sq_dev, 0);
        assert_eq!(st.avg, 437);
    }
}

#[test]
fn balanced_channels_have_zero_balance() {
    let deltas = vec![(300, false), (100, true), (100, false), (300, true)];
    let st = calc_stats(&deltas, 800).unwrap();
    assert_eq!(st.balance().0, 0);
}

#[test]
fn balance_is_within_half() {
    let cases = vec![
        vec![(500, false), (500, false)],
        vec![(500, true), (500, true)],
        vec![(1, true), (999, false), (5, true)],
    ];
    for deltas in cases {
        let sum = naive_sum(&deltas);
        let st = calc_stats(&deltas, sum).unwrap();
        let (num, den) = st.balance();
        assert!(2 * num.unsigned_abs() <= den);
    }
    let one_sided = calc_stats(&[(500, false), (500, false)], 1000).unwrap();
    assert_eq!(one_sided.balance(), (1000, 2000));
}

#[test]
fn single_interval_is_rejected() {
    assert_eq!(calc_stats(&[(5, false)], 5), Err(StatsError::WindowTooShort));
    assert_eq!(calc_stats(&[], 0), Err(StatsError::WindowTooShort));
}

#[test]
fn incremental_sums_match_naive_sums() {
    let durations: Vec<u64> = (0..57u64).map(|i| (i * 37 + 11) % 503).collect();
    let deltas = alternating(&durations);
    for w in 2..20u64 {
        for step in 1..25u64 {
            let got = calc_stats_windows(&deltas, w, step).unwrap();
            let expected = (deltas.len() as u64 - w) / step + 1;
            assert_eq!(got.len() as u64, expected);
            for (k, st) in got.iter().enumerate() {
                let start = k * step as usize;
                let win = &deltas[start..start + w as usize];
                let full = calc_stats(win, naive_sum(win)).unwrap();
                assert_eq!(*st, full);
                assert_eq!(st.sum, naive_sum(win));
            }
        }
    }
}

#[test]
fn window_equal_to_length_gives_one_result() {
    let deltas = alternating(&[10, 20, 30, 40]);
    let got = calc_stats_windows(&deltas, 4, 1).unwrap();
    assert_eq!(got.len(), 1);
    assert_eq!(got[0].sum, 100);
}

#[test]
fn window_longer_than_data_gives_nothing() {
    let deltas = alternating(&[10, 20, 30]);
    assert_eq!(calc_stats_windows(&deltas, 4, 1).unwrap().len(), 0);
}

#[test]
fn scan_errors() {
    let deltas = alternating(&[10, 20, 30]);
    assert_eq!(calc_stats_windows(&deltas, 1, 1), Err(StatsError::WindowTooShort));
    assert_eq!(calc_stats_windows(&deltas, 2, 0), Err(StatsError::ZeroStep));
    let big = vec![(u64::MAX, false), (1, true), (0, false)];
    assert_eq!(calc_stats_windows(&big, 2, 1), Err(StatsError::Overflow));
    let fits = vec![(0, false), (u64::MAX, true), (1, false)];
    assert_eq!(calc_stats_windows(&fits, 2, 2).unwrap().len(), 1);
    assert_eq!(calc_stats_windows(&fits, 2, 1), Err(StatsError::Overflow));
}

#[test]
fn large_durations_do_not_overflow_deviation() {
    let deltas = vec![(u64::MAX, false), (0, true)];
    let st = calc_stats(&deltas, u64::MAX).unwrap();
    let avg = (u64::MAX / 2) as u128;
    assert_eq!(st.avg as u128, avg);
    assert_eq!(st.sq_dev, (u64::MAX as u128 - avg) * (u64::MAX as u128 - avg) + avg * avg);
}
