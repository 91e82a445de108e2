use press_stats::best::{best_tempo, best_ur, best_zx};
use press_stats::report::{monitor_catalog, summary_catalog};
use press_stats::{
    ConvertError, MetricKind, ReportError, Shared, Stats, StatsError, best_rows, calc_stats,
    convert_deltas, history_rows, monitor_report, summary_rows,
};

fn deltas_of(n: usize) -> Vec<(u64, bool)> {
    (0..n).map(|i| (400 + ((i * 53) % 97) as u64, i % 2 == 0)).collect()
}

fn st(avg: u64, sq_dev: u128, sum: u64, sum_x: u64) -> Stats {
    Stats { count: 4, sum, sum_x, avg, sq_dev }
}

#[test]
fn ring_keeps_last_three() {
    let mut ring = Shared::with_capacity(3);
    let a = (1, false);
    let b = (2, true);
    let c = (3, false);
    let d = (4, true);
    for r in [a, b, c, d] {
        ring.push_overwrite(r);
    }
    assert_eq!(ring.snapshot(), vec![b, c, d]);
}

#[test]
fn ring_overflow_keeps_capacity_records() {
    let mut ring = Shared::with_capacity(5);
    let records: Vec<(u64, bool)> = (0..13u64).map(|i| (i, i % 2 == 0)).collect();
    for r in &records {
        ring.push_overwrite(*r);
    }
    assert_eq!(ring.snapshot(), records[8..].to_vec());
}

#[test]
fn ring_below_capacity_keeps_everything() {
    let mut ring = Shared::new();
    ring.push_overwrite((7, true));
    ring.push_overwrite((9, false));
    assert_eq!(ring.snapshot(), vec![(7, true), (9, false)]);
}

#[test]
fn ring_clear_empties() {
    let mut ring = Shared::with_capacity(4);
    for i in 0..6u64 {
        ring.push_overwrite((i, true));
    }
    ring.clear();
    assert_eq!(ring.snapshot(), vec![]);
    ring.push_overwrite((42, false));
    assert_eq!(ring.snapshot(), vec![(42, false)]);
}

#[test]
fn full_history_capacity() {
    let mut ring = Shared::new();
    for i in 0..10_005u64 {
        ring.push_overwrite((i, false));
    }
    let snap = ring.snapshot();
    assert_eq!(snap.len(), 10_000);
    assert_eq!(snap[0], (5, false));
    assert_eq!(snap[9_999], (10_004, false));
}

#[test]
fn convert_to_milliseconds() {
    let raw = vec![(3_000_000, true), (1_499_999, false)];
    assert_eq!(convert_deltas(&raw, 3_000_000_000).unwrap(), vec![(1, true), (0, false)]);
    assert_eq!(convert_deltas(&raw, 1000).unwrap(), vec![(3_000_000, true), (1_499_999, false)]);
}

#[test]
fn convert_errors() {
    assert_eq!(convert_deltas(&[(1, true)], 0), Err(ConvertError::Uncalibrated));
    assert_eq!(convert_deltas(&[(u64::MAX, true)], 1), Err(ConvertError::Overflow));
    assert_eq!(convert_deltas(&[(u64::MAX, true)], 1000).unwrap(), vec![(u64::MAX, true)]);
}

#[test]
fn best_tempo_prefers_smallest_mean_first_found() {
    let v = vec![st(0, 0, 0, 0), st(500, 9, 2000, 1000), st(400, 9, 1600, 800), st(400, 1, 1600, 0)];
    assert_eq!(best_tempo(&v), Some(2));
    assert_eq!(best_tempo(&[]), None);
    assert_eq!(best_tempo(&[st(0, 0, 0, 0)]), Some(0));
}

#[test]
fn best_ur_prefers_lowest_deviation_first_found() {
    let v = vec![st(500, 30, 2000, 1000), st(500, 10, 2000, 1000), st(500, 10, 2000, 1000)];
    assert_eq!(best_ur(&v), Some(1));
}

#[test]
fn best_zx_skips_undefined_balance() {
    let v = vec![st(0, 0, 0, 0), st(500, 0, 2000, 1200), st(500, 0, 1000, 450), st(500, 0, 2000, 900)];
    assert_eq!(best_zx(&v), Some(2));
    assert_eq!(best_zx(&[st(0, 0, 0, 0)]), None);
}

#[test]
fn summary_needs_twenty_intervals() {
    assert_eq!(summary_rows(&deltas_of(19)), Err(ReportError::TooFewIntervals));
    let rows = summary_rows(&deltas_of(20)).unwrap();
    assert_eq!(rows.len(), 3);
    assert!(rows.iter().all(|r| r.window == 20));
    assert_eq!(rows[0].kind, MetricKind::Tempo);
    assert_eq!(rows[1].kind, MetricKind::Consistency);
    assert_eq!(rows[2].kind, MetricKind::Balance);
    let d = deltas_of(20);
    let sum = d.iter().map(|x| x.0).sum();
    assert_eq!(rows[0].stats, calc_stats(&d, sum).unwrap());
}

#[test]
fn summary_skips_windows_longer_than_data() {
    let d = deltas_of(145);
    let rows = summary_rows(&d).unwrap();
    let windows: Vec<u64> = rows.iter().map(|r| r.window).collect();
    assert_eq!(windows, vec![20, 20, 20, 40, 40, 40, 60, 60, 60, 80, 80, 80, 100, 100, 100, 120, 120, 120, 140, 140, 140]);
    assert!(rows.iter().all(|r| r.window as usize <= d.len()));
}

#[test]
fn summary_catalog_sizes() {
    let cat = summary_catalog();
    assert_eq!(cat.len(), 23);
    assert_eq!(cat[0], (20, 1));
    assert_eq!(cat[22], (2000, 1));
    assert_eq!(monitor_catalog(), vec![(4, 1), (20, 1), (500, 10), (2000, 50)]);
}

#[test]
fn best_rows_picks_the_fastest_window() {
    let mut d = vec![(500, false); 10];
    d[6] = (200, true);
    d[7] = (200, false);
    let rows = best_rows(&d, &[(2, 1), (20, 1)]).unwrap();
    assert_eq!(rows.len(), 3);
    assert_eq!(rows[0].stats.avg, 200);
    assert_eq!(rows[0].stats.sum_x, 200);
    assert_eq!(best_rows(&d, &[(1, 1)]), Err(StatsError::WindowTooShort));
    assert_eq!(best_rows(&d, &[(3, 0)]), Err(StatsError::ZeroStep));
    assert_eq!(best_rows(&d, &[(11, 0)]).unwrap().len(), 0);
}

#[test]
fn history_needs_eight_intervals() {
    assert_eq!(history_rows(&deltas_of(7)), Err(ReportError::TooFewIntervals));
    let d = deltas_of(10);
    let rows = history_rows(&d).unwrap();
    assert_eq!(rows.len(), 10);
    for (i, row) in rows.iter().enumerate() {
        assert_eq!(row.press, i as u64 + 1);
        assert_eq!(row.interval_ms, d[i].0);
        if i < 7 {
            assert_eq!(row.rolling, None);
        } else {
            let w = &d[i - 7..=i];
            let sum = w.iter().map(|x| x.0).sum();
            assert_eq!(row.rolling, Some(calc_stats(w, sum).unwrap()));
        }
    }
}

#[test]
fn history_overflow() {
    let mut d = deltas_of(9);
    d[3] = (u64::MAX, true);
    assert_eq!(history_rows(&d), Err(ReportError::Stats(StatsError::Overflow)));
}

#[test]
fn monitor_report_contents() {
    assert_eq!(monitor_report(&deltas_of(1)).unwrap_err(), StatsError::WindowTooShort);
    let d = deltas_of(25);
    let m = monitor_report(&d).unwrap();
    let sum: u64 = d.iter().map(|x| x.0).sum();
    assert_eq!(m.total, calc_stats(&d, sum).unwrap());
    let windows: Vec<u64> = m.bests.iter().map(|r| r.window).collect();
    assert_eq!(windows, vec![4, 4, 4, 20, 20, 20]);
    let tail = &d[5..];
    let tail_sum = tail.iter().map(|x| x.0).sum();
    assert_eq!(m.recent, Some(calc_stats(tail, tail_sum).unwrap()));
    let small = monitor_report(&deltas_of(3)).unwrap();
    assert_eq!(small.recent, None);
    assert!(small.bests.is_empty());
    assert_eq!(
        monitor_report(&[(u64::MAX, true), (1, false)]).unwrap_err(),
        StatsError::Overflow
    );
}
