//! What the exports and the periodic monitor report, computed from a
//! snapshot of intervals.
use vstd::prelude::*;
use vstd::slice::slice_subrange;
use crate::stats::{Stats, StatsError, calc_stats, total, window_stats};
use crate::scan::{calc_stats_windows, windows_fit, range_total, lemma_range_split, lemma_range_nonneg};
use crate::aggregate::{SummaryRow, best_rows, first_error, rows_spec};

verus! {

/// Fewest intervals for which a summary is reported.
pub const MIN_SUMMARY_INTERVALS: usize = 20;

/// Fewest intervals for which a history is reported.
pub const MIN_HISTORY_INTERVALS: usize = 8;

/// Length of the trailing window of a history row.
pub const HISTORY_WINDOW: u64 = 8;

/// Why an interval's duration could not be converted to milliseconds.
#[derive(Clone, Copy, Debug, PartialEq, Eq, Structural)]
pub enum ConvertError {
    /// The tick rate is zero: the clock has not been calibrated.
    Uncalibrated,
    /// A converted duration does not fit in 64 bits.
    Overflow,
}

/// Why a report was not produced.
#[derive(Clone, Copy, Debug, PartialEq, Eq, Structural)]
pub enum ReportError {
    /// Fewer intervals than the report needs.
    TooFewIntervals,
    /// The statistics could not be computed.
    Stats(StatsError),
}

/// `raw` ticks in whole milliseconds, at `tps` ticks per second.
pub open spec fn to_ms(raw: u64, tps: u64) -> int {
    (raw as int * 1000) / tps as int
}

/// Every duration of `s` converts to a millisecond count that fits in 64 bits.
pub open spec fn all_convertible(s: Seq<(u64, bool)>, tps: u64) -> bool {
    forall|i: int| 0 <= i < s.len() ==> to_ms(#[trigger] s[i].0, tps) <= u64::MAX
}

/// Converts each duration from ticks to whole milliseconds (truncating),
/// keeping its channel.
pub fn convert_deltas(raw: &[(u64, bool)], ticks_per_s: u64) -> (r: Result<
    Vec<(u64, bool)>,
    ConvertError,
>)
    ensures
        ticks_per_s == 0 ==> r == Err::<Vec<(u64, bool)>, ConvertError>(ConvertError::Uncalibrated),
        ticks_per_s > 0 && !all_convertible(raw@, ticks_per_s) ==> r == Err::<
            Vec<(u64, bool)>,
            ConvertError,
        >(ConvertError::Overflow),
        ticks_per_s > 0 && all_convertible(raw@, ticks_per_s) ==> (r matches Ok(v) && v@.len()
            == raw@.len() && forall|i: int|
            0 <= i < v@.len() ==> (#[trigger] v@[i]).0 == to_ms(raw@[i].0, ticks_per_s) && v@[i].1
                == raw@[i].1),
{
    if ticks_per_s == 0 {
        return Err(ConvertError::Uncalibrated);
    }
    let mut out: Vec<(u64, bool)> = Vec::new();
    let mut i: usize = 0;
    while i < raw.len()
        invariant
            ticks_per_s > 0,
            0 <= i <= raw@.len(),
            out@.len() == i,
            forall|j: int|
                0 <= j < i ==> (#[trigger] out@[j]).0 == to_ms(raw@[j].0, ticks_per_s) && out@[j].1
                    == raw@[j].1,
        decreases raw@.len() - i,
    {
        let (d, ch) = raw[i];
        let ms: u128 = (d as u128) * 1000 / (ticks_per_s as u128);
        if ms > u64::MAX as u128 {
            proof {
                assert(to_ms(raw@[i as int].0, ticks_per_s) > u64::MAX);
            }
            return Err(ConvertError::Overflow);
        }
        out.push((ms as u64, ch));
        i = i + 1;
    }
    assert forall|j: int| 0 <= j < raw@.len() implies to_ms(#[trigger] raw@[j].0, ticks_per_s)
        <= u64::MAX by {
        assert(out@[j].0 == to_ms(raw@[j].0, ticks_per_s));
    }
    Ok(out)
}

/// The durations of `s`, summed; `None` when the sum does not fit in 64 bits.
pub fn sum_durations(s: &[(u64, bool)]) -> (r: Option<u64>)
    ensures
        0 <= total(s@),
        total(s@) <= u64::MAX ==> r == Some(total(s@) as u64),
        total(s@) > u64::MAX ==> r is None,
{
    let mut acc: u64 = 0;
    let mut i: usize = 0;
    let ghost n = s@.len() as int;
    proof {
        assert(s@.subrange(0, n) =~= s@);
        lemma_range_nonneg(s@, 0, n);
    }
    while i < s.len()
        invariant
            n == s@.len(),
            0 <= i <= n,
            acc == range_total(s@, 0, i as int),
            total(s@) == range_total(s@, 0, n),
        decreases n - i,
    {
        proof {
            lemma_range_split(s@, 0, i as int, i as int + 1);
            lemma_range_split(s@, 0, i as int + 1, n);
            lemma_range_nonneg(s@, i as int + 1, n);
            let t = s@.subrange(i as int, i as int + 1);
            assert(t.drop_last() =~= Seq::<(u64, bool)>::empty());
            assert(t.last() == s@[i as int]);
            assert(total(t.drop_last()) == 0);
        }
        let d = s[i].0;
        if d > u64::MAX - acc {
            return None;
        }
        acc = acc + d;
        i = i + 1;
    }
    Some(acc)
}

/// The window sizes of a summary, each scanned one interval at a time.
pub open spec fn summary_catalog_spec() -> Seq<(u64, u64)> {
    seq![
        (20u64, 1u64), (40, 1), (60, 1), (80, 1), (100, 1), (120, 1), (140, 1), (160, 1),
        (180, 1), (200, 1), (250, 1), (300, 1), (350, 1), (400, 1), (450, 1), (500, 1),
        (600, 1), (700, 1), (800, 1), (900, 1), (1000, 1), (1500, 1), (2000, 1),
    ]
}

/// The window sizes of the periodic monitor, the larger ones scanned with a
/// coarser step.
pub open spec fn monitor_catalog_spec() -> Seq<(u64, u64)> {
    seq![(4u64, 1u64), (20, 1), (500, 10), (2000, 50)]
}

/// The window sizes of a summary, with the step of each scan.
pub fn summary_catalog() -> (r: Vec<(u64, u64)>)
    ensures
        r@ == summary_catalog_spec(),
{
    let sizes: [u64; 23] = [
        20, 40, 60, 80, 100, 120, 140, 160, 180, 200, 250, 300, 350, 400, 450, 500, 600, 700,
        800, 900, 1000, 1500, 2000,
    ];
    let mut r: Vec<(u64, u64)> = Vec::new();
    let mut i: usize = 0;
    while i < 23
        invariant
            0 <= i <= 23,
            sizes@ == seq![
                20u64, 40, 60, 80, 100, 120, 140, 160, 180, 200, 250, 300, 350, 400, 450, 500,
                600, 700, 800, 900, 1000, 1500, 2000,
            ],
            r@.len() == i,
            forall|j: int| 0 <= j < i ==> #[trigger] r@[j] == (sizes@[j], 1u64),
        decreases 23 - i,
    {
        r.push((sizes[i], 1));
        i = i + 1;
    }
    assert(r@ =~= summary_catalog_spec());
    r
}

/// The window sizes of the periodic monitor, with the step of each scan.
pub fn monitor_catalog() -> (r: Vec<(u64, u64)>)
    ensures
        r@ == monitor_catalog_spec(),
{
    let mut r: Vec<(u64, u64)> = Vec::new();
    r.push((4, 1));
    r.push((20, 1));
    r.push((500, 10));
    r.push((2000, 50));
    assert(r@ =~= monitor_catalog_spec());
    r
}

/// The rows of a summary report: the best window of each catalog size by
/// each metric. Needs at least `MIN_SUMMARY_INTERVALS` intervals.
pub fn summary_rows(deltas: &[(u64, bool)]) -> (r: Result<Vec<SummaryRow>, ReportError>)
    ensures
        deltas@.len() < MIN_SUMMARY_INTERVALS ==> r == Err::<Vec<SummaryRow>, ReportError>(
            ReportError::TooFewIntervals,
        ),
        deltas@.len() >= MIN_SUMMARY_INTERVALS ==> match first_error(
            deltas@,
            summary_catalog_spec(),
        ) {
            Some(e) => r == Err::<Vec<SummaryRow>, ReportError>(ReportError::Stats(e)),
            None => r matches Ok(v) && v@ == rows_spec(deltas@, summary_catalog_spec()),
        },
{
    if deltas.len() < MIN_SUMMARY_INTERVALS {
        return Err(ReportError::TooFewIntervals);
    }
    let cat = summary_catalog();
    match best_rows(deltas, cat.as_slice()) {
        Ok(v) => Ok(v),
        Err(e) => Err(ReportError::Stats(e)),
    }
}

/// One row of a history report.
#[derive(Clone, Copy, Debug, PartialEq, Eq, Structural)]
pub struct HistoryRow {
    /// Position of the press, counted from one.
    pub press: u64,
    /// The interval that ended with this press, in milliseconds.
    pub interval_ms: u64,
    /// Statistics of the trailing `HISTORY_WINDOW` intervals, once there are
    /// that many.
    pub rolling: Option<Stats>,
}

/// The rows of a history report of `s`.
pub open spec fn history_spec(s: Seq<(u64, bool)>) -> Seq<HistoryRow> {
    Seq::new(
        s.len(),
        |i: int|
            HistoryRow {
                press: (i + 1) as u64,
                interval_ms: s[i].0,
                rolling: if i >= 7 {
                    Some(window_stats(s.subrange(i - 7, i + 1)))
                } else {
                    None
                },
            },
    )
}

/// The rows of a history report: each interval with the statistics of the
/// trailing window that it closes. Needs at least `MIN_HISTORY_INTERVALS`
/// intervals.
pub fn history_rows(deltas: &[(u64, bool)]) -> (r: Result<Vec<HistoryRow>, ReportError>)
    ensures
        deltas@.len() < MIN_HISTORY_INTERVALS ==> r == Err::<Vec<HistoryRow>, ReportError>(
            ReportError::TooFewIntervals,
        ),
        deltas@.len() >= MIN_HISTORY_INTERVALS && !windows_fit(deltas@, 8, 1) ==> r == Err::<
            Vec<HistoryRow>,
            ReportError,
        >(ReportError::Stats(StatsError::Overflow)),
        deltas@.len() >= MIN_HISTORY_INTERVALS && windows_fit(deltas@, 8, 1) ==> (r matches Ok(v)
            && v@ == history_spec(deltas@)),
{
    if deltas.len() < MIN_HISTORY_INTERVALS {
        return Err(ReportError::TooFewIntervals);
    }
    let rolling = match calc_stats_windows(deltas, HISTORY_WINDOW, 1) {
        Ok(v) => v,
        Err(e) => {
            return Err(ReportError::Stats(e));
        },
    };
    let mut out: Vec<HistoryRow> = Vec::new();
    let mut i: usize = 0;
    while i < deltas.len()
        invariant
            deltas@.len() >= 8,
            rolling@.len() == deltas@.len() - 7,
            forall|k: int|
                0 <= k < rolling@.len() ==> #[trigger] rolling@[k] == window_stats(
                    deltas@.subrange(k * 1, k * 1 + 8),
                ),
            0 <= i <= deltas@.len(),
            out@.len() == i,
            forall|j: int| 0 <= j < i ==> #[trigger] out@[j] == history_spec(deltas@)[j],
        decreases deltas@.len() - i,
    {
        let r = if i >= 7 {
            proof {
                assert(rolling@[i - 7] == window_stats(deltas@.subrange((i - 7) * 1, (i - 7) * 1 + 8)));
            }
            Some(rolling[i - 7])
        } else {
            None
        };
        out.push(HistoryRow { press: (i + 1) as u64, interval_ms: deltas[i].0, rolling: r });
        i = i + 1;
    }
    assert(out@ =~= history_spec(deltas@));
    Ok(out)
}

/// What the periodic monitor reports of a snapshot.
#[derive(Debug)]
pub struct MonitorReport {
    /// Statistics of all intervals.
    pub total: Stats,
    /// Best windows of the monitor's catalog sizes.
    pub bests: Vec<SummaryRow>,
    /// Statistics of the last `MIN_SUMMARY_INTERVALS` intervals, once there
    /// are that many.
    pub recent: Option<Stats>,
}

/// The periodic monitor's report: statistics of all intervals, the best
/// windows of the monitor's catalog and the statistics of the most recent
/// intervals.
pub fn monitor_report(deltas: &[(u64, bool)]) -> (r: Result<MonitorReport, StatsError>)
    ensures
        deltas@.len() < 2 ==> r == Err::<MonitorReport, StatsError>(StatsError::WindowTooShort),
        deltas@.len() >= 2 && total(deltas@) > u64::MAX ==> r == Err::<MonitorReport, StatsError>(
            StatsError::Overflow,
        ),
        deltas@.len() >= 2 && total(deltas@) <= u64::MAX ==> match first_error(
            deltas@,
            monitor_catalog_spec(),
        ) {
            Some(e) => r == Err::<MonitorReport, StatsError>(e),
            None => r matches Ok(m) && m.total == window_stats(deltas@) && m.bests@ == rows_spec(
                deltas@,
                monitor_catalog_spec(),
            ) && m.recent == (if deltas@.len() >= 20 {
                Some(window_stats(deltas@.subrange(deltas@.len() - 20, deltas@.len() as int)))
            } else {
                None::<Stats>
            }),
        },
{
    let n = deltas.len();
    if n < 2 {
        return Err(StatsError::WindowTooShort);
    }
    let sum = match sum_durations(deltas) {
        Some(s) => s,
        None => {
            return Err(StatsError::Overflow);
        },
    };
    let all = calc_stats(deltas, sum)?;
    let cat = monitor_catalog();
    let bests = best_rows(deltas, cat.as_slice())?;
    let recent = if n >= 20 {
        let tail = slice_subrange(deltas, n - 20, n);
        proof {
            let s = deltas@;
            assert(s.subrange(0, n as int) =~= s);
            lemma_range_split(s, 0, n - 20, n as int);
            lemma_range_nonneg(s, 0, n - 20);
        }
        let tail_sum = match sum_durations(tail) {
            Some(t) => t,
            None => {
                return Err(StatsError::Overflow);
            },
        };
        Some(calc_stats(tail, tail_sum)?)
    } else {
        None
    };
    Ok(MonitorReport { total: all, bests, recent })
}

} // verus!
