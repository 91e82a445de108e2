//! Best-of-window results across a catalog of window sizes.
use vstd::prelude::*;
use crate::stats::{Stats, StatsError, window_stats, lemma_balance_bounds};
use crate::scan::{calc_stats_windows, num_windows, windows_fit, range_total};
use crate::best::{
    best_tempo, best_ur, best_zx, first_best_tempo, first_best_ur, first_best_zx, all_balanced,
};

verus! {

/// Which metric a best-of-window row was chosen by.
#[derive(Clone, Copy, Debug, PartialEq, Eq, Structural)]
pub enum MetricKind {
    /// Highest tempo.
    Tempo,
    /// Lowest consistency score.
    Consistency,
    /// Balance closest to zero.
    Balance,
}

/// The best window of one size by one metric.
#[derive(Clone, Copy, Debug, PartialEq, Eq, Structural)]
pub struct SummaryRow {
    pub window: u64,
    pub kind: MetricKind,
    pub stats: Stats,
}

/// The statistics of every window position of a scan of `s`.
pub open spec fn scan_spec(s: Seq<(u64, bool)>, w: int, step: int) -> Seq<Stats> {
    Seq::new(
        num_windows(s.len() as int, w, step) as nat,
        |k: int| window_stats(s.subrange(k * step, k * step + w)),
    )
}

/// The row for the window chosen by `pick`, if any.
pub open spec fn opt_row(v: Seq<Stats>, pick: Option<int>, w: u64, kind: MetricKind) -> Seq<
    SummaryRow,
> {
    match pick {
        None => Seq::empty(),
        Some(i) => seq![SummaryRow { window: w, kind, stats: v[i] }],
    }
}

/// The rows of one catalog entry: none when the data is shorter than the
/// window, else the best window by tempo, by consistency and by balance.
pub open spec fn rows_for(s: Seq<(u64, bool)>, entry: (u64, u64)) -> Seq<SummaryRow> {
    let (w, step) = entry;
    if s.len() < w {
        Seq::empty()
    } else {
        let v = scan_spec(s, w as int, step as int);
        opt_row(v, first_best_tempo(v), w, MetricKind::Tempo) + opt_row(
            v,
            first_best_ur(v),
            w,
            MetricKind::Consistency,
        ) + opt_row(v, first_best_zx(v), w, MetricKind::Balance)
    }
}

/// The rows of a whole catalog, entry by entry.
pub open spec fn rows_spec(s: Seq<(u64, bool)>, cat: Seq<(u64, u64)>) -> Seq<SummaryRow>
    decreases cat.len(),
{
    if cat.len() == 0 {
        Seq::empty()
    } else {
        rows_spec(s, cat.drop_last()) + rows_for(s, cat.last())
    }
}

/// Why scanning one catalog entry fails, if it does.
pub open spec fn entry_error(s: Seq<(u64, bool)>, entry: (u64, u64)) -> Option<StatsError> {
    let (w, step) = entry;
    if s.len() < w {
        None
    } else if w < 2 {
        Some(StatsError::WindowTooShort)
    } else if step == 0 {
        Some(StatsError::ZeroStep)
    } else if !windows_fit(s, w as int, step as int) {
        Some(StatsError::Overflow)
    } else {
        None
    }
}

/// The error of the first catalog entry that fails, if any.
pub open spec fn first_error(s: Seq<(u64, bool)>, cat: Seq<(u64, u64)>) -> Option<StatsError>
    decreases cat.len(),
{
    if cat.len() == 0 {
        None
    } else {
        match first_error(s, cat.drop_last()) {
            Some(e) => Some(e),
            None => entry_error(s, cat.last()),
        }
    }
}

proof fn lemma_take_last<T>(v: Seq<T>, i: int)
    requires
        0 <= i < v.len(),
    ensures
        v.take(i + 1).drop_last() == v.take(i),
        v.take(i + 1).last() == v[i],
{
    assert(v.take(i + 1).drop_last() =~= v.take(i));
}

/// Every row reported for a catalog is for one of its window sizes, and never
/// for a window longer than the data.
pub proof fn lemma_rows_within_data(s: Seq<(u64, bool)>, cat: Seq<(u64, u64)>)
    ensures
        forall|i: int|
            0 <= i < rows_spec(s, cat).len() ==> {
                let row = #[trigger] rows_spec(s, cat)[i];
                &&& row.window <= s.len()
                &&& exists|j: int| 0 <= j < cat.len() && (#[trigger] cat[j]).0 == row.window
            },
    decreases cat.len(),
{
    if cat.len() > 0 {
        let p = cat.drop_last();
        lemma_rows_within_data(s, p);
        let a = rows_spec(s, p);
        let b = rows_for(s, cat.last());
        assert forall|i: int| 0 <= i < rows_spec(s, cat).len() implies {
            let row = #[trigger] rows_spec(s, cat)[i];
            &&& row.window <= s.len()
            &&& exists|j: int| 0 <= j < cat.len() && (#[trigger] cat[j]).0 == row.window
        } by {
            if i < a.len() {
                assert(rows_spec(s, cat)[i] == a[i]);
                let j = choose|j: int| 0 <= j < p.len() && (#[trigger] p[j]).0 == a[i].window;
                assert(cat[j] == p[j]);
            } else {
                assert(rows_spec(s, cat)[i] == b[i - a.len()]);
                assert(cat[cat.len() - 1] == cat.last());
            }
        }
    }
}

proof fn lemma_scan_balanced(s: Seq<(u64, bool)>, w: int, step: int)
    requires
        w >= 2,
        step > 0,
        windows_fit(s, w, step),
    ensures
        all_balanced(scan_spec(s, w, step)),
{
    let v = scan_spec(s, w, step);
    assert forall|k: int| 0 <= k < v.len() implies (#[trigger] v[k]).sum_x <= v[k].sum by {
        assert(range_total(s, k * step, k * step + w) <= u64::MAX);
        assert(k * step + w <= s.len()) by (nonlinear_arith)
            requires k < num_windows(s.len() as int, w, step), step > 0, w <= s.len(),
                num_windows(s.len() as int, w, step) == (s.len() - w) / step + 1;
        assert(0 <= k * step) by (nonlinear_arith)
            requires 0 <= k, step > 0;
        lemma_balance_bounds(s.subrange(k * step, k * step + w));
    }
}

/// For each catalog entry `(window, step)` whose window fits in `deltas`,
/// scans `deltas` and reports the best window by tempo, by consistency and
/// by balance. Entries with a window longer than the data are skipped.
pub fn best_rows(deltas: &[(u64, bool)], catalog: &[(u64, u64)]) -> (r: Result<
    Vec<SummaryRow>,
    StatsError,
>)
    ensures
        first_error(deltas@, catalog@) matches Some(e) ==> r == Err::<Vec<SummaryRow>, StatsError>(e),
        first_error(deltas@, catalog@) is None ==> (r matches Ok(v) && v@ == rows_spec(
            deltas@,
            catalog@,
        )),
{
    let mut out: Vec<SummaryRow> = Vec::new();
    let mut i: usize = 0;
    while i < catalog.len()
        invariant
            0 <= i <= catalog@.len(),
            first_error(deltas@, catalog@.take(i as int)) is None,
            out@ == rows_spec(deltas@, catalog@.take(i as int)),
        decreases catalog@.len() - i,
    {
        proof {
            lemma_take_last(catalog@, i as int);
        }
        let (w, step) = catalog[i];
        if (deltas.len() as u64) < w {
            i = i + 1;
            continue;
        }
        let v = match calc_stats_windows(deltas, w, step) {
            Ok(v) => v,
            Err(e) => {
                proof {
                    lemma_first_error_prefix(deltas@, catalog@, i as int + 1);
                }
                return Err(e);
            },
        };
        proof {
            assert(v@ =~= scan_spec(deltas@, w as int, step as int));
            lemma_scan_balanced(deltas@, w as int, step as int);
        }
        let vs = v.as_slice();
        if let Some(b) = best_tempo(vs) {
            out.push(SummaryRow { window: w, kind: MetricKind::Tempo, stats: v[b] });
        }
        if let Some(b) = best_ur(vs) {
            out.push(SummaryRow { window: w, kind: MetricKind::Consistency, stats: v[b] });
        }
        if let Some(b) = best_zx(vs) {
            out.push(SummaryRow { window: w, kind: MetricKind::Balance, stats: v[b] });
        }
        proof {
            assert(out@ =~= rows_spec(deltas@, catalog@.take(i as int)) + rows_for(deltas@, (w, step)));
        }
        i = i + 1;
    }
    proof {
        assert(catalog@.take(catalog@.len() as int) =~= catalog@);
    }
    Ok(out)
}

/// Once a prefix of the catalog fails, the whole catalog fails the same way.
proof fn lemma_first_error_prefix(s: Seq<(u64, bool)>, cat: Seq<(u64, u64)>, i: int)
    requires
        0 <= i <= cat.len(),
        first_error(s, cat.take(i)) is Some,
    ensures
        first_error(s, cat) == first_error(s, cat.take(i)),
    decreases cat.len() - i,
{
    if i < cat.len() {
        lemma_take_last(cat, i);
        lemma_first_error_prefix(s, cat, i + 1);
    } else {
        assert(cat.take(i) =~= cat);
    }
}

} // verus!
