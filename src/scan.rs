//! Sliding-window scan with an incrementally maintained window sum.
use vstd::prelude::*;
use vstd::slice::slice_subrange;
use crate::stats::{Stats, StatsError, calc_stats, total, window_stats};

verus! {

/// Number of window positions `0, step, 2*step, ...` with `offset + w <= len`.
pub open spec fn num_windows(len: int, w: int, step: int) -> int {
    if len < w || step <= 0 {
        0
    } else {
        (len - w) / step + 1
    }
}

/// Total of the durations of `s[lo..hi]`.
pub open spec fn range_total(s: Seq<(u64, bool)>, lo: int, hi: int) -> int {
    total(s.subrange(lo, hi))
}

/// Every window position's summed duration fits in 64 bits.
pub open spec fn windows_fit(s: Seq<(u64, bool)>, w: int, step: int) -> bool {
    forall|k: int|
        0 <= k < num_windows(s.len() as int, w, step) ==> #[trigger] range_total(s, k * step, k * step + w)
            <= u64::MAX
}

/// Totals over adjacent ranges add up.
pub proof fn lemma_range_split(s: Seq<(u64, bool)>, a: int, b: int, c: int)
    requires
        0 <= a <= b <= c <= s.len(),
    ensures
        range_total(s, a, c) == range_total(s, a, b) + range_total(s, b, c),
    decreases c - b,
{
    if b == c {
        assert(s.subrange(b, c).len() == 0);
        assert(s.subrange(a, c) =~= s.subrange(a, b));
    } else {
        lemma_range_split(s, a, b, c - 1);
        assert(s.subrange(a, c).drop_last() =~= s.subrange(a, c - 1));
        assert(s.subrange(b, c).drop_last() =~= s.subrange(b, c - 1));
    }
}

/// A range's total is not negative.
pub proof fn lemma_range_nonneg(s: Seq<(u64, bool)>, a: int, b: int)
    requires
        0 <= a <= b <= s.len(),
    ensures
        0 <= range_total(s, a, b),
    decreases b - a,
{
    if a < b {
        lemma_range_nonneg(s, a, b - 1);
        assert(s.subrange(a, b).drop_last() =~= s.subrange(a, b - 1));
    }
}

proof fn lemma_range_one(s: Seq<(u64, bool)>, a: int)
    requires
        0 <= a < s.len(),
    ensures
        range_total(s, a, a + 1) == s[a].0,
{
    let t = s.subrange(a, a + 1);
    assert(t.drop_last() =~= Seq::<(u64, bool)>::empty());
    assert(t.last() == s[a]);
    assert(total(t.drop_last()) == 0);
}

/// Advancing a window of `w` intervals by `step <= w` positions changes its
/// total by what enters at the leading edge less what leaves at the trailing
/// edge: the incremental sum equals the sum recomputed from scratch.
pub proof fn lemma_rolling_sum(s: Seq<(u64, bool)>, start: int, w: int, step: int)
    requires
        0 <= step <= w,
        step <= start,
        start + w <= s.len(),
    ensures
        range_total(s, start, start + w) == range_total(s, start - step, start - step + w)
            - range_total(s, start - step, start) + range_total(s, start - step + w, start + w),
{
    lemma_range_split(s, start - step, start, start - step + w);
    lemma_range_split(s, start, start - step + w, start + w);
}

/// Computes the statistics of each window of `window` intervals that starts
/// at offset `0, step, 2*step, ...` and ends within `deltas`, in order.
///
/// The window sum is kept incrementally between positions: only the `step`
/// intervals that leave and the `step` that enter are touched. Windows that
/// do not overlap (`step >= window`) are summed afresh.
pub fn calc_stats_windows(deltas: &[(u64, bool)], window: u64, step: u64) -> (r: Result<
    Vec<Stats>,
    StatsError,
>)
    ensures
        window < 2 ==> r == Err::<Vec<Stats>, StatsError>(StatsError::WindowTooShort),
        window >= 2 && step == 0 ==> r == Err::<Vec<Stats>, StatsError>(StatsError::ZeroStep),
        window >= 2 && step > 0 ==> (r == Err::<Vec<Stats>, StatsError>(StatsError::Overflow)
            <==> !windows_fit(deltas@, window as int, step as int)),
        window >= 2 && step > 0 && windows_fit(deltas@, window as int, step as int) ==> r is Ok,
        r is Ok ==> {
            let v = r->Ok_0@;
            &&& window >= 2 && step > 0
            &&& v.len() == num_windows(deltas@.len() as int, window as int, step as int)
            &&& forall|k: int|
                0 <= k < v.len() ==> #[trigger] v[k] == window_stats(
                    deltas@.subrange(k * step, k * step + window),
                )
        },
{
    if window < 2 {
        return Err(StatsError::WindowTooShort);
    }
    if step == 0 {
        return Err(StatsError::ZeroStep);
    }
    let ghost s = deltas@;
    let n = deltas.len();
    let len = n as u64;
    let mut out: Vec<Stats> = Vec::new();
    if len < window {
        return Ok(out);
    }
    let count = (len - window) / step + 1;
    proof {
        let ghost q: int = (len - window) as int / step as int;
        assert(q * step <= len - window) by (nonlinear_arith)
            requires q == (len - window) as int / step as int, step > 0, len >= window;
        assert(count - 1 == q);
    }
    let mut sum: u64 = 0;
    let mut k: u64 = 0;
    while k < count
        invariant
            s == deltas@,
            len == s.len(),
            n == len,
            window >= 2,
            step > 0,
            len >= window,
            count == num_windows(len as int, window as int, step as int),
            (count - 1) * step <= len - window,
            0 <= k <= count,
            out@.len() == k,
            forall|j: int|
                0 <= j < k ==> #[trigger] out@[j] == window_stats(
                    s.subrange(j * step, j * step + window),
                ),
            forall|j: int|
                0 <= j < k ==> #[trigger] range_total(s, j * step, j * step + window) <= u64::MAX,
            k > 0 ==> sum == range_total(s, (k - 1) * step, (k - 1) * step + window),
        decreases count - k,
    {
        proof {
            assert(k * step <= (count - 1) * step) by (nonlinear_arith)
                requires k <= count - 1, step > 0;
        }
        let start = k * step;
        let end = start + window;
        let ghost st = start as int;
        let ghost en = end as int;
        if k == 0 || step >= window {
            let mut acc: u64 = 0;
            let mut i: u64 = start;
            while i < end
                invariant
                    s == deltas@,
                    len == s.len(),
                    window >= 2,
                    step > 0,
                    count == num_windows(len as int, window as int, step as int),
                    k < count,
                    st == k * step,
                    en == st + window,
                    en <= len,
                    st <= i <= en,
                    st == start,
                    en == end,
                    acc == range_total(s, st, i as int),
                decreases end - i,
            {
                proof {
                    lemma_range_split(s, st, i as int, i as int + 1);
                    lemma_range_one(s, i as int);
                    lemma_range_split(s, st, i as int + 1, en);
                    lemma_range_nonneg(s, i as int + 1, en);
                }
                let d = deltas[i as usize].0;
                if d > u64::MAX - acc {
                    proof {
                        assert(range_total(s, k * step, k * step + window) > u64::MAX);
                    }
                    return Err(StatsError::Overflow);
                }
                acc = acc + d;
                i = i + 1;
            }
            sum = acc;
        } else {
            let ghost prev = st - step;
            proof {
                assert((k - 1) * step == k * step - step) by (nonlinear_arith);
            }
            let mut acc: u64 = sum;
            let mut i: u64 = 0;
            while i < step
                invariant
                    s == deltas@,
                    len == s.len(),
                    0 <= prev,
                    prev + step == st,
                    st == start,
                    en == end,
                    step < window,
                    en == st + window,
                    en <= len,
                    0 <= i <= step,
                    acc == range_total(s, prev + i, prev + window),
                decreases step - i,
            {
                proof {
                    lemma_range_split(s, prev + i, prev + i + 1, prev + window);
                    lemma_range_one(s, prev + i);
                    lemma_range_nonneg(s, prev + i + 1, prev + window);
                }
                acc = acc - deltas[(start - step + i) as usize].0;
                i = i + 1;
            }
            let mut j: u64 = 0;
            while j < step
                invariant
                    s == deltas@,
                    len == s.len(),
                    window >= 2,
                    step > 0,
                    count == num_windows(len as int, window as int, step as int),
                    k < count,
                    st == k * step,
                    0 <= prev,
                    prev + step == st,
                    st == start,
                    en == end,
                    step < window,
                    en == st + window,
                    en <= len,
                    0 <= j <= step,
                    acc == range_total(s, st, prev + window + j),
                decreases step - j,
            {
                proof {
                    lemma_range_split(s, st, prev + window + j, prev + window + j + 1);
                    lemma_range_one(s, prev + window + j);
                    lemma_range_split(s, st, prev + window + j + 1, en);
                    lemma_range_nonneg(s, prev + window + j + 1, en);
                }
                let d = deltas[(end - step + j) as usize].0;
                if d > u64::MAX - acc {
                    proof {
                        assert(range_total(s, k * step, k * step + window) > u64::MAX);
                    }
                    return Err(StatsError::Overflow);
                }
                acc = acc + d;
                j = j + 1;
            }
            proof {
                assert(prev + window + step == en);
            }
            sum = acc;
        }
        proof {
            assert(st <= en && en <= len && len == n);
        }
        let w = slice_subrange(deltas, start as usize, end as usize);
        proof {
            assert(w@ == s.subrange(k * step, k * step + window));
        }
        let st_k = match calc_stats(w, sum) {
            Ok(v) => v,
            Err(e) => {
                return Err(e);
            },
        };
        out.push(st_k);
        k = k + 1;
        proof {
            assert((k - 1) * step == st);
        }
    }
    proof {
        assert(windows_fit(s, window as int, step as int));
    }
    Ok(out)
}

} // verus!
