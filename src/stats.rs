//! Statistics of one contiguous window of intervals.
//!
//! An interval is `(duration, is_z)`: the time since the previous press and
//! which of the two channels produced it (`true` for the `z` channel, `false`
//! for the `x` channel). All statistics are kept exact, as integers; the
//! real-valued figures derived from them are
//!   tempo       = 60000 / avg / 4           (0 when avg == 0)
//!   consistency = sqrt(sq_dev / (count - 1)) * 10
//!   balance     = sum_x / sum - 1/2
use vstd::prelude::*;

verus! {

/// Sum of the durations of `s`.
pub open spec fn total(s: Seq<(u64, bool)>) -> int
    decreases s.len(),
{
    if s.len() == 0 {
        0
    } else {
        total(s.drop_last()) + s.last().0
    }
}

/// Sum of the durations of `s` that came from channel `ch`.
pub open spec fn channel_total(s: Seq<(u64, bool)>, ch: bool) -> int
    decreases s.len(),
{
    if s.len() == 0 {
        0
    } else if s.last().1 == ch {
        channel_total(s.drop_last(), ch) + s.last().0
    } else {
        channel_total(s.drop_last(), ch)
    }
}

/// Sum of the squared deviations of the durations of `s` from `a`.
pub open spec fn sq_dev_total(s: Seq<(u64, bool)>, a: int) -> int
    decreases s.len(),
{
    if s.len() == 0 {
        0
    } else {
        sq_dev_total(s.drop_last(), a) + (s.last().0 - a) * (s.last().0 - a)
    }
}

/// Sum of the squared durations of `s`.
pub open spec fn sq_total(s: Seq<(u64, bool)>) -> int
    decreases s.len(),
{
    if s.len() == 0 {
        0
    } else {
        sq_total(s.drop_last()) + s.last().0 * s.last().0
    }
}

/// Exact statistics of one window.
#[derive(Clone, Copy, Debug, PartialEq, Eq, Structural)]
pub struct Stats {
    /// Number of intervals in the window.
    pub count: u64,
    /// Sum of their durations.
    pub sum: u64,
    /// Sum of the durations that came from the `x` channel.
    pub sum_x: u64,
    /// Truncated mean duration, `sum / count`.
    pub avg: u64,
    /// Sum of the squared deviations of the durations from `avg`.
    pub sq_dev: u128,
}

/// Why statistics could not be computed.
#[derive(Clone, Copy, Debug, PartialEq, Eq, Structural)]
pub enum StatsError {
    /// A window needs at least two intervals for a sample deviation.
    WindowTooShort,
    /// A scan was asked to advance by zero intervals.
    ZeroStep,
    /// A window's summed duration does not fit in 64 bits.
    Overflow,
}

/// The statistics of window `w`, whose durations sum to at most `u64::MAX`.
pub open spec fn window_stats(w: Seq<(u64, bool)>) -> Stats {
    Stats {
        count: w.len() as u64,
        sum: total(w) as u64,
        sum_x: channel_total(w, false) as u64,
        avg: (total(w) / w.len() as int) as u64,
        sq_dev: sq_dev_total(w, total(w) / w.len() as int) as u128,
    }
}

impl Stats {
    /// Tempo, as the exact fraction `numerator / denominator` of beats per minute.
    pub open spec fn tempo_spec(self) -> (int, int) {
        if self.avg > 0 {
            (15000, self.avg as int)
        } else {
            (0, 1)
        }
    }

    /// Balance, as the exact fraction `numerator / denominator`; undefined
    /// (denominator 0) when the window's durations sum to zero.
    pub open spec fn balance_spec(self) -> (int, int) {
        (2 * self.sum_x - self.sum, 2 * self.sum)
    }

    /// Tempo in beats per minute as an exact fraction `(numerator, denominator)`.
    pub fn tempo(&self) -> (r: (u64, u64))
        ensures
            r.0 as int == self.tempo_spec().0,
            r.1 as int == self.tempo_spec().1,
    {
        if self.avg > 0 {
            (15000, self.avg)
        } else {
            (0, 1)
        }
    }

    /// Balance as an exact fraction `(numerator, denominator)`.
    pub fn balance(&self) -> (r: (i128, u128))
        requires
            self.sum_x <= self.sum,
        ensures
            r.0 as int == self.balance_spec().0,
            r.1 as int == self.balance_spec().1,
    {
        (2 * (self.sum_x as i128) - self.sum as i128, 2 * (self.sum as u128))
    }
}


proof fn lemma_constant_totals(w: Seq<(u64, bool)>, v: u64)
    requires
        forall|i: int| 0 <= i < w.len() ==> (#[trigger] w[i]).0 == v,
    ensures
        total(w) == w.len() * v,
        sq_dev_total(w, v as int) == 0,
    decreases w.len(),
{
    if w.len() > 0 {
        let p = w.drop_last();
        assert forall|i: int| 0 <= i < p.len() implies (#[trigger] p[i]).0 == v by {
            assert(p[i] == w[i]);
        }
        lemma_constant_totals(p, v);
        assert(w.last() == w[w.len() - 1]);
        assert(w.len() * v == p.len() * v + v) by (nonlinear_arith)
            requires w.len() == p.len() + 1;
    }
}

/// A window whose intervals all have the same duration has no deviation:
/// its consistency score is zero.
pub proof fn lemma_identical_durations(w: Seq<(u64, bool)>, v: u64)
    requires
        w.len() >= 2,
        forall|i: int| 0 <= i < w.len() ==> (#[trigger] w[i]).0 == v,
        total(w) <= u64::MAX,
    ensures
        window_stats(w).avg == v,
        window_stats(w).sq_dev == 0,
{
    lemma_constant_totals(w, v);
    let n = w.len() as int;
    assert((n * v) / n == v as int) by (nonlinear_arith)
        requires n > 0;
}

/// The balance of a window is zero when both channels contributed the same
/// total duration, and it always lies within `[-1/2, 1/2]`.
pub proof fn lemma_balance_bounds(w: Seq<(u64, bool)>)
    requires
        w.len() >= 1,
        total(w) <= u64::MAX,
    ensures
        window_stats(w).sum_x <= window_stats(w).sum,
        channel_total(w, false) == channel_total(w, true) ==> window_stats(w).balance_spec().0 == 0,
        -window_stats(w).balance_spec().1 <= 2 * window_stats(w).balance_spec().0
            <= window_stats(w).balance_spec().1,
{
    lemma_channels_split(w);
}

proof fn lemma_prefix(s: Seq<(u64, bool)>, i: int)
    requires
        0 <= i < s.len(),
    ensures
        s.take(i + 1).drop_last() == s.take(i),
        s.take(i + 1).last() == s[i],
{
    assert(s.take(i + 1).drop_last() =~= s.take(i));
}

/// The two channels' totals make up the whole, and neither is negative.
pub proof fn lemma_channels_split(s: Seq<(u64, bool)>)
    ensures
        total(s) == channel_total(s, false) + channel_total(s, true),
        0 <= channel_total(s, false),
        0 <= channel_total(s, true),
    decreases s.len(),
{
    if s.len() > 0 {
        lemma_channels_split(s.drop_last());
    }
}

proof fn lemma_sq_dev_expand(s: Seq<(u64, bool)>, a: int)
    ensures
        sq_dev_total(s, a) == sq_total(s) - 2 * a * total(s) + s.len() * a * a,
    decreases s.len(),
{
    if s.len() > 0 {
        let p = s.drop_last();
        let d = s.last().0 as int;
        lemma_sq_dev_expand(p, a);
        assert((d - a) * (d - a) == d * d - 2 * a * d + a * a) by (nonlinear_arith);
        assert(2 * a * total(s) == 2 * a * total(p) + 2 * a * d) by (nonlinear_arith)
            requires total(s) == total(p) + d;
        assert(s.len() * a * a == p.len() * a * a + a * a) by (nonlinear_arith)
            requires s.len() == p.len() + 1;
    }
}

proof fn lemma_sq_total_bound(s: Seq<(u64, bool)>)
    ensures
        0 <= total(s),
        0 <= sq_total(s) <= total(s) * total(s),
    decreases s.len(),
{
    if s.len() > 0 {
        let p = s.drop_last();
        let d = s.last().0 as int;
        lemma_sq_total_bound(p);
        let t = total(p);
        assert(sq_total(p) + d * d <= (t + d) * (t + d)) by (nonlinear_arith)
            requires 0 <= sq_total(p) <= t * t, 0 <= t, 0 <= d;
        assert(0 <= d * d) by (nonlinear_arith);
    }
}

proof fn lemma_sq_dev_nonneg_monotone(s: Seq<(u64, bool)>, a: int, i: int)
    requires
        0 <= i <= s.len(),
    ensures
        0 <= sq_dev_total(s.take(i), a) <= sq_dev_total(s, a),
    decreases s.len() - i,
{
    if i < s.len() {
        lemma_sq_dev_nonneg_monotone(s, a, i + 1);
        lemma_prefix(s, i);
        lemma_sq_dev_nonneg(s.take(i), a);
        let d = s[i].0 as int;
        assert(sq_dev_total(s.take(i + 1), a) == sq_dev_total(s.take(i), a) + (d - a) * (d - a));
        assert(0 <= (d - a) * (d - a)) by (nonlinear_arith);
    } else {
        assert(s.take(i) =~= s);
        lemma_sq_dev_nonneg(s, a);
    }
}

proof fn lemma_sq_dev_nonneg(s: Seq<(u64, bool)>, a: int)
    ensures
        0 <= sq_dev_total(s, a),
    decreases s.len(),
{
    if s.len() > 0 {
        lemma_sq_dev_nonneg(s.drop_last(), a);
        let d = s.last().0 as int;
        assert(0 <= (d - a) * (d - a)) by (nonlinear_arith);
    }
}

/// With the truncated mean of a window whose total fits in 64 bits, the
/// squared deviations sum to at most the square of the total.
proof fn lemma_sq_dev_bound(s: Seq<(u64, bool)>)
    requires
        s.len() > 0,
    ensures
        sq_dev_total(s, total(s) / s.len() as int) <= total(s) * total(s),
{
    let n = s.len() as int;
    let t = total(s);
    let a = t / n;
    lemma_sq_dev_expand(s, a);
    lemma_sq_total_bound(s);
    assert(n * a <= t) by (nonlinear_arith)
        requires a == t / n, n > 0, t >= 0;
    assert(0 <= a) by (nonlinear_arith)
        requires a == t / n, n > 0, t >= 0;
    assert(n * a * a <= t * a) by (nonlinear_arith)
        requires n * a <= t, 0 <= a;
    assert(0 <= t * a) by (nonlinear_arith)
        requires 0 <= t, 0 <= a;
    assert(2 * a * t == 2 * (t * a)) by (nonlinear_arith);
    assert(s.len() * a * a == n * a * a);
}

proof fn lemma_prefix_totals(s: Seq<(u64, bool)>, i: int)
    requires
        0 <= i <= s.len(),
    ensures
        0 <= channel_total(s.take(i), true) <= total(s.take(i)) <= total(s),
    decreases s.len() - i,
{
    lemma_channels_split(s.take(i));
    if i < s.len() {
        lemma_prefix_totals(s, i + 1);
        lemma_prefix(s, i);
    } else {
        assert(s.take(i) =~= s);
    }
}

/// Computes the statistics of `deltas`, whose durations sum to `sum`.
///
/// Fails with `WindowTooShort` exactly when the window holds fewer than two
/// intervals.
pub fn calc_stats(deltas: &[(u64, bool)], sum: u64) -> (r: Result<Stats, StatsError>)
    requires
        sum == total(deltas@),
    ensures
        deltas@.len() < 2 ==> r == Err::<Stats, StatsError>(StatsError::WindowTooShort),
        deltas@.len() >= 2 ==> r == Ok::<Stats, StatsError>(window_stats(deltas@)),
{
    let n = deltas.len();
    if n < 2 {
        return Err(StatsError::WindowTooShort);
    }
    let ghost s = deltas@;
    let count = n as u64;
    let avg = sum / count;

    let mut sum_z: u64 = 0;
    let mut i: usize = 0;
    while i < n
        invariant
            n == s.len(),
            deltas@ == s,
            sum == total(s),
            0 <= i <= n,
            sum_z == channel_total(s.take(i as int), true),
        decreases n - i,
    {
        proof {
            lemma_prefix(s, i as int);
            lemma_prefix_totals(s, i as int + 1);
        }
        if deltas[i].1 {
            sum_z = sum_z + deltas[i].0;
        }
        i = i + 1;
    }
    proof {
        assert(s.take(n as int) =~= s);
        lemma_channels_split(s);
    }
    let sum_x = sum - sum_z;

    let ghost a = avg as int;
    proof {
        lemma_sq_dev_bound(s);
        assert(total(s) * total(s) <= u64::MAX as int * u64::MAX as int) by (nonlinear_arith)
            requires 0 <= total(s) <= u64::MAX;
    }
    let mut sq: u128 = 0;
    let mut j: usize = 0;
    while j < n
        invariant
            n == s.len(),
            deltas@ == s,
            a == total(s) / n as int,
            avg as int == a,
            0 <= j <= n,
            sq == sq_dev_total(s.take(j as int), a),
            sq_dev_total(s, a) <= u64::MAX as int * u64::MAX as int,
        decreases n - j,
    {
        proof {
            lemma_prefix(s, j as int);
            lemma_sq_dev_nonneg_monotone(s, a, j as int + 1);
        }
        let d = deltas[j].0;
        let dev: u128 = if d >= avg { (d - avg) as u128 } else { (avg - d) as u128 };
        proof {
            assert(dev * dev == (d - a) * (d - a)) by (nonlinear_arith)
                requires dev == d - a || dev == a - d;
        }
        sq = sq + dev * dev;
        j = j + 1;
    }
    proof {
        assert(s.take(n as int) =~= s);
    }
    Ok(Stats { count, sum, sum_x, avg, sq_dev: sq })
}

} // verus!
