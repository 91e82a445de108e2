//! Choosing the best window of a scan by each metric. Ties go to the
//! earliest window.
use vstd::prelude::*;
use crate::stats::Stats;

verus! {

/// `a` has a strictly higher tempo than `b` (tempo falls as the mean grows;
/// a zero mean has tempo zero).
pub open spec fn tempo_gt(a: Stats, b: Stats) -> bool {
    a.avg > 0 && (b.avg == 0 || a.avg < b.avg)
}

/// `a` has a strictly lower consistency score than `b`, both windows
/// holding the same number of intervals.
pub open spec fn ur_lt(a: Stats, b: Stats) -> bool {
    a.sq_dev < b.sq_dev
}

/// Distance of the balance from zero, scaled by `2 * sum`: `|2 * sum_x - sum|`.
pub open spec fn balance_dev(a: Stats) -> int {
    if 2 * a.sum_x >= a.sum {
        2 * a.sum_x - a.sum
    } else {
        a.sum - 2 * a.sum_x
    }
}

/// `a`'s balance is strictly closer to zero than `b`'s; both are defined.
pub open spec fn zx_lt(a: Stats, b: Stats) -> bool {
    balance_dev(a) * b.sum < balance_dev(b) * a.sum
}

/// A window has a defined balance when its durations do not sum to zero.
pub open spec fn zx_defined(a: Stats) -> bool {
    a.sum > 0
}

/// Index of the first window with the highest tempo.
pub open spec fn first_best_tempo(v: Seq<Stats>) -> Option<int>
    decreases v.len(),
{
    if v.len() == 0 {
        None
    } else {
        match first_best_tempo(v.drop_last()) {
            None => Some(v.len() - 1),
            Some(b) => if tempo_gt(v.last(), v[b]) {
                Some(v.len() - 1)
            } else {
                Some(b)
            },
        }
    }
}

/// Index of the first window with the lowest consistency score.
pub open spec fn first_best_ur(v: Seq<Stats>) -> Option<int>
    decreases v.len(),
{
    if v.len() == 0 {
        None
    } else {
        match first_best_ur(v.drop_last()) {
            None => Some(v.len() - 1),
            Some(b) => if ur_lt(v.last(), v[b]) {
                Some(v.len() - 1)
            } else {
                Some(b)
            },
        }
    }
}

/// Index of the first window with a defined balance closest to zero.
pub open spec fn first_best_zx(v: Seq<Stats>) -> Option<int>
    decreases v.len(),
{
    if v.len() == 0 {
        None
    } else if !zx_defined(v.last()) {
        first_best_zx(v.drop_last())
    } else {
        match first_best_zx(v.drop_last()) {
            None => Some(v.len() - 1),
            Some(b) => if zx_lt(v.last(), v[b]) {
                Some(v.len() - 1)
            } else {
                Some(b)
            },
        }
    }
}

/// Every window's `x` total is part of its whole total.
pub open spec fn all_balanced(v: Seq<Stats>) -> bool {
    forall|i: int| 0 <= i < v.len() ==> (#[trigger] v[i]).sum_x <= v[i].sum
}

proof fn lemma_take_last(v: Seq<Stats>, i: int)
    requires
        0 <= i < v.len(),
    ensures
        v.take(i + 1).drop_last() == v.take(i),
        v.take(i + 1).last() == v[i],
{
    assert(v.take(i + 1).drop_last() =~= v.take(i));
}

proof fn lemma_best_tempo_range(v: Seq<Stats>)
    ensures
        first_best_tempo(v) is None <==> v.len() == 0,
        first_best_tempo(v) matches Some(b) ==> 0 <= b < v.len(),
    decreases v.len(),
{
    if v.len() > 0 {
        lemma_best_tempo_range(v.drop_last());
    }
}

proof fn lemma_best_ur_range(v: Seq<Stats>)
    ensures
        first_best_ur(v) is None <==> v.len() == 0,
        first_best_ur(v) matches Some(b) ==> 0 <= b < v.len(),
    decreases v.len(),
{
    if v.len() > 0 {
        lemma_best_ur_range(v.drop_last());
    }
}

proof fn lemma_best_zx_range(v: Seq<Stats>)
    ensures
        first_best_zx(v) matches Some(b) ==> 0 <= b < v.len() && zx_defined(v[b]),
    decreases v.len(),
{
    if v.len() > 0 {
        lemma_best_zx_range(v.drop_last());
    }
}

/// The tempo pick has the highest tempo of all windows, and every earlier
/// window's tempo is strictly lower.
pub proof fn lemma_best_tempo_is_first_max(v: Seq<Stats>)
    ensures
        first_best_tempo(v) matches Some(b) ==> {
            &&& 0 <= b < v.len()
            &&& forall|j: int| 0 <= j < v.len() ==> !tempo_gt(#[trigger] v[j], v[b])
            &&& forall|j: int| 0 <= j < b ==> tempo_gt(v[b], #[trigger] v[j])
        },
    decreases v.len(),
{
    if v.len() > 0 {
        let p = v.drop_last();
        lemma_best_tempo_is_first_max(p);
        lemma_best_tempo_range(p);
        assert forall|j: int| 0 <= j < p.len() implies #[trigger] p[j] == v[j] by {}
        let l = v.last();
        assert(l == v[v.len() - 1]);
        match first_best_tempo(p) {
            None => {},
            Some(b0) => {
                if tempo_gt(l, v[b0]) {
                    assert forall|j: int| 0 <= j < v.len() implies !tempo_gt(#[trigger] v[j], l) by {
                        if j < p.len() {
                            assert(!tempo_gt(p[j], p[b0]));
                        }
                    }
                    assert forall|j: int| 0 <= j < v.len() - 1 implies tempo_gt(l, #[trigger] v[j]) by {
                        assert(!tempo_gt(p[j], p[b0]));
                    }
                } else {
                    assert forall|j: int| 0 <= j < v.len() implies !tempo_gt(#[trigger] v[j], v[b0]) by {
                        if j < p.len() {
                            assert(!tempo_gt(p[j], p[b0]));
                        }
                    }
                    assert forall|j: int| 0 <= j < b0 implies tempo_gt(v[b0], #[trigger] v[j]) by {
                        assert(tempo_gt(p[b0], p[j]));
                    }
                }
            },
        }
    }
}

/// The consistency pick has the lowest deviation of all windows, and every
/// earlier window's deviation is strictly higher.
pub proof fn lemma_best_ur_is_first_min(v: Seq<Stats>)
    ensures
        first_best_ur(v) matches Some(b) ==> {
            &&& 0 <= b < v.len()
            &&& forall|j: int| 0 <= j < v.len() ==> !ur_lt(#[trigger] v[j], v[b])
            &&& forall|j: int| 0 <= j < b ==> ur_lt(v[b], #[trigger] v[j])
        },
    decreases v.len(),
{
    if v.len() > 0 {
        let p = v.drop_last();
        lemma_best_ur_is_first_min(p);
        lemma_best_ur_range(p);
        assert forall|j: int| 0 <= j < p.len() implies #[trigger] p[j] == v[j] by {}
        let l = v.last();
        assert(l == v[v.len() - 1]);
        match first_best_ur(p) {
            None => {},
            Some(b0) => {
                if ur_lt(l, v[b0]) {
                    assert forall|j: int| 0 <= j < v.len() implies !ur_lt(#[trigger] v[j], l) by {
                        if j < p.len() {
                            assert(!ur_lt(p[j], p[b0]));
                        }
                    }
                    assert forall|j: int| 0 <= j < v.len() - 1 implies ur_lt(l, #[trigger] v[j]) by {
                        assert(!ur_lt(p[j], p[b0]));
                    }
                } else {
                    assert forall|j: int| 0 <= j < v.len() implies !ur_lt(#[trigger] v[j], v[b0]) by {
                        if j < p.len() {
                            assert(!ur_lt(p[j], p[b0]));
                        }
                    }
                    assert forall|j: int| 0 <= j < b0 implies ur_lt(v[b0], #[trigger] v[j]) by {
                        assert(ur_lt(p[b0], p[j]));
                    }
                }
            },
        }
    }
}

/// The balance pick has a defined balance closest to zero of all windows
/// with one, and every earlier such window's balance is strictly farther.
pub proof fn lemma_best_zx_is_first_min(v: Seq<Stats>)
    ensures
        first_best_zx(v) is None ==> forall|j: int| 0 <= j < v.len() ==> !zx_defined(#[trigger] v[j]),
        first_best_zx(v) matches Some(b) ==> {
            &&& 0 <= b < v.len()
            &&& zx_defined(v[b])
            &&& forall|j: int| 0 <= j < v.len() && zx_defined(#[trigger] v[j]) ==> !zx_lt(v[j], v[b])
            &&& forall|j: int| 0 <= j < b && zx_defined(#[trigger] v[j]) ==> zx_lt(v[b], v[j])
        },
    decreases v.len(),
{
    if v.len() > 0 {
        let p = v.drop_last();
        assert forall|j: int| 0 <= j < p.len() implies #[trigger] p[j] == v[j] by {}
        lemma_best_zx_is_first_min(p);
        lemma_best_zx_range(p);
        let l = v.last();
        assert(l == v[v.len() - 1]);
        if zx_defined(l) {
            match first_best_zx(p) {
                None => {
                    assert forall|j: int| 0 <= j < v.len() - 1 && zx_defined(#[trigger] v[j]) implies false by {
                        assert(!zx_defined(p[j]));
                    }
                },
                Some(b) => {
                    let pb = p[b];
                    if zx_lt(l, pb) {
                        assert forall|j: int| 0 <= j < v.len() && zx_defined(#[trigger] v[j]) implies !zx_lt(v[j], l) by {
                            if j < p.len() {
                                assert(!zx_lt(p[j], pb));
                                lemma_zx_order(v[j], pb, l);
                            } else {
                                assert(!(balance_dev(l) * l.sum < balance_dev(l) * l.sum));
                            }
                        }
                        assert forall|j: int| 0 <= j < v.len() - 1 && zx_defined(#[trigger] v[j]) implies zx_lt(l, v[j]) by {
                            assert(!zx_lt(p[j], pb));
                            lemma_zx_order(v[j], pb, l);
                        }
                    } else {
                        assert forall|j: int| 0 <= j < v.len() && zx_defined(#[trigger] v[j]) implies !zx_lt(v[j], v[b]) by {
                            if j < p.len() {
                                assert(!zx_lt(p[j], p[b]));
                            }
                        }
                        assert forall|j: int| 0 <= j < b && zx_defined(#[trigger] v[j]) implies zx_lt(v[b], v[j]) by {
                            assert(zx_lt(p[b], p[j]));
                        }
                    }
                },
            }
        } else {
            match first_best_zx(p) {
                None => {
                    assert forall|j: int| 0 <= j < v.len() && zx_defined(#[trigger] v[j]) implies false by {
                        if j < p.len() {
                            assert(!zx_defined(p[j]));
                        }
                    }
                },
                Some(b) => {
                    assert forall|j: int| 0 <= j < v.len() && zx_defined(#[trigger] v[j]) implies !zx_lt(v[j], v[b]) by {
                        assert(!zx_lt(p[j], p[b]));
                    }
                    assert forall|j: int| 0 <= j < b && zx_defined(#[trigger] v[j]) implies zx_lt(v[b], v[j]) by {
                        assert(zx_lt(p[b], p[j]));
                    }
                },
            }
        }
    }
}

/// Closeness of balance to zero is a weak order on windows with a defined
/// balance: if `a` is not closer than `b` and `c` is closer than `b`, then
/// `c` is closer than `a`, and `a` is not closer than `c`.
proof fn lemma_zx_order(a: Stats, b: Stats, c: Stats)
    requires
        zx_defined(a),
        zx_defined(b),
        zx_defined(c),
        !zx_lt(a, b),
        zx_lt(c, b),
    ensures
        zx_lt(c, a),
        !zx_lt(a, c),
{
    let (da, db, dc) = (balance_dev(a), balance_dev(b), balance_dev(c));
    let (sa, sb, sc) = (a.sum as int, b.sum as int, c.sum as int);
    assert(dc * sa < da * sc) by (nonlinear_arith)
        requires da * sb >= db * sa, dc * sb < db * sc, sa > 0, sb > 0, sc > 0, da >= 0, db >= 0,
            dc >= 0;
}

/// Index of the first window with the highest tempo; `None` for no windows.
pub fn best_tempo(v: &[Stats]) -> (r: Option<usize>)
    ensures
        r matches Some(i) ==> Some(i as int) == first_best_tempo(v@) && i < v@.len(),
        r is None <==> first_best_tempo(v@) is None,
{
    let mut best: Option<usize> = None;
    let mut i: usize = 0;
    while i < v.len()
        invariant
            0 <= i <= v@.len(),
            best matches Some(b) ==> Some(b as int) == first_best_tempo(v@.take(i as int)),
            best is None <==> first_best_tempo(v@.take(i as int)) is None,
        decreases v@.len() - i,
    {
        proof {
            lemma_take_last(v@, i as int);
            lemma_best_tempo_range(v@.take(i as int));
        }
        match best {
            None => {
                best = Some(i);
            },
            Some(b) => {
                let a = v[i].avg;
                let c = v[b].avg;
                if a > 0 && (c == 0 || a < c) {
                    best = Some(i);
                }
            },
        }
        i = i + 1;
    }
    proof {
        assert(v@.take(v@.len() as int) =~= v@);
        lemma_best_tempo_range(v@);
    }
    best
}

/// Index of the first window with the lowest consistency score; `None` for
/// no windows.
pub fn best_ur(v: &[Stats]) -> (r: Option<usize>)
    ensures
        r matches Some(i) ==> Some(i as int) == first_best_ur(v@) && i < v@.len(),
        r is None <==> first_best_ur(v@) is None,
{
    let mut best: Option<usize> = None;
    let mut i: usize = 0;
    while i < v.len()
        invariant
            0 <= i <= v@.len(),
            best matches Some(b) ==> Some(b as int) == first_best_ur(v@.take(i as int)),
            best is None <==> first_best_ur(v@.take(i as int)) is None,
        decreases v@.len() - i,
    {
        proof {
            lemma_take_last(v@, i as int);
            lemma_best_ur_range(v@.take(i as int));
        }
        match best {
            None => {
                best = Some(i);
            },
            Some(b) => {
                if v[i].sq_dev < v[b].sq_dev {
                    best = Some(i);
                }
            },
        }
        i = i + 1;
    }
    proof {
        assert(v@.take(v@.len() as int) =~= v@);
        lemma_best_ur_range(v@);
    }
    best
}

/// `|2 * sum_x - sum|` of one window.
fn balance_dev_of(a: &Stats) -> (r: u64)
    requires
        a.sum_x <= a.sum,
    ensures
        r as int == balance_dev(*a),
{
    if a.sum_x >= a.sum - a.sum_x {
        a.sum_x - (a.sum - a.sum_x)
    } else {
        (a.sum - a.sum_x) - a.sum_x
    }
}

/// Index of the first window, among those with a defined balance, whose
/// balance is closest to zero; `None` when no window has one.
pub fn best_zx(v: &[Stats]) -> (r: Option<usize>)
    requires
        all_balanced(v@),
    ensures
        r matches Some(i) ==> Some(i as int) == first_best_zx(v@) && i < v@.len(),
        r is None <==> first_best_zx(v@) is None,
{
    let mut best: Option<usize> = None;
    let mut i: usize = 0;
    while i < v.len()
        invariant
            0 <= i <= v@.len(),
            all_balanced(v@),
            best matches Some(b) ==> Some(b as int) == first_best_zx(v@.take(i as int)),
            best is None <==> first_best_zx(v@.take(i as int)) is None,
        decreases v@.len() - i,
    {
        proof {
            lemma_take_last(v@, i as int);
            lemma_best_zx_range(v@.take(i as int));
        }
        if v[i].sum > 0 {
            match best {
                None => {
                    best = Some(i);
                },
                Some(b) => {
                    let da = balance_dev_of(&v[i]) as u128;
                    let db = balance_dev_of(&v[b]) as u128;
                    let sa = v[i].sum as u128;
                    let sb = v[b].sum as u128;
                    proof {
                        assert(da * sb <= u64::MAX as int * u64::MAX as int) by (nonlinear_arith)
                            requires 0 <= da <= u64::MAX, 0 <= sb <= u64::MAX;
                        assert(db * sa <= u64::MAX as int * u64::MAX as int) by (nonlinear_arith)
                            requires 0 <= db <= u64::MAX, 0 <= sa <= u64::MAX;
                    }
                    if da * sb < db * sa {
                        best = Some(i);
                    }
                },
            }
        }
        i = i + 1;
    }
    proof {
        assert(v@.take(v@.len() as int) =~= v@);
        lemma_best_zx_range(v@);
    }
    best
}

} // verus!
