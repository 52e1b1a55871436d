//! Per-scene quality statistics over fixed-point scores: mean, median,
//! sample standard deviation and interpolated percentiles, all computed
//! exactly on integers in thousandths of a quality point.
//!
//! The percentile follows the rank `h = (n + 1/3) * tau + 1/3` with linear
//! interpolation between the two neighbouring order statistics; the standard
//! deviation uses the unbiased `n - 1` normalizer and is rounded down to the
//! nearest thousandth; the mean and interpolation steps round to the nearest
//! thousandth with halves up.

use vstd::prelude::*;
use crate::num_util::{spec_round_div, round_div, is_isqrt, isqrt};
use vstd::relations::{sorted_by, total_ordering};
use vstd::multiset::Multiset;

verus! {

/// Bound on the magnitude of any score this library carries, in thousandths
/// (ten thousand quality points: far beyond any perceptual metric's range).
pub const SCORE_LIMIT_MILLI: i64 = 10_000_000;

/// Frame-count bound per statistics computation, a machine limit that keeps
/// the squared-deviation sum inside 128 bits.
pub const STATS_LEN_LIMIT: usize = 0x10_0000;

/// The ordering by which scores are sorted.
pub open spec fn score_leq() -> spec_fn(i64, i64) -> bool {
    |a: i64, b: i64| a <= b
}

pub proof fn lemma_score_leq_total()
    ensures
        total_ordering(score_leq()),
{
    assert(vstd::relations::reflexive(score_leq())) by {
        assert forall|x: i64| #[trigger] score_leq()(x, x) by {}
    }
}

/// The scores in ascending order.
pub open spec fn sorted_milli(s: Seq<i64>) -> Seq<i64> {
    s.sort_by(score_leq())
}

/// Sum of the scores, as an unbounded integer.
pub open spec fn sum_milli(s: Seq<i64>) -> int
    decreases s.len(),
{
    if s.len() == 0 {
        0
    } else {
        sum_milli(s.drop_last()) + s.last()
    }
}

/// Sum of squared deviations, scaled by the count: `sum ((n*x - s) ^ 2)`
/// where `s` is the plain sum.  Dividing by `n * n * (n - 1)` gives the
/// unbiased sample variance.
pub open spec fn dev_sq_milli(t: Seq<i64>, s: int, n: int) -> int
    decreases t.len(),
{
    if t.len() == 0 {
        0
    } else {
        dev_sq_milli(t.drop_last(), s, n) + (n * t.last() - s) * (n * t.last() - s)
    }
}

/// Mean in thousandths, rounded to nearest.
pub open spec fn spec_mean_milli(s: Seq<i64>) -> int
    recommends
        s.len() > 0,
{
    spec_round_div(sum_milli(s), s.len() as int)
}

/// Median in thousandths: middle order statistic, or the rounded average of
/// the two middle ones.
pub open spec fn spec_median_milli(s: Seq<i64>) -> int
    recommends
        s.len() > 0,
{
    let t = sorted_milli(s);
    let n = s.len() as int;
    if n % 2 == 1 {
        t[n / 2] as int
    } else {
        spec_round_div(t[n / 2 - 1] + t[n / 2], 2)
    }
}

/// Interpolated percentile in thousandths, at rank
/// `h = ((3n + 1) p + 100) / 300` over the sorted scores.
pub open spec fn spec_percentile_milli(s: Seq<i64>, p: int) -> int
    recommends
        s.len() > 0,
        0 <= p <= 100,
{
    let t = sorted_milli(s);
    let n = s.len() as int;
    let hh = (3 * n + 1) * p + 100;
    let hf = hh / 300;
    if hf <= 0 {
        t[0] as int
    } else if hf >= n {
        t[n - 1] as int
    } else {
        t[hf - 1] + spec_round_div((hh - 300 * hf) * (t[hf] - t[hf - 1]), 300)
    }
}

/// The integer the standard deviation's square root is taken of: the
/// squared-deviation sum over `n * n * (n - 1)`.
pub open spec fn spec_var_q_milli(s: Seq<i64>) -> int
    recommends
        s.len() >= 2,
{
    let n = s.len() as int;
    dev_sq_milli(s, sum_milli(s), n) / (n * n * (n - 1))
}

/// Derived quality statistics of one scored scene and trial, in thousandths.
#[derive(Clone, Copy, Debug, PartialEq, Eq, Structural)]
pub struct QualityStats {
    pub mean_milli: i64,
    pub median_milli: i64,
    pub std_dev_milli: i64,
    pub percentile_5th_milli: i64,
    pub percentile_95th_milli: i64,
}

/// All scores a statistics computation accepts: bounded magnitude, bounded
/// count, at least one score.
pub open spec fn stats_input_ok(s: Seq<i64>) -> bool {
    &&& 1 <= s.len() <= STATS_LEN_LIMIT
    &&& forall|i: int|
        0 <= i < s.len() ==> -SCORE_LIMIT_MILLI <= #[trigger] s[i] <= SCORE_LIMIT_MILLI
}

/// What `compute_stats` promises of its result.
pub open spec fn stats_match(s: Seq<i64>, r: QualityStats) -> bool {
    &&& r.mean_milli == spec_mean_milli(s)
    &&& r.median_milli == spec_median_milli(s)
    &&& r.percentile_5th_milli == spec_percentile_milli(s, 5)
    &&& r.percentile_95th_milli == spec_percentile_milli(s, 95)
    &&& s.len() >= 2 ==> is_isqrt(spec_var_q_milli(s), r.std_dev_milli as int)
    &&& s.len() < 2 ==> r.std_dev_milli == 0
}

/// Insertion sort, proven to produce the ascending reordering.
pub fn sort_scores(input: &Vec<i64>) -> (out: Vec<i64>)
    ensures
        out@ == sorted_milli(input@),
        out@.len() == input@.len(),
{
    let mut out: Vec<i64> = Vec::new();
    let mut i: usize = 0;
    proof {
        assert(input@.subrange(0, 0) =~= Seq::<i64>::empty());
        Seq::<i64>::empty().to_multiset_ensures();
    }
    while i < input.len()
        invariant
            i <= input@.len(),
            out@.len() == i,
            out@.to_multiset() == input@.subrange(0, i as int).to_multiset(),
            sorted_by(out@, score_leq()),
        decreases input@.len() - i,
    {
        let x = input[i];
        let ghost prev = out@;
        let mut p: usize = 0;
        while p < out.len() && out[p] <= x
            invariant
                p <= out@.len(),
                forall|j: int| 0 <= j < p ==> out@[j] <= x,
                out@ == prev,
            decreases out@.len() - p,
        {
            p += 1;
        }
        out.insert(p, x);
        proof {
            assert(out@ =~= prev.insert(p as int, x));
            lemma_insert_to_multiset(prev, p as int, x);
            assert(input@.subrange(0, i as int + 1) =~= input@.subrange(0, i as int).push(x));
            input@.subrange(0, i as int).to_multiset_ensures();
            assert(sorted_by(out@, score_leq())) by {
                assert forall|a: int, b: int| 0 <= a < b < out@.len() implies score_leq()(
                    out@[a],
                    out@[b],
                ) by {
                    if b < p {
                    } else if a < p && b == p {
                        assert(out@[b] == x);
                    } else if a < p {
                        assert(out@[b] == prev[b - 1]);
                        if p < prev.len() {
                            assert(!(prev[p as int] <= x));
                        }
                    } else if a == p {
                        assert(out@[a] == x);
                        assert(out@[b] == prev[b - 1]);
                        assert(!(prev[p as int] <= x));
                        assert(sorted_by(prev, score_leq()));
                        if (p as int) < b - 1 {
                            assert(score_leq()(prev[p as int], prev[b - 1]));
                        }
                    } else {
                        assert(out@[a] == prev[a - 1]);
                        assert(out@[b] == prev[b - 1]);
                        assert(score_leq()(prev[a - 1], prev[b - 1]));
                    }
                }
            }
        }
        i += 1;
    }
    proof {
        assert(input@.subrange(0, input@.len() as int) =~= input@);
        lemma_score_leq_total();
        input@.lemma_sort_by_ensures(score_leq());
        vstd::seq_lib::lemma_sorted_unique(out@, input@.sort_by(score_leq()), score_leq());
    }
    out
}

/// Inserting anywhere adds exactly one occurrence to the multiset.
proof fn lemma_insert_to_multiset(s: Seq<i64>, p: int, x: i64)
    requires
        0 <= p <= s.len(),
    ensures
        s.insert(p, x).to_multiset() == s.to_multiset().insert(x),
{
    let left = s.subrange(0, p);
    let right = s.subrange(p, s.len() as int);
    assert(s.insert(p, x) =~= left + (seq![x] + right));
    assert(s =~= left + right);
    vstd::seq_lib::lemma_multiset_commutative(left, seq![x] + right);
    vstd::seq_lib::lemma_multiset_commutative(seq![x], right);
    vstd::seq_lib::lemma_multiset_commutative(left, right);
    assert(seq![x].to_multiset() == Multiset::<i64>::empty().insert(x)) by {
        assert(seq![x] =~= Seq::<i64>::empty().push(x));
        Seq::<i64>::empty().to_multiset_ensures();
    }
    assert(s.insert(p, x).to_multiset() =~= s.to_multiset().insert(x));
}

/// Compute the derived statistics of one batch of scores.
pub fn compute_stats(scores: &Vec<i64>) -> (r: QualityStats)
    requires
        stats_input_ok(scores@),
    ensures
        stats_match(scores@, r),
{
    let n: usize = scores.len();
    // Plain sum.
    let mut s_acc: i128 = 0;
    let mut i: usize = 0;
    while i < n
        invariant
            n == scores@.len(),
            stats_input_ok(scores@),
            i <= n,
            s_acc == sum_milli(scores@.subrange(0, i as int)),
            -(i as int) * SCORE_LIMIT_MILLI as int <= s_acc <= (i as int)
                * SCORE_LIMIT_MILLI as int,
        decreases n - i,
    {
        proof {
            assert(scores@.subrange(0, i as int + 1).drop_last() =~= scores@.subrange(0, i as int));
            let lim = SCORE_LIMIT_MILLI as int;
            let ii = i as int;
            let sa = s_acc as int;
            let x0 = scores@[i as int] as int;
            assert(-((ii + 1) * lim) <= sa + x0 <= (ii + 1) * lim) by (nonlinear_arith)
                requires
                    -(ii * lim) <= sa <= ii * lim,
                    -lim <= x0 <= lim,
                    0 <= ii,
            ;
        }
        s_acc = s_acc + scores[i] as i128;
        i += 1;
    }
    proof {
        assert(scores@.subrange(0, n as int) =~= scores@);
    }
    // Squared deviations, scaled by n.
    let mut d_acc: i128 = 0;
    let mut j: usize = 0;
    while j < n
        invariant
            n == scores@.len(),
            stats_input_ok(scores@),
            s_acc == sum_milli(scores@),
            -(n as int) * SCORE_LIMIT_MILLI as int <= s_acc <= (n as int)
                * SCORE_LIMIT_MILLI as int,
            j <= n,
            d_acc == dev_sq_milli(scores@.subrange(0, j as int), s_acc as int, n as int),
            0 <= d_acc <= (j as int) * 0x10_0000_0000_0000_0000_0000_0000i128 as int,
        decreases n - j,
    {
        proof {
            assert(scores@.subrange(0, j as int + 1).drop_last() =~= scores@.subrange(0, j as int));
            let lim = SCORE_LIMIT_MILLI as int;
            let nn = n as int;
            let x0 = scores@[j as int] as int;
            assert(-(nn * lim) <= nn * x0 <= nn * lim) by (nonlinear_arith)
                requires
                    -lim <= x0 <= lim,
                    0 <= nn,
            ;
            assert(nn * lim <= 0x10_0000i128 as int * lim) by (nonlinear_arith)
                requires
                    0 <= nn <= 0x10_0000i128 as int,
                    0 < lim,
            ;
        }
        let dev: i128 = n as i128 * scores[j] as i128 - s_acc;
        proof {
            let lim = SCORE_LIMIT_MILLI as int;
            let nn = n as int;
            // Each deviation is at most 2 * n * lim in magnitude, so its
            // square fits well under the loop bound term.
            assert(0 <= dev as int * dev as int <= 0x10_0000_0000_0000_0000_0000_0000i128 as int)
                by (nonlinear_arith)
                requires
                    -(2 * nn * lim) <= dev as int <= 2 * nn * lim,
                    0 <= nn <= STATS_LEN_LIMIT as int,
                    lim == 10_000_000,
                    STATS_LEN_LIMIT == 0x10_0000usize,
            ;
            assert((j as int + 1) * 0x10_0000_0000_0000_0000_0000_0000i128 as int == (j as int)
                * 0x10_0000_0000_0000_0000_0000_0000i128 as int
                + 0x10_0000_0000_0000_0000_0000_0000i128 as int) by (nonlinear_arith);
            assert((n as int) * 0x10_0000_0000_0000_0000_0000_0000i128 as int
                <= 0x10_0000i128 as int * 0x10_0000_0000_0000_0000_0000_0000i128 as int)
                by (nonlinear_arith)
                requires
                    0 <= n as int <= 0x10_0000i128 as int,
            ;
        }
        d_acc = d_acc + dev * dev;
        j += 1;
    }
    proof {
        assert(scores@.subrange(0, n as int) =~= scores@);
    }
    // Order statistics.
    let ss = sort_scores(scores);
    proof {
        lemma_score_leq_total();
        scores@.lemma_sort_by_ensures(score_leq());
        scores@.to_multiset_ensures();
        ss@.to_multiset_ensures();
        assert forall|k: int| 0 <= k < ss@.len() implies -SCORE_LIMIT_MILLI <= #[trigger] ss@[k]
            <= SCORE_LIMIT_MILLI by {
            assert(ss@.to_multiset().count(ss@[k]) > 0);
            assert(scores@.contains(ss@[k]));
        }
    }
    let mean = round_div(s_acc, n as i128);
    proof {
        crate::num_util::lemma_round_div_close(s_acc as int, n as int);
        let m = spec_round_div(s_acc as int, n as int);
        let lim = SCORE_LIMIT_MILLI as int;
        let nn = n as int;
        assert(-lim - 1 <= m <= lim + 1) by (nonlinear_arith)
            requires
                1 <= nn,
                -(nn * lim) <= s_acc as int <= nn * lim,
                2 * (s_acc as int - m * nn) < nn,
                2 * (s_acc as int - m * nn) >= -nn,
        ;
    }
    let median: i64 = if n % 2 == 1 {
        ss[n / 2]
    } else {
        proof {
            crate::num_util::lemma_round_div_close(ss@[n as int / 2 - 1] + ss@[n as int / 2], 2);
        }
        let mid = round_div(ss[n / 2 - 1] as i128 + ss[n / 2] as i128, 2);
        mid as i64
    };
    let p5 = percentile_from_sorted(&ss, 5);
    let p95 = percentile_from_sorted(&ss, 95);
    let std_dev: i64 = if n >= 2 {
        let n1: i128 = n as i128;
        proof {
            let nn = n as int;
            assert(1 <= nn * nn && nn * nn <= 0x100_0000_0000i128 as int && 1 <= (nn * nn) * (nn
                - 1) && (nn * nn) * (nn - 1) <= 0x1_0000_0000_0000_0000i128 as int)
                by (nonlinear_arith)
                requires
                    2 <= nn <= 0x10_0000,
            ;
        }
        let nsq: i128 = n1 * n1;
        let b: i128 = nsq * (n1 - 1);
        let q = crate::num_util::floor_div(d_acc, b);
        proof {
            crate::num_util::lemma_floor_div_bounds(d_acc as int, b as int);
            assert(d_acc as int <= 0x100_0000_0000_0000_0000_0000_0000_0000i128 as int);
        }
        let r = isqrt(q as u128);
        proof {
            let qq = q as int;
            let rr = r as int;
            assert(rr <= 0x1000_0000_0000_0000i128 as int) by (nonlinear_arith)
                requires
                    0 <= rr,
                    rr * rr <= qq,
                    qq <= 0x100_0000_0000_0000_0000_0000_0000_0000i128 as int,
            ;
        }
        r as i64
    } else {
        0
    };
    QualityStats {
        mean_milli: mean as i64,
        median_milli: median,
        std_dev_milli: std_dev,
        percentile_5th_milli: p5,
        percentile_95th_milli: p95,
    }
}

/// Interpolated percentile over already-sorted scores.
fn percentile_from_sorted(ss: &Vec<i64>, p: u64) -> (r: i64)
    requires
        1 <= ss@.len() <= STATS_LEN_LIMIT,
        0 <= p <= 100,
        forall|i: int|
            0 <= i < ss@.len() ==> -SCORE_LIMIT_MILLI <= #[trigger] ss@[i] <= SCORE_LIMIT_MILLI,
    ensures
        ({
            let t = ss@;
            let n = t.len() as int;
            let hh = (3 * n + 1) * (p as int) + 100;
            let hf = hh / 300;
            if hf <= 0 {
                r == t[0]
            } else if hf >= n {
                r == t[n - 1]
            } else {
                r == t[hf - 1] + spec_round_div((hh - 300 * hf) * (t[hf] - t[hf - 1]), 300)
            }
        }),
{
    let n = ss.len() as u64;
    proof {
        assert((3 * (n as int) + 1) * (p as int) + 100 <= 0x2000_0000) by (nonlinear_arith)
            requires
                1 <= n as int <= STATS_LEN_LIMIT as int,
                0 <= p as int <= 100,
                STATS_LEN_LIMIT == 0x10_0000usize,
        ;
    }
    let hh: u64 = (3 * n + 1) * p + 100;
    let hf: u64 = hh / 300;
    if hf == 0 {
        ss[0]
    } else if hf >= n {
        ss[ss.len() - 1]
    } else {
        let a = ss[(hf - 1) as usize];
        let b = ss[hf as usize];
        proof {
            vstd::arithmetic::div_mod::lemma_fundamental_div_mod(hh as int, 300);
            vstd::arithmetic::div_mod::lemma_mod_division_less_than_divisor(hh as int, 300);
            assert(0 <= hh as int - 300 * (hf as int) < 300);
        }
        let d1: i128 = (hh - 300 * hf) as i128;
        let d2: i128 = b as i128 - a as i128;
        proof {
            assert(-(2 * SCORE_LIMIT_MILLI as int * 300) <= d1 as int * d2 as int <= 2
                * SCORE_LIMIT_MILLI as int * 300) by (nonlinear_arith)
                requires
                    0 <= d1 as int && (d1 as int) < 300,
                    -(2 * SCORE_LIMIT_MILLI as int) <= d2 as int <= 2 * SCORE_LIMIT_MILLI as int,
            ;
        }
        let frac: i128 = d1 * d2;
        proof {
            crate::num_util::lemma_round_div_close(frac as int, 300);
        }
        let add = round_div(frac, 300);
        proof {
            let d = spec_round_div(frac as int, 300);
            assert(-(2 * SCORE_LIMIT_MILLI as int) - 1 <= d <= 2 * SCORE_LIMIT_MILLI as int + 1)
                by (nonlinear_arith)
                requires
                    -(2 * SCORE_LIMIT_MILLI as int * 300) <= frac as int <= 2
                        * SCORE_LIMIT_MILLI as int * 300,
                    2 * (frac as int - d * 300) < 300,
                    2 * (frac as int - d * 300) >= -300,
            ;
        }
        a + add as i64
    }
}

} // verus!
