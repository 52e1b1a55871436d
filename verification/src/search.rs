//! The per-scene quantizer search: trial quantizers clamped into the active
//! range, the quality-vs-quantizer curve through the trial points, and the
//! solved quantizer for a target quality, clamped and rounded onto the
//! active encoder's grid.
//!
//! The curve is the unique polynomial of least degree through the trial
//! points with pairwise distinct compensated scores, evaluated at the target
//! exactly, as a rational number.  A fit with fewer than two distinct scores,
//! or one that is the zero polynomial, is degenerate and falls back to the
//! range's upper bound, the least aggressive compression.  All quantities
//! are fixed-point thousandths.

use vstd::prelude::*;
use crate::num_util::{spec_round_div, floor_div, round_div_big, lemma_mul_bound};
use crate::text::{spec_parse_milli, parse_milli};

verus! {

/// The supported encoder families.
#[derive(Clone, Copy, Debug, PartialEq, Eq, Structural)]
pub enum Encoder {
    SvtAv1,
    Rav1e,
}

/// The additive quality-compensation offset applied to a trial's mean score
/// before fitting, in thousandths: it corrects the known systematic gap
/// between the fast trial preset and the final preset.
pub open spec fn spec_comp_offset_milli(enc: Encoder) -> int {
    match enc {
        Encoder::SvtAv1 => 1000,
        Encoder::Rav1e => 2000,
    }
}

pub fn comp_offset_milli(enc: Encoder) -> (r: i64)
    ensures
        r == spec_comp_offset_milli(enc),
{
    match enc {
        Encoder::SvtAv1 => 1000,
        Encoder::Rav1e => 2000,
    }
}

/// Magnitude cap on scores entering the curve solver, in thousandths
/// (105 quality points; the perceptual metric tops out at 100).
pub const SOLVE_SCORE_CAP_MILLI: i64 = 105_000;

/// Cap on quantizers, in thousandths (260: above every encoder's scale).
pub const QUANT_CAP_MILLI: i64 = 260_000;

/// A closed quantizer interval in thousandths.
#[derive(Clone, Copy, Debug, PartialEq, Eq, Structural)]
pub struct QuantizerRange {
    pub lo_milli: i64,
    pub hi_milli: i64,
}

impl QuantizerRange {
    pub open spec fn wf(&self) -> bool {
        0 <= self.lo_milli <= self.hi_milli <= QUANT_CAP_MILLI
    }
}

/// Position after any spaces from `i`.
pub open spec fn skip_spaces(s: Seq<char>, i: int) -> int
    decreases s.len() - i,
{
    if 0 <= i < s.len() && s[i] == ' ' {
        skip_spaces(s, i + 1)
    } else {
        i
    }
}

/// A quantizer range written as `[lo, hi]` with decimal bounds, spaces
/// allowed around the numbers.
pub open spec fn spec_parse_range(s: Seq<char>) -> Option<(u64, u64)> {
    let i0 = skip_spaces(s, 0);
    if i0 < s.len() && s[i0] == '[' {
        match spec_parse_milli(s, skip_spaces(s, i0 + 1)) {
            Some((lo, j)) => {
                let j1 = skip_spaces(s, j);
                if j1 < s.len() && s[j1] == ',' {
                    match spec_parse_milli(s, skip_spaces(s, j1 + 1)) {
                        Some((hi, j2)) => {
                            let j3 = skip_spaces(s, j2);
                            if j3 < s.len() && s[j3] == ']' && skip_spaces(s, j3 + 1) == s.len() {
                                Some((lo, hi))
                            } else {
                                None
                            }
                        },
                        None => None,
                    }
                } else {
                    None
                }
            },
            None => None,
        }
    } else {
        None
    }
}

/// Whether an optional range override is acceptable: absent, or parseable
/// with ordered bounds inside the quantizer cap.
pub open spec fn range_input_ok(range: Option<Seq<char>>) -> bool {
    match range {
        None => true,
        Some(s) => s.len() <= usize::MAX && match spec_parse_range(s) {
            Some((lo, hi)) => lo <= hi <= QUANT_CAP_MILLI,
            None => false,
        },
    }
}

fn skip_spaces_exec(s: &str, i: usize) -> (j: usize)
    requires
        i <= s@.len(),
        s@.len() <= usize::MAX,
    ensures
        j == skip_spaces(s@, i as int),
        i <= j <= s@.len(),
{
    let n = s.unicode_len();
    let mut j = i;
    while j < n && s.get_char(j) == ' '
        invariant
            i <= j <= n,
            n == s@.len(),
            skip_spaces(s@, i as int) == skip_spaces(s@, j as int),
        decreases n - j,
    {
        j += 1;
    }
    j
}

/// Total check of a range override against the grammar and caps: exactly
/// the acceptance condition of `quantizer_range`, decided for any input.
pub fn range_ok(range: &Option<String>) -> (r: bool)
    ensures
        r == range_input_ok(match *range {
            Some(ref s) => Some(s@),
            None => None,
        }),
{
    match range {
        None => true,
        Some(s) => {
            let st = s.as_str();
            let n = st.unicode_len();
            let i0 = skip_spaces_exec(st, 0);
            if !(i0 < n) {
                return false;
            }
            if st.get_char(i0) != '[' {
                return false;
            }
            let (lo, j) = match parse_milli(st, skip_spaces_exec(st, i0 + 1)) {
                Some(p) => p,
                None => {
                    return false;
                },
            };
            let j1 = skip_spaces_exec(st, j);
            if !(j1 < n) {
                return false;
            }
            if st.get_char(j1) != ',' {
                return false;
            }
            let (hi, j2) = match parse_milli(st, skip_spaces_exec(st, j1 + 1)) {
                Some(p) => p,
                None => {
                    return false;
                },
            };
            let j3 = skip_spaces_exec(st, j2);
            if !(j3 < n) {
                return false;
            }
            if st.get_char(j3) != ']' {
                return false;
            }
            if skip_spaces_exec(st, j3 + 1) != n {
                return false;
            }
            lo <= hi && hi <= 260_000
        },
    }
}

/// The active quantizer range: the caller's override when given, otherwise
/// the encoder family's default.
pub fn quantizer_range(range: &Option<String>, encoder: Encoder) -> (r: QuantizerRange)
    requires
        range_input_ok(match *range {
            Some(ref s) => Some(s@),
            None => None,
        }),
    ensures
        r.wf(),
        match *range {
            Some(ref s) => Some((r.lo_milli as u64, r.hi_milli as u64)) == spec_parse_range(s@),
            None => r == match encoder {
                Encoder::Rav1e => QuantizerRange { lo_milli: 40_000, hi_milli: 160_000 },
                Encoder::SvtAv1 => QuantizerRange { lo_milli: 25_000, hi_milli: 55_000 },
            },
        },
{
    match range {
        None => {
            match encoder {
                Encoder::Rav1e => QuantizerRange { lo_milli: 40_000, hi_milli: 160_000 },
                Encoder::SvtAv1 => QuantizerRange { lo_milli: 25_000, hi_milli: 55_000 },
            }
        },
        Some(s) => {
            let st = s.as_str();
            let n = st.unicode_len();
            let i0 = skip_spaces_exec(st, 0);
            let lo: u64;
            let hi: u64;
            let mut j: usize;
            // The shape is assured by the precondition; each step mirrors
            // the specification parser.
            if i0 < n && st.get_char(i0) == '[' {
                match parse_milli(st, skip_spaces_exec(st, i0 + 1)) {
                    Some((l, j0)) => {
                        lo = l;
                        j = j0;
                    },
                    None => {
                        proof {
                            assert(false);
                        }
                        lo = 0;
                        j = 0;
                    },
                }
            } else {
                proof {
                    assert(false);
                }
                lo = 0;
                j = 0;
            }
            let j1 = skip_spaces_exec(st, j);
            let mut j2: usize;
            if j1 < n && st.get_char(j1) == ',' {
                match parse_milli(st, skip_spaces_exec(st, j1 + 1)) {
                    Some((h, jx)) => {
                        hi = h;
                        j2 = jx;
                    },
                    None => {
                        proof {
                            assert(false);
                        }
                        hi = 0;
                        j2 = 0;
                    },
                }
            } else {
                proof {
                    assert(false);
                }
                hi = 0;
                j2 = 0;
            }
            QuantizerRange { lo_milli: lo as i64, hi_milli: hi as i64 }
        },
    }
}

/// The quantizer for one trial: the base plus the step scaled by the trial's
/// modifier, clamped into the active range.  Whatever the inputs, the result
/// lies inside the range.
pub fn calculate_quantizer(
    quantizer_milli: i64,
    quantizer_calc_milli: i64,
    modifier: i8,
    range: &QuantizerRange,
) -> (r: i64)
    requires
        range.wf(),
        -QUANT_CAP_MILLI <= quantizer_milli <= QUANT_CAP_MILLI,
        -QUANT_CAP_MILLI <= quantizer_calc_milli <= QUANT_CAP_MILLI,
    ensures
        range.lo_milli <= r <= range.hi_milli,
        ({
            let part1 = quantizer_milli + quantizer_calc_milli * modifier as int;
            r as int == if part1 < range.lo_milli {
                range.lo_milli as int
            } else if part1 > range.hi_milli {
                range.hi_milli as int
            } else {
                part1
            }
        }),
{
    proof {
        lemma_mul_bound(
            quantizer_calc_milli as int,
            modifier as int,
            QUANT_CAP_MILLI as int,
            128,
        );
    }
    let part1: i128 = quantizer_milli as i128 + quantizer_calc_milli as i128 * modifier as i128;
    if part1 < range.lo_milli as i128 {
        range.lo_milli
    } else if part1 > range.hi_milli as i128 {
        range.hi_milli
    } else {
        part1 as i64
    }
}

/// One trial point of the curve fit: a compensated mean score and the
/// quantizer that produced it, both in thousandths.
#[derive(Clone, Copy, Debug, PartialEq, Eq, Structural)]
pub struct TrialPoint {
    pub score_milli: i64,
    pub quantizer_milli: i64,
}

/// Whether a collection already holds an entry with this score.
pub open spec fn has_score(d: Seq<TrialPoint>, x: i64) -> bool {
    exists|i: int| 0 <= i < d.len() && (#[trigger] d[i]).score_milli == x
}

/// Trial points with the first occurrence of each score kept, in order.
pub open spec fn spec_dedupe(s: Seq<TrialPoint>) -> Seq<TrialPoint>
    decreases s.len(),
{
    if s.len() == 0 {
        Seq::empty()
    } else {
        let d0 = spec_dedupe(s.drop_last());
        if has_score(d0, s.last().score_milli) {
            d0
        } else {
            d0.push(s.last())
        }
    }
}

/// The zero polynomial arises exactly when every interpolated quantizer is
/// zero.
pub open spec fn all_zero_q(d: Seq<TrialPoint>) -> bool {
    forall|i: int| 0 <= i < d.len() ==> (#[trigger] d[i]).quantizer_milli == 0
}

/// Numerator and denominator of the interpolating polynomial, evaluated at
/// `t`, for two, three or four points with pairwise distinct scores.
pub open spec fn spec_curve(d: Seq<TrialPoint>, t: int) -> (int, int)
    recommends
        2 <= d.len() <= 4,
{
    let x0 = d[0].score_milli as int;
    let y0 = d[0].quantizer_milli as int;
    let x1 = d[1].score_milli as int;
    let y1 = d[1].quantizer_milli as int;
    if d.len() == 2 {
        (y0 * (x1 - t) + y1 * (t - x0), x1 - x0)
    } else {
        let x2 = d[2].score_milli as int;
        let y2 = d[2].quantizer_milli as int;
        if d.len() == 3 {
            (
                y0 * (x2 - x1) * ((t - x1) * (t - x2)) - y1 * (x2 - x0) * ((t - x0) * (t - x2))
                    + y2 * (x1 - x0) * ((t - x0) * (t - x1)),
                (x1 - x0) * (x2 - x0) * (x2 - x1),
            )
        } else {
            let x3 = d[3].score_milli as int;
            let y3 = d[3].quantizer_milli as int;
            (
                -y0 * ((x2 - x1) * (x3 - x1) * (x3 - x2)) * ((t - x1) * (t - x2) * (t - x3)) + y1
                    * ((x2 - x0) * (x3 - x0) * (x3 - x2)) * ((t - x0) * (t - x2) * (t - x3)) - y2
                    * ((x1 - x0) * (x3 - x0) * (x3 - x1)) * ((t - x0) * (t - x1) * (t - x3)) + y3
                    * ((x1 - x0) * (x2 - x0) * (x2 - x1)) * ((t - x0) * (t - x1) * (t - x2)),
                (x1 - x0) * (x2 - x0) * (x3 - x0) * ((x2 - x1) * (x3 - x1) * (x3 - x2)),
            )
        }
    }
}

/// The encoder's quantizer grid applied to an exact rational value
/// `num / den` (with `den > 0`): the finer family rounds to the nearest
/// quarter step, the other truncates to a whole quantizer.
pub open spec fn spec_grid(num: int, den: int, enc: Encoder) -> int
    recommends
        den > 0,
{
    match enc {
        Encoder::SvtAv1 => spec_round_div(num, 250 * den) * 250,
        Encoder::Rav1e => (num / (1000 * den)) * 1000,
    }
}

/// Clamp the exact solution into the range, then apply the grid.
pub open spec fn spec_clamp_grid(num: int, den: int, lo: int, hi: int, enc: Encoder) -> int
    recommends
        den > 0,
{
    if num <= lo * den {
        spec_grid(lo, 1, enc)
    } else if num >= hi * den {
        spec_grid(hi, 1, enc)
    } else {
        spec_grid(num, den, enc)
    }
}

/// The solved quantizer for one scene: degenerate data falls back to the
/// range's upper bound, otherwise the curve is evaluated at the target,
/// clamped, and put on the encoder's grid.
pub open spec fn spec_solve(
    trials: Seq<TrialPoint>,
    target: int,
    lo: int,
    hi: int,
    enc: Encoder,
) -> int {
    let d = spec_dedupe(trials);
    if d.len() < 2 || all_zero_q(d) {
        spec_grid(hi, 1, enc)
    } else {
        let (n0, d0) = spec_curve(d, target);
        if d0 < 0 {
            spec_clamp_grid(-n0, -d0, lo, hi, enc)
        } else {
            spec_clamp_grid(n0, d0, lo, hi, enc)
        }
    }
}

/// All solver input bounds in one place.
pub open spec fn trials_input_ok(trials: Seq<TrialPoint>) -> bool {
    &&& 1 <= trials.len() <= 4
    &&& forall|i: int|
        0 <= i < trials.len() ==> 0 <= (#[trigger] trials[i]).score_milli <= SOLVE_SCORE_CAP_MILLI
            && 0 <= trials[i].quantizer_milli <= QUANT_CAP_MILLI
}

/// Solve one scene's target quantizer from its trial points.
pub fn solve_target_quantizer(
    trials: &Vec<TrialPoint>,
    target_milli: i64,
    range: &QuantizerRange,
    enc: Encoder,
) -> (r: i64)
    requires
        trials_input_ok(trials@),
        0 <= target_milli <= SOLVE_SCORE_CAP_MILLI,
        range.wf(),
    ensures
        r == spec_solve(
            trials@,
            target_milli as int,
            range.lo_milli as int,
            range.hi_milli as int,
            enc,
        ),
{
    let d = dedupe_trials(trials);
    let k = d.len();
    let mut zero_q = true;
    let mut zi: usize = 0;
    while zi < k
        invariant
            k == d@.len(),
            zi <= k,
            zero_q == forall|i: int| 0 <= i < zi ==> (#[trigger] d@[i]).quantizer_milli == 0,
        decreases k - zi,
    {
        if d[zi].quantizer_milli != 0 {
            zero_q = false;
        }
        zi += 1;
    }
    if k < 2 || zero_q {
        return grid_round(range.hi_milli as i128, 1, range, enc);
    }
    let (num0, den0) = curve_eval(&d, target_milli);
    let (num, den) = if den0 < 0 {
        (-num0, -den0)
    } else {
        (num0, den0)
    };
    proof {
        lemma_mul_bound(
            range.lo_milli as int,
            den as int,
            QUANT_CAP_MILLI as int,
            86_000_000_000_000_000_000_000_000_000_000,
        );
        lemma_mul_bound(
            range.hi_milli as int,
            den as int,
            QUANT_CAP_MILLI as int,
            86_000_000_000_000_000_000_000_000_000_000,
        );
    }
    if num <= range.lo_milli as i128 * den {
        grid_round(range.lo_milli as i128, 1, range, enc)
    } else if num >= range.hi_milli as i128 * den {
        grid_round(range.hi_milli as i128, 1, range, enc)
    } else {
        proof {
            assert(0 <= range.lo_milli as int * den as int && range.hi_milli as int * den as int
                <= QUANT_CAP_MILLI as int * den as int) by (nonlinear_arith)
                requires
                    0 <= range.lo_milli as int,
                    range.hi_milli as int <= QUANT_CAP_MILLI as int,
                    0 < den as int,
            ;
        }
        grid_round(num, den, range, enc)
    }
}

/// Keep the first trial point of each distinct score.
fn dedupe_trials(trials: &Vec<TrialPoint>) -> (d: Vec<TrialPoint>)
    requires
        trials_input_ok(trials@),
    ensures
        d@ == spec_dedupe(trials@),
        d@.len() <= trials@.len(),
        forall|i: int, j: int|
            0 <= i < j < d@.len() ==> (#[trigger] d@[i]).score_milli != (
            #[trigger] d@[j]).score_milli,
        forall|i: int|
            0 <= i < d@.len() ==> 0 <= (#[trigger] d@[i]).score_milli <= SOLVE_SCORE_CAP_MILLI && 0
                <= d@[i].quantizer_milli <= QUANT_CAP_MILLI,
{
    let mut d: Vec<TrialPoint> = Vec::new();
    let mut i: usize = 0;
    proof {
        assert(trials@.subrange(0, 0) =~= Seq::<TrialPoint>::empty());
    }
    while i < trials.len()
        invariant
            i <= trials@.len(),
            trials_input_ok(trials@),
            d@ == spec_dedupe(trials@.subrange(0, i as int)),
            d@.len() <= i,
            forall|a: int, b: int|
                0 <= a < b < d@.len() ==> (#[trigger] d@[a]).score_milli != (
                #[trigger] d@[b]).score_milli,
            forall|a: int|
                0 <= a < d@.len() ==> 0 <= (#[trigger] d@[a]).score_milli
                    <= SOLVE_SCORE_CAP_MILLI && 0 <= d@[a].quantizer_milli <= QUANT_CAP_MILLI,
        decreases trials@.len() - i,
    {
        let t = trials[i];
        let mut seen = false;
        let mut j: usize = 0;
        while j < d.len()
            invariant
                j <= d@.len(),
                seen == exists|a: int| 0 <= a < j && (#[trigger] d@[a]).score_milli
                    == t.score_milli,
            decreases d@.len() - j,
        {
            if d[j].score_milli == t.score_milli {
                seen = true;
            }
            j += 1;
        }
        proof {
            assert(trials@.subrange(0, i as int + 1).drop_last() =~= trials@.subrange(
                0,
                i as int,
            ));
            assert(trials@.subrange(0, i as int + 1).last() == trials@[i as int]);
            assert(seen == has_score(d@, t.score_milli));
        }
        if !seen {
            d.push(t);
        }
        i += 1;
    }
    proof {
        assert(trials@.subrange(0, trials@.len() as int) =~= trials@);
    }
    d
}

/// Evaluate the interpolating polynomial at `t`, exactly, as a rational.
fn curve_eval(d: &Vec<TrialPoint>, t: i64) -> (r: (i128, i128))
    requires
        2 <= d@.len() <= 4,
        forall|i: int, j: int|
            0 <= i < j < d@.len() ==> (#[trigger] d@[i]).score_milli != (
            #[trigger] d@[j]).score_milli,
        forall|i: int|
            0 <= i < d@.len() ==> 0 <= (#[trigger] d@[i]).score_milli <= SOLVE_SCORE_CAP_MILLI && 0
                <= d@[i].quantizer_milli <= QUANT_CAP_MILLI,
        0 <= t <= SOLVE_SCORE_CAP_MILLI,
    ensures
        (r.0 as int, r.1 as int) == spec_curve(d@, t as int),
        r.1 != 0,
        -86_000_000_000_000_000_000_000_000_000_000 <= r.1
            <= 86_000_000_000_000_000_000_000_000_000_000,
        -90_000_000_000_000_000_000_000_000_000_000_000_000 <= r.0
            <= 90_000_000_000_000_000_000_000_000_000_000_000_000,
{
    let x0 = d[0].score_milli as i128;
    let y0 = d[0].quantizer_milli as i128;
    let x1 = d[1].score_milli as i128;
    let y1 = d[1].quantizer_milli as i128;
    if d.len() == 2 {
        proof {
            lemma_mul_bound(y0 as int, x1 as int - t as int, 260_000, 210_000);
            lemma_mul_bound(y1 as int, t as int - x0 as int, 260_000, 210_000);
        }
        let num = y0 * (x1 - t as i128) + y1 * (t as i128 - x0);
        (num, x1 - x0)
    } else {
        let x2 = d[2].score_milli as i128;
        let y2 = d[2].quantizer_milli as i128;
        if d.len() == 3 {
            proof {
                lemma_mul_bound(x1 as int - x0 as int, x2 as int - x0 as int, 210_000, 210_000);
                lemma_mul_bound(
                    (x1 as int - x0 as int) * (x2 as int - x0 as int),
                    x2 as int - x1 as int,
                    44_100_000_000,
                    210_000,
                );
                lemma_mul_bound(t as int - x1 as int, t as int - x2 as int, 210_000, 210_000);
                lemma_mul_bound(t as int - x0 as int, t as int - x2 as int, 210_000, 210_000);
                lemma_mul_bound(t as int - x0 as int, t as int - x1 as int, 210_000, 210_000);
                lemma_mul_bound(y0 as int, x2 as int - x1 as int, 260_000, 210_000);
                lemma_mul_bound(y1 as int, x2 as int - x0 as int, 260_000, 210_000);
                lemma_mul_bound(y2 as int, x1 as int - x0 as int, 260_000, 210_000);
                lemma_mul_bound(
                    y0 as int * (x2 as int - x1 as int),
                    (t as int - x1 as int) * (t as int - x2 as int),
                    54_600_000_000,
                    44_100_000_000,
                );
                lemma_mul_bound(
                    y1 as int * (x2 as int - x0 as int),
                    (t as int - x0 as int) * (t as int - x2 as int),
                    54_600_000_000,
                    44_100_000_000,
                );
                lemma_mul_bound(
                    y2 as int * (x1 as int - x0 as int),
                    (t as int - x0 as int) * (t as int - x1 as int),
                    54_600_000_000,
                    44_100_000_000,
                );
            }
            let den = (x1 - x0) * (x2 - x0) * (x2 - x1);
            let num = y0 * (x2 - x1) * ((t as i128 - x1) * (t as i128 - x2)) - y1 * (x2 - x0) * ((
            t as i128 - x0) * (t as i128 - x2)) + y2 * (x1 - x0) * ((t as i128 - x0) * (t as i128
                - x1));
            proof {
                assert(den as int != 0) by (nonlinear_arith)
                    requires
                        den as int == (x1 as int - x0 as int) * (x2 as int - x0 as int) * (
                        x2 as int - x1 as int),
                        x0 != x1,
                        x0 != x2,
                        x1 != x2,
                ;
            }
            (num, den)
        } else {
            let x3 = d[3].score_milli as i128;
            let y3 = d[3].quantizer_milli as i128;
            let ti = t as i128;
            let c0 = mul3(x2 - x1, x3 - x1, x3 - x2);
            let c1 = mul3(x2 - x0, x3 - x0, x3 - x2);
            let c2 = mul3(x1 - x0, x3 - x0, x3 - x1);
            let c3 = mul3(x1 - x0, x2 - x0, x2 - x1);
            let n0 = mul3(ti - x1, ti - x2, ti - x3);
            let n1 = mul3(ti - x0, ti - x2, ti - x3);
            let n2 = mul3(ti - x0, ti - x1, ti - x3);
            let n3 = mul3(ti - x0, ti - x1, ti - x2);
            let b3: i128 = 9_261_000_000_000_000;
            let yb: i128 = 260_000;
            proof {
                lemma_mul_bound(-(y0 as int), c0 as int, yb as int, b3 as int);
                lemma_mul_bound(y1 as int, c1 as int, yb as int, b3 as int);
                lemma_mul_bound(y2 as int, c2 as int, yb as int, b3 as int);
                lemma_mul_bound(y3 as int, c3 as int, yb as int, b3 as int);
                lemma_mul_bound(
                    -(y0 as int) * c0 as int,
                    n0 as int,
                    2_407_860_000_000_000_000_000,
                    b3 as int,
                );
                lemma_mul_bound(
                    y1 as int * c1 as int,
                    n1 as int,
                    2_407_860_000_000_000_000_000,
                    b3 as int,
                );
                lemma_mul_bound(
                    y2 as int * c2 as int,
                    n2 as int,
                    2_407_860_000_000_000_000_000,
                    b3 as int,
                );
                lemma_mul_bound(
                    y3 as int * c3 as int,
                    n3 as int,
                    2_407_860_000_000_000_000_000,
                    b3 as int,
                );
            }
            let num = -y0 * c0 * n0 + y1 * c1 * n1 - y2 * c2 * n2 + y3 * c3 * n3;
            let dd = mul3(x1 - x0, x2 - x0, x3 - x0);
            proof {
                lemma_mul_bound(dd as int, c0 as int, b3 as int, b3 as int);
            }
            let den = dd * c0;
            proof {
                assert(den as int != 0) by (nonlinear_arith)
                    requires
                        den as int == dd as int * c0 as int,
                        dd as int == (x1 as int - x0 as int) * (x2 as int - x0 as int) * (x3 as int
                            - x0 as int),
                        c0 as int == (x2 as int - x1 as int) * (x3 as int - x1 as int) * (x3 as int
                            - x2 as int),
                        x0 != x1 && x0 != x2 && x0 != x3 && x1 != x2 && x1 != x3 && x2 != x3,
                ;
            }
            (num, den)
        }
    }
}

/// Product of three bounded differences.
fn mul3(a: i128, b: i128, c: i128) -> (r: i128)
    requires
        -210_000 <= a <= 210_000,
        -210_000 <= b <= 210_000,
        -210_000 <= c <= 210_000,
    ensures
        r == a as int * b as int * c as int,
        -9_261_000_000_000_000 <= r <= 9_261_000_000_000_000,
{
    proof {
        lemma_mul_bound(a as int, b as int, 210_000, 210_000);
        lemma_mul_bound(a as int * b as int, c as int, 44_100_000_000, 210_000);
    }
    a * b * c
}

/// Clamp a rational value (already inside the range as a rational, or an
/// exact bound) onto the encoder's quantizer grid.
fn grid_round(num: i128, den: i128, range: &QuantizerRange, enc: Encoder) -> (r: i64)
    requires
        0 < den <= 86_000_000_000_000_000_000_000_000_000_000,
        range.wf(),
        0 <= num,
        num as int <= QUANT_CAP_MILLI as int * den as int,
    ensures
        r == spec_grid(num as int, den as int, enc),
{
    proof {
        lemma_mul_bound(
            QUANT_CAP_MILLI as int,
            den as int,
            QUANT_CAP_MILLI as int,
            86_000_000_000_000_000_000_000_000_000_000,
        );
    }
    match enc {
        Encoder::SvtAv1 => {
            proof {
                lemma_mul_bound(250, den as int, 250, 86_000_000_000_000_000_000_000_000_000_000);
                crate::num_util::lemma_round_div_close(num as int, 250 * den as int);
                let w = spec_round_div(num as int, 250 * den as int);
                assert(0 <= w <= 1100) by (nonlinear_arith)
                    requires
                        0 <= num as int <= 260_000 * den as int,
                        0 < den as int,
                        2 * (num as int - w * (250 * den as int)) < 250 * den as int,
                        2 * (num as int - w * (250 * den as int)) >= -(250 * den as int),
                ;
            }
            let w = round_div_big(num, 250 * den);
            (w as i64) * 250
        },
        Encoder::Rav1e => {
            proof {
                lemma_mul_bound(1000, den as int, 1000, 86_000_000_000_000_000_000_000_000_000_000);
                crate::num_util::lemma_floor_div_bounds(num as int, 1000 * den as int);
                let w = num as int / (1000 * den as int);
                vstd::arithmetic::div_mod::lemma_fundamental_div_mod(
                    num as int,
                    1000 * den as int,
                );
                vstd::arithmetic::div_mod::lemma_mod_division_less_than_divisor(
                    num as int,
                    1000 * den as int,
                );
                assert(0 <= w <= 260) by (nonlinear_arith)
                    requires
                        0 <= num as int <= 260_000 * den as int,
                        0 < den as int,
                        num as int == (1000 * den as int) * w + num as int % (1000 * den as int),
                        0 <= num as int % (1000 * den as int) < 1000 * den as int,
                ;
            }
            let w = floor_div(num, 1000 * den);
            (w as i64) * 1000
        },
    }
}

/// Trials whose compensated scores all coincide collapse to a single point,
/// so the fit is degenerate and the solved quantizer is the range's upper
/// bound on the encoder's grid.
pub proof fn lemma_identical_scores_fall_back(
    trials: Seq<TrialPoint>,
    target: int,
    lo: int,
    hi: int,
    enc: Encoder,
)
    requires
        trials.len() >= 1,
        forall|i: int|
            0 <= i < trials.len() ==> (#[trigger] trials[i]).score_milli == trials[0].score_milli,
    ensures
        spec_solve(trials, target, lo, hi, enc) == spec_grid(hi, 1, enc),
{
    lemma_dedupe_single(trials);
}

/// Deduplication of same-score trials keeps exactly the first.
proof fn lemma_dedupe_single(s: Seq<TrialPoint>)
    requires
        s.len() >= 1,
        forall|i: int| 0 <= i < s.len() ==> (#[trigger] s[i]).score_milli == s[0].score_milli,
    ensures
        spec_dedupe(s) =~= seq![s[0]],
    decreases s.len(),
{
    if s.len() == 1 {
        assert(spec_dedupe(s.drop_last()) =~= Seq::<TrialPoint>::empty());
        assert(spec_dedupe(s) =~= Seq::<TrialPoint>::empty().push(s[0]));
    } else {
        lemma_dedupe_single(s.drop_last());
        assert(s.drop_last()[0] == s[0]);
        let d0 = spec_dedupe(s.drop_last());
        assert(d0[0].score_milli == s.last().score_milli);
        assert(has_score(d0, s.last().score_milli));
    }
}

} // verus!
