//! Small exact-arithmetic helpers shared by the statistics and curve-solver
//! modules: floor and round-to-nearest division, and an integer square root.

use vstd::prelude::*;

verus! {

/// Sum of a sequence of integers.
pub open spec fn sum_seq(s: Seq<int>) -> int
    decreases s.len(),
{
    if s.len() == 0 {
        0
    } else {
        sum_seq(s.drop_last()) + s.last()
    }
}

/// Division rounding toward minus infinity, i.e. the `int` division of the
/// specification language.
pub proof fn lemma_floor_div_bounds(a: int, b: int)
    requires
        0 < b,
    ensures
        a >= 0 ==> 0 <= a / b <= a,
        a < 0 ==> a <= a / b <= 0,
{
    vstd::arithmetic::div_mod::lemma_fundamental_div_mod(a, b);
    let q = a / b;
    let r = a % b;
    vstd::arithmetic::div_mod::lemma_mod_division_less_than_divisor(a, b);
    if a >= 0 {
        assert(0 <= q && q <= a) by (nonlinear_arith)
            requires
                a == b * q + r,
                0 <= r < b,
                a >= 0,
                b > 0,
        ;
    } else {
        assert(a <= q && q <= 0) by (nonlinear_arith)
            requires
                a == b * q + r,
                0 <= r < b,
                a < 0,
                b > 0,
        ;
    }
}

/// Floor division of `a` by a positive `b`.
pub fn floor_div(a: i128, b: i128) -> (r: i128)
    requires
        0 < b,
    ensures
        r == a as int / b as int,
{
    proof {
        lemma_floor_div_bounds(a as int, b as int);
    }
    a.checked_div_euclid(b).unwrap()
}

/// The integer nearest to the exact quotient `a / b`, halves rounded up.
pub open spec fn spec_round_div(a: int, b: int) -> int
    recommends
        0 < b,
{
    (2 * a + b) / (2 * b)
}

/// Division of `a` by a positive `b`, rounded to the nearest integer with
/// halves rounded toward plus infinity.
pub fn round_div(a: i128, b: i128) -> (r: i128)
    requires
        0 < b,
        -(i128::MAX as int) / 4 < a < (i128::MAX as int) / 4,
        b < (i128::MAX as int) / 4,
    ensures
        r == spec_round_div(a as int, b as int),
{
    let n: i128 = 2 * a + b;
    let d: i128 = 2 * b;
    proof {
        lemma_floor_div_bounds(n as int, d as int);
    }
    n.checked_div_euclid(d).unwrap()
}

/// `spec_round_div` really is the nearest integer: the quotient lies within
/// half of `b` on either side of `r * b`.
pub proof fn lemma_round_div_close(a: int, b: int)
    requires
        0 < b,
    ensures
        2 * (a - spec_round_div(a, b) * b) < b,
        2 * (a - spec_round_div(a, b) * b) >= -b,
{
    let n = 2 * a + b;
    let d = 2 * b;
    let q = n / d;
    let r = n % d;
    vstd::arithmetic::div_mod::lemma_fundamental_div_mod(n, d);
    vstd::arithmetic::div_mod::lemma_mod_division_less_than_divisor(n, d);
    assert(2 * (a - q * b) < b && 2 * (a - q * b) >= -b) by (nonlinear_arith)
        requires
            n == 2 * a + b,
            d == 2 * b,
            n == d * q + r,
            0 <= r < d,
            b > 0,
    ;
}

/// A product of values bounded in magnitude is bounded by the product of
/// the bounds.
pub proof fn lemma_mul_bound(a: int, b: int, ba: int, bb: int)
    requires
        -ba <= a <= ba,
        -bb <= b <= bb,
        0 <= ba,
        0 <= bb,
    ensures
        -(ba * bb) <= a * b <= ba * bb,
{
    assert(-(ba * bb) <= a * b <= ba * bb) by (nonlinear_arith)
        requires
            -ba <= a <= ba,
            -bb <= b <= bb,
            0 <= ba,
            0 <= bb,
    ;
}

/// Round-to-nearest division that works for numerators close to the machine
/// bound, by dividing first and correcting with the remainder.
pub fn round_div_big(num: i128, den: i128) -> (r: i128)
    requires
        0 < den,
        den < (i128::MAX as int) / 4,
        -(i128::MAX as int) / 2 < num < (i128::MAX as int) / 2,
    ensures
        r == spec_round_div(num as int, den as int),
{
    let w = floor_div(num, den);
    proof {
        vstd::arithmetic::div_mod::lemma_fundamental_div_mod(num as int, den as int);
        vstd::arithmetic::div_mod::lemma_mod_division_less_than_divisor(num as int, den as int);
        assert(w as int * den as int == num as int - num as int % den as int);
        lemma_floor_div_bounds(num as int, den as int);
    }
    let rem = num - w * den;
    if 2 * rem >= den {
        proof {
            assert(2 * num as int + den as int == (w as int + 1) * (2 * den as int) + (2
                * rem as int - den as int)) by (nonlinear_arith)
                requires
                    rem as int == num as int - w as int * den as int,
            ;
            vstd::arithmetic::div_mod::lemma_fundamental_div_mod_converse_div(
                2 * num as int + den as int,
                2 * den as int,
                w as int + 1,
                2 * rem as int - den as int,
            );
        }
        w + 1
    } else {
        proof {
            assert(2 * num as int + den as int == (w as int) * (2 * den as int) + (2 * rem as int
                + den as int)) by (nonlinear_arith)
                requires
                    rem as int == num as int - w as int * den as int,
            ;
            vstd::arithmetic::div_mod::lemma_fundamental_div_mod_converse_div(
                2 * num as int + den as int,
                2 * den as int,
                w as int,
                2 * rem as int + den as int,
            );
        }
        w
    }
}

/// Largest `r` with `r * r <= n`.
pub open spec fn is_isqrt(n: int, r: int) -> bool {
    &&& 0 <= r
    &&& r * r <= n
    &&& (r + 1) * (r + 1) > n
}

/// Integer square root by bisection.
pub fn isqrt(n: u128) -> (r: u128)
    ensures
        is_isqrt(n as int, r as int),
{
    if n < 4 {
        if n == 0 {
            return 0;
        }
        return 1;
    }
    let two_64: u128 = 0x1_0000_0000_0000_0000;
    let mut lo: u128 = 1;
    let mut hi: u128 = if n < two_64 {
        n
    } else {
        two_64
    };
    proof {
        if n >= two_64 {
            assert((hi as int) * (hi as int) > n as int);
        } else {
            assert((hi as int) * (hi as int) > n as int) by (nonlinear_arith)
                requires
                    hi == n,
                    n >= 2,
            ;
        }
    }
    while lo + 1 < hi
        invariant
            0 <= lo < hi <= 0x1_0000_0000_0000_0000u128,
            (lo as int) * (lo as int) <= n as int,
            (hi as int) * (hi as int) > n as int,
        decreases hi - lo,
    {
        let mid: u128 = lo + (hi - lo) / 2;
        proof {
            assert((mid as int) * (mid as int) <= u128::MAX as int) by (nonlinear_arith)
                requires
                    0 <= mid,
                    mid <= 0xffff_ffff_ffff_ffffu128,
                    u128::MAX == 0xffff_ffff_ffff_ffff_ffff_ffff_ffff_ffffu128,
            ;
        }
        if mid * mid <= n {
            lo = mid;
        } else {
            hi = mid;
        }
    }
    lo
}

} // verus!
