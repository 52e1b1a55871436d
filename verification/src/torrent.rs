//! Torrent piece sizing: the piece length that keeps the piece count under
//! the size-dependent cap, as a power of two clamped to the usual bounds.

use vstd::prelude::*;

verus! {

/// The piece-count cap for a payload size.
pub open spec fn spec_max_pieces(size: u64) -> u64 {
    if size <= 0x4000_0000 {
        512u64
    } else if size <= 8 * 0x4000_0000 {
        1024u64
    } else if size <= 16 * 0x4000_0000 {
        1536u64
    } else {
        2048u64
    }
}

/// A clamped value.
pub open spec fn spec_clamp_u128(v: int, lo: int, hi: int) -> int {
    if v < lo {
        lo
    } else if v > hi {
        hi
    } else {
        v
    }
}

/// The piece length for a payload of `size` bytes: the smallest power of
/// two whose piece count stays under the cap, clamped between sixteen
/// kibibytes and sixteen mebibytes.
pub fn pieces(size: u64) -> (r: u64)
    ensures
        exists|p: u128|
            is_pow2(p) && p as int * spec_max_pieces(size) as int >= size as int && (p > 1
                ==> ((p as int / 2) * (spec_max_pieces(size) as int)) < size as int) && r as int
                == spec_clamp_u128(p as int, 16384, 16777216),
{
    let mp: u128 = if size <= 0x4000_0000 {
        512
    } else if size <= 8 * 0x4000_0000 {
        1024
    } else if size <= 16 * 0x4000_0000 {
        1536
    } else {
        2048
    };
    let mut p: u128 = 1;
    proof {
        assert(is_pow2(1)) by {
            assert(pow2_of(0) == 1);
        }
    }
    while p * mp < size as u128
        invariant
            is_pow2(p),
            1 <= p <= 0x1_0000_0000_0000_0000u128,
            mp == spec_max_pieces(size),
            512 <= mp <= 2048,
            p > 1 ==> ((p as int / 2) * (mp as int)) < size as int,
        decreases size as int - p as int,
    {
        proof {
            assert((p as int * mp as int) < size as int);
            assert(size as int <= u64::MAX as int);
            assert(p < 0x1_0000_0000_0000_0000u128) by (nonlinear_arith)
                requires
                    p as int * mp as int <= u64::MAX as int,
                    mp as int >= 512,
                    u64::MAX == 0xffff_ffff_ffff_ffffu64,
            ;
            lemma_pow2_double(p);
            assert((2 * p) as int / 2 == p as int);
            assert((2 * p) as int * mp as int >= 2 * (p as int * mp as int)) by (nonlinear_arith)
                requires
                    mp as int >= 0,
                    p as int >= 0,
                    2 * p <= 0x2_0000_0000_0000_0000u128,
            ;
            assert(p as int * mp as int >= 512) by (nonlinear_arith)
                requires
                    p as int >= 1,
                    mp as int >= 512,
            ;
            assert(p as int <= p as int * mp as int) by (nonlinear_arith)
                requires
                    mp as int >= 1,
                    p as int >= 0,
            ;
        }
        p = p * 2;
    }
    let clamped: u128 = if p < 16384 {
        16384
    } else if p > 16777216 {
        16777216
    } else {
        p
    };
    proof {
        assert(p as int * mp as int >= size as int);
    }
    clamped as u64
}

/// Whether a value is a power of two.
pub open spec fn is_pow2(p: u128) -> bool {
    exists|e: nat| p == pow2_of(e)
}

/// The powers of two.
pub open spec fn pow2_of(e: nat) -> u128
    decreases e,
{
    if e == 0 {
        1u128
    } else {
        ((2 * pow2_of((e - 1) as nat)) as u128)
    }
}

/// Doubling a power of two below the top bit stays a power of two.
proof fn lemma_pow2_double(p: u128)
    requires
        is_pow2(p),
        p < 0x1_0000_0000_0000_0000u128,
    ensures
        is_pow2((2 * p) as u128),
        2 * p <= 0x2_0000_0000_0000_0000u128,
{
    let e = choose|e: nat| p == pow2_of(e);
    assert(pow2_of(e + 1) == (2 * p) as u128);
}

} // verus!
