//! Fixed-point arithmetic helpers for the UCT selection formula: an
//! integer square root and an integer base-2 logarithm, each proved equal
//! to its mathematical specification.

use vstd::prelude::*;
use vstd::arithmetic::power2::pow2;
use vstd::arithmetic::power2::lemma2_to64;

verus! {

/// `SCALE * ln 2`, rounded to the nearest integer: the natural logarithm
/// of `n` is approximated as `log2_floor(n) * LN2_SCALED / SCALE`.
pub const LN2_SCALED: u64 = 693_147;

/// Floor of the base-2 logarithm; `0` for inputs below `2`.
pub open spec fn log2_floor_spec(n: nat) -> nat
    decreases n,
{
    if n <= 1 {
        0
    } else {
        1 + log2_floor_spec(n / 2)
    }
}

proof fn lemma_log2_floor_lt(n: nat, k: nat)
    requires
        1 <= n < pow2(k),
        1 <= k,
    ensures
        log2_floor_spec(n) < k,
    decreases n,
{
    if n == 1 {
    } else {
        assert(pow2(k) == 2 * pow2((k - 1) as nat)) by {
            vstd::arithmetic::power2::lemma_pow2_unfold(k);
        }
        if k == 1 {
            assert(pow2(0) == 1) by {
                lemma2_to64();
            }
            assert(n < 2);
        } else {
            lemma_log2_floor_lt(n / 2, (k - 1) as nat);
        }
    }
}

/// The base-2 logarithm of any `u32` fits in five bits.
proof fn lemma_log2_floor_u32(n: u32)
    requires
        n >= 1,
    ensures
        log2_floor_spec(n as nat) <= 31,
{
    lemma2_to64();
    lemma_log2_floor_lt(n as nat, 32);
}

/// Floor of the base-2 logarithm of a positive `u32`.
pub fn log2_floor(n: u32) -> (r: u32)
    requires
        n >= 1,
    ensures
        r as nat == log2_floor_spec(n as nat),
        r <= 31,
{
    proof {
        lemma_log2_floor_u32(n);
    }
    let mut x: u32 = n;
    let mut r: u32 = 0;
    while x > 1
        invariant
            1 <= x,
            log2_floor_spec(n as nat) == r as nat + log2_floor_spec(x as nat),
            log2_floor_spec(n as nat) <= 31,
        decreases x,
    {
        x = x / 2;
        r = r + 1;
    }
    r
}

/// `r` is the integer square root of `x`.
pub open spec fn sqrt_ok(x: nat, r: nat) -> bool {
    r * r <= x && x < (r + 1) * (r + 1)
}

/// No two distinct integers satisfy [`sqrt_ok`] for the same radicand.
proof fn lemma_sqrt_unique(x: nat, r1: nat, r2: nat)
    requires
        sqrt_ok(x, r1),
        sqrt_ok(x, r2),
    ensures
        r1 == r2,
{
    if r1 < r2 {
        assert((r1 + 1) * (r1 + 1) <= r2 * r2) by (nonlinear_arith)
            requires r1 + 1 <= r2;
    }
    if r2 < r1 {
        assert((r2 + 1) * (r2 + 1) <= r1 * r1) by (nonlinear_arith)
            requires r2 + 1 <= r1;
    }
}

/// The integer square root, as a mathematical value.
pub closed spec fn sqrt_floor(x: nat) -> nat {
    choose|r: nat| sqrt_ok(x, r)
}

/// Integer square root of a `u64`, by bisection.
pub fn isqrt(x: u64) -> (r: u64)
    ensures
        r as nat == sqrt_floor(x as nat),
        sqrt_ok(x as nat, r as nat),
        r <= 0xFFFF_FFFF,
{
    let mut lo: u64 = 0;
    let mut hi: u64 = 0x1_0000_0000;
    proof {
        assert((hi as nat) * (hi as nat) > x as nat) by (nonlinear_arith)
            requires hi == 0x1_0000_0000, x <= u64::MAX;
    }
    while lo + 1 < hi
        invariant
            lo < hi <= 0x1_0000_0000,
            (lo as nat) * (lo as nat) <= x as nat,
            (x as nat) < (hi as nat) * (hi as nat),
        decreases hi - lo,
    {
        let mid: u64 = lo + (hi - lo) / 2;
        proof {
            assert((mid as nat) * (mid as nat) < 0x1_0000_0000_0000_0000) by (nonlinear_arith)
                requires mid < 0x1_0000_0000;
        }
        if mid * mid <= x {
            lo = mid;
        } else {
            hi = mid;
        }
    }
    proof {
        assert(sqrt_ok(x as nat, lo as nat));
        assert(sqrt_ok(x as nat, sqrt_floor(x as nat))) by {
            assert(exists|r: nat| sqrt_ok(x as nat, r));
        }
        lemma_sqrt_unique(x as nat, lo as nat, sqrt_floor(x as nat));
    }
    lo
}

} // verus!
