//! Integer arithmetic shared by the geometry and the scoring code:
//! saturation to 32-bit ranges, division that rounds toward zero, the integer
//! square root, and the reading of a double-precision number from 0 to 1 as
//! a count of millionths.

use vstd::prelude::*;
use vstd::arithmetic::power2::{
    lemma2_to64, lemma2_to64_rest, lemma_pow2_adds, lemma_pow2_pos,
    lemma_pow2_strictly_increases, lemma_pow2_unfold, pow2,
};

verus! {

/// `v` limited to the range of `i32`.
pub open spec fn clamp_i32(v: int) -> int {
    if v < i32::MIN as int {
        i32::MIN as int
    } else if v > i32::MAX as int {
        i32::MAX as int
    } else {
        v
    }
}

/// `v` limited to the range of `u32`.
pub open spec fn clamp_u32(v: int) -> int {
    if v < 0 {
        0
    } else if v > u32::MAX as int {
        u32::MAX as int
    } else {
        v
    }
}

/// The quotient of `a` by a positive `b`, rounded toward zero.
pub open spec fn div_toward_zero(a: int, b: int) -> int
    recommends
        b > 0,
{
    if a >= 0 {
        a / b
    } else {
        -((-a) / b)
    }
}

/// `r` is the largest integer whose square does not exceed `n`.
pub open spec fn is_floor_sqrt(n: int, r: int) -> bool {
    &&& 0 <= r
    &&& r * r <= n
    &&& n < (r + 1) * (r + 1)
}

/// The integer square root of `n`, rounded down (0 for a negative `n`).
pub open spec fn floor_sqrt(n: int) -> int {
    if n < 0 {
        0
    } else {
        choose|r: int| is_floor_sqrt(n, r)
    }
}

/// At most one integer is the floor of the square root of `n`.
pub proof fn lemma_floor_sqrt_unique(n: int, r1: int, r2: int)
    requires
        is_floor_sqrt(n, r1),
        is_floor_sqrt(n, r2),
    ensures
        r1 == r2,
{
    if r1 < r2 {
        assert((r1 + 1) * (r1 + 1) <= r2 * r2) by (nonlinear_arith)
            requires
                0 <= r1,
                r1 + 1 <= r2,
        ;
    } else if r2 < r1 {
        assert((r2 + 1) * (r2 + 1) <= r1 * r1) by (nonlinear_arith)
            requires
                0 <= r2,
                r2 + 1 <= r1,
        ;
    }
}

/// Any witness of `is_floor_sqrt` is the value of `floor_sqrt`.
pub proof fn lemma_floor_sqrt_is(n: int, r: int)
    requires
        is_floor_sqrt(n, r),
    ensures
        floor_sqrt(n) == r,
{
    assert(n >= 0) by (nonlinear_arith)
        requires
            r * r <= n,
    ;
    let c = choose|c: int| is_floor_sqrt(n, c);
    lemma_floor_sqrt_unique(n, r, c);
}

/// Every natural number has a floor of its square root, and `floor_sqrt` is
/// that number.
pub proof fn lemma_floor_sqrt_exists(n: nat)
    ensures
        is_floor_sqrt(n as int, floor_sqrt(n as int)),
    decreases n,
{
    if n == 0 {
        assert(is_floor_sqrt(0, 0));
        lemma_floor_sqrt_is(0, 0);
    } else {
        lemma_floor_sqrt_exists((n - 1) as nat);
        let r = floor_sqrt(n - 1);
        if (r + 1) * (r + 1) <= n {
            assert(n < (r + 2) * (r + 2)) by (nonlinear_arith)
                requires
                    n - 1 < (r + 1) * (r + 1),
                    0 <= r,
            ;
            lemma_floor_sqrt_is(n as int, r + 1);
        } else {
            lemma_floor_sqrt_is(n as int, r);
        }
    }
}

/// The root of a number below the square of `bound` is below `bound`.
pub proof fn lemma_floor_sqrt_below(n: int, bound: int)
    requires
        0 <= n < bound * bound,
        0 <= bound,
    ensures
        0 <= floor_sqrt(n) < bound,
{
    lemma_floor_sqrt_exists(n as nat);
    let r = floor_sqrt(n);
    if r >= bound {
        assert(bound * bound <= r * r) by (nonlinear_arith)
            requires
                0 <= bound <= r,
        ;
    }
}

/// The square root is monotone: a larger argument never has a smaller root.
pub proof fn lemma_floor_sqrt_monotone(a: int, ra: int, b: int, rb: int)
    requires
        is_floor_sqrt(a, ra),
        is_floor_sqrt(b, rb),
        a <= b,
    ensures
        ra <= rb,
{
    if rb < ra {
        assert((rb + 1) * (rb + 1) <= ra * ra) by (nonlinear_arith)
            requires
                0 <= rb,
                rb + 1 <= ra,
        ;
    }
}

/// Limits a 64-bit value to the range of `i32`.
pub fn saturate_i32(v: i64) -> (r: i32)
    ensures
        r as int == clamp_i32(v as int),
{
    if v < i32::MIN as i64 {
        i32::MIN
    } else if v > i32::MAX as i64 {
        i32::MAX
    } else {
        v as i32
    }
}

/// Limits a 64-bit value to the range of `u32`.
pub fn saturate_u32(v: i64) -> (r: u32)
    ensures
        r as int == clamp_u32(v as int),
{
    if v < 0 {
        0
    } else if v > u32::MAX as i64 {
        u32::MAX
    } else {
        v as u32
    }
}

/// Divides by a positive number, rounding toward zero.
pub fn divide_toward_zero(a: i128, b: i128) -> (q: i128)
    requires
        b > 0,
        a > i128::MIN,
    ensures
        q as int == div_toward_zero(a as int, b as int),
{
    if a >= 0 {
        a / b
    } else {
        let n: i128 = -a;
        let p: i128 = n / b;
        -p
    }
}

/// The integer square root, rounded down.
pub fn isqrt(n: u128) -> (r: u64)
    ensures
        r as int == floor_sqrt(n as int),
        is_floor_sqrt(n as int, r as int),
{
    let mut lo: u128 = 0;
    let mut hi: u128 = 0x1_0000_0000_0000_0000;
    assert(n < hi * hi) by (nonlinear_arith)
        requires
            hi == 0x1_0000_0000_0000_0000,
            n <= u128::MAX,
    ;
    while hi - lo > 1
        invariant
            lo < hi <= 0x1_0000_0000_0000_0000,
            lo * lo <= n,
            n < hi * hi,
        decreases hi - lo,
    {
        let mid: u128 = lo + (hi - lo) / 2;
        assert(mid * mid <= 0xFFFF_FFFF_FFFF_FFFF * 0xFFFF_FFFF_FFFF_FFFF) by (nonlinear_arith)
            requires
                0 <= mid <= 0xFFFF_FFFF_FFFF_FFFF,
        ;
        if mid * mid <= n {
            lo = mid;
        } else {
            hi = mid;
        }
    }
    proof {
        assert(hi == lo + 1);
        lemma_floor_sqrt_is(n as int, lo as int);
    }
    lo as u64
}

/// The bit pattern of the double-precision number 1.
pub const ONE_BITS: u64 = 0x3FF0_0000_0000_0000;

/// Two to the power 52: the weight of the exponent field in a bit pattern,
/// and the implicit leading bit of a normal number's significand.
pub const SIGNIFICAND_UNIT: u64 = 0x10_0000_0000_0000;

/// `n / d`, rounded to the nearest integer, halves upward.
pub open spec fn round_div(n: int, d: int) -> int
    recommends
        d > 0,
{
    (2 * n + d) / (2 * d)
}

/// The value, in millionths and rounded to the nearest, of the
/// double-precision number with the given bit pattern, for numbers from 0
/// to 1. A pattern above that of 1 (a larger number, a negative one, or no
/// number at all) counts as 1.
///
/// A normal number below 1 has an exponent field `e` from 1 to 1022 and the
/// value `(2^52 + fraction) / 2^(1075 - e)`; below `e = 1001` it is less
/// than half a millionth.
pub open spec fn millionths_of_bits(bits: u64) -> int {
    let e = (bits / SIGNIFICAND_UNIT) as int;
    let significand = SIGNIFICAND_UNIT as int + (bits % SIGNIFICAND_UNIT) as int;
    if bits >= ONE_BITS {
        1_000_000
    } else if e < 1001 {
        0
    } else {
        round_div(significand * 1_000_000, pow2((1075 - e) as nat) as int)
    }
}

/// A value in millionths of a number from 0 to 1 is at most one whole.
pub proof fn lemma_millionths_bounded(bits: u64)
    ensures
        0 <= millionths_of_bits(bits) <= 1_000_000,
{
    let e = (bits / SIGNIFICAND_UNIT) as int;
    if bits < ONE_BITS && e >= 1001 {
        let significand = SIGNIFICAND_UNIT as int + (bits % SIGNIFICAND_UNIT) as int;
        let shift = (1075 - e) as nat;
        let divisor = pow2(shift) as int;
        lemma2_to64_rest();
        if 53 < shift {
            lemma_pow2_strictly_increases(53, shift);
        }
        assert(divisor >= 0x20_0000_0000_0000);
        let rounded = (2 * (significand * 1_000_000) + divisor) / (2 * divisor);
        assert(0 <= rounded <= 1_000_000) by (nonlinear_arith)
            requires
                rounded == (2 * (significand * 1_000_000) + divisor) / (2 * divisor),
                0 <= significand < 0x20_0000_0000_0000,
                divisor >= 0x20_0000_0000_0000,
        ;
    }
}

/// The values of two powers of two beyond the 64th.
pub proof fn lemma_pow2_74_75()
    ensures
        pow2(74) == 0x400_0000_0000_0000_0000,
        pow2(75) == 0x800_0000_0000_0000_0000,
{
    lemma2_to64();
    lemma2_to64_rest();
    lemma_pow2_adds(64, 10);
    lemma_pow2_adds(64, 11);
}

/// Two to the power `k`.
pub fn power_of_two(k: u32) -> (p: u128)
    requires
        k <= 75,
    ensures
        p == pow2(k as nat),
{
    let mut p: u128 = 1;
    let mut i: u32 = 0;
    proof {
        lemma2_to64();
        lemma_pow2_74_75();
    }
    while i < k
        invariant
            i <= k <= 75,
            p == pow2(i as nat),
            pow2(75) == 0x800_0000_0000_0000_0000,
        decreases k - i,
    {
        proof {
            lemma_pow2_unfold((i + 1) as nat);
            if i + 1 < 75 {
                lemma_pow2_strictly_increases((i + 1) as nat, 75);
            }
        }
        p = p * 2;
        i += 1;
    }
    p
}

/// The value in millionths of the double-precision number from 0 to 1 with
/// the given bit pattern.
pub fn millionths_from_bits(bits: u64) -> (m: u32)
    ensures
        m == millionths_of_bits(bits),
        m <= 1_000_000,
{
    if bits >= ONE_BITS {
        return 1_000_000;
    }
    let e: u64 = bits / SIGNIFICAND_UNIT;
    if e < 1001 {
        return 0;
    }
    assert(e <= 1022);
    let significand: u128 = (SIGNIFICAND_UNIT + bits % SIGNIFICAND_UNIT) as u128;
    let shift: u32 = (1075 - e) as u32;
    let divisor: u128 = power_of_two(shift);
    proof {
        lemma2_to64_rest();
        lemma_pow2_pos(shift as nat);
        if shift < 74 {
            lemma_pow2_strictly_increases(shift as nat, 74);
        }
        if 53 < shift {
            lemma_pow2_strictly_increases(53, shift as nat);
        }
        lemma_pow2_74_75();
        assert(pow2(53) == 0x20_0000_0000_0000);
    }
    let rounded: u128 = (2 * (significand * 1_000_000) + divisor) / (2 * divisor);
    assert(rounded <= 1_000_000) by (nonlinear_arith)
        requires
            rounded == (2 * (significand * 1_000_000) + divisor) / (2 * divisor),
            significand < 0x20_0000_0000_0000,
            divisor >= 0x20_0000_0000_0000,
    ;
    rounded as u32
}

} // verus!
