//! Bit-level readings of the 32-bit IEEE-754 patterns that cross the boundary.
//!
//! The shared buffers carry 32-bit floating-point values; inside the verified
//! core each value is held as its raw bit pattern, and the few numeric
//! readings the protocol needs — the NaN "unset" sentinel and the saturating
//! float-to-integer casts that turn enum codes and buffer offsets into
//! integers — are computed directly on the bits.

use vstd::arithmetic::div_mod::lemma_basic_div;
use vstd::arithmetic::power2::{
    lemma2_to64, lemma2_to64_rest, lemma_pow2_adds, lemma_pow2_pos, lemma_pow2_strictly_increases,
    lemma_pow2_unfold, pow2,
};
use vstd::prelude::*;

verus! {

/// Exponent field of a pattern: bits 23 through 30.
pub open spec fn f32_exp(w: u32) -> int {
    (w as int / 0x80_0000) % 0x100
}

/// Fraction field of a pattern: bits 0 through 22.
pub open spec fn f32_frac(w: u32) -> int {
    w as int % 0x80_0000
}

/// Sign bit of a pattern.
pub open spec fn f32_is_neg(w: u32) -> bool {
    w >= 0x8000_0000
}

/// The pattern encodes a NaN: exponent all ones with a nonzero fraction.
pub open spec fn f32_is_nan(w: u32) -> bool {
    f32_exp(w) == 0xff && f32_frac(w) != 0
}

/// Magnitude of the encoded value, truncated toward zero. A NaN counts as 0
/// and an infinity as a value beyond every finite clamp bound, so that the
/// saturating casts below come out right. A subnormal pattern (exponent 0)
/// has magnitude below 1, and the formula correctly truncates it to 0 even
/// though it folds in the implicit leading bit.
pub open spec fn f32_mag_trunc(w: u32) -> int {
    let e = f32_exp(w);
    let m = f32_frac(w);
    if e == 0xff {
        if m != 0 {
            0
        } else {
            pow2(200) as int
        }
    } else if e < 150 {
        (0x80_0000 + m) / pow2((150 - e) as nat) as int
    } else {
        (0x80_0000 + m) * pow2((e - 150) as nat) as int
    }
}

/// The encoded value truncated toward zero, before any clamping; NaN is 0.
pub open spec fn f32_trunc(w: u32) -> int {
    if f32_is_neg(w) {
        -f32_mag_trunc(w)
    } else {
        f32_mag_trunc(w)
    }
}

/// `v` clamped to the interval `[lo, hi]`.
pub open spec fn clip(v: int, lo: int, hi: int) -> int {
    if v < lo {
        lo
    } else if v > hi {
        hi
    } else {
        v
    }
}

/// What Rust's saturating `as i32` cast makes of the encoded float:
/// truncation toward zero, clamped to the `i32` range, NaN to 0.
pub open spec fn f32_to_i32(w: u32) -> int {
    clip(f32_trunc(w), i32::MIN as int, i32::MAX as int)
}

/// What Rust's saturating `as usize` cast makes of the encoded float.
pub open spec fn f32_to_usize(w: u32) -> int {
    clip(f32_trunc(w), 0, usize::MAX as int)
}

/// 2 to the power `e`, as a machine word.
pub fn pow2_u64(e: u32) -> (r: u64)
    requires
        e < 64,
    ensures
        r == pow2(e as nat),
{
    let mut r: u64 = 1;
    let mut i: u32 = 0;
    proof {
        lemma2_to64();
    }
    while i < e
        invariant
            i <= e,
            e < 64,
            r == pow2(i as nat),
        decreases e - i,
    {
        proof {
            lemma_pow2_unfold((i + 1) as nat);
            if i + 1 < 64 {
                lemma_pow2_strictly_increases((i + 1) as nat, 64);
            }
            lemma2_to64_rest();
        }
        r = r * 2;
        i = i + 1;
    }
    r
}

/// Whether the pattern is a NaN, read off the raw bits.
pub fn f32_bits_is_nan(w: u32) -> (r: bool)
    ensures
        r == f32_is_nan(w),
{
    let e: u32 = (w / 0x80_0000) % 0x100;
    let m: u32 = w % 0x80_0000;
    e == 0xff && m != 0
}

/// Truncated magnitude of the encoded value, saturating at `u64::MAX`.
pub fn f32_bits_mag_trunc(w: u32) -> (r: u64)
    ensures
        r as int == clip(f32_mag_trunc(w), 0, u64::MAX as int),
{
    let e: u32 = (w / 0x80_0000) % 0x100;
    let m: u32 = w % 0x80_0000;
    let sig: u64 = 0x80_0000u64 + (m as u64);
    if e == 0xff {
        if m != 0 {
            0
        } else {
            proof {
                lemma_pow2_strictly_increases(64, 200);
                lemma2_to64_rest();
            }
            u64::MAX
        }
    } else if e < 127 {
        proof {
            // The significand is below 2^24 <= 2^(150 - e), so the quotient is 0.
            lemma2_to64();
            if 24 < 150 - e {
                lemma_pow2_strictly_increases(24, (150 - e) as nat);
            }
            lemma_basic_div(sig as int, pow2((150 - e) as nat) as int);
        }
        0
    } else if e < 150 {
        let d = pow2_u64(150 - e);
        proof {
            lemma_pow2_pos((150 - e) as nat);
            lemma2_to64();
            vstd::arithmetic::div_mod::lemma_div_is_ordered(
                sig as int,
                u64::MAX as int,
                d as int,
            );
            vstd::arithmetic::div_mod::lemma_div_is_ordered(0, sig as int, d as int);
        }
        sig / d
    } else if e >= 191 {
        proof {
            // The magnitude is at least 2^23 * 2^41 = 2^64, beyond u64::MAX.
            lemma2_to64();
            lemma2_to64_rest();
            lemma_pow2_adds(23, 41);
            if 41 < e - 150 {
                lemma_pow2_strictly_increases(41, (e - 150) as nat);
            }
            assert((sig as int) * (pow2((e - 150) as nat) as int) >= (pow2(23) as int) * (pow2(
                41,
            ) as int)) by (nonlinear_arith)
                requires
                    sig as int >= pow2(23) as int,
                    pow2((e - 150) as nat) as int >= pow2(41) as int,
                    pow2(23) as int > 0,
            ;
        }
        u64::MAX
    } else {
        let p = pow2_u64(e - 150);
        proof {
            // sig < 2^24 and p <= 2^40, so the product stays below 2^64.
            lemma2_to64();
            lemma2_to64_rest();
            lemma_pow2_adds(24, 40);
            if e - 150 < 40 {
                lemma_pow2_strictly_increases((e - 150) as nat, 40);
            }
            assert((sig as int) * (p as int) < (pow2(24) as int) * (pow2(40) as int))
                by (nonlinear_arith)
                requires
                    0 <= sig as int,
                    (sig as int) < (pow2(24) as int),
                    0 < p as int,
                    (p as int) <= (pow2(40) as int),
            ;
        }
        sig * p
    }
}

/// The truncated magnitude is never negative.
pub proof fn lemma_f32_mag_trunc_nonneg(w: u32)
    ensures
        f32_mag_trunc(w) >= 0,
{
    let e = f32_exp(w);
    let m = f32_frac(w);
    if e == 0xff {
        lemma_pow2_pos(200);
    } else if e < 150 {
        lemma_pow2_pos((150 - e) as nat);
        vstd::arithmetic::div_mod::lemma_div_is_ordered(
            0,
            0x80_0000 + m,
            pow2((150 - e) as nat) as int,
        );
        lemma_basic_div(0, pow2((150 - e) as nat) as int);
    } else {
        lemma_pow2_pos((e - 150) as nat);
        vstd::arithmetic::mul::lemma_mul_nonnegative(0x80_0000 + m, pow2((e - 150) as nat) as int);
    }
}

/// Rust's `as i32` on the encoded float: truncate toward zero, saturate at
/// the `i32` bounds, NaN to 0.
pub fn f32_bits_to_i32(w: u32) -> (r: i32)
    ensures
        r as int == f32_to_i32(w),
{
    let mag = f32_bits_mag_trunc(w);
    proof {
        lemma_f32_mag_trunc_nonneg(w);
    }
    if w >= 0x8000_0000 {
        if mag >= 0x8000_0000u64 {
            i32::MIN
        } else {
            0i32 - (mag as i32)
        }
    } else {
        if mag >= 0x7fff_ffffu64 {
            i32::MAX
        } else {
            mag as i32
        }
    }
}

/// Floor of the base-2 logarithm; 0 below 2.
pub open spec fn floor_log2(v: int) -> int
    decreases v,
{
    if v < 2 {
        0
    } else {
        1 + floor_log2(v / 2)
    }
}

/// For positive `v`, `floor_log2` picks exactly the power-of-two window that
/// holds `v`.
pub proof fn lemma_floor_log2_bounds(v: int)
    requires
        v >= 1,
    ensures
        0 <= floor_log2(v),
        pow2(floor_log2(v) as nat) <= v,
        v < pow2((floor_log2(v) + 1) as nat),
    decreases v,
{
    lemma2_to64();
    if v < 2 {
    } else {
        lemma_floor_log2_bounds(v / 2);
        let f = floor_log2(v / 2);
        lemma_pow2_unfold((f + 1) as nat);
        lemma_pow2_unfold((f + 2) as nat);
        assert(2 * (v / 2) <= v && v < 2 * (v / 2) + 2) by (nonlinear_arith);
    }
}

/// What Rust's `as f32` cast makes of a 32-bit unsigned integer, as the raw
/// bits of the resulting float: round to nearest, ties to even. Values up to
/// 2^24 convert exactly; above that the low bits round into the 24-bit
/// significand, possibly carrying into the exponent.
pub open spec fn f32_bits_of_u32(v: u32) -> u32 {
    if v == 0 {
        0u32
    } else {
        let p = floor_log2(v as int);
        if p <= 23 {
            (((127 + p) * 0x80_0000) + ((v as int) * (pow2((23 - p) as nat) as int)
                - 0x80_0000)) as u32
        } else {
            let shift = (p - 23) as nat;
            let q = v as int / (pow2(shift) as int);
            let rem = v as int % (pow2(shift) as int);
            let half = pow2((shift - 1) as nat) as int;
            let q2 = if rem > half || (rem == half && q % 2 == 1) {
                q + 1
            } else {
                q
            };
            if q2 == 0x100_0000 {
                (((127 + p + 1) * 0x80_0000)) as u32
            } else {
                (((127 + p) * 0x80_0000) + (q2 - 0x80_0000)) as u32
            }
        }
    }
}

/// Rust's `as f32` on a 32-bit unsigned integer, returning the raw bits of
/// the float (round to nearest, ties to even).
pub fn u32_to_f32_bits(v: u32) -> (r: u32)
    ensures
        r == f32_bits_of_u32(v),
{
    if v == 0 {
        return 0;
    }
    proof {
        lemma_floor_log2_bounds(v as int);
        lemma2_to64_rest();
        lemma2_to64();
        if floor_log2(v as int) >= 32 {
            if floor_log2(v as int) > 32 {
                lemma_pow2_strictly_increases(32, floor_log2(v as int) as nat);
            }
            assert(pow2(floor_log2(v as int) as nat) >= 0x1_0000_0000);
            assert(false);
        }
    }
    let mut p: u32 = 0;
    let mut cur: u32 = v;
    while cur >= 2
        invariant
            cur >= 1,
            p + floor_log2(cur as int) == floor_log2(v as int),
            floor_log2(v as int) <= 31,
        decreases cur,
    {
        proof {
            lemma_floor_log2_bounds(cur as int);
        }
        cur = cur / 2;
        p = p + 1;
    }
    proof {
        assert(floor_log2(cur as int) == 0);
        assert(p == floor_log2(v as int));
        lemma2_to64();
    }
    if p <= 23 {
        let mul: u64 = pow2_u64(23 - p);
        proof {
            if 23 - p < 23 {
                lemma_pow2_strictly_increases((23 - p) as nat, 23);
            }
            assert(mul <= 0x80_0000);
            assert((v as int) * (mul as int) < 0x1_0000_0000 * 0x80_0001) by (nonlinear_arith)
                requires
                    0 <= v as int,
                    (v as int) < 0x1_0000_0000,
                    0 <= mul as int,
                    (mul as int) <= 0x80_0000,
            ;
        }
        let scaled: u64 = (v as u64) * mul;
        proof {
            lemma_pow2_adds((p + 1) as nat, (23 - p) as nat);
            lemma_pow2_adds(p as nat, (23 - p) as nat);
            assert((v as int) * (pow2((23 - p) as nat) as int) < (pow2((p + 1) as nat) as int)
                * (pow2((23 - p) as nat) as int)) by (nonlinear_arith)
                requires
                    (v as int) < (pow2((p + 1) as nat) as int),
                    (pow2((23 - p) as nat) as int) > 0,
            ;
            assert((v as int) * (pow2((23 - p) as nat) as int) >= (pow2(p as nat) as int) * (pow2(
                (23 - p) as nat,
            ) as int)) by (nonlinear_arith)
                requires
                    (v as int) >= (pow2(p as nat) as int),
                    (pow2((23 - p) as nat) as int) > 0,
            ;
        }
        ((127 + p) * 0x80_0000) + ((scaled as u32) - 0x80_0000)
    } else {
        let shift: u32 = p - 23;
        let d: u64 = pow2_u64(shift);
        let vq: u64 = (v as u64) / d;
        let rem: u64 = (v as u64) % d;
        let half: u64 = pow2_u64(shift - 1);
        proof {
            lemma_pow2_pos(shift as nat);
            lemma_pow2_adds(23, shift as nat);
            lemma_pow2_adds(24, shift as nat);
            vstd::arithmetic::div_mod::lemma_fundamental_div_mod(v as int, d as int);
            // The quotient sits in the 24-bit significand window.
            assert(vq >= 0x80_0000 && vq < 0x100_0000) by (nonlinear_arith)
                requires
                    v as int == (d as int) * (vq as int) + (rem as int),
                    0 <= rem as int,
                    (rem as int) < (d as int),
                    (v as int) >= (pow2(23) as int) * (d as int),
                    (v as int) < (pow2(24) as int) * (d as int),
                    d as int > 0,
                    pow2(23) == 0x80_0000,
                    pow2(24) == 0x100_0000,
            ;
        }
        let q2: u64 = if rem > half || (rem == half && vq % 2 == 1) {
            vq + 1
        } else {
            vq
        };
        if q2 == 0x100_0000 {
            (128 + p) * 0x80_0000
        } else {
            ((127 + p) * 0x80_0000) + ((q2 as u32) - 0x80_0000)
        }
    }
}

/// Rust's `as usize` on the encoded float: truncate toward zero, saturate at
/// the `usize` bounds, NaN to 0.
pub fn f32_bits_to_usize(w: u32) -> (r: usize)
    ensures
        r as int == f32_to_usize(w),
{
    if w >= 0x8000_0000 {
        proof {
            lemma_f32_mag_trunc_nonneg(w);
        }
        0
    } else {
        let mag = f32_bits_mag_trunc(w);
        proof {
            lemma_f32_mag_trunc_nonneg(w);
        }
        if mag >= usize::MAX as u64 {
            usize::MAX
        } else {
            mag as usize
        }
    }
}

} // verus!
