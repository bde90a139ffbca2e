//! Fixed-point exponential: e^y for y in units of `SCALE`, computed by
//! range reduction to [0, ln 2) and a truncated Taylor series.

use vstd::prelude::*;

use vstd::arithmetic::power2::{pow2, lemma_pow2_pos, lemma_pow2_unfold, lemma_pow2_adds,
    lemma_pow2_strictly_increases, lemma2_to64, lemma2_to64_rest};
use crate::fixed::{SCALE, fmul, fp_mul, div_pos, mod_pos};

verus! {

/// ln 2 in units of `SCALE`.
pub const LN2: i128 = 693_147_181;

/// Lowest argument `fp_exp` accepts; e^y underflows to 0 near it.
pub const EXP_ARG_MIN: i128 = -50_000_000_000;

/// Highest argument `fp_exp` accepts; e^y stays within `in_fp` below it.
pub const EXP_ARG_MAX: i128 = 21_000_000_000;

pub proof fn lemma_pow2_le(j: nat, k: nat)
    requires
        j <= k,
    ensures
        pow2(j) <= pow2(k),
{
    if j < k {
        lemma_pow2_strictly_increases(j, k);
    }
}

/// 2^73, by splitting the exponent at 64.
proof fn lemma_pow2_73()
    ensures
        pow2(73) == 0x2000000000000000000,
{
    lemma2_to64();
    lemma2_to64_rest();
    lemma_pow2_adds(64, 9);
}

/// 2^k, exactly.
fn pow2_u(k: u32) -> (r: u128)
    requires
        k <= 73,
    ensures
        r == pow2(k as nat),
        r >= 1,
{
    proof {
        lemma_pow2_73();
        lemma2_to64();
    }
    let mut r: u128 = 1;
    let mut i: u32 = 0;
    while i < k
        invariant
            i <= k <= 73,
            r == pow2(i as nat),
            pow2(73) == 0x2000000000000000000,
        decreases k - i,
    {
        proof {
            lemma_pow2_unfold((i + 1) as nat);
            lemma_pow2_le((i + 1) as nat, 73nat);
            lemma_pow2_pos(i as nat);
        }
        r = r * 2;
        i = i + 1;
    }
    proof {
        lemma_pow2_pos(k as nat);
    }
    r
}

/// Taylor series for e^f on [0, ln 2), truncated after the 13th power.
#[verifier::opaque]
pub open spec fn exp_series(f: int) -> int {
    let t1 = f;
    let t2 = fmul(t1, f) / 2;
    let t3 = fmul(t2, f) / 3;
    let t4 = fmul(t3, f) / 4;
    let t5 = fmul(t4, f) / 5;
    let t6 = fmul(t5, f) / 6;
    let t7 = fmul(t6, f) / 7;
    let t8 = fmul(t7, f) / 8;
    let t9 = fmul(t8, f) / 9;
    let t10 = fmul(t9, f) / 10;
    let t11 = fmul(t10, f) / 11;
    let t12 = fmul(t11, f) / 12;
    let t13 = fmul(t12, f) / 13;
    (SCALE as int) + t1 + t2 + t3 + t4 + t5 + t6 + t7 + t8 + t9 + t10 + t11 + t12 + t13
}

/// Multiplying a non-negative value by a factor at most 1.0 does not grow it.
pub proof fn lemma_fmul_le_left(t: int, f: int)
    requires
        0 <= t,
        0 <= f <= SCALE as int,
    ensures
        0 <= fmul(t, f) <= t,
{
    vstd::arithmetic::mul::lemma_mul_inequality(f, SCALE as int, t);
    vstd::arithmetic::mul::lemma_mul_is_commutative(f, t);
    vstd::arithmetic::mul::lemma_mul_is_commutative(SCALE as int, t);
    vstd::arithmetic::div_mod::lemma_div_is_ordered(t * f, (SCALE as int) * t, SCALE as int);
    vstd::arithmetic::div_mod::lemma_div_multiples_vanish(t, SCALE as int);
    vstd::arithmetic::mul::lemma_mul_nonnegative(t, f);
    vstd::arithmetic::div_mod::lemma_div_pos_is_pos(t * f, SCALE as int);
}

/// The series, executably; result is exactly `exp_series(f)`.
fn exp_series_exec(f: i128) -> (r: i128)
    requires
        0 <= f < LN2,
    ensures
        r == exp_series(f as int),
        SCALE as int <= r <= 2_200_000_000,
{
    proof {
        reveal(exp_series);
    }
    let t1: i128 = f;
    proof { lemma_fmul_le_left(t1 as int, f as int); }
    let t2: i128 = div_pos(fp_mul(t1, f), 2);
    proof { lemma_fmul_le_left(t2 as int, f as int); }
    let t3: i128 = div_pos(fp_mul(t2, f), 3);
    proof { lemma_fmul_le_left(t3 as int, f as int); }
    let t4: i128 = div_pos(fp_mul(t3, f), 4);
    proof { lemma_fmul_le_left(t4 as int, f as int); }
    let t5: i128 = div_pos(fp_mul(t4, f), 5);
    proof { lemma_fmul_le_left(t5 as int, f as int); }
    let t6: i128 = div_pos(fp_mul(t5, f), 6);
    proof { lemma_fmul_le_left(t6 as int, f as int); }
    let t7: i128 = div_pos(fp_mul(t6, f), 7);
    proof { lemma_fmul_le_left(t7 as int, f as int); }
    let t8: i128 = div_pos(fp_mul(t7, f), 8);
    proof { lemma_fmul_le_left(t8 as int, f as int); }
    let t9: i128 = div_pos(fp_mul(t8, f), 9);
    proof { lemma_fmul_le_left(t9 as int, f as int); }
    let t10: i128 = div_pos(fp_mul(t9, f), 10);
    proof { lemma_fmul_le_left(t10 as int, f as int); }
    let t11: i128 = div_pos(fp_mul(t10, f), 11);
    proof { lemma_fmul_le_left(t11 as int, f as int); }
    let t12: i128 = div_pos(fp_mul(t11, f), 12);
    proof { lemma_fmul_le_left(t12 as int, f as int); }
    let t13: i128 = div_pos(fp_mul(t12, f), 13);
    SCALE + t1 + t2 + t3 + t4 + t5 + t6 + t7 + t8 + t9 + t10 + t11 + t12 + t13
}

/// The series never falls below 1.0 on its domain.
pub proof fn lemma_exp_series_lower(f: int)
    requires
        0 <= f <= LN2 as int,
    ensures
        exp_series(f) >= SCALE as int,
{
    reveal(exp_series);
    let t1 = f;
    lemma_fmul_le_left(t1, f);
    let t2 = fmul(t1, f) / 2;
    vstd::arithmetic::div_mod::lemma_div_pos_is_pos(fmul(t1, f), 2);
    lemma_fmul_le_left(t2, f);
    let t3 = fmul(t2, f) / 3;
    vstd::arithmetic::div_mod::lemma_div_pos_is_pos(fmul(t2, f), 3);
    lemma_fmul_le_left(t3, f);
    let t4 = fmul(t3, f) / 4;
    vstd::arithmetic::div_mod::lemma_div_pos_is_pos(fmul(t3, f), 4);
    lemma_fmul_le_left(t4, f);
    let t5 = fmul(t4, f) / 5;
    vstd::arithmetic::div_mod::lemma_div_pos_is_pos(fmul(t4, f), 5);
    lemma_fmul_le_left(t5, f);
    let t6 = fmul(t5, f) / 6;
    vstd::arithmetic::div_mod::lemma_div_pos_is_pos(fmul(t5, f), 6);
    lemma_fmul_le_left(t6, f);
    let t7 = fmul(t6, f) / 7;
    vstd::arithmetic::div_mod::lemma_div_pos_is_pos(fmul(t6, f), 7);
    lemma_fmul_le_left(t7, f);
    let t8 = fmul(t7, f) / 8;
    vstd::arithmetic::div_mod::lemma_div_pos_is_pos(fmul(t7, f), 8);
    lemma_fmul_le_left(t8, f);
    let t9 = fmul(t8, f) / 9;
    vstd::arithmetic::div_mod::lemma_div_pos_is_pos(fmul(t8, f), 9);
    lemma_fmul_le_left(t9, f);
    let t10 = fmul(t9, f) / 10;
    vstd::arithmetic::div_mod::lemma_div_pos_is_pos(fmul(t9, f), 10);
    lemma_fmul_le_left(t10, f);
    let t11 = fmul(t10, f) / 11;
    vstd::arithmetic::div_mod::lemma_div_pos_is_pos(fmul(t10, f), 11);
    lemma_fmul_le_left(t11, f);
    let t12 = fmul(t11, f) / 12;
    vstd::arithmetic::div_mod::lemma_div_pos_is_pos(fmul(t11, f), 12);
    lemma_fmul_le_left(t12, f);
    vstd::arithmetic::div_mod::lemma_div_pos_is_pos(fmul(t12, f), 13);
}

/// e^y is never negative, at the spec level.
pub proof fn lemma_exp_spec_nonneg(y: int)
    ensures
        exp_spec(y) >= 0,
{
    reveal(exp_spec);
    let l = LN2 as int;
    if y >= 0 {
        vstd::arithmetic::div_mod::lemma_mod_bound(y, l);
        vstd::arithmetic::div_mod::lemma_div_pos_is_pos(y, l);
        lemma_exp_series_lower(y % l);
        lemma_pow2_pos((y / l) as nat);
        vstd::arithmetic::mul::lemma_mul_nonnegative(exp_series(y % l),
            pow2((y / l) as nat) as int);
    } else {
        let u = -y;
        vstd::arithmetic::div_mod::lemma_mod_bound(u, l);
        vstd::arithmetic::div_mod::lemma_div_pos_is_pos(u, l);
        let kq = u / l;
        let rem = u % l;
        if rem == 0 {
            lemma_exp_series_lower(0);
            lemma_pow2_pos(kq as nat);
            vstd::arithmetic::div_mod::lemma_div_pos_is_pos(exp_series(0), pow2(kq as nat) as int);
        } else {
            lemma_exp_series_lower(l - rem);
            lemma_pow2_pos((kq + 1) as nat);
            vstd::arithmetic::div_mod::lemma_div_pos_is_pos(exp_series(l - rem),
                pow2((kq + 1) as nat) as int);
        }
    }
}

/// On [-16, 0] the fixed-point e^y keeps a positive floor.
pub proof fn lemma_exp_spec_lower16(y: int)
    requires
        -16_000_000_000 <= y <= 0,
    ensures
        exp_spec(y) >= 59,
{
    reveal(exp_spec);
    let l = LN2 as int;
    lemma2_to64();
    if y == 0 {
        vstd::arithmetic::div_mod::lemma_div_of0(l);
        vstd::arithmetic::div_mod::lemma_mod_bound(0, l);
        vstd::arithmetic::div_mod::lemma_small_mod(0, l as nat);
        lemma_exp_series_lower(0);
        vstd::arithmetic::mul::lemma_mul_inequality(1, pow2(0) as int, exp_series(0));
        vstd::arithmetic::mul::lemma_mul_is_commutative(pow2(0) as int, exp_series(0));
    } else {
        let u = -y;
        vstd::arithmetic::div_mod::lemma_mod_bound(u, l);
        vstd::arithmetic::div_mod::lemma_div_pos_is_pos(u, l);
        vstd::arithmetic::div_mod::lemma_div_is_ordered(u, 16_000_000_000, l);
        let kq = u / l;
        let rem = u % l;
        assert(kq <= 23);
        if rem == 0 {
            lemma_exp_series_lower(0);
            lemma_pow2_pos(kq as nat);
            lemma_pow2_le(kq as nat, 23nat);
            vstd::arithmetic::div_mod::lemma_div_is_ordered(SCALE as int, exp_series(0),
                pow2(kq as nat) as int);
            vstd::arithmetic::div_mod::lemma_div_is_ordered_by_denominator(SCALE as int,
                pow2(kq as nat) as int, 8388608);
        } else {
            lemma_exp_series_lower(l - rem);
            lemma_pow2_pos((kq + 1) as nat);
            lemma_pow2_le((kq + 1) as nat, 24nat);
            vstd::arithmetic::div_mod::lemma_div_is_ordered(SCALE as int, exp_series(l - rem),
                pow2((kq + 1) as nat) as int);
            vstd::arithmetic::div_mod::lemma_div_is_ordered_by_denominator(SCALE as int,
                pow2((kq + 1) as nat) as int, 16777216);
        }
    }
}

/// e^y in fixed point: the series at the reduced argument, scaled by 2^k.
#[verifier::opaque]
pub open spec fn exp_spec(y: int) -> int {
    if y >= 0 {
        exp_series(y % (LN2 as int)) * (pow2((y / (LN2 as int)) as nat) as int)
    } else {
        let u = -y;
        let kq = u / (LN2 as int);
        let rem = u % (LN2 as int);
        if rem == 0 {
            exp_series(0) / (pow2(kq as nat) as int)
        } else {
            exp_series((LN2 as int) - rem) / (pow2((kq + 1) as nat) as int)
        }
    }
}

/// Fixed-point e^y, exactly `exp_spec(y)`; the bounds the pricing
/// formulas need are stated alongside.
pub fn fp_exp(y: i128) -> (r: i128)
    requires
        EXP_ARG_MIN as int <= y <= EXP_ARG_MAX as int,
    ensures
        r == exp_spec(y as int),
        0 <= r <= 2_400_000_000_000_000_000,
        y >= 0 ==> r >= SCALE as int,
        y <= 5_000_000_000 ==> r <= 282_000_000_000,
        y <= 0 ==> r <= 2_200_000_000,
        y >= -16_000_000_000 ==> r >= 59,
{
    proof {
        reveal(exp_spec);
    }
    if y >= 0 {
        let k: i128 = div_pos(y, LN2);
        let f: i128 = mod_pos(y, LN2);
        proof {
            vstd::arithmetic::div_mod::lemma_mod_bound(y as int, LN2 as int);
            vstd::arithmetic::div_mod::lemma_div_is_ordered(y as int, EXP_ARG_MAX as int, LN2 as int);
            vstd::arithmetic::div_mod::lemma_div_pos_is_pos(y as int, LN2 as int);
            assert(k <= 30);
        }
        let s: i128 = exp_series_exec(f);
        let pk: u128 = pow2_u(k as u32);
        proof {
            lemma_pow2_le(k as nat, 30nat);
            lemma2_to64();
            assert(s * (pk as int) <= 2_200_000_000 * 1073741824int) by (nonlinear_arith)
                requires
                    0 <= s <= 2_200_000_000,
                    0 <= pk <= 1073741824int,
            ;
            vstd::arithmetic::mul::lemma_mul_nonnegative(s as int, pk as int);
            if y <= 5_000_000_000 {
                vstd::arithmetic::div_mod::lemma_div_is_ordered(y as int, 5_000_000_000, LN2 as int);
                assert(k <= 7);
                lemma_pow2_le(k as nat, 7nat);
                assert(s * (pk as int) <= 2_200_000_000 * 128int) by (nonlinear_arith)
                    requires
                        0 <= s <= 2_200_000_000,
                        0 <= pk <= 128int,
                ;
            }
            vstd::arithmetic::mul::lemma_mul_inequality(1, pk as int, s as int);
            vstd::arithmetic::mul::lemma_mul_is_commutative(pk as int, s as int);
            if y == 0 {
                lemma2_to64();
                vstd::arithmetic::div_mod::lemma_div_of0(LN2 as int);
                assert(pk == 1);
                vstd::arithmetic::mul::lemma_mul_basics_3(s as int);
            }
        }
        let r: i128 = s * (pk as i128);
        r
    } else {
        let u: i128 = -y;
        let kq: i128 = div_pos(u, LN2);
        let rem: i128 = mod_pos(u, LN2);
        proof {
            vstd::arithmetic::div_mod::lemma_mod_bound(u as int, LN2 as int);
            vstd::arithmetic::div_mod::lemma_div_is_ordered(u as int, 50_000_000_000, LN2 as int);
            vstd::arithmetic::div_mod::lemma_div_pos_is_pos(u as int, LN2 as int);
            assert(kq <= 72);
        }
        let k: i128 = if rem == 0 { kq } else { kq + 1 };
        let f: i128 = if rem == 0 { 0 } else { LN2 - rem };
        let s: i128 = exp_series_exec(f);
        let pk: u128 = pow2_u(k as u32);
        proof {
            lemma_pow2_73();
            lemma_pow2_le(k as nat, 73nat);
            lemma_pow2_pos(k as nat);
            vstd::arithmetic::div_mod::lemma_div_pos_is_pos(s as int, pk as int);
            vstd::arithmetic::div_mod::lemma_div_nonincreasing(s as int, pk as int);
            if y >= -16_000_000_000 {
                vstd::arithmetic::div_mod::lemma_div_is_ordered(u as int, 16_000_000_000, LN2 as int);
                assert(kq <= 23);
                lemma_pow2_le(k as nat, 24nat);
                lemma2_to64();
                vstd::arithmetic::div_mod::lemma_div_is_ordered_by_denominator(s as int, pk as int, 16777216int);
                vstd::arithmetic::div_mod::lemma_div_is_ordered(SCALE as int, s as int, 16777216int);
            }
        }
        let r: i128 = div_pos(s, pk as i128);
        r
    }
}

} // verus!
