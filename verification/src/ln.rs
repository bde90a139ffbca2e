//! Fixed-point natural logarithm: the argument is scaled into [1, 2)
//! by powers of two, and ln of the mantissa comes from the series for
//! 2·atanh((m-1)/(m+1)).

use vstd::prelude::*;

use vstd::arithmetic::power2::{pow2, lemma_pow2_pos, lemma_pow2_unfold, lemma2_to64,
    lemma2_to64_rest};
use crate::fixed::{SCALE, MAX_FP, fmul, fdiv, fp_mul, fp_div, div_pos, iabs};
use crate::exp::{LN2, lemma_fmul_le_left};

verus! {

/// The mantissa after scaling x by powers of two into [SCALE, 2·SCALE).
pub open spec fn norm_m(x: int) -> int
    decreases (if x >= SCALE as int { x } else { 2 * (SCALE as int) - x })
        when x > 0
{
    if x >= 2 * (SCALE as int) {
        norm_m(x / 2)
    } else if x < SCALE as int {
        if 2 * x >= SCALE as int {
            2 * x
        } else {
            norm_m(2 * x)
        }
    } else {
        x
    }
}

/// The binary exponent matching `norm_m`: x is about norm_m(x) · 2^norm_k(x).
pub open spec fn norm_k(x: int) -> int
    decreases (if x >= SCALE as int { x } else { 2 * (SCALE as int) - x })
        when x > 0
{
    if x >= 2 * (SCALE as int) {
        norm_k(x / 2) + 1
    } else if x < SCALE as int {
        if 2 * x >= SCALE as int {
            -1
        } else {
            norm_k(2 * x) - 1
        }
    } else {
        0
    }
}

/// The exponent never exceeds j where x < 2^j · SCALE.
pub proof fn lemma_norm_k_le(x: int, j: nat)
    requires
        x >= 1,
        x < pow2(j) * (SCALE as int),
    ensures
        norm_k(x) <= j,
    decreases (if x >= SCALE as int { x } else { 2 * (SCALE as int) - x }),
{
    lemma_pow2_pos(j);
    if x >= 2 * (SCALE as int) {
        assert(j >= 1) by {
            if j == 0 {
                assert(pow2(0) == 1) by { lemma2_to64(); };
            }
        };
        lemma_pow2_unfold(j);
        assert(x / 2 < pow2((j - 1) as nat) * (SCALE as int)) by {
            assert(pow2(j) * (SCALE as int) == 2 * (pow2((j - 1) as nat) * (SCALE as int)))
                by (nonlinear_arith)
                requires
                    pow2(j) == 2 * pow2((j - 1) as nat),
            ;
        };
        lemma_norm_k_le(x / 2, (j - 1) as nat);
    } else if x < SCALE as int {
        if 2 * x < SCALE as int {
            assert(2 * x < pow2(j) * (SCALE as int)) by (nonlinear_arith)
                requires
                    2 * x < SCALE as int,
                    pow2(j) >= 1,
            ;
            lemma_norm_k_le(2 * x, j);
        }
    }
}

/// The exponent never goes below -j where x · 2^j >= SCALE.
pub proof fn lemma_norm_k_ge(x: int, j: nat)
    requires
        x >= 1,
        x * pow2(j) >= SCALE as int,
    ensures
        norm_k(x) >= -(j as int),
    decreases (if x >= SCALE as int { x } else { 2 * (SCALE as int) - x }),
{
    lemma_pow2_pos(j);
    if x >= 2 * (SCALE as int) {
        assert((x / 2) * pow2(j) >= SCALE as int) by (nonlinear_arith)
            requires
                x / 2 >= SCALE as int,
                pow2(j) >= 1,
        ;
        lemma_norm_k_ge(x / 2, j);
    } else if x < SCALE as int {
        assert(j >= 1) by {
            if j == 0 {
                assert(pow2(0) == 1) by { lemma2_to64(); };
                assert(x * pow2(j) == x) by (nonlinear_arith)
                    requires
                        pow2(j) == 1,
                ;
            }
        };
        if 2 * x < SCALE as int {
            lemma_pow2_unfold(j);
            assert((2 * x) * pow2((j - 1) as nat) >= SCALE as int) by (nonlinear_arith)
                requires
                    x * pow2(j) >= SCALE as int,
                    pow2(j) == 2 * pow2((j - 1) as nat),
            ;
            lemma_norm_k_ge(2 * x, (j - 1) as nat);
        }
    }
}

/// Series for atanh(z): z + z³/3 + ... + z¹⁵/15, in fixed point.
#[verifier::opaque]
pub open spec fn atanh_series(z: int) -> int {
    let z2 = fmul(z, z);
    let w3 = fmul(z, z2);
    let w5 = fmul(w3, z2);
    let w7 = fmul(w5, z2);
    let w9 = fmul(w7, z2);
    let w11 = fmul(w9, z2);
    let w13 = fmul(w11, z2);
    let w15 = fmul(w13, z2);
    z + w3 / 3 + w5 / 5 + w7 / 7 + w9 / 9 + w11 / 11 + w13 / 13 + w15 / 15
}

/// ln x in fixed point: norm_k(x)·ln 2 + 2·atanh of the mantissa ratio.
#[verifier::opaque]
pub open spec fn ln_spec(x: int) -> int {
    let m = norm_m(x);
    let z = fdiv(m - SCALE as int, m + SCALE as int);
    norm_k(x) * (LN2 as int) + 2 * atanh_series(z)
}

/// Fixed-point natural logarithm, exactly `ln_spec(x)`.
pub fn fp_ln(x: i128) -> (r: i128)
    requires
        1 <= x <= MAX_FP as int,
    ensures
        r == ln_spec(x as int),
        iabs(r as int) <= 35_000_000_000,
{
    proof {
        reveal(ln_spec);
        reveal(atanh_series);
    }
    let mut m: i128 = x;
    let mut k: i128 = 0;
    proof {
        lemma2_to64();
        lemma2_to64_rest();
        lemma_norm_k_le(x as int, 34);
        assert((x as int) * pow2(30) >= SCALE as int) by (nonlinear_arith)
            requires
                x >= 1,
                pow2(30) == 0x40000000,
        ;
        lemma_norm_k_ge(x as int, 30);
    }
    while m >= 2 * SCALE
        invariant
            1 <= m <= MAX_FP as int,
            norm_m(x as int) == norm_m(m as int),
            norm_k(x as int) == k + norm_k(m as int),
            -30 <= norm_k(x as int) <= 34,
            -30 <= norm_k(m as int) <= 34,
        decreases m,
    {
        m = div_pos(m, 2);
        k = k + 1;
        proof {
            lemma2_to64();
            lemma2_to64_rest();
            lemma_norm_k_le(m as int, 34);
            assert((m as int) * pow2(30) >= SCALE as int) by (nonlinear_arith)
                requires
                    m >= 1,
                    pow2(30) == 0x40000000,
            ;
            lemma_norm_k_ge(m as int, 30);
        }
    }
    while m < SCALE
        invariant
            1 <= m < 2 * SCALE,
            norm_m(x as int) == norm_m(m as int),
            norm_k(x as int) == k + norm_k(m as int),
            -30 <= norm_k(x as int) <= 34,
            -30 <= norm_k(m as int) <= 34,
        decreases 2 * SCALE - m,
    {
        m = m * 2;
        k = k - 1;
        proof {
            lemma2_to64();
            lemma2_to64_rest();
            lemma_norm_k_le(m as int, 34);
            assert((m as int) * pow2(30) >= SCALE as int) by (nonlinear_arith)
                requires
                    m >= 1,
                    pow2(30) == 0x40000000,
            ;
            lemma_norm_k_ge(m as int, 30);
        }
    }
    proof {
        assert(norm_m(m as int) == m as int);
        assert(norm_k(m as int) == 0);
        assert(k == norm_k(x as int));
    }
    let z: i128 = fp_div(m - SCALE, m + SCALE);
    proof {
        crate::fixed::lemma_fdiv_mag(m as int - SCALE as int, m as int + SCALE as int,
            SCALE as int, 2 * SCALE as int);
    }
    let z2: i128 = fp_mul(z, z);
    proof {
        lemma_fmul_le_left(z as int, z as int);
        lemma_fmul_le_left(z as int, z2 as int);
    }
    let w3: i128 = fp_mul(z, z2);
    proof { lemma_fmul_le_left(w3 as int, z2 as int); }
    let w5: i128 = fp_mul(w3, z2);
    proof { lemma_fmul_le_left(w5 as int, z2 as int); }
    let w7: i128 = fp_mul(w5, z2);
    proof { lemma_fmul_le_left(w7 as int, z2 as int); }
    let w9: i128 = fp_mul(w7, z2);
    proof { lemma_fmul_le_left(w9 as int, z2 as int); }
    let w11: i128 = fp_mul(w9, z2);
    proof { lemma_fmul_le_left(w11 as int, z2 as int); }
    let w13: i128 = fp_mul(w11, z2);
    proof { lemma_fmul_le_left(w13 as int, z2 as int); }
    let w15: i128 = fp_mul(w13, z2);
    proof {
        vstd::arithmetic::div_mod::lemma_div_nonincreasing(w3 as int, 3);
        vstd::arithmetic::div_mod::lemma_div_pos_is_pos(w3 as int, 3);
        vstd::arithmetic::div_mod::lemma_div_nonincreasing(w5 as int, 5);
        vstd::arithmetic::div_mod::lemma_div_pos_is_pos(w5 as int, 5);
        vstd::arithmetic::div_mod::lemma_div_nonincreasing(w7 as int, 7);
        vstd::arithmetic::div_mod::lemma_div_pos_is_pos(w7 as int, 7);
        vstd::arithmetic::div_mod::lemma_div_nonincreasing(w9 as int, 9);
        vstd::arithmetic::div_mod::lemma_div_pos_is_pos(w9 as int, 9);
        vstd::arithmetic::div_mod::lemma_div_nonincreasing(w11 as int, 11);
        vstd::arithmetic::div_mod::lemma_div_pos_is_pos(w11 as int, 11);
        vstd::arithmetic::div_mod::lemma_div_nonincreasing(w13 as int, 13);
        vstd::arithmetic::div_mod::lemma_div_pos_is_pos(w13 as int, 13);
        vstd::arithmetic::div_mod::lemma_div_nonincreasing(w15 as int, 15);
        vstd::arithmetic::div_mod::lemma_div_pos_is_pos(w15 as int, 15);
    }
    let s: i128 = z + div_pos(w3, 3) + div_pos(w5, 5) + div_pos(w7, 7) + div_pos(w9, 9)
        + div_pos(w11, 11) + div_pos(w13, 13) + div_pos(w15, 15);
    k * LN2 + 2 * s
}

} // verus!
