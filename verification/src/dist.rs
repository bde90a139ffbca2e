//! Normal-distribution primitives: the error function by the
//! Abramowitz–Stegun rational approximation, and the standard normal
//! CDF and PDF built on it.

use vstd::prelude::*;

use crate::fixed::{SCALE, fmul, fdiv, fp_mul, fp_div, div_pos, iabs,
    lemma_fmul_mag, lemma_fmul_lower, lemma_fdiv_mag, lemma_fdiv_lower};
use crate::exp::{exp_spec, fp_exp, lemma_fmul_le_left, lemma_exp_spec_lower16};

verus! {

/// Beyond this magnitude erf saturates at ±1.
pub const ERF_SAT: i128 = 7_000_000_000;

/// Beyond this magnitude the CDF saturates at 0 or 1 and the PDF at 0.
pub const CDF_SAT: i128 = 10_000_000_000;

/// sqrt(2) in units of `SCALE`.
pub const SQRT2: i128 = 1_414_213_562;

/// sqrt(2·pi) in units of `SCALE`.
pub const SQRT_2PI: i128 = 2_506_628_275;

/// The five Abramowitz–Stegun polynomial coefficients, in units of `SCALE`.
pub const A1: i128 = 254_829_592;

pub const A2: i128 = -284_496_736;

pub const A3: i128 = 1_421_413_741;

pub const A4: i128 = -1_453_152_027;

pub const A5: i128 = 1_061_405_429;

/// The rational-approximation parameter p, in units of `SCALE`.
pub const PC: i128 = 327_591_100;

/// erf on positive arguments below `ERF_SAT`: the Horner form of the
/// five-term polynomial in t = 1/(1 + p·v), damped by e^(-v²), and
/// kept inside [0, 1].
#[verifier::opaque]
pub open spec fn erf_mag(v: int) -> int {
    let t = fdiv(SCALE as int, (SCALE as int) + fmul(PC as int, v));
    let e = exp_spec(-fmul(v, v));
    let h4 = fmul(A5 as int, t) + A4 as int;
    let h3 = fmul(h4, t) + A3 as int;
    let h2 = fmul(h3, t) + A2 as int;
    let h1 = fmul(h2, t) + A1 as int;
    let y = (SCALE as int) - fmul(fmul(h1, t), e);
    if y < 0 {
        0
    } else if y > SCALE as int {
        SCALE as int
    } else {
        y
    }
}

/// The error function: odd, zero at zero, saturating at ±1.
#[verifier::opaque]
pub open spec fn erf_spec(x: int) -> int {
    if x == 0 {
        0
    } else if x >= ERF_SAT as int {
        SCALE as int
    } else if x <= -(ERF_SAT as int) {
        -(SCALE as int)
    } else if x < 0 {
        -erf_mag(-x)
    } else {
        erf_mag(x)
    }
}

/// The Gauss error function in fixed point, exactly `erf_spec(x)`.
pub fn erf(x: i128) -> (r: i128)
    ensures
        r == erf_spec(x as int),
        -(SCALE as int) <= r <= SCALE as int,
{
    proof {
        reveal(erf_spec);
        reveal(erf_mag);
    }
    if x == 0 {
        return 0;
    }
    if x >= ERF_SAT {
        return SCALE;
    }
    if x <= -ERF_SAT {
        return -SCALE;
    }
    let neg: bool = x < 0;
    let v: i128 = if neg { -x } else { x };
    proof {
        lemma_fmul_mag(PC as int, v as int, PC as int, ERF_SAT as int);
        lemma_fmul_lower(PC as int, v as int, 0, 0);
        lemma_fmul_mag(v as int, v as int, ERF_SAT as int, ERF_SAT as int);
        lemma_fmul_lower(v as int, v as int, 0, 0);
    }
    let pv: i128 = fp_mul(PC, v);
    proof {
        lemma_fdiv_mag(SCALE as int, (SCALE as int) + pv, SCALE as int, SCALE as int);
        lemma_fdiv_lower(SCALE as int, (SCALE as int) + pv, 0, 4_000_000_000);
    }
    let t: i128 = fp_div(SCALE, SCALE + pv);
    let vv: i128 = fp_mul(v, v);
    let e: i128 = fp_exp(-vv);
    proof {
        lemma_fmul_mag(A5 as int, t as int, A5 as int, SCALE as int);
    }
    let h4: i128 = fp_mul(A5, t) + A4;
    proof {
        lemma_fmul_mag(h4 as int, t as int, 2_600_000_000, SCALE as int);
    }
    let h3: i128 = fp_mul(h4, t) + A3;
    proof {
        lemma_fmul_mag(h3 as int, t as int, 4_100_000_000, SCALE as int);
    }
    let h2: i128 = fp_mul(h3, t) + A2;
    proof {
        lemma_fmul_mag(h2 as int, t as int, 4_400_000_000, SCALE as int);
    }
    let h1: i128 = fp_mul(h2, t) + A1;
    proof {
        lemma_fmul_mag(h1 as int, t as int, 4_700_000_000, SCALE as int);
    }
    let ht: i128 = fp_mul(h1, t);
    proof {
        lemma_fmul_mag(ht as int, e as int, 4_700_000_000, 2_400_000_000_000_000_000);
    }
    let ye: i128 = fp_mul(ht, e);
    let y0: i128 = SCALE - ye;
    let y: i128 = if y0 < 0 { 0 } else if y0 > SCALE { SCALE } else { y0 };
    if neg {
        -y
    } else {
        y
    }
}

/// erf is an odd function, exactly.
pub proof fn lemma_erf_odd(x: int)
    ensures
        erf_spec(-x) == -erf_spec(x),
{
    reveal(erf_spec);
    if x == 0 {
    } else if x >= ERF_SAT as int {
    } else if x <= -(ERF_SAT as int) {
    } else if x < 0 {
    } else {
    }
}

/// The standard normal CDF: (1 + erf(x/sqrt 2)) / 2, saturating far out.
#[verifier::opaque]
pub open spec fn cdf_spec(x: int) -> int {
    if x >= CDF_SAT as int {
        SCALE as int
    } else if x <= -(CDF_SAT as int) {
        0
    } else {
        ((SCALE as int) + erf_spec(fdiv(x, SQRT2 as int))) / 2
    }
}

/// The standard normal CDF in fixed point, exactly `cdf_spec(x)`.
pub fn cdf_fp(x: i128) -> (r: i128)
    ensures
        r == cdf_spec(x as int),
        0 <= r <= SCALE as int,
{
    proof {
        reveal(cdf_spec);
        lemma_erf_range(0);
    }
    if x >= CDF_SAT {
        return SCALE;
    }
    if x <= -CDF_SAT {
        return 0;
    }
    let z: i128 = fp_div(x, SQRT2);
    let e: i128 = erf(z);
    div_pos(SCALE + e, 2)
}

/// The standard normal PDF: e^(-x²/2) / sqrt(2·pi), zero far out.
#[verifier::opaque]
pub open spec fn pdf_spec(x: int) -> int {
    if x >= CDF_SAT as int || x <= -(CDF_SAT as int) {
        0
    } else {
        fdiv(exp_spec(-(fmul(x, x) / 2)), SQRT_2PI as int)
    }
}

/// The standard normal PDF in fixed point, exactly `pdf_spec(x)`.
pub fn pdf_fp(x: i128) -> (r: i128)
    ensures
        r == pdf_spec(x as int),
        0 <= r <= 900_000_000,
{
    proof {
        reveal(pdf_spec);
    }
    if x >= CDF_SAT {
        return 0;
    }
    if x <= -CDF_SAT {
        return 0;
    }
    proof {
        lemma_fmul_mag(x as int, x as int, CDF_SAT as int, CDF_SAT as int);
        assert(fmul(x as int, x as int) >= 0) by {
            if x < 0 {
                lemma_fmul_lower(-(x as int), -(x as int), 0, 0);
                assert(fmul(x as int, x as int) == fmul(-(x as int), -(x as int)));
            } else {
                lemma_fmul_lower(x as int, x as int, 0, 0);
            }
        };
    }
    let xx: i128 = fp_mul(x, x);
    let half_sq: i128 = div_pos(xx, 2);
    proof {
        vstd::arithmetic::div_mod::lemma_div_pos_is_pos(xx as int, 2);
        vstd::arithmetic::div_mod::lemma_div_is_ordered(xx as int, 100_000_000_000, 2);
    }
    let e: i128 = fp_exp(-half_sq);
    proof {
        lemma_fdiv_mag(e as int, SQRT_2PI as int, 2_200_000_000, SQRT_2PI as int);
        lemma_fdiv_lower(e as int, SQRT_2PI as int, 0, SQRT_2PI as int);
    }
    fp_div(e, SQRT_2PI)
}

/// Negating the numerator flips the sign of a fixed-point quotient.
pub proof fn lemma_fdiv_neg(a: int, b: int)
    requires
        b > 0,
    ensures
        fdiv(-a, b) == -fdiv(a, b),
{
}

/// CDF symmetry: cdf(x) + cdf(-x) is 1 up to one rounding unit.
pub proof fn lemma_cdf_symmetry(x: int)
    ensures
        (SCALE as int) - 1 <= cdf_spec(x) + cdf_spec(-x) <= SCALE as int,
{
    reveal(cdf_spec);
    if -(CDF_SAT as int) < x < CDF_SAT as int {
        let z = fdiv(x, SQRT2 as int);
        lemma_fdiv_neg(x, SQRT2 as int);
        lemma_erf_odd(z);
        let e = erf_spec(z);
        lemma_erf_range(z);
        let a = (SCALE as int) + e;
        let b = (SCALE as int) - e;
        vstd::arithmetic::div_mod::lemma_fundamental_div_mod(a, 2);
        vstd::arithmetic::div_mod::lemma_fundamental_div_mod(b, 2);
        vstd::arithmetic::div_mod::lemma_mod_bound(a, 2);
        vstd::arithmetic::div_mod::lemma_mod_bound(b, 2);
    }
}

/// erf never leaves [-1, 1].
pub proof fn lemma_erf_range(x: int)
    ensures
        -(SCALE as int) <= erf_spec(x) <= SCALE as int,
{
    reveal(erf_spec);
    reveal(erf_mag);
}

/// The CDF never leaves [0, 1].
pub proof fn lemma_cdf_range(x: int)
    ensures
        0 <= cdf_spec(x) <= SCALE as int,
{
    reveal(cdf_spec);
    if -(CDF_SAT as int) < x < CDF_SAT as int {
        let e = erf_spec(fdiv(x, SQRT2 as int));
        lemma_erf_range(fdiv(x, SQRT2 as int));
        vstd::arithmetic::div_mod::lemma_div_pos_is_pos((SCALE as int) + e, 2);
        vstd::arithmetic::div_mod::lemma_div_is_ordered((SCALE as int) + e, 2 * (SCALE as int),
            2);
    }
}

/// Away from saturation, erf keeps two units of room inside ±1.
pub proof fn lemma_erf_strict(v: int)
    requires
        iabs(v) <= 2_200_000_000,
    ensures
        iabs(erf_spec(v)) <= (SCALE as int) - 2,
{
    reveal(erf_spec);
    reveal(erf_mag);
    if v != 0 {
        let w = iabs(v);
        lemma_erf_mag_gap(w);
        if v < 0 {
            assert(erf_spec(v) == -erf_mag(w));
        }
    }
}

/// On (0, 2.2] the damped polynomial keeps erf_mag at least two units
/// below 1: interval bounds for each Horner step, a floor for the
/// exponential, and a floor for their product.
proof fn lemma_erf_mag_gap(w: int)
    requires
        1 <= w <= 2_200_000_000,
    ensures
        0 <= erf_mag(w) <= (SCALE as int) - 2,
{
    reveal(erf_mag);
    let s = SCALE as int;
    let pv = fmul(PC as int, w);
    lemma_fmul_mag(PC as int, w, PC as int, 2_200_000_000);
    lemma_fmul_lower(PC as int, w, 0, 0);
    let t = fdiv(s, s + pv);
    lemma_fdiv_lower(s, s + pv, s, 1_720_701_000);
    lemma_fdiv_mag(s, s + pv, s, s);
    assert(t >= 581_000_000);
    assert(t <= s);
    let vv = fmul(w, w);
    lemma_fmul_mag(w, w, 2_200_000_000, 2_200_000_000);
    lemma_fmul_lower(w, w, 0, 0);
    let e = exp_spec(-vv);
    lemma_exp_spec_lower16(-vv);
    assert(e >= 59);
    let f5 = fmul(A5 as int, t);
    lemma_fmul_le_left(A5 as int, t);
    lemma_fmul_lower(A5 as int, t, A5 as int, 581_000_000);
    let h4 = f5 + A4 as int;
    assert(-837_000_000 <= h4 <= -391_746_598);
    let f4 = fmul(h4, t);
    lemma_fmul_mag(h4, t, 837_000_000, s);
    crate::fixed::lemma_fmul_neg_left(-h4, t);
    lemma_fmul_lower(-h4, t, 391_746_598, 581_000_000);
    let h3 = f4 + A3 as int;
    assert(584_000_000 <= h3 <= 1_194_000_000);
    let f3 = fmul(h3, t);
    lemma_fmul_le_left(h3, t);
    lemma_fmul_lower(h3, t, 584_000_000, 581_000_000);
    let h2 = f3 + A2 as int;
    assert(54_000_000 <= h2 <= 910_000_000);
    let f2 = fmul(h2, t);
    lemma_fmul_le_left(h2, t);
    lemma_fmul_lower(h2, t, 54_000_000, 581_000_000);
    let h1 = f2 + A1 as int;
    assert(286_000_000 <= h1 <= 1_165_000_000);
    let ht = fmul(h1, t);
    lemma_fmul_lower(h1, t, 286_000_000, 581_000_000);
    assert(ht >= 166_000_000);
    let ye = fmul(ht, e);
    lemma_fmul_lower(ht, e, 166_000_000, 59);
    assert(ye >= 9);
}

/// Away from saturation, the CDF stays strictly between 0 and 1.
pub proof fn lemma_cdf_strict(x: int)
    requires
        iabs(x) <= 3_000_000_000,
    ensures
        0 < cdf_spec(x) < SCALE as int,
{
    reveal(cdf_spec);
    let z = fdiv(x, SQRT2 as int);
    lemma_fdiv_mag(x, SQRT2 as int, 3_000_000_000, SQRT2 as int);
    lemma_erf_strict(z);
    let e = erf_spec(z);
    vstd::arithmetic::div_mod::lemma_div_is_ordered(2, (SCALE as int) + e, 2);
    vstd::arithmetic::div_mod::lemma_div_is_ordered((SCALE as int) + e,
        2 * (SCALE as int) - 2, 2);
}

/// The CDF of 0 is exactly one half.
pub proof fn lemma_cdf_at_zero()
    ensures
        cdf_spec(0) == 500_000_000,
{
    reveal(cdf_spec);
    reveal(erf_spec);
    vstd::arithmetic::div_mod::lemma_div_of0(SQRT2 as int);
    assert(fdiv(0, SQRT2 as int) == 0);
}

} // verus!
