//! Fixed-point arithmetic: products, quotients and square roots of
//! numbers scaled by `SCALE`, with exact contracts.

use vstd::prelude::*;

verus! {

/// Magnitude of an integer.
pub open spec fn iabs(x: int) -> int {
    if x >= 0 { x } else { -x }
}

/// Number of units in 1.0: a value `n` stands for `n / SCALE`.
pub const SCALE: i128 = 1_000_000_000;

/// Largest magnitude the fixed-point multiplier accepts (10^10 in real terms).
pub const MAX_FP: i128 = 10_000_000_000_000_000_000;

/// The operand range of `fp_mul` and `fp_div`.
pub open spec fn in_fp(a: int) -> bool {
    -(MAX_FP as int) <= a <= MAX_FP as int
}

/// Fixed-point product: |a·b| / SCALE rounded toward zero, with the sign of a·b.
pub open spec fn fmul(a: int, b: int) -> int {
    if (a >= 0) == (b >= 0) {
        (iabs(a) * iabs(b)) / (SCALE as int)
    } else {
        -((iabs(a) * iabs(b)) / (SCALE as int))
    }
}

/// Fixed-point quotient: |a|·SCALE / |b| rounded toward zero, with the sign of a·b.
pub open spec fn fdiv(a: int, b: int) -> int {
    if (a >= 0) == (b >= 0) {
        (iabs(a) * (SCALE as int)) / iabs(b)
    } else {
        -((iabs(a) * (SCALE as int)) / iabs(b))
    }
}

/// Quotient of non-negative i128 values.
pub(crate) fn div_pos(a: i128, b: i128) -> (r: i128)
    requires
        a >= 0,
        b > 0,
    ensures
        r == a as int / b as int,
{
    let q: u128 = (a as u128) / (b as u128);
    q as i128
}

/// Remainder of non-negative i128 values.
pub(crate) fn mod_pos(a: i128, b: i128) -> (r: i128)
    requires
        a >= 0,
        b > 0,
    ensures
        r == a as int % b as int,
{
    let q: u128 = (a as u128) % (b as u128);
    q as i128
}

/// Fixed-point multiplication; result is exactly `fmul(a, b)`.
pub fn fp_mul(a: i128, b: i128) -> (r: i128)
    requires
        in_fp(a as int),
        in_fp(b as int),
    ensures
        r == fmul(a as int, b as int),
{
    let na: bool = a < 0;
    let nb: bool = b < 0;
    let ma: u128 = (if na { -a } else { a }) as u128;
    let mb: u128 = (if nb { -b } else { b }) as u128;
    proof {
        assert(ma as int == iabs(a as int));
        assert(mb as int == iabs(b as int));
        assert(ma * mb <= (MAX_FP as int) * (MAX_FP as int)) by (nonlinear_arith)
            requires
                0 <= ma <= MAX_FP as int,
                0 <= mb <= MAX_FP as int,
        ;
    }
    let p: u128 = ma * mb;
    let q: u128 = p / (SCALE as u128);
    let m: i128 = q as i128;
    if na != nb {
        -m
    } else {
        m
    }
}

/// Fixed-point division; result is exactly `fdiv(a, b)`.
pub fn fp_div(a: i128, b: i128) -> (r: i128)
    requires
        in_fp(a as int),
        in_fp(b as int),
        b != 0,
    ensures
        r == fdiv(a as int, b as int),
{
    let na: bool = a < 0;
    let nb: bool = b < 0;
    let ma: u128 = (if na { -a } else { a }) as u128;
    let mb: u128 = (if nb { -b } else { b }) as u128;
    proof {
        assert(ma as int == iabs(a as int));
        assert(mb as int == iabs(b as int));
        assert(ma * (SCALE as int) <= (MAX_FP as int) * (SCALE as int)) by (nonlinear_arith)
            requires
                0 <= ma <= MAX_FP as int,
        ;
    }
    let p: u128 = ma * (SCALE as u128);
    let q: u128 = p / mb;
    let m: i128 = q as i128;
    if na != nb {
        -m
    } else {
        m
    }
}

/// Magnitude bound for products: operand bounds carry over to the result.
pub proof fn lemma_fmul_mag(a: int, b: int, am: int, bm: int)
    requires
        iabs(a) <= am,
        iabs(b) <= bm,
    ensures
        iabs(fmul(a, b)) <= am * bm / (SCALE as int),
        iabs(fmul(a, b)) == iabs(a) * iabs(b) / (SCALE as int),
{
    let p = iabs(a);
    let q = iabs(b);
    vstd::arithmetic::mul::lemma_mul_upper_bound(p, am, q, bm);
    vstd::arithmetic::div_mod::lemma_div_is_ordered(p * q, am * bm, SCALE as int);
    vstd::arithmetic::div_mod::lemma_div_pos_is_pos(p * q, SCALE as int);
}

/// Lower bound for products of non-negative values.
pub proof fn lemma_fmul_lower(a: int, b: int, a0: int, b0: int)
    requires
        a >= a0 >= 0,
        b >= b0 >= 0,
    ensures
        fmul(a, b) >= a0 * b0 / (SCALE as int),
{
    vstd::arithmetic::mul::lemma_mul_inequality(a0, a, b0);
    vstd::arithmetic::mul::lemma_mul_is_commutative(a, b0);
    vstd::arithmetic::mul::lemma_mul_inequality(b0, b, a);
    vstd::arithmetic::mul::lemma_mul_is_commutative(b, a);
    vstd::arithmetic::mul::lemma_mul_nonnegative(a0, b0);
    vstd::arithmetic::div_mod::lemma_div_is_ordered(a0 * b0, a * b, SCALE as int);
    vstd::arithmetic::div_mod::lemma_div_pos_is_pos(a0 * b0, SCALE as int);
}

/// Magnitude bound for quotients: |a| <= am and |b| >= b0 bound the result.
pub proof fn lemma_fdiv_mag(a: int, b: int, am: int, b0: int)
    requires
        iabs(a) <= am,
        iabs(b) >= b0,
        b0 > 0,
    ensures
        iabs(fdiv(a, b)) <= am * (SCALE as int) / b0,
{
    let x = iabs(a) * (SCALE as int);
    vstd::arithmetic::mul::lemma_mul_inequality(iabs(a), am, SCALE as int);
    vstd::arithmetic::div_mod::lemma_div_is_ordered_by_denominator(x, b0, iabs(b));
    vstd::arithmetic::div_mod::lemma_div_is_ordered(x, am * (SCALE as int), b0);
    vstd::arithmetic::div_mod::lemma_div_pos_is_pos(x, iabs(b));
}

/// Lower bound for quotients of positive values.
pub proof fn lemma_fdiv_lower(a: int, b: int, a0: int, bm: int)
    requires
        a >= a0 >= 0,
        0 < b <= bm,
    ensures
        fdiv(a, b) >= a0 * (SCALE as int) / bm,
{
    let x = iabs(a) * (SCALE as int);
    vstd::arithmetic::mul::lemma_mul_inequality(a0, a, SCALE as int);
    vstd::arithmetic::mul::lemma_mul_nonnegative(a0, SCALE as int);
    vstd::arithmetic::div_mod::lemma_div_is_ordered_by_denominator(a0 * (SCALE as int), b, bm);
    vstd::arithmetic::div_mod::lemma_div_is_ordered(a0 * (SCALE as int), x, b);
}

/// Negating one factor flips the sign of a fixed-point product.
pub proof fn lemma_fmul_neg_left(a: int, b: int)
    ensures
        fmul(-a, b) == -fmul(a, b),
{
    if a == 0 {
        assert(iabs(0) * iabs(b) == 0) by (nonlinear_arith)
            requires
                iabs(0int) == 0,
        ;
        vstd::arithmetic::div_mod::lemma_div_of0(SCALE as int);
    }
}

/// Square root: the unique r with r² <= x·SCALE < (r+1)², so that
/// r is the fixed-point square root of x rounded down.
pub fn fp_sqrt(x: i128) -> (r: i128)
    requires
        0 <= x <= MAX_FP as int,
    ensures
        r >= 0,
        r * r <= x * (SCALE as int) < (r + 1) * (r + 1),
        r == sqrt_val(x as int),
{
    let v: u128 = (x as u128) * 1_000_000_000;
    let mut lo: u128 = 0;
    let mut hi: u128 = 10_000_000_000_000_000;
    proof {
        assert(v == x * (SCALE as int));
        assert(v < hi * hi) by (nonlinear_arith)
            requires
                v <= 10_000_000_000_000_000_000_000_000_000,
                hi == 10_000_000_000_000_000,
        ;
    }
    while lo + 1 < hi
        invariant
            lo < hi <= 10_000_000_000_000_000,
            lo * lo <= v,
            v < hi * hi,
        decreases hi - lo,
    {
        let mid: u128 = lo + (hi - lo) / 2;
        proof {
            assert(mid * mid < 0xffffffffffffffffffffffffffffffff) by (nonlinear_arith)
                requires
                    mid <= 10_000_000_000_000_000u128,
            ;
        }
        if mid * mid <= v {
            lo = mid;
        } else {
            hi = mid;
        }
    }
    let r: i128 = lo as i128;
    proof {
        lemma_sqrt_unique(x as int, r as int);
    }
    r
}

/// The rounded-down square root of x·SCALE, as a spec-level value.
pub open spec fn sqrt_val(x: int) -> int {
    choose|r: int| r >= 0 && #[trigger] (r * r) <= x * (SCALE as int) < (r + 1) * (r + 1)
}

/// Any r with r² <= x·SCALE < (r+1)² equals `sqrt_val(x)`.
pub proof fn lemma_sqrt_unique(x: int, r: int)
    requires
        r >= 0,
        r * r <= x * (SCALE as int) < (r + 1) * (r + 1),
    ensures
        sqrt_val(x) == r,
{
    let s = sqrt_val(x);
    assert(s >= 0 && s * s <= x * (SCALE as int) < (s + 1) * (s + 1));
    assert(s == r) by (nonlinear_arith)
        requires
            r >= 0,
            s >= 0,
            r * r <= x * (SCALE as int) < (r + 1) * (r + 1),
            s * s <= x * (SCALE as int) < (s + 1) * (s + 1),
    ;
}

} // verus!
