//! The Black-Scholes pricing model: the five market parameters, the
//! intermediate quantities d1 and d2, the closed-form price and the
//! five sensitivities.

use vstd::prelude::*;

use crate::fixed::{SCALE, fmul, fdiv, fp_mul, fp_div, fp_sqrt, div_pos, sqrt_val, iabs,
    lemma_fmul_mag, lemma_fmul_lower, lemma_fdiv_mag, lemma_fdiv_lower};
use crate::exp::{exp_spec, fp_exp};
use crate::ln::{ln_spec, fp_ln};
use crate::dist::{cdf_spec, pdf_spec, cdf_fp, pdf_fp};

verus! {

/// Which side of the contract is priced; the model supports no other style.
#[derive(Debug, Clone, Copy, PartialEq, Eq, Structural)]
pub enum OptionType {
    Call,
    Put,
}

/// The five sensitivities of one option position.
#[derive(Debug, Clone, Copy)]
pub struct Greeks {
    /// Price sensitivity to the underlying price.
    pub delta: i128,
    /// Delta sensitivity to the underlying price.
    pub gamma: i128,
    /// Price sensitivity to the passing of one calendar day.
    pub theta: i128,
    /// Price sensitivity to one percentage point of volatility.
    pub vega: i128,
    /// Price sensitivity to one percentage point of rate.
    pub rho: i128,
}

/// The pricing model: all fields are fixed-point counts of `1/SCALE`.
#[derive(Debug, Clone, Copy)]
pub struct BlackScholes {
    /// S: current price of the underlying.
    pub spot_price: i128,
    /// K: the contract strike.
    pub strike_price: i128,
    /// T: time to expiry in years.
    pub time_to_expiry: i128,
    /// r: continuously compounded risk-free rate.
    pub risk_free_rate: i128,
    /// sigma: annualized volatility of the underlying.
    pub standard_deviation: i128,
}

/// The volatility range the model accepts: 0.1% to 1000%.
pub open spec fn vol_ok(v: int) -> bool {
    1_000_000 <= v <= 10_000_000_000
}

/// The parameter domain: prices in [0.001, 10^6], expiry in
/// [10^-6, 20] years, rate in [-1, 1] with a discount factor at most
/// e^5, and volatility in `vol_ok`. Everything the formulas compute
/// stays representable on this domain.
pub open spec fn params_ok(m: BlackScholes) -> bool {
    &&& 1_000_000 <= m.spot_price <= 1_000_000_000_000_000
    &&& 1_000_000 <= m.strike_price <= 1_000_000_000_000_000
    &&& 1_000 <= m.time_to_expiry <= 20_000_000_000
    &&& -(SCALE as int) <= m.risk_free_rate <= SCALE as int
    &&& vol_ok(m.standard_deviation as int)
    &&& fmul(m.risk_free_rate as int, m.time_to_expiry as int) >= -5_000_000_000
}

/// The same domain, over the five bare parameters.
pub open spec fn params_ok_vals(s: int, k: int, t: int, r: int, sd: int) -> bool {
    params_ok(
        BlackScholes {
            spot_price: s as i128,
            strike_price: k as i128,
            time_to_expiry: t as i128,
            risk_free_rate: r as i128,
            standard_deviation: sd as i128,
        },
    )
}

/// sigma · sqrt(T), the denominator of d1.
pub open spec fn sig_sqrt_t(m: BlackScholes) -> int {
    fmul(m.standard_deviation as int, sqrt_val(m.time_to_expiry as int))
}

/// d1 = (ln(S/K) + (r + sigma²/2)·T) / (sigma·sqrt(T)).
pub open spec fn d1_spec(m: BlackScholes) -> int {
    let lnr = ln_spec(fdiv(m.spot_price as int, m.strike_price as int));
    let half_var = fmul(m.standard_deviation as int, m.standard_deviation as int) / 2;
    let num = lnr + fmul(m.risk_free_rate as int + half_var, m.time_to_expiry as int);
    fdiv(num, sig_sqrt_t(m))
}

/// d2 = d1 - sigma·sqrt(T).
pub open spec fn d2_spec(m: BlackScholes) -> int {
    d1_spec(m) - sig_sqrt_t(m)
}

/// The discount factor e^(-r·T).
pub open spec fn discount_spec(m: BlackScholes) -> int {
    exp_spec(-fmul(m.risk_free_rate as int, m.time_to_expiry as int))
}

/// The closed-form Black-Scholes price of either option side.
pub open spec fn price_spec(m: BlackScholes, option_type: OptionType) -> int {
    let d1 = d1_spec(m);
    let d2 = d2_spec(m);
    let kdf = fmul(m.strike_price as int, discount_spec(m));
    match option_type {
        OptionType::Call => fmul(m.spot_price as int, cdf_spec(d1)) - fmul(kdf, cdf_spec(d2)),
        OptionType::Put => fmul(kdf, cdf_spec(-d2)) - fmul(m.spot_price as int, cdf_spec(-d1)),
    }
}

/// Delta: the CDF at d1, shifted down by one for a put.
pub open spec fn delta_spec(m: BlackScholes, option_type: OptionType) -> int {
    match option_type {
        OptionType::Call => cdf_spec(d1_spec(m)),
        OptionType::Put => cdf_spec(d1_spec(m)) - SCALE as int,
    }
}

/// Gamma: pdf(d1) / (S·sigma·sqrt(T)), the same for both sides.
pub open spec fn gamma_spec(m: BlackScholes) -> int {
    let den = fmul(fmul(m.spot_price as int, m.standard_deviation as int),
        sqrt_val(m.time_to_expiry as int));
    fdiv(pdf_spec(d1_spec(m)), den)
}

/// Theta, per calendar day: the time-decay term plus the rate term of
/// the matching sign, divided by 365.
pub open spec fn theta_spec(m: BlackScholes, option_type: OptionType) -> int {
    let decay = fdiv(fmul(fmul(m.spot_price as int, pdf_spec(d1_spec(m))),
        m.standard_deviation as int), 2 * sqrt_val(m.time_to_expiry as int));
    let rk = fmul(fmul(m.risk_free_rate as int, m.strike_price as int), discount_spec(m));
    match option_type {
        OptionType::Call => fdiv(-decay - fmul(rk, cdf_spec(d2_spec(m))), 365 * (SCALE as int)),
        OptionType::Put => fdiv(-decay + fmul(rk, cdf_spec(-d2_spec(m))), 365 * (SCALE as int)),
    }
}

/// Vega, per percentage point: S·pdf(d1)·sqrt(T) / 100.
pub open spec fn vega_spec(m: BlackScholes) -> int {
    fdiv(fmul(fmul(m.spot_price as int, pdf_spec(d1_spec(m))),
        sqrt_val(m.time_to_expiry as int)), 100 * (SCALE as int))
}

/// Rho, per percentage point: ±K·T·discount·CDF(±d2) / 100.
pub open spec fn rho_spec(m: BlackScholes, option_type: OptionType) -> int {
    let ktdf = fmul(fmul(m.strike_price as int, m.time_to_expiry as int), discount_spec(m));
    match option_type {
        OptionType::Call => fdiv(fmul(ktdf, cdf_spec(d2_spec(m))), 100 * (SCALE as int)),
        OptionType::Put => -fdiv(fmul(ktdf, cdf_spec(-d2_spec(m))), 100 * (SCALE as int)),
    }
}

impl BlackScholes {
    /// Builds a model from the five parameters; nothing is validated,
    /// as the formulas state their own domain.
    pub fn new(
        spot_price: i128,
        strike_price: i128,
        time_to_expiry: i128,
        risk_free_rate: i128,
        standard_deviation: i128,
    ) -> (m: BlackScholes)
        ensures
            m.spot_price == spot_price,
            m.strike_price == strike_price,
            m.time_to_expiry == time_to_expiry,
            m.risk_free_rate == risk_free_rate,
            m.standard_deviation == standard_deviation,
    {
        BlackScholes { spot_price, strike_price, time_to_expiry, risk_free_rate, standard_deviation }
    }

    pub fn set_spot_price(&mut self, value: i128)
        ensures
            final(self).spot_price == value,
            final(self).strike_price == old(self).strike_price,
            final(self).time_to_expiry == old(self).time_to_expiry,
            final(self).risk_free_rate == old(self).risk_free_rate,
            final(self).standard_deviation == old(self).standard_deviation,
    {
        self.spot_price = value;
    }

    pub fn set_strike_price(&mut self, value: i128)
        ensures
            final(self).strike_price == value,
            final(self).spot_price == old(self).spot_price,
            final(self).time_to_expiry == old(self).time_to_expiry,
            final(self).risk_free_rate == old(self).risk_free_rate,
            final(self).standard_deviation == old(self).standard_deviation,
    {
        self.strike_price = value;
    }

    pub fn set_time_to_expiry(&mut self, value: i128)
        ensures
            final(self).time_to_expiry == value,
            final(self).spot_price == old(self).spot_price,
            final(self).strike_price == old(self).strike_price,
            final(self).risk_free_rate == old(self).risk_free_rate,
            final(self).standard_deviation == old(self).standard_deviation,
    {
        self.time_to_expiry = value;
    }

    pub fn set_risk_free_rate(&mut self, value: i128)
        ensures
            final(self).risk_free_rate == value,
            final(self).spot_price == old(self).spot_price,
            final(self).strike_price == old(self).strike_price,
            final(self).time_to_expiry == old(self).time_to_expiry,
            final(self).standard_deviation == old(self).standard_deviation,
    {
        self.risk_free_rate = value;
    }

    pub fn set_standard_deviation(&mut self, value: i128)
        ensures
            final(self).standard_deviation == value,
            final(self).spot_price == old(self).spot_price,
            final(self).strike_price == old(self).strike_price,
            final(self).time_to_expiry == old(self).time_to_expiry,
            final(self).risk_free_rate == old(self).risk_free_rate,
    {
        self.standard_deviation = value;
    }

    /// The standard normal CDF, as a utility independent of any model.
    pub fn norm_cdf(x: i128) -> (r: i128)
        ensures
            r == cdf_spec(x as int),
            0 <= r <= SCALE as int,
    {
        cdf_fp(x)
    }

    /// The standard normal PDF, as a utility independent of any model.
    pub fn norm_pdf(x: i128) -> (r: i128)
        ensures
            r == pdf_spec(x as int),
            0 <= r <= 900_000_000,
    {
        pdf_fp(x)
    }

    /// sigma·sqrt(T), shared by d1, d2 and the sensitivities.
    fn vol_time(&self) -> (r: i128)
        requires
            params_ok(*self),
        ensures
            r == sig_sqrt_t(*self),
            1_000 <= r <= 45_000_000_000,
    {
        let st: i128 = fp_sqrt(self.time_to_expiry);
        proof {
            self.lemma_sqrt_t_bounds(st as int);
            lemma_fmul_mag(self.standard_deviation as int, st as int, 10_000_000_000,
                4_500_000_000);
            lemma_fmul_lower(self.standard_deviation as int, st as int, 1_000_000, 1_000_000);
        }
        fp_mul(self.standard_deviation, st)
    }

    /// On the accepted domain, sqrt(T) lies between 10^-3 and 4.5.
    proof fn lemma_sqrt_t_bounds(self, st: int)
        requires
            params_ok(self),
            st >= 0,
            st * st <= self.time_to_expiry as int * (SCALE as int) < (st + 1) * (st + 1),
        ensures
            1_000_000 <= st <= 4_500_000_000,
    {
        assert(st >= 1_000_000) by (nonlinear_arith)
            requires
                (st + 1) * (st + 1) > 1_000_000_000_000,
                st >= 0,
        ;
        assert(st <= 4_500_000_000) by (nonlinear_arith)
            requires
                st * st <= 20_000_000_000_000_000_000,
                st >= 0,
        ;
    }

    /// d1 for the current parameters, exactly `d1_spec`.
    pub fn d1(&self) -> (r: i128)
        requires
            params_ok(*self),
        ensures
            r == d1_spec(*self),
            iabs(r as int) <= 1_100_000_000_000_000_000,
    {
        proof {
            lemma_fdiv_mag(self.spot_price as int, self.strike_price as int,
                1_000_000_000_000_000, 1_000_000);
            lemma_fdiv_lower(self.spot_price as int, self.strike_price as int, 1_000_000,
                1_000_000_000_000_000);
        }
        let ratio: i128 = fp_div(self.spot_price, self.strike_price);
        let lnr: i128 = fp_ln(ratio);
        proof {
            lemma_fmul_mag(self.standard_deviation as int, self.standard_deviation as int,
                10_000_000_000, 10_000_000_000);
            lemma_fmul_lower(self.standard_deviation as int, self.standard_deviation as int, 0, 0);
        }
        let half_var: i128 = div_pos(fp_mul(self.standard_deviation, self.standard_deviation), 2);
        let rate_var: i128 = self.risk_free_rate + half_var;
        proof {
            lemma_fmul_mag(rate_var as int, self.time_to_expiry as int, 51_000_000_000,
                20_000_000_000);
        }
        let growth: i128 = fp_mul(rate_var, self.time_to_expiry);
        let num: i128 = lnr + growth;
        let den: i128 = self.vol_time();
        proof {
            lemma_fdiv_mag(num as int, den as int, 1_100_000_000_000, 1_000);
        }
        fp_div(num, den)
    }

    /// d2 for the current parameters, exactly `d2_spec`.
    pub fn d2(&self) -> (r: i128)
        requires
            params_ok(*self),
        ensures
            r == d2_spec(*self),
            iabs(r as int) <= 1_200_000_000_000_000_000,
    {
        let d1v: i128 = self.d1();
        let den: i128 = self.vol_time();
        d1v - den
    }

    /// The discount factor e^(-r·T), exactly `discount_spec`.
    fn discount(&self) -> (r: i128)
        requires
            params_ok(*self),
        ensures
            r == discount_spec(*self),
            0 <= r <= 282_000_000_000,
    {
        proof {
            lemma_fmul_mag(self.risk_free_rate as int, self.time_to_expiry as int,
                SCALE as int, 20_000_000_000);
        }
        let rt: i128 = fp_mul(self.risk_free_rate, self.time_to_expiry);
        fp_exp(-rt)
    }

    /// The Black-Scholes price of either side, exactly `price_spec`.
    pub fn price(&self, option_type: OptionType) -> (r: i128)
        requires
            params_ok(*self),
        ensures
            r == price_spec(*self, option_type),
            iabs(r as int) <= 300_000_000_000_000_000,
    {
        let d1v: i128 = self.d1();
        let d2v: i128 = self.d2();
        let df: i128 = self.discount();
        proof {
            lemma_fmul_mag(self.strike_price as int, df as int, 1_000_000_000_000_000,
                282_000_000_000);
            lemma_fmul_lower(self.strike_price as int, df as int, 0, 0);
        }
        let kdf: i128 = fp_mul(self.strike_price, df);
        match option_type {
            OptionType::Call => {
                let c1: i128 = cdf_fp(d1v);
                let c2: i128 = cdf_fp(d2v);
                proof {
                    lemma_fmul_mag(self.spot_price as int, c1 as int, 1_000_000_000_000_000,
                        SCALE as int);
                    lemma_fmul_mag(kdf as int, c2 as int, 282_000_000_000_000_000, SCALE as int);
                }
                fp_mul(self.spot_price, c1) - fp_mul(kdf, c2)
            },
            OptionType::Put => {
                let c2: i128 = cdf_fp(-d2v);
                let c1: i128 = cdf_fp(-d1v);
                proof {
                    lemma_fmul_mag(self.spot_price as int, c1 as int, 1_000_000_000_000_000,
                        SCALE as int);
                    lemma_fmul_mag(kdf as int, c2 as int, 282_000_000_000_000_000, SCALE as int);
                }
                fp_mul(kdf, c2) - fp_mul(self.spot_price, c1)
            },
        }
    }

    /// All five sensitivities, each exactly its spec.
    pub fn greeks(&self, option_type: OptionType) -> (g: Greeks)
        requires
            params_ok(*self),
        ensures
            g.delta == delta_spec(*self, option_type),
            g.gamma == gamma_spec(*self),
            g.theta == theta_spec(*self, option_type),
            g.vega == vega_spec(*self),
            iabs(g.vega as int) <= 41_000_000_000_000,
            g.rho == rho_spec(*self, option_type),
    {
        let d1v: i128 = self.d1();
        let d2v: i128 = self.d2();
        let df: i128 = self.discount();
        let st: i128 = fp_sqrt(self.time_to_expiry);
        proof {
            self.lemma_sqrt_t_bounds(st as int);
        }
        let pd1: i128 = pdf_fp(d1v);
        let delta: i128 = match option_type {
            OptionType::Call => cdf_fp(d1v),
            OptionType::Put => cdf_fp(d1v) - SCALE,
        };
        proof {
            lemma_fmul_mag(self.spot_price as int, self.standard_deviation as int,
                1_000_000_000_000_000, 10_000_000_000);
            lemma_fmul_lower(self.spot_price as int, self.standard_deviation as int,
                1_000_000, 1_000_000);
        }
        let ssig: i128 = fp_mul(self.spot_price, self.standard_deviation);
        proof {
            lemma_fmul_mag(ssig as int, st as int, 10_000_000_000_000_000, 4_500_000_000);
            lemma_fmul_lower(ssig as int, st as int, 1_000, 1_000_000);
        }
        let gden: i128 = fp_mul(ssig, st);
        proof {
            lemma_fdiv_mag(pd1 as int, gden as int, 900_000_000, 1);
        }
        let gamma: i128 = fp_div(pd1, gden);
        proof {
            lemma_fmul_mag(self.spot_price as int, pd1 as int, 1_000_000_000_000_000,
                900_000_000);
        }
        let sphi: i128 = fp_mul(self.spot_price, pd1);
        proof {
            lemma_fmul_mag(sphi as int, self.standard_deviation as int, 900_000_000_000_000,
                10_000_000_000);
        }
        let sps: i128 = fp_mul(sphi, self.standard_deviation);
        proof {
            lemma_fdiv_mag(sps as int, 2 * (st as int), 9_000_000_000_000_000, 2_000_000);
        }
        let decay: i128 = fp_div(sps, 2 * st);
        proof {
            lemma_fmul_mag(self.risk_free_rate as int, self.strike_price as int, SCALE as int,
                1_000_000_000_000_000);
        }
        let rk: i128 = fp_mul(self.risk_free_rate, self.strike_price);
        proof {
            lemma_fmul_mag(rk as int, df as int, 1_000_000_000_000_000, 282_000_000_000);
        }
        let rkdf: i128 = fp_mul(rk, df);
        let theta: i128 = match option_type {
            OptionType::Call => {
                let c2: i128 = cdf_fp(d2v);
                proof {
                    lemma_fmul_mag(rkdf as int, c2 as int, 282_000_000_000_000_000, SCALE as int);
                }
                let t2: i128 = fp_mul(rkdf, c2);
                proof {
                    lemma_fdiv_mag(-(decay as int) - t2 as int, 365 * (SCALE as int),
                        4_800_000_000_000_000_000, 365 * (SCALE as int));
                }
                fp_div(-decay - t2, 365 * SCALE)
            },
            OptionType::Put => {
                let c2: i128 = cdf_fp(-d2v);
                proof {
                    lemma_fmul_mag(rkdf as int, c2 as int, 282_000_000_000_000_000, SCALE as int);
                }
                let t2: i128 = fp_mul(rkdf, c2);
                proof {
                    lemma_fdiv_mag(-(decay as int) + t2 as int, 365 * (SCALE as int),
                        4_800_000_000_000_000_000, 365 * (SCALE as int));
                }
                fp_div(-decay + t2, 365 * SCALE)
            },
        };
        proof {
            lemma_fmul_mag(sphi as int, st as int, 900_000_000_000_000, 4_500_000_000);
            lemma_fdiv_mag(fmul(sphi as int, st as int), 100 * (SCALE as int),
                4_050_000_000_000_000, 100_000_000_000);
        }
        let vega: i128 = fp_div(fp_mul(sphi, st), 100 * SCALE);
        proof {
            lemma_fmul_mag(self.strike_price as int, self.time_to_expiry as int,
                1_000_000_000_000_000, 20_000_000_000);
        }
        let kt: i128 = fp_mul(self.strike_price, self.time_to_expiry);
        proof {
            lemma_fmul_mag(kt as int, df as int, 20_000_000_000_000_000, 282_000_000_000);
        }
        let ktdf: i128 = fp_mul(kt, df);
        let rho: i128 = match option_type {
            OptionType::Call => {
                let c2: i128 = cdf_fp(d2v);
                proof {
                    lemma_fmul_mag(ktdf as int, c2 as int, 5_640_000_000_000_000_000, SCALE as int);
                }
                fp_div(fp_mul(ktdf, c2), 100 * SCALE)
            },
            OptionType::Put => {
                let c2: i128 = cdf_fp(-d2v);
                proof {
                    lemma_fmul_mag(ktdf as int, c2 as int, 5_640_000_000_000_000_000, SCALE as int);
                }
                -fp_div(fp_mul(ktdf, c2), 100 * SCALE)
            },
        };
        Greeks { delta, gamma, theta, vega, rho }
    }
}

/// Sums of two quotients by d land within one unit of the quotient of
/// the sum.
proof fn lemma_div_sum_bounds(x: int, y: int, d: int)
    requires
        x >= 0,
        y >= 0,
        d > 0,
    ensures
        x / d + y / d <= (x + y) / d <= x / d + y / d + 1,
{
    vstd::arithmetic::div_mod::lemma_fundamental_div_mod(x, d);
    vstd::arithmetic::div_mod::lemma_fundamental_div_mod(y, d);
    vstd::arithmetic::div_mod::lemma_mod_bound(x, d);
    vstd::arithmetic::div_mod::lemma_mod_bound(y, d);
    let qx = x / d;
    let rx = x % d;
    let qy = y / d;
    let ry = y % d;
    vstd::arithmetic::mul::lemma_mul_is_distributive_add(d, qx, qy);
    vstd::arithmetic::mul::lemma_mul_is_commutative(d, qx + qy);
    vstd::arithmetic::mul::lemma_mul_is_commutative(d, qx);
    vstd::arithmetic::mul::lemma_mul_is_commutative(d, qy);
    if rx + ry < d {
        vstd::arithmetic::div_mod::lemma_fundamental_div_mod_converse(x + y, d, qx + qy,
            rx + ry);
    } else {
        vstd::arithmetic::mul::lemma_mul_is_distributive_add(d, qx + qy, 1);
        vstd::arithmetic::mul::lemma_mul_is_commutative(d, qx + qy + 1);
        vstd::arithmetic::div_mod::lemma_fundamental_div_mod_converse(x + y, d, qx + qy + 1,
            rx + ry - d);
    }
}

/// The quotient of a difference loses at most one unit against the
/// difference of the quotients.
proof fn lemma_div_diff_lower(x: int, y: int, d: int)
    requires
        0 <= y <= x,
        d > 0,
    ensures
        (x - y) / d >= x / d - y / d - 1,
{
    vstd::arithmetic::div_mod::lemma_fundamental_div_mod(x, d);
    vstd::arithmetic::div_mod::lemma_fundamental_div_mod(y, d);
    vstd::arithmetic::div_mod::lemma_mod_bound(x, d);
    vstd::arithmetic::div_mod::lemma_mod_bound(y, d);
    let qx = x / d;
    let rx = x % d;
    let qy = y / d;
    let ry = y % d;
    vstd::arithmetic::mul::lemma_mul_is_distributive_sub(d, qx, qy);
    vstd::arithmetic::mul::lemma_mul_is_commutative(d, qx - qy);
    vstd::arithmetic::mul::lemma_mul_is_commutative(d, qx);
    vstd::arithmetic::mul::lemma_mul_is_commutative(d, qy);
    if rx >= ry {
        vstd::arithmetic::div_mod::lemma_fundamental_div_mod_converse(x - y, d, qx - qy,
            rx - ry);
    } else {
        vstd::arithmetic::mul::lemma_mul_is_distributive_sub(d, qx - qy, 1);
        vstd::arithmetic::mul::lemma_mul_is_commutative(d, qx - qy - 1);
        vstd::arithmetic::div_mod::lemma_fundamental_div_mod_converse(x - y, d, qx - qy - 1,
            rx - ry + d);
    }
}

/// Splitting a factor that sums to 1.0 (give or take a unit) across
/// two products costs at most two units and one part in SCALE of a.
proof fn lemma_fmul_pair(a: int, u: int, v: int)
    requires
        a >= 0,
        u >= 0,
        v >= 0,
        (SCALE as int) - 1 <= u + v <= SCALE as int,
    ensures
        a - a / (SCALE as int) - 2 <= fmul(a, u) + fmul(a, v) <= a,
{
    let s = SCALE as int;
    vstd::arithmetic::mul::lemma_mul_nonnegative(a, u);
    vstd::arithmetic::mul::lemma_mul_nonnegative(a, v);
    lemma_div_sum_bounds(a * u, a * v, s);
    vstd::arithmetic::mul::lemma_mul_is_distributive_add(a, u, v);
    vstd::arithmetic::mul::lemma_mul_inequality(u + v, s, a);
    vstd::arithmetic::mul::lemma_mul_is_commutative(u + v, a);
    vstd::arithmetic::mul::lemma_mul_is_commutative(s, a);
    vstd::arithmetic::mul::lemma_mul_nonnegative(a, u + v);
    vstd::arithmetic::div_mod::lemma_div_is_ordered(a * (u + v), a * s, s);
    vstd::arithmetic::div_mod::lemma_div_multiples_vanish(a, s);
    vstd::arithmetic::mul::lemma_mul_inequality(s - 1, u + v, a);
    vstd::arithmetic::mul::lemma_mul_is_commutative(s - 1, a);
    vstd::arithmetic::mul::lemma_mul_nonnegative(a, s - 1);
    vstd::arithmetic::div_mod::lemma_div_is_ordered(a * (s - 1), a * (u + v), s);
    vstd::arithmetic::mul::lemma_mul_is_distributive_sub(a, s, 1);
    vstd::arithmetic::mul::lemma_mul_basics_3(a);
    vstd::arithmetic::mul::lemma_mul_inequality(1, s, a);
    vstd::arithmetic::mul::lemma_mul_is_commutative(1, a);
    vstd::arithmetic::mul::lemma_mul_basics_4(a);
    lemma_div_diff_lower(a * s, a, s);
}

/// Put-call parity: the call price minus the put price equals
/// S - K·e^(-r·T), up to one part in SCALE of each leg and two units.
pub proof fn lemma_put_call_parity(m: BlackScholes)
    requires
        params_ok(m),
    ensures
        ({
            let s = SCALE as int;
            let kdf = fmul(m.strike_price as int, discount_spec(m));
            iabs(price_spec(m, OptionType::Call) - price_spec(m, OptionType::Put) - (
            m.spot_price as int - kdf)) <= m.spot_price as int / s + kdf / s + 2
        }),
{
    let s = SCALE as int;
    let d1 = d1_spec(m);
    let d2 = d2_spec(m);
    let kdf = fmul(m.strike_price as int, discount_spec(m));
    crate::exp::lemma_exp_spec_nonneg(-fmul(m.risk_free_rate as int, m.time_to_expiry as int));
    lemma_fmul_lower(m.strike_price as int, discount_spec(m), 0, 0);
    crate::dist::lemma_cdf_range(d1);
    crate::dist::lemma_cdf_range(-d1);
    crate::dist::lemma_cdf_range(d2);
    crate::dist::lemma_cdf_range(-d2);
    crate::dist::lemma_cdf_symmetry(d1);
    crate::dist::lemma_cdf_symmetry(d2);
    lemma_fmul_pair(m.spot_price as int, cdf_spec(d1), cdf_spec(-d1));
    lemma_fmul_pair(kdf, cdf_spec(d2), cdf_spec(-d2));
    vstd::arithmetic::div_mod::lemma_div_pos_is_pos(m.spot_price as int, s);
    vstd::arithmetic::div_mod::lemma_div_pos_is_pos(kdf, s);
}

/// Delta bounds: while d1 is clear of the CDF's saturation range, a
/// call's delta lies strictly in (0, 1) and a put's in (-1, 0).
pub proof fn lemma_delta_bounds(m: BlackScholes)
    requires
        params_ok(m),
        iabs(d1_spec(m)) <= 3_000_000_000,
    ensures
        0 < delta_spec(m, OptionType::Call) < SCALE as int,
        -(SCALE as int) < delta_spec(m, OptionType::Put) < 0,
{
    crate::dist::lemma_cdf_strict(d1_spec(m));
}

/// Prices one option without keeping a model around.
pub fn calculate_option_price(
    spot_price: i128,
    strike_price: i128,
    time_to_expiry: i128,
    risk_free_rate: i128,
    volatility: i128,
    option_type: OptionType,
) -> (r: i128)
    requires
        params_ok_vals(spot_price as int, strike_price as int, time_to_expiry as int,
            risk_free_rate as int, volatility as int),
    ensures
        ({
            let m = BlackScholes {
                spot_price,
                strike_price,
                time_to_expiry,
                risk_free_rate,
                standard_deviation: volatility,
            };
            r == price_spec(m, option_type)
        }),
{
    let bs = BlackScholes::new(spot_price, strike_price, time_to_expiry, risk_free_rate,
        volatility);
    bs.price(option_type)
}

/// Computes the sensitivities without keeping a model around.
pub fn calculate_greeks(
    spot_price: i128,
    strike_price: i128,
    time_to_expiry: i128,
    risk_free_rate: i128,
    volatility: i128,
    option_type: OptionType,
) -> (g: Greeks)
    requires
        params_ok_vals(spot_price as int, strike_price as int, time_to_expiry as int,
            risk_free_rate as int, volatility as int),
    ensures
        ({
            let m = BlackScholes {
                spot_price,
                strike_price,
                time_to_expiry,
                risk_free_rate,
                standard_deviation: volatility,
            };
            g.delta == delta_spec(m, option_type) && g.gamma == gamma_spec(m) && g.theta
                == theta_spec(m, option_type) && g.vega == vega_spec(m) && g.rho == rho_spec(m,
                option_type)
        }),
{
    let bs = BlackScholes::new(spot_price, strike_price, time_to_expiry, risk_free_rate,
        volatility);
    bs.greeks(option_type)
}

} // verus!
