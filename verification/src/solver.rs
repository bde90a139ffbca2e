//! Implied volatility: a Newton-Raphson search on vega for the
//! volatility that reproduces an observed market price.

use vstd::prelude::*;

use crate::fixed::{fdiv, fp_div, iabs};
use crate::model::{BlackScholes, OptionType, Greeks, params_ok, vol_ok, price_spec, vega_spec};

verus! {

/// Why the volatility search stopped without an answer.
#[derive(Debug, Clone, Copy, PartialEq, Eq, Structural)]
pub enum SolverError {
    /// The price derivative fell below one unit, too flat for a safe
    /// Newton step.
    VegaTooSmall,
    /// The iteration budget ran out before the tolerance was met.
    ConvergenceFailure,
}

/// The fixed starting guess: 20% volatility, not derived from inputs.
pub const VOL_START: i128 = 200_000_000;

/// The guard floor: a non-positive Newton step restarts at 0.1%.
pub const VOL_FLOOR: i128 = 1_000_000;

/// The guard ceiling: a step above 1000% is clamped to the domain.
pub const VOL_CAP: i128 = 10_000_000_000;

/// The model with its volatility replaced.
pub open spec fn with_vol(m: BlackScholes, v: int) -> BlackScholes {
    BlackScholes { standard_deviation: v as i128, ..m }
}

/// The raw price sensitivity to volatility: vega rescaled from
/// per-percentage-point back to per unit.
pub open spec fn raw_vega(m: BlackScholes) -> int {
    vega_spec(m) * 100
}

/// The volatility the next iteration tries: the Newton update, kept
/// inside [VOL_FLOOR, VOL_CAP].
pub open spec fn next_vol(m: BlackScholes, market_price: int, option_type: OptionType,
    vol: int) -> int {
    let mv = with_vol(m, vol);
    let step = vol - fdiv(price_spec(mv, option_type) - market_price, raw_vega(mv));
    if step < VOL_FLOOR as int {
        VOL_FLOOR as int
    } else if step > VOL_CAP as int {
        VOL_CAP as int
    } else {
        step
    }
}

/// The outcome of up to `fuel` Newton iterations starting from `vol`:
/// the first volatility whose price lands within the tolerance, or
/// the error that stops the search.
pub open spec fn solve_spec(m: BlackScholes, market_price: int, option_type: OptionType,
    tolerance: int, fuel: nat, vol: int) -> Result<i128, SolverError>
    decreases fuel,
{
    if fuel == 0 {
        Err(SolverError::ConvergenceFailure)
    } else {
        let mv = with_vol(m, vol);
        if iabs(price_spec(mv, option_type) - market_price) < tolerance {
            Ok(vol as i128)
        } else if raw_vega(mv) == 0 {
            Err(SolverError::VegaTooSmall)
        } else {
            solve_spec(m, market_price, option_type, tolerance, (fuel - 1) as nat,
                next_vol(m, market_price, option_type, vol))
        }
    }
}

impl BlackScholes {
    /// Finds the volatility at which the model reproduces
    /// `market_price`, by Newton-Raphson with vega as the derivative.
    /// The search starts at 20%, floors non-positive steps at 0.1%,
    /// and caps runaway steps at 1000%; it converges on the absolute
    /// price difference, checked before the flat-vega test. The model
    /// itself is never written: the search runs on private copies.
    #[verifier::rlimit(100)]
    pub fn implied_volatility(
        &self,
        market_price: i128,
        option_type: OptionType,
        max_iterations: usize,
        tolerance: i128,
    ) -> (r: Result<i128, SolverError>)
        requires
            params_ok(*self),
            iabs(market_price as int) <= 1_000_000_000_000_000_000,
        ensures
            r == solve_spec(*self, market_price as int, option_type, tolerance as int,
                max_iterations as nat, VOL_START as int),
            r matches Ok(v) ==> vol_ok(v as int) && iabs(price_spec(with_vol(*self, v as int),
                option_type) - market_price) < tolerance,
    {
        let mut vol: i128 = VOL_START;
        let mut i: usize = 0;
        while i < max_iterations
            invariant
                params_ok(*self),
                iabs(market_price as int) <= 1_000_000_000_000_000_000,
                vol_ok(vol as int),
                i <= max_iterations,
                solve_spec(*self, market_price as int, option_type, tolerance as int,
                    max_iterations as nat, VOL_START as int) == solve_spec(*self,
                    market_price as int, option_type, tolerance as int,
                    (max_iterations - i) as nat, vol as int),
            decreases max_iterations - i,
        {
            let work = BlackScholes::new(self.spot_price, self.strike_price,
                self.time_to_expiry, self.risk_free_rate, vol);
            proof {
                assert(work == with_vol(*self, vol as int));
            }
            let price: i128 = work.price(option_type);
            let g: Greeks = work.greeks(option_type);
            let vega_raw: i128 = g.vega * 100;
            let diff: i128 = price - market_price;
            let dist: i128 = if diff < 0 { -diff } else { diff };
            proof {
                assert(price == price_spec(with_vol(*self, vol as int), option_type));
                assert(vega_raw == raw_vega(with_vol(*self, vol as int)));
            }
            if dist < tolerance {
                proof {
                    assert(solve_spec(*self, market_price as int, option_type, tolerance as int,
                        (max_iterations - i) as nat, vol as int) == Ok::<i128, SolverError>(vol));
                }
                return Ok(vol);
            }
            if vega_raw == 0 {
                proof {
                    assert(solve_spec(*self, market_price as int, option_type, tolerance as int,
                        (max_iterations - i) as nat, vol as int)
                        == Err::<i128, SolverError>(SolverError::VegaTooSmall));
                }
                return Err(SolverError::VegaTooSmall);
            }
            let step: i128 = fp_div(diff, vega_raw);
            let moved: i128 = vol - step;
            let clamped: i128 = if moved < VOL_FLOOR {
                VOL_FLOOR
            } else if moved > VOL_CAP {
                VOL_CAP
            } else {
                moved
            };
            proof {
                assert(clamped == next_vol(*self, market_price as int, option_type, vol as int));
                assert(solve_spec(*self, market_price as int, option_type, tolerance as int,
                    (max_iterations - i) as nat, vol as int) == solve_spec(*self,
                    market_price as int, option_type, tolerance as int,
                    (max_iterations - i - 1) as nat, clamped as int));
            }
            vol = clamped;
            i = i + 1;
        }
        Err(SolverError::ConvergenceFailure)
    }
}

} // verus!
