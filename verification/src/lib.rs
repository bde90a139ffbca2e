//! Black-Scholes option pricing on fixed-point numbers.
//!
//! Every quantity is a signed count of billionths: the `i128` value `n`
//! stands for the real number `n / 1_000_000_000`. All arithmetic is
//! integer arithmetic, so every routine is verified: the contracts pin
//! each result down to the exact rounded value the formulas produce,
//! and the classical identities (put-call parity, CDF symmetry, the
//! oddness of erf, delta bounds) are proved as lemmas.

pub mod dist;
pub mod exp;
pub mod fixed;
pub mod ln;
pub mod model;
pub mod solver;

pub use dist::erf;
pub use model::BlackScholes;
pub use model::Greeks;
pub use model::OptionType;
pub use model::calculate_greeks;
pub use model::calculate_option_price;
pub use solver::SolverError;
