use black_scholes::{BlackScholes, OptionType, SolverError};

fn fp(x: f64) -> i128 {
    (x * 1e9).round() as i128
}

#[test]
fn implied_vol_round_trip() {
    let m = BlackScholes::new(fp(100.0), fp(100.0), fp(1.0), fp(0.05), fp(0.25));
    let market = m.price(OptionType::Call);
    let solved = m.implied_volatility(market, OptionType::Call, 100, fp(1e-6));
    match solved {
        Ok(vol) => assert!((vol - fp(0.25)).abs() <= fp(1e-4)),
        Err(_) => panic!("expected convergence"),
    }
}

#[test]
fn implied_vol_round_trip_put() {
    let m = BlackScholes::new(fp(90.0), fp(100.0), fp(0.5), fp(0.02), fp(0.4));
    let market = m.price(OptionType::Put);
    let solved = m.implied_volatility(market, OptionType::Put, 100, fp(1e-6));
    match solved {
        Ok(vol) => assert!((vol - fp(0.4)).abs() <= fp(1e-4)),
        Err(_) => panic!("expected convergence"),
    }
}

#[test]
fn vega_too_small_scenario() {
    // An expiry of about thirty seconds and a strike at twice the spot:
    // vega underflows to zero before the quoted price is reached.
    let m = BlackScholes::new(fp(100.0), fp(200.0), fp(1e-6), fp(0.05), fp(0.2));
    let solved = m.implied_volatility(fp(5.0), OptionType::Call, 100, fp(1e-9));
    assert_eq!(solved, Err(SolverError::VegaTooSmall));
}

#[test]
fn non_convergence_scenario() {
    // One iteration cannot move from the 20% starting guess to a price
    // four times higher.
    let m = BlackScholes::new(fp(100.0), fp(100.0), fp(1.0), fp(0.05), fp(0.2));
    let solved = m.implied_volatility(fp(50.0), OptionType::Call, 1, fp(1e-9));
    assert_eq!(solved, Err(SolverError::ConvergenceFailure));
}

#[test]
fn zero_iterations_fail_to_converge() {
    let m = BlackScholes::new(fp(100.0), fp(100.0), fp(1.0), fp(0.05), fp(0.2));
    let solved = m.implied_volatility(fp(10.0), OptionType::Call, 0, fp(1e-6));
    assert_eq!(solved, Err(SolverError::ConvergenceFailure));
}

#[test]
fn solver_leaves_the_model_unchanged() {
    let m = BlackScholes::new(fp(100.0), fp(100.0), fp(1.0), fp(0.05), fp(0.25));
    let market = m.price(OptionType::Call);
    let _ = m.implied_volatility(market, OptionType::Call, 100, fp(1e-6));
    assert_eq!(m.standard_deviation, fp(0.25));
}

#[test]
fn exact_hit_returns_before_vega_test() {
    // A huge tolerance accepts the very first iterate, whatever vega is.
    let m = BlackScholes::new(fp(100.0), fp(200.0), fp(1e-6), fp(0.05), fp(0.2));
    let solved = m.implied_volatility(fp(0.0), OptionType::Call, 5, fp(1.0));
    assert_eq!(solved, Ok(fp(0.2)));
}
