use black_scholes::{calculate_greeks, calculate_option_price, BlackScholes, OptionType};

fn fp(x: f64) -> i128 {
    (x * 1e9).round() as i128
}

fn tof(x: i128) -> f64 {
    x as f64 / 1e9
}

fn reference_model() -> BlackScholes {
    BlackScholes::new(fp(100.0), fp(100.0), fp(1.0), fp(0.05), fp(0.2))
}

#[test]
fn reference_scenario_d1_d2() {
    let m = reference_model();
    assert!((tof(m.d1()) - 0.35).abs() < 1e-4);
    assert!((tof(m.d2()) - 0.15).abs() < 1e-4);
}

#[test]
fn reference_scenario_call_price() {
    let m = reference_model();
    assert!((tof(m.price(OptionType::Call)) - 10.4506).abs() < 1e-3);
}

#[test]
fn reference_scenario_put_price() {
    let m = reference_model();
    assert!((tof(m.price(OptionType::Put)) - 5.5735).abs() < 1e-3);
}

#[test]
fn reference_scenario_greeks() {
    let m = reference_model();
    let g = m.greeks(OptionType::Call);
    assert!((tof(g.delta) - 0.6368).abs() < 1e-3);
    assert!((tof(g.gamma) - 0.0188).abs() < 1e-3);
    assert!((tof(g.vega) - 0.3752).abs() < 1e-3);
    assert!((tof(g.theta) - (-0.017573)).abs() < 1e-3);
    assert!((tof(g.rho) - 0.532325).abs() < 1e-3);
}

#[test]
fn put_greeks_signs() {
    let m = reference_model();
    let g = m.greeks(OptionType::Put);
    assert!(g.delta < 0);
    assert!(g.gamma > 0);
    assert!(g.rho < 0);
    assert!(g.vega > 0);
}

#[test]
fn put_call_parity_sampled() {
    let cases: Vec<(f64, f64, f64, f64, f64)> = vec![
        (100.0, 100.0, 1.0, 0.05, 0.2),
        (110.0, 95.0, 0.5, 0.01, 0.35),
        (50.0, 80.0, 2.0, 0.03, 0.45),
        (25.0, 20.0, 0.25, -0.01, 0.15),
    ];
    for (s, k, t, r, sigma) in cases {
        let m = BlackScholes::new(fp(s), fp(k), fp(t), fp(r), fp(sigma));
        let c = tof(m.price(OptionType::Call));
        let p = tof(m.price(OptionType::Put));
        let expected = s - k * (-r * t).exp();
        assert!((c - p - expected).abs() < 1e-5);
    }
}

#[test]
fn delta_bounds_sampled() {
    let cases: Vec<(f64, f64, f64, f64, f64)> = vec![
        (100.0, 100.0, 1.0, 0.05, 0.2),
        (80.0, 120.0, 0.5, 0.02, 0.3),
        (120.0, 80.0, 0.5, 0.02, 0.3),
        (10.0, 10.0, 5.0, 0.0, 0.9),
    ];
    for (s, k, t, r, sigma) in cases {
        let m = BlackScholes::new(fp(s), fp(k), fp(t), fp(r), fp(sigma));
        let call = m.greeks(OptionType::Call).delta;
        let put = m.greeks(OptionType::Put).delta;
        assert!(0 < call && call < fp(1.0));
        assert!(fp(-1.0) < put && put < 0);
    }
}

#[test]
fn setters_update_single_fields() {
    let mut m = reference_model();
    m.set_spot_price(fp(105.0));
    assert_eq!(m.spot_price, fp(105.0));
    m.set_strike_price(fp(95.0));
    assert_eq!(m.strike_price, fp(95.0));
    m.set_time_to_expiry(fp(2.0));
    assert_eq!(m.time_to_expiry, fp(2.0));
    m.set_risk_free_rate(fp(0.01));
    assert_eq!(m.risk_free_rate, fp(0.01));
    m.set_standard_deviation(fp(0.3));
    assert_eq!(m.standard_deviation, fp(0.3));
    assert_eq!(m.spot_price, fp(105.0));
}

#[test]
fn convenience_wrappers_match_model() {
    let m = reference_model();
    let price = calculate_option_price(fp(100.0), fp(100.0), fp(1.0), fp(0.05), fp(0.2),
        OptionType::Call);
    assert_eq!(price, m.price(OptionType::Call));
    let g1 = calculate_greeks(fp(100.0), fp(100.0), fp(1.0), fp(0.05), fp(0.2), OptionType::Put);
    let g2 = m.greeks(OptionType::Put);
    assert_eq!(g1.delta, g2.delta);
    assert_eq!(g1.gamma, g2.gamma);
    assert_eq!(g1.theta, g2.theta);
    assert_eq!(g1.vega, g2.vega);
    assert_eq!(g1.rho, g2.rho);
}

#[test]
fn intrinsic_value_dominates_deep_in_the_money() {
    let m = BlackScholes::new(fp(200.0), fp(100.0), fp(1.0), fp(0.05), fp(0.2));
    let c = tof(m.price(OptionType::Call));
    let intrinsic = 200.0 - 100.0 * (-0.05f64).exp();
    assert!((c - intrinsic).abs() < 0.01);
}
