use black_scholes::erf;
use black_scholes::BlackScholes;

const ONE: i128 = 1_000_000_000;

fn fp(x: f64) -> i128 {
    (x * 1e9).round() as i128
}

fn tof(x: i128) -> f64 {
    x as f64 / 1e9
}

#[test]
fn erf_zero_is_zero() {
    assert_eq!(erf(0), 0);
}

#[test]
fn erf_is_odd_on_grid() {
    for k in 1..80i64 {
        let x: i128 = fp(k as f64 * 0.1);
        assert_eq!(erf(-x), -erf(x));
    }
}

#[test]
fn erf_strictly_increasing_on_grid() {
    let mut prev: i128 = erf(fp(-2.0));
    for k in -19..21i64 {
        let y: i128 = erf(fp(k as f64 * 0.1));
        assert!(y > prev);
        prev = y;
    }
}

#[test]
fn erf_bounded_by_one() {
    for k in -60..61i64 {
        let y: i128 = erf(fp(k as f64 * 0.5));
        assert!(-ONE <= y && y <= ONE);
    }
}

#[test]
fn erf_matches_reference_values() {
    assert!((tof(erf(fp(1.0))) - 0.8427008).abs() < 1e-5);
    assert!((tof(erf(fp(0.5))) - 0.5204999).abs() < 1e-5);
    assert!((tof(erf(fp(2.0))) - 0.9953223).abs() < 1e-5);
}

#[test]
fn norm_cdf_at_zero_is_half() {
    assert_eq!(BlackScholes::norm_cdf(0), 500_000_000);
}

#[test]
fn norm_cdf_symmetry_on_grid() {
    for k in 1..40i64 {
        let x: i128 = fp(k as f64 * 0.25);
        let total: i128 = BlackScholes::norm_cdf(x) + BlackScholes::norm_cdf(-x);
        assert!(total == ONE || total == ONE - 1);
    }
}

#[test]
fn norm_cdf_matches_reference_values() {
    assert!((tof(BlackScholes::norm_cdf(fp(0.35))) - 0.6368307).abs() < 1e-5);
    assert!((tof(BlackScholes::norm_cdf(fp(0.15))) - 0.5596177).abs() < 1e-5);
    assert!((tof(BlackScholes::norm_cdf(fp(-1.0))) - 0.1586553).abs() < 1e-5);
}

#[test]
fn norm_pdf_matches_reference_values() {
    assert!((tof(BlackScholes::norm_pdf(0)) - 0.3989423).abs() < 1e-5);
    assert!((tof(BlackScholes::norm_pdf(fp(0.35))) - 0.3752403).abs() < 1e-5);
    assert!((tof(BlackScholes::norm_pdf(fp(-0.35))) - 0.3752403).abs() < 1e-5);
}
