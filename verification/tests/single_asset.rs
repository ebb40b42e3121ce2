//! Pricing of vanilla options on a single underlying, driven without a
//! correlation structure: one independent standard-normal draw per path.

use mcproton::{price_option, Underlying, SCALE};
use rand::rngs::StdRng;
use rand::SeedableRng;
use rand_distr::{Distribution, StandardNormal};

fn to_fx(x: f64) -> i64 {
    (x * SCALE as f64).round() as i64
}

/// Prices a vanilla option on one underlying: a single exact lognormal step
/// to expiry per path.
fn single_asset_price(
    underlying: &Underlying,
    days: u32,
    strike: f64,
    is_call: bool,
    rate: f64,
    num_paths: usize,
    seed: u64,
) -> f64 {
    let horizon = days as f64 / 365.0;
    let dt = horizon; // single step to expiration
    let sqrt_dt = dt.sqrt();
    let vol = underlying.volatility as f64 / SCALE as f64;
    let drift = rate - 0.5 * vol * vol;
    let mut rng = StdRng::seed_from_u64(seed);
    let mut paths: Vec<Vec<Vec<i64>>> = Vec::with_capacity(num_paths);
    for _ in 0..num_paths {
        let z: f64 = StandardNormal.sample(&mut rng);
        let g = (drift * dt + vol * sqrt_dt * z).exp();
        paths.push(vec![vec![to_fx(g)]]);
    }
    let underlyings = vec![underlying.clone()];
    let discount = to_fx((-rate * horizon).exp());
    let price = price_option(
        &underlyings,
        &paths,
        days,
        to_fx(strike),
        is_call,
        discount,
        None,
    )
    .expect("pricing inputs must be valid");
    price as f64 / SCALE as f64
}

#[test]
fn main_test_option_pricing_call_positive_payoff() {
    // Deep in-the-money call option should have positive value
    let underlying = Underlying::new("TEST".to_string(), to_fx(100.0), to_fx(0.20));
    let price = single_asset_price(&underlying, 30, 50.0, true, 0.05, 1000, 21);
    assert!(price > 0.0, "Deep ITM call should have positive value");
}

#[test]
fn main_test_option_pricing_put_positive_payoff() {
    // Deep in-the-money put option should have positive value
    let underlying = Underlying::new("TEST".to_string(), to_fx(100.0), to_fx(0.20));
    let price = single_asset_price(&underlying, 30, 150.0, false, 0.05, 1000, 22);
    assert!(price > 0.0, "Deep ITM put should have positive value");
}

#[test]
fn main_test_option_pricing_at_the_money() {
    // At-the-money option should have some value due to time value
    let underlying = Underlying::new("TEST".to_string(), to_fx(100.0), to_fx(0.20));
    let call_price = single_asset_price(&underlying, 30, 100.0, true, 0.05, 1000, 23);
    let put_price = single_asset_price(&underlying, 30, 100.0, false, 0.05, 1000, 24);
    assert!(call_price >= 0.0, "ATM call should have non-negative value");
    assert!(put_price >= 0.0, "ATM put should have non-negative value");
}
