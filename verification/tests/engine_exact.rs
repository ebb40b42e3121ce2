//! Exact, hand-built growth tables: every expected price is computed by hand
//! and must be matched to the fixed-point unit.

use mcproton::{price_option, Barrier, BarrierType, PricingError, Underlying, SCALE};

fn fx(x: i64) -> i64 {
    x * SCALE
}

fn one_underlying(spot: i64) -> Vec<Underlying> {
    vec![Underlying::new("TEST".to_string(), fx(spot), fx(1) / 5)]
}

#[test]
fn test_vanilla_single_path_exact() {
    // one path, one step: 100 * 1.5 = 150, call at 50 pays exactly 100
    let underlyings = one_underlying(100);
    let paths = vec![vec![vec![SCALE + SCALE / 2]]];
    let price = price_option(&underlyings, &paths, 30, fx(50), true, SCALE, None).unwrap();
    assert_eq!(price, fx(100));
}

#[test]
fn test_vanilla_average_over_paths_exact() {
    // two paths end at 150 and 50; the call at 100 pays 50 and 0, so the
    // average payoff is exactly 25
    let underlyings = one_underlying(100);
    let paths = vec![
        vec![vec![SCALE + SCALE / 2]],
        vec![vec![SCALE / 2]],
    ];
    let price = price_option(&underlyings, &paths, 30, fx(100), true, SCALE, None).unwrap();
    assert_eq!(price, fx(25));
}

#[test]
fn test_discount_factor_is_applied_exactly() {
    // payoff 100, discount factor 0.5: present value exactly 50
    let underlyings = one_underlying(100);
    let paths = vec![vec![vec![SCALE + SCALE / 2]]];
    let price = price_option(&underlyings, &paths, 30, fx(50), true, SCALE / 2, None).unwrap();
    assert_eq!(price, fx(50));
}

#[test]
fn test_put_payoff_exact() {
    // 100 * 0.5 = 50, put at 80 pays exactly 30
    let underlyings = one_underlying(100);
    let paths = vec![vec![vec![SCALE / 2]]];
    let price = price_option(&underlyings, &paths, 30, fx(80), false, SCALE, None).unwrap();
    assert_eq!(price, fx(30));
}

#[test]
fn test_out_of_the_money_price_is_zero() {
    // terminal 150, put at 100 pays nothing
    let underlyings = one_underlying(100);
    let paths = vec![vec![vec![SCALE + SCALE / 2]]];
    let price = price_option(&underlyings, &paths, 30, fx(100), false, SCALE, None).unwrap();
    assert_eq!(price, 0);
}

#[test]
fn test_barrier_hit_is_absorbing() {
    // down-and-in barrier at 90: the path dips to 80, recovers to 120, and
    // the barrier still counts as hit, so the call at 100 pays 20
    let underlyings = one_underlying(100);
    let dip_and_recover = vec![vec![
        vec![SCALE * 4 / 5], // price 80: at or below 90, hit
        vec![SCALE * 3 / 2], // price 120: above 90 again, the flag must stay
    ]];
    let barrier = Barrier::new(fx(90), true, false, false); // in, down, absolute
    let price = price_option(
        &underlyings,
        &dip_and_recover,
        2,
        fx(100),
        true,
        SCALE,
        Some(&barrier),
    )
    .unwrap();
    assert_eq!(price, fx(20));
}

#[test]
fn test_knock_out_on_hit_pays_nothing() {
    // the same dipping path under a down-and-out barrier pays nothing
    let underlyings = one_underlying(100);
    let dip_and_recover = vec![vec![vec![SCALE * 4 / 5], vec![SCALE * 3 / 2]]];
    let barrier = Barrier::new(fx(90), false, false, false); // out, down, absolute
    let price = price_option(
        &underlyings,
        &dip_and_recover,
        2,
        fx(100),
        true,
        SCALE,
        Some(&barrier),
    )
    .unwrap();
    assert_eq!(price, 0);
}

#[test]
fn test_unhit_barrier_gating() {
    // a path that never reaches the barrier: knock-in pays nothing,
    // knock-out pays the full intrinsic payoff
    let underlyings = one_underlying(100);
    let steady = vec![vec![vec![SCALE], vec![SCALE * 6 / 5]]]; // 100, then 120
    let knock_in = Barrier::new(fx(90), true, false, false);
    let knock_out = Barrier::new(fx(90), false, false, false);
    let p_in = price_option(&underlyings, &steady, 2, fx(100), true, SCALE, Some(&knock_in))
        .unwrap();
    let p_out = price_option(&underlyings, &steady, 2, fx(100), true, SCALE, Some(&knock_out))
        .unwrap();
    assert_eq!(p_in, 0);
    assert_eq!(p_out, fx(20));
}

#[test]
fn test_spot_itself_is_not_monitored() {
    // an up-and-in barrier exactly at the spot price: the spot itself is not
    // monitored, and the path moves down immediately, so the barrier is
    // never hit
    let underlyings = one_underlying(100);
    let falling = vec![vec![vec![SCALE * 9 / 10], vec![SCALE * 9 / 10]]]; // 90, 81
    let barrier = Barrier::new(fx(100), true, true, false); // in, up, absolute
    let price = price_option(
        &underlyings,
        &falling,
        2,
        fx(50),
        true,
        SCALE,
        Some(&barrier),
    )
    .unwrap();
    assert_eq!(price, 0);
}

#[test]
fn test_relative_worst_of_barrier_exact() {
    // spots 100 and 200: the initial worst is 100, and a relative level of
    // 0.9 makes the effective barrier 90. The first underlying falls to 89,
    // so the worst-of aggregate hits, and the call on the first underlying
    // at 80 pays 89 - 80 = 9.
    let underlyings = vec![
        Underlying::new("STOCK1".to_string(), fx(100), fx(1) / 5),
        Underlying::new("STOCK2".to_string(), fx(200), fx(1) / 4),
    ];
    let paths = vec![vec![vec![SCALE * 89 / 100, SCALE]]];
    let barrier = Barrier::new_multi(
        SCALE * 9 / 10,
        true,  // in
        false, // down
        BarrierType::WorstOf,
        true, // relative
        vec![0, 1],
    )
    .unwrap();
    let price = price_option(&underlyings, &paths, 1, fx(80), true, SCALE, Some(&barrier))
        .unwrap();
    assert_eq!(price, fx(9));
}

#[test]
fn test_relative_average_barrier_exact() {
    // spots 100 and 200: the initial average is 150, a relative level of 1.2
    // makes the effective barrier 180. Both double, the average reaches 300,
    // the up-and-out barrier knocks the option out.
    let underlyings = vec![
        Underlying::new("STOCK1".to_string(), fx(100), fx(1) / 5),
        Underlying::new("STOCK2".to_string(), fx(200), fx(1) / 4),
    ];
    let paths = vec![vec![vec![2 * SCALE, 2 * SCALE]]];
    let barrier = Barrier::new_multi(
        SCALE * 6 / 5,
        false, // out
        true,  // up
        BarrierType::Average,
        true, // relative
        vec![0, 1],
    )
    .unwrap();
    let price = price_option(&underlyings, &paths, 1, fx(80), true, SCALE, Some(&barrier))
        .unwrap();
    assert_eq!(price, 0);
}

#[test]
fn test_payoff_comes_from_first_underlying_only() {
    // the second underlying triples while the first is flat; the vanilla
    // call at 90 pays from the first underlying's terminal price of 100
    let underlyings = vec![
        Underlying::new("STOCK1".to_string(), fx(100), fx(1) / 5),
        Underlying::new("STOCK2".to_string(), fx(200), fx(1) / 4),
    ];
    let paths = vec![vec![vec![SCALE, 3 * SCALE]]];
    let price = price_option(&underlyings, &paths, 30, fx(90), true, SCALE, None).unwrap();
    assert_eq!(price, fx(10));
}

#[test]
fn test_zero_day_barrier_horizon() {
    // a zero-day horizon under a barrier takes no steps: the barrier is
    // never monitored and a knock-in option is worthless
    let underlyings = one_underlying(100);
    let paths: Vec<Vec<Vec<i64>>> = vec![vec![]];
    let barrier = Barrier::new(fx(50), true, true, false); // in, up, hit at once if monitored
    let price = price_option(&underlyings, &paths, 0, fx(50), true, SCALE, Some(&barrier))
        .unwrap();
    assert_eq!(price, 0);
}

#[test]
fn test_error_reporting_order() {
    // with no underlyings and no paths, the missing underlyings are
    // reported first
    let underlyings: Vec<Underlying> = vec![];
    let paths: Vec<Vec<Vec<i64>>> = vec![];
    let r = price_option(&underlyings, &paths, 30, fx(100), true, SCALE, None);
    assert_eq!(r.unwrap_err(), PricingError::NoUnderlyings);
}
