//! The Monte Carlo valuation engine: stepwise price evolution, barrier-hit
//! tracking, payoff gating and the discounted expected-payoff estimator.
//!
//! The caller supplies, for every path and step, one lognormal growth factor
//! per underlying (the factor `exp((r - sigma^2/2) dt + sigma sqrt(dt) z)` of
//! geometric Brownian motion, as a fixed-point number), together with the
//! fixed-point discount factor `exp(-r T)`. Everything from there on — the
//! price updates, the barrier state machine, the payoff and the estimator —
//! is exact integer arithmetic specified below.

use vstd::prelude::*;
use vstd::arithmetic::mul::lemma_mul_nonnegative;
use crate::aggregate::{calculate_reference, indices_ok, spec_reference};
use crate::arith::{div_trunc, fx_mul, lemma_div_trunc_bounds, lemma_div_trunc_upper, mul_scale,
    sat_i64, sat_to_i64};
use crate::barrier::Barrier;
use crate::underlying::Underlying;

verus! {

/// Configuration faults that abort a pricing call before any path is
/// simulated, reported distinctly from a valid price.
#[derive(Debug, Clone, Copy, PartialEq, Eq, Structural)]
pub enum PricingError {
    /// The list of underlyings is empty.
    NoUnderlyings,
    /// No simulation path was supplied.
    NoPaths,
    /// Some path does not hold one growth factor per step and underlying.
    DimensionMismatch,
    /// The barrier monitors no underlying at all, or one that does not exist.
    InvalidBarrierIndices,
}

/// The spot prices of the underlyings, in order.
pub open spec fn spots_of(us: Seq<Underlying>) -> Seq<i64> {
    us.map_values(|u: Underlying| u.spot_price)
}

/// The barrier named by an optional reference, if any.
pub open spec fn opt_barrier(b: Option<&Barrier>) -> Option<Barrier> {
    match b {
        Option::None => Option::None,
        Option::Some(bar) => Option::Some(*bar),
    }
}

/// One step of geometric Brownian motion: every price is multiplied by its
/// growth factor.
pub open spec fn step_prices(prices: Seq<i64>, growth: Seq<i64>) -> Seq<i64>
    recommends
        growth.len() == prices.len(),
{
    Seq::new(prices.len(), |i: int| fx_mul(prices[i] as int, growth[i] as int) as i64)
}

/// The prices after applying the given steps of growth factors to the spot
/// prices, in order.
pub open spec fn prices_after(spots: Seq<i64>, steps: Seq<Seq<i64>>) -> Seq<i64>
    decreases steps.len(),
{
    if steps.len() == 0 {
        spots
    } else {
        step_prices(prices_after(spots, steps.drop_last()), steps.last())
    }
}

/// Whether a monitored value satisfies the barrier's direction test: an "up"
/// barrier is crossed at or above the level, a "down" barrier at or below it.
pub open spec fn crossed(value: int, level: int, up_down: bool) -> bool {
    if up_down {
        value >= level
    } else {
        value <= level
    }
}

/// The effective absolute barrier level: a relative level multiplies the
/// reference value aggregated over the initial spot prices.
pub open spec fn effective_level(spots: Seq<i64>, b: Barrier) -> int {
    if b.relative {
        fx_mul(
            spec_reference(spots, b.underlying_indices@, b.barrier_type),
            b.barrier_level as int,
        )
    } else {
        b.barrier_level as int
    }
}

/// Whether the barrier condition holds at the prices reached after `steps`.
pub open spec fn hit_at(spots: Seq<i64>, steps: Seq<Seq<i64>>, b: Barrier, level: int) -> bool {
    crossed(
        spec_reference(prices_after(spots, steps), b.underlying_indices@, b.barrier_type),
        level,
        b.up_down,
    )
}

/// Whether the barrier condition held after any of the steps taken so far.
/// The spot prices themselves, before the first step, are not monitored.
pub open spec fn hit_within(spots: Seq<i64>, steps: Seq<Seq<i64>>, b: Barrier, level: int) -> bool
    decreases steps.len(),
{
    if steps.len() == 0 {
        false
    } else {
        hit_within(spots, steps.drop_last(), b, level) || hit_at(spots, steps, b, level)
    }
}

/// Intrinsic payoff at expiry, clamped into `i64`: `max(terminal - strike, 0)`
/// for a call, `max(strike - terminal, 0)` for a put.
pub open spec fn intrinsic_payoff(terminal: int, strike: int, is_call: bool) -> int {
    if is_call {
        if terminal - strike > 0 {
            sat_i64(terminal - strike)
        } else {
            0
        }
    } else {
        if strike - terminal > 0 {
            sat_i64(strike - terminal)
        } else {
            0
        }
    }
}

/// The payoff of one path: the intrinsic payoff of the first underlying's
/// terminal price, gated by the barrier. A knock-in option pays only if the
/// barrier was hit, a knock-out option only if it was not.
pub open spec fn path_payoff(
    spots: Seq<i64>,
    steps: Seq<Seq<i64>>,
    strike: i64,
    is_call: bool,
    b: Option<Barrier>,
) -> int {
    let pay = intrinsic_payoff(prices_after(spots, steps)[0] as int, strike as int, is_call);
    match b {
        Option::None => pay,
        Option::Some(bar) => {
            let hit = hit_within(spots, steps, bar, effective_level(spots, bar));
            if bar.in_out {
                if hit {
                    pay
                } else {
                    0
                }
            } else {
                if hit {
                    0
                } else {
                    pay
                }
            }
        },
    }
}

/// The sum of the gated payoffs over all paths.
pub open spec fn total_payoff(
    spots: Seq<i64>,
    paths: Seq<Seq<Seq<i64>>>,
    strike: i64,
    is_call: bool,
    b: Option<Barrier>,
) -> int
    decreases paths.len(),
{
    if paths.len() == 0 {
        0
    } else {
        total_payoff(spots, paths.drop_last(), strike, is_call, b) + path_payoff(
            spots,
            paths.last(),
            strike,
            is_call,
            b,
        )
    }
}

/// The estimated present value: the average of the gated payoffs, multiplied
/// by the discount factor.
pub open spec fn spec_price(
    spots: Seq<i64>,
    paths: Seq<Seq<Seq<i64>>>,
    strike: i64,
    is_call: bool,
    discount: i64,
    b: Option<Barrier>,
) -> int
    recommends
        paths.len() > 0,
{
    fx_mul(
        div_trunc(total_payoff(spots, paths, strike, is_call, b), paths.len() as int),
        discount as int,
    )
}

/// How many steps one step-count rule yields: barrier options are monitored
/// daily, vanilla options take a single exact step to expiry.
pub open spec fn spec_num_steps(days: u32, has_barrier: bool) -> int {
    if has_barrier {
        days as int
    } else {
        1
    }
}

/// Whether the barrier, if any, monitors a non-empty set of existing
/// underlyings.
pub open spec fn barrier_indices_ok(b: Option<Barrier>, n: int) -> bool {
    match b {
        Option::None => true,
        Option::Some(bar) => bar.underlying_indices@.len() > 0 && indices_ok(
            bar.underlying_indices@,
            n,
        ),
    }
}

/// Whether every path holds `steps` steps of `n` growth factors each.
pub open spec fn valid_dimensions(n: int, steps: int, paths: Seq<Seq<Seq<i64>>>) -> bool {
    forall|p: int|
        0 <= p < paths.len() ==> {
            &&& (#[trigger] paths[p]).len() == steps
            &&& forall|s: int| 0 <= s < paths[p].len() ==> (#[trigger] paths[p][s]).len() == n
        }
}

/// The configuration fault a pricing call reports, if any: the checks run in
/// this order and the first failure wins.
pub open spec fn spec_validate(
    us: Seq<Underlying>,
    paths: Seq<Seq<Seq<i64>>>,
    days: u32,
    b: Option<Barrier>,
) -> Option<PricingError> {
    let n = us.len() as int;
    if n == 0 {
        Option::Some(PricingError::NoUnderlyings)
    } else if !barrier_indices_ok(b, n) {
        Option::Some(PricingError::InvalidBarrierIndices)
    } else if paths.len() == 0 {
        Option::Some(PricingError::NoPaths)
    } else if !valid_dimensions(n, spec_num_steps(days, b is Some), paths) {
        Option::Some(PricingError::DimensionMismatch)
    } else {
        Option::None
    }
}

/// Number of time steps simulated over a horizon of `time_horizon_days`:
/// one step per calendar day when a barrier must be monitored, a single step
/// otherwise (the terminal distribution of geometric Brownian motion is exact
/// in one step).
pub fn num_steps(time_horizon_days: u32, has_barrier: bool) -> (r: u32)
    ensures
        r as int == spec_num_steps(time_horizon_days, has_barrier),
{
    if has_barrier {
        time_horizon_days
    } else {
        1
    }
}

/// A path's payoff never lies outside `0 ..= i64::MAX`.
pub proof fn lemma_path_payoff_range(
    spots: Seq<i64>,
    steps: Seq<Seq<i64>>,
    strike: i64,
    is_call: bool,
    b: Option<Barrier>,
)
    ensures
        0 <= path_payoff(spots, steps, strike, is_call, b) <= i64::MAX as int,
{
}

/// The sum of the paths' payoffs lies between zero and the path count times
/// the largest `i64` value.
pub proof fn lemma_total_payoff_range(
    spots: Seq<i64>,
    paths: Seq<Seq<Seq<i64>>>,
    strike: i64,
    is_call: bool,
    b: Option<Barrier>,
)
    ensures
        0 <= total_payoff(spots, paths, strike, is_call, b) <= (i64::MAX as int) * (
        paths.len() as int),
    decreases paths.len(),
{
    if paths.len() == 0 {
    } else {
        lemma_total_payoff_range(spots, paths.drop_last(), strike, is_call, b);
        lemma_path_payoff_range(spots, paths.last(), strike, is_call, b);
    }
}

/// The barrier state machine is absorbing: once the barrier has been hit
/// after some prefix of the steps, it counts as hit for the whole path.
pub proof fn lemma_hit_absorbing(
    spots: Seq<i64>,
    steps: Seq<Seq<i64>>,
    b: Barrier,
    level: int,
    j: int,
)
    requires
        0 <= j <= steps.len(),
        hit_within(spots, steps.subrange(0, j), b, level),
    ensures
        hit_within(spots, steps, b, level),
    decreases steps.len() - j,
{
    if j == steps.len() {
        assert(steps.subrange(0, j) =~= steps);
    } else {
        assert(steps.subrange(0, j + 1).drop_last() =~= steps.subrange(0, j));
        lemma_hit_absorbing(spots, steps, b, level, j + 1);
    }
}

/// How the barrier gates the payoff: a knock-in option pays the intrinsic
/// payoff exactly when the barrier was hit and nothing otherwise; a knock-out
/// option pays it exactly when the barrier was never hit.
pub proof fn lemma_barrier_gating(
    spots: Seq<i64>,
    steps: Seq<Seq<i64>>,
    strike: i64,
    is_call: bool,
    b: Barrier,
)
    ensures
        ({
            let hit = hit_within(spots, steps, b, effective_level(spots, b));
            let pay = intrinsic_payoff(
                prices_after(spots, steps)[0] as int,
                strike as int,
                is_call,
            );
            let gated = path_payoff(spots, steps, strike, is_call, Option::Some(b));
            &&& b.in_out && hit ==> gated == pay
            &&& b.in_out && !hit ==> gated == 0
            &&& !b.in_out && hit ==> gated == 0
            &&& !b.in_out && !hit ==> gated == pay
        }),
{
}

/// Simulates one path and returns its gated payoff.
///
/// `level` is the effective absolute barrier level, computed once from the
/// spot prices before any path is simulated.
pub fn path_value(
    spots: &Vec<i64>,
    steps: &Vec<Vec<i64>>,
    strike_price: i64,
    is_call: bool,
    barrier: Option<&Barrier>,
    level: i64,
) -> (r: i64)
    requires
        spots@.len() > 0,
        forall|s: int|
            0 <= s < steps.deep_view().len() ==> (#[trigger] steps.deep_view()[s]).len()
                == spots@.len(),
        barrier matches Some(b) ==> {
            &&& b.underlying_indices@.len() > 0
            &&& indices_ok(b.underlying_indices@, spots@.len() as int)
            &&& level as int == effective_level(spots@, *b)
        },
    ensures
        r as int == path_payoff(spots@, steps.deep_view(), strike_price, is_call, opt_barrier(
            barrier,
        )),
        0 <= r,
{
    let ghost dv = steps.deep_view();
    let n = spots.len();
    let mut prices: Vec<i64> = Vec::new();
    let mut j: usize = 0;
    while j < n
        invariant
            j <= n,
            n == spots@.len(),
            prices@ =~= spots@.subrange(0, j as int),
        decreases n - j,
    {
        prices.push(spots[j]);
        j = j + 1;
    }
    proof {
        assert(prices@ =~= spots@);
        assert(dv.subrange(0, 0) =~= Seq::<Seq<i64>>::empty());
    }
    let mut hit: bool = false;
    let mut s: usize = 0;
    while s < steps.len()
        invariant
            s <= steps@.len(),
            dv == steps.deep_view(),
            dv.len() == steps@.len(),
            n == spots@.len(),
            spots@.len() > 0,
            forall|k: int| 0 <= k < dv.len() ==> (#[trigger] dv[k]).len() == n,
            prices@ == prices_after(spots@, dv.subrange(0, s as int)),
            prices@.len() == n,
            barrier matches Some(b) ==> {
                &&& b.underlying_indices@.len() > 0
                &&& indices_ok(b.underlying_indices@, n as int)
                &&& level as int == effective_level(spots@, *b)
                &&& hit == hit_within(spots@, dv.subrange(0, s as int), *b, level as int)
            },
            barrier is None ==> !hit,
        decreases steps@.len() - s,
    {
        let ghost before = prices@;
        let growth = &steps[s];
        proof {
            assert(dv[s as int] =~= growth@);
        }
        let mut next: Vec<i64> = Vec::new();
        let mut i: usize = 0;
        while i < n
            invariant
                i <= n,
                n == prices@.len(),
                n <= growth@.len(),
                next@.len() == i as int,
                forall|k: int|
                    0 <= k < i ==> next@[k] == fx_mul(prices@[k] as int, growth@[k] as int) as i64,
            decreases n - i,
        {
            next.push(mul_scale(prices[i], growth[i]));
            i = i + 1;
        }
        proof {
            assert(next@ =~= step_prices(before, growth@));
            assert(dv.subrange(0, s as int + 1).drop_last() =~= dv.subrange(0, s as int));
            assert(dv.subrange(0, s as int + 1).last() == dv[s as int]);
            assert(step_prices(before, dv[s as int]) =~= step_prices(before, growth@));
        }
        prices = next;
        if let Some(b) = barrier {
            let current = calculate_reference(&prices, &b.underlying_indices, b.barrier_type);
            let crossed_now = if b.up_down {
                current >= level
            } else {
                current <= level
            };
            if crossed_now {
                hit = true;
            }
            proof {
                assert(hit_at(spots@, dv.subrange(0, s as int + 1), *b, level as int)
                    == crossed_now);
            }
        }
        s = s + 1;
    }
    proof {
        assert(dv.subrange(0, dv.len() as int) =~= dv);
    }
    let terminal = prices[0];
    let diff: i128 = if is_call {
        (terminal as i128) - (strike_price as i128)
    } else {
        (strike_price as i128) - (terminal as i128)
    };
    let pay: i64 = if diff > 0 {
        sat_to_i64(diff)
    } else {
        0
    };
    match barrier {
        None => pay,
        Some(b) => {
            if b.in_out {
                if hit {
                    pay
                } else {
                    0
                }
            } else {
                if hit {
                    0
                } else {
                    pay
                }
            }
        },
    }
}

/// A valid pricing call never returns a negative price: every gated payoff is
/// non-negative, and so are their average and the discounted average.
pub proof fn lemma_price_non_negative(
    spots: Seq<i64>,
    paths: Seq<Seq<Seq<i64>>>,
    strike: i64,
    is_call: bool,
    discount: i64,
    b: Option<Barrier>,
)
    requires
        paths.len() > 0,
        discount >= 0,
    ensures
        0 <= spec_price(spots, paths, strike, is_call, discount, b),
{
    let total = total_payoff(spots, paths, strike, is_call, b);
    lemma_total_payoff_range(spots, paths, strike, is_call, b);
    lemma_div_trunc_bounds(total, paths.len() as int);
    let avg = div_trunc(total, paths.len() as int);
    lemma_mul_nonnegative(avg, discount as int);
    lemma_div_trunc_bounds(avg * discount, crate::arith::SCALE as int);
}

/// Estimates the present value of a European option by Monte Carlo
/// simulation over the supplied growth factors.
///
/// `growth_paths` holds, for every path, for every time step, one fixed-point
/// growth factor per underlying; `num_steps` says how many steps each path
/// must hold. `discount_factor` is the fixed-point present-value factor for
/// the whole horizon. The payoff is always taken from the first underlying's
/// terminal price, even when several underlyings drive the barrier.
///
/// Configuration faults are reported eagerly, before any path is read, and
/// are distinct from a valid price of zero.
pub fn price_option(
    underlyings: &Vec<Underlying>,
    growth_paths: &Vec<Vec<Vec<i64>>>,
    time_horizon_days: u32,
    strike_price: i64,
    is_call: bool,
    discount_factor: i64,
    barrier: Option<&Barrier>,
) -> (r: Result<i64, PricingError>)
    requires
        discount_factor >= 0,
    ensures
        r is Ok <==> spec_validate(
            underlyings@,
            growth_paths.deep_view(),
            time_horizon_days,
            opt_barrier(barrier),
        ) is None,
        r matches Err(e) ==> spec_validate(
            underlyings@,
            growth_paths.deep_view(),
            time_horizon_days,
            opt_barrier(barrier),
        ) == Some(e),
        r matches Ok(price) ==> {
            &&& price as int == spec_price(
                spots_of(underlyings@),
                growth_paths.deep_view(),
                strike_price,
                is_call,
                discount_factor,
                opt_barrier(barrier),
            )
            &&& 0 <= price
        },
{
    let ghost dv = growth_paths.deep_view();
    let ghost ob = opt_barrier(barrier);
    let n = underlyings.len();
    if n == 0 {
        return Err(PricingError::NoUnderlyings);
    }
    if let Some(b) = barrier {
        if b.underlying_indices.len() == 0 {
            return Err(PricingError::InvalidBarrierIndices);
        }
        let mut k: usize = 0;
        while k < b.underlying_indices.len()
            invariant
                k <= b.underlying_indices@.len(),
                forall|q: int| 0 <= q < k ==> (#[trigger] b.underlying_indices@[q]) < n,
                n as int == underlyings@.len(),
                n >= 1,
                barrier == Some(b),
                ob == opt_barrier(barrier),
                dv == growth_paths.deep_view(),
                b.underlying_indices@.len() > 0,
            decreases b.underlying_indices@.len() - k,
        {
            if b.underlying_indices[k] >= n {
                proof {
                    assert(!indices_ok(b.underlying_indices@, n as int)) by {
                        assert(b.underlying_indices@[k as int] >= n);
                    }
                }
                return Err(PricingError::InvalidBarrierIndices);
            }
            k = k + 1;
        }
        proof {
            assert(indices_ok(b.underlying_indices@, n as int));
        }
    }
    let steps_needed = num_steps(time_horizon_days, barrier.is_some());
    if growth_paths.len() == 0 {
        return Err(PricingError::NoPaths);
    }
    let count = growth_paths.len();
    let mut p: usize = 0;
    while p < count
        invariant
            p <= count,
            count == growth_paths@.len(),
            count >= 1,
            dv == growth_paths.deep_view(),
            dv.len() == count,
            ob == opt_barrier(barrier),
            steps_needed as int == spec_num_steps(time_horizon_days, ob is Some),
            n as int == underlyings@.len(),
            n >= 1,
            barrier_indices_ok(ob, n as int),
            valid_dimensions(n as int, steps_needed as int, dv.subrange(0, p as int)),
        decreases count - p,
    {
        let path = &growth_paths[p];
        proof {
            assert(dv[p as int] =~= path.deep_view());
        }
        if path.len() != steps_needed as usize {
            proof {
                assert(!valid_dimensions(n as int, steps_needed as int, dv)) by {
                    assert(dv[p as int].len() != steps_needed as int);
                }
            }
            return Err(PricingError::DimensionMismatch);
        }
        let mut t: usize = 0;
        while t < path.len()
            invariant
                t <= path@.len(),
                dv == growth_paths.deep_view(),
                dv.len() == growth_paths@.len(),
                dv.len() >= 1,
                0 <= p < dv.len(),
                dv[p as int] == path.deep_view(),
                path.deep_view().len() == path@.len(),
                ob == opt_barrier(barrier),
                steps_needed as int == spec_num_steps(time_horizon_days, ob is Some),
                n as int == underlyings@.len(),
                n >= 1,
                barrier_indices_ok(ob, n as int),
                forall|u: int| 0 <= u < t ==> (#[trigger] dv[p as int][u]).len() == n as int,
            decreases path@.len() - t,
        {
            proof {
                assert(dv[p as int][t as int] =~= path@[t as int]@);
            }
            if path[t].len() != n {
                proof {
                    assert(!valid_dimensions(n as int, steps_needed as int, dv)) by {
                        assert(dv[p as int][t as int].len() != n as int);
                    }
                }
                return Err(PricingError::DimensionMismatch);
            }
            t = t + 1;
        }
        proof {
            assert(dv.subrange(0, p as int + 1).drop_last() =~= dv.subrange(0, p as int));
            assert(valid_dimensions(n as int, steps_needed as int, dv.subrange(0, p as int + 1)));
        }
        p = p + 1;
    }
    proof {
        assert(dv.subrange(0, count as int) =~= dv);
        assert(valid_dimensions(n as int, steps_needed as int, dv));
    }
    let mut spots: Vec<i64> = Vec::new();
    let mut j: usize = 0;
    while j < n
        invariant
            j <= n,
            n == underlyings@.len(),
            spots@.len() == j as int,
            forall|q: int| 0 <= q < j ==> spots@[q] == underlyings@[q].spot_price,
        decreases n - j,
    {
        spots.push(underlyings[j].spot_price);
        j = j + 1;
    }
    proof {
        assert(spots@ =~= spots_of(underlyings@));
    }
    let level: i64 = if let Some(b) = barrier {
        if b.relative {
            let reference = calculate_reference(&spots, &b.underlying_indices, b.barrier_type);
            mul_scale(reference, b.barrier_level)
        } else {
            b.barrier_level
        }
    } else {
        0
    };
    let mut total: u128 = 0;
    let mut p2: usize = 0;
    while p2 < count
        invariant
            p2 <= count,
            count == growth_paths@.len(),
            count >= 1,
            dv == growth_paths.deep_view(),
            dv.len() == count,
            ob == opt_barrier(barrier),
            n as int == underlyings@.len(),
            n >= 1,
            spots@ == spots_of(underlyings@),
            spots@.len() == n as int,
            valid_dimensions(n as int, steps_needed as int, dv),
            barrier matches Some(b) ==> {
                &&& b.underlying_indices@.len() > 0
                &&& indices_ok(b.underlying_indices@, n as int)
                &&& level as int == effective_level(spots@, *b)
            },
            total as int == total_payoff(spots@, dv.subrange(0, p2 as int), strike_price,
                is_call, ob),
            total as int <= (i64::MAX as int) * (p2 as int),
        decreases count - p2,
    {
        let path = &growth_paths[p2];
        proof {
            assert(dv[p2 as int] =~= path.deep_view());
            assert(dv.subrange(0, p2 as int + 1).drop_last() =~= dv.subrange(0, p2 as int));
            assert(dv.subrange(0, p2 as int + 1).last() == dv[p2 as int]);
        }
        let pay = path_value(&spots, path, strike_price, is_call, barrier, level);
        proof {
            lemma_path_payoff_range(spots@, dv[p2 as int], strike_price, is_call, ob);
        }
        total = total + (pay as u128);
        p2 = p2 + 1;
    }
    proof {
        assert(dv.subrange(0, count as int) =~= dv);
        lemma_div_trunc_upper(total as int, count as int, i64::MAX as int);
        lemma_div_trunc_bounds(total as int, count as int);
    }
    let avg128: u128 = total / (count as u128);
    let avg: i64 = avg128 as i64;
    let price = mul_scale(avg, discount_factor);
    proof {
        lemma_price_non_negative(spots@, dv, strike_price, is_call, discount_factor, ob);
    }
    Ok(price)
}

} // verus!
