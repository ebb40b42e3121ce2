//! Monte Carlo pricing of European options, vanilla and barrier, over one or
//! more correlated underlyings.
//!
//! All monetary quantities (spot prices, strikes, barrier levels, growth
//! factors, discount factors and resulting prices) are fixed-point numbers:
//! an `i64` counting units of `1 / SCALE`. The valuation engine is exact
//! integer arithmetic over that representation; the caller produces the
//! per-step lognormal growth factors and the discount factor (which require
//! transcendental functions and a random source) and feeds them in.

pub mod aggregate;
pub mod arith;
pub mod barrier;
pub mod pricing;
pub mod underlying;

pub use arith::SCALE;
pub use barrier::{Barrier, BarrierError, BarrierType};
pub use pricing::{price_option, PricingError};
pub use underlying::Underlying;
