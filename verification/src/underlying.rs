//! The underlying asset record referenced by a pricing call.

use vstd::prelude::*;

verus! {

/// An underlying asset. `spot_price` and `volatility` are fixed-point numbers
/// scaled by `SCALE` (a volatility of 20% a year is `SCALE / 5`).
#[derive(Debug, Clone)]
pub struct Underlying {
    /// Name of the underlying asset.
    pub name: String,
    /// Current spot price.
    pub spot_price: i64,
    /// Annualized volatility, as a fixed-point decimal fraction.
    pub volatility: i64,
}

impl Underlying {
    /// Creates a new underlying asset.
    pub fn new(name: String, spot_price: i64, volatility: i64) -> (r: Underlying)
        ensures
            r.name@ == name@,
            r.spot_price == spot_price,
            r.volatility == volatility,
    {
        Underlying { name, spot_price, volatility }
    }
}

} // verus!
