//! Barrier configuration for barrier options.

use vstd::prelude::*;

verus! {

/// How the monitored prices of several underlyings are collapsed into the one
/// scalar that is compared against the barrier level.
#[derive(Debug, Clone, Copy, PartialEq, Eq, Structural)]
pub enum BarrierType {
    /// The barrier watches the worst performing underlying.
    WorstOf,
    /// The barrier watches the best performing underlying.
    BestOf,
    /// The barrier watches the arithmetic mean of the underlyings.
    Average,
    /// The barrier watches the median of the underlyings.
    Median,
}

/// A barrier for barrier options.
#[derive(Debug, Clone)]
pub struct Barrier {
    /// Barrier level: an absolute fixed-point price, or a fixed-point
    /// multiplier of the initial reference when `relative` is true.
    pub barrier_level: i64,
    /// `true` for an "in" barrier (the option only has value if the barrier
    /// was hit), `false` for an "out" barrier (value only if it was not hit).
    pub in_out: bool,
    /// `true` for an "up" barrier (hit when the monitored value rises to or
    /// above the level), `false` for a "down" barrier (hit when it falls to
    /// or below the level).
    pub up_down: bool,
    /// How several underlyings are aggregated for monitoring.
    pub barrier_type: BarrierType,
    /// `true` if `barrier_level` multiplies the initial reference value,
    /// `false` if it is an absolute level.
    pub relative: bool,
    /// Indices into the list of underlyings that this barrier monitors.
    pub underlying_indices: Vec<usize>,
}

/// Error returned when a barrier configuration is rejected.
#[derive(Debug, Clone)]
pub struct BarrierError {
    message: String,
}

impl BarrierError {
    /// The description of the rejected configuration, as a sequence of
    /// characters.
    pub closed spec fn text(&self) -> Seq<char> {
        self.message@
    }

    /// The human-readable description of the rejected configuration.
    pub fn message(&self) -> (r: String)
        ensures
            r@ == self.text(),
    {
        self.message.clone()
    }
}

impl Barrier {
    /// Creates a new barrier for a single underlying: it always monitors the
    /// underlying at index 0, and its aggregation defaults to `WorstOf`
    /// (degenerate over one value).
    pub fn new(barrier_level: i64, in_out: bool, up_down: bool, relative: bool) -> (r: Barrier)
        ensures
            r.barrier_level == barrier_level,
            r.in_out == in_out,
            r.up_down == up_down,
            r.relative == relative,
            r.barrier_type == BarrierType::WorstOf,
            r.underlying_indices@ == seq![0usize],
    {
        let indices: Vec<usize> = vec![0];
        proof {
            assert(indices@ =~= seq![0usize]);
        }
        Barrier {
            barrier_level,
            in_out,
            up_down,
            barrier_type: BarrierType::WorstOf,
            relative,
            underlying_indices: indices,
        }
    }

    /// Creates a new barrier over several underlyings. An absolute level is
    /// meaningless across assets with different spot prices, so a
    /// configuration that monitors more than one underlying must be relative;
    /// every other combination of the parameters is accepted.
    pub fn new_multi(
        barrier_level: i64,
        in_out: bool,
        up_down: bool,
        barrier_type: BarrierType,
        relative: bool,
        underlying_indices: Vec<usize>,
    ) -> (r: Result<Barrier, BarrierError>)
        ensures
            r is Err <==> underlying_indices@.len() > 1 && !relative,
            r matches Ok(b) ==> {
                &&& b.barrier_level == barrier_level
                &&& b.in_out == in_out
                &&& b.up_down == up_down
                &&& b.barrier_type == barrier_type
                &&& b.relative == relative
                &&& b.underlying_indices@ == underlying_indices@
            },
    {
        if underlying_indices.len() > 1 && !relative {
            return Err(BarrierError {
                message:
                    "cannot use an absolute barrier level with several underlyings; use a relative level".to_owned(),
            });
        }
        Ok(Barrier {
            barrier_level,
            in_out,
            up_down,
            barrier_type,
            relative,
            underlying_indices,
        })
    }
}

} // verus!
