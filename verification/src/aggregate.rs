//! Collapsing the monitored underlyings' prices into one scalar value.

use vstd::prelude::*;
use vstd::relations::{sorted_by, total_ordering};
use vstd::seq_lib::lemma_sorted_unique;
use vstd::seq_lib::group_to_multiset_ensures;
use vstd::multiset::group_multiset_axioms;
use crate::arith::{div_trunc, fx_mid, mid_pair, div_signed, lemma_div_trunc_bounds,
    lemma_div_trunc_upper};
use crate::barrier::BarrierType;

verus! {

/// Sum of a sequence of prices.
pub open spec fn seq_sum(s: Seq<i64>) -> int
    decreases s.len(),
{
    if s.len() == 0 {
        0
    } else {
        seq_sum(s.drop_last()) + s.last()
    }
}

/// Minimum of a non-empty sequence of prices.
pub open spec fn seq_min(s: Seq<i64>) -> int
    recommends
        s.len() > 0,
    decreases s.len(),
{
    if s.len() <= 1 {
        s[0] as int
    } else {
        let m = seq_min(s.drop_last());
        if (s.last() as int) < m {
            s.last() as int
        } else {
            m
        }
    }
}

/// Maximum of a non-empty sequence of prices.
pub open spec fn seq_max(s: Seq<i64>) -> int
    recommends
        s.len() > 0,
    decreases s.len(),
{
    if s.len() <= 1 {
        s[0] as int
    } else {
        let m = seq_max(s.drop_last());
        if (s.last() as int) > m {
            s.last() as int
        } else {
            m
        }
    }
}

/// The ascending order on prices.
pub open spec fn price_le() -> spec_fn(i64, i64) -> bool {
    |x: i64, y: i64| x <= y
}

/// The same prices, re-ordered ascendingly.
pub open spec fn sorted_asc(s: Seq<i64>) -> Seq<i64> {
    s.sort_by(price_le())
}

/// Median of a non-empty sequence of prices: the middle value of the sorted
/// sequence when its length is odd, the midpoint of the two middle values
/// when it is even.
pub open spec fn seq_median(s: Seq<i64>) -> int
    recommends
        s.len() > 0,
{
    let t = sorted_asc(s);
    let mid = s.len() as int / 2;
    if s.len() % 2 == 1 {
        t[mid] as int
    } else {
        fx_mid(t[mid - 1] as int, t[mid] as int)
    }
}

/// The prices of the monitored underlyings, in the order the barrier lists
/// them.
pub open spec fn selected(prices: Seq<i64>, indices: Seq<usize>) -> Seq<i64> {
    Seq::new(indices.len(), |k: int| prices[indices[k] as int])
}

/// Whether every index points into a price list of length `n`.
pub open spec fn indices_ok(indices: Seq<usize>, n: int) -> bool {
    forall|k: int| 0 <= k < indices.len() ==> (#[trigger] indices[k]) < n
}

/// The monitored scalar: the prices at `indices`, collapsed according to the
/// aggregation rule.
pub open spec fn spec_reference(
    prices: Seq<i64>,
    indices: Seq<usize>,
    barrier_type: BarrierType,
) -> int
    recommends
        indices.len() > 0,
        indices_ok(indices, prices.len() as int),
{
    let v = selected(prices, indices);
    match barrier_type {
        BarrierType::WorstOf => seq_min(v),
        BarrierType::BestOf => seq_max(v),
        BarrierType::Average => div_trunc(seq_sum(v), v.len() as int),
        BarrierType::Median => seq_median(v),
    }
}

/// The ascending order on prices is a total order.
pub proof fn lemma_price_le_total()
    ensures
        total_ordering(price_le()),
{
    let leq = price_le();
    assert forall|x: i64| #[trigger] leq(x, x) by {}
    assert forall|x: i64, y: i64| #[trigger] leq(x, y) && #[trigger] leq(y, x) implies x == y by {}
    assert forall|x: i64, y: i64, z: i64|
        #[trigger] leq(x, y) && #[trigger] leq(y, z) implies leq(x, z) by {}
    assert forall|x: i64, y: i64| #[trigger] leq(x, y) || #[trigger] leq(y, x) by {}
}

/// A sequence that is sorted ascendingly and has the same elements as `s` is
/// exactly `sorted_asc(s)`.
pub proof fn lemma_is_sorted_asc(s: Seq<i64>, t: Seq<i64>)
    requires
        sorted_by(t, price_le()),
        s.to_multiset() == t.to_multiset(),
    ensures
        t == sorted_asc(s),
{
    lemma_price_le_total();
    s.lemma_sort_by_ensures(price_le());
    lemma_sorted_unique(t, s.sort_by(price_le()), price_le());
}

/// The sum of `n` prices lies between `n` times the smallest and `n` times
/// the largest `i64` value.
pub proof fn lemma_seq_sum_bounds(s: Seq<i64>)
    ensures
        (s.len() as int) * (i64::MIN as int) <= seq_sum(s) <= (s.len() as int) * (i64::MAX as int),
    decreases s.len(),
{
    if s.len() > 0 {
        lemma_seq_sum_bounds(s.drop_last());
    }
}

/// The average of a non-empty sequence of prices fits in `i64`.
pub proof fn lemma_avg_in_range(s: Seq<i64>)
    requires
        s.len() > 0,
    ensures
        i64::MIN as int <= div_trunc(seq_sum(s), s.len() as int) <= i64::MAX as int,
{
    let n = s.len() as int;
    let total = seq_sum(s);
    lemma_seq_sum_bounds(s);
    lemma_div_trunc_bounds(total, n);
    lemma_div_trunc_upper(total, n, i64::MAX as int);
    if total < 0 {
        lemma_div_trunc_upper(-total, n, 0x8000_0000_0000_0000int);
    }
}

/// The median of an even number of prices is the midpoint of the two central
/// values of the ascending re-ordering; the median of an odd number of prices
/// is the single central value.
pub proof fn lemma_median_central(s: Seq<i64>)
    requires
        s.len() > 0,
    ensures
        s.len() % 2 == 0 ==> seq_median(s) == fx_mid(
            sorted_asc(s)[s.len() as int / 2 - 1] as int,
            sorted_asc(s)[s.len() as int / 2] as int,
        ),
        s.len() % 2 == 1 ==> seq_median(s) == sorted_asc(s)[s.len() as int / 2] as int,
{
}

/// Sorts the vector ascendingly, by insertion.
pub fn sort_values(v: &mut Vec<i64>)
    ensures
        final(v)@ == sorted_asc(old(v)@),
{
    broadcast use group_to_multiset_ensures;
    broadcast use group_multiset_axioms;

    if v.len() < 2 {
        proof {
            lemma_is_sorted_asc(v@, v@);
        }
        return;
    }
    let mut i: usize = 1;
    while i < v.len()
        invariant
            1 <= i <= v@.len(),
            v@.len() == old(v)@.len(),
            v@.to_multiset() == old(v)@.to_multiset(),
            sorted_by(v@.subrange(0, i as int), price_le()),
        decreases v@.len() - i,
    {
        let ghost prev = v@;
        let x = v.remove(i);
        let ghost w = v@;
        proof {
            assert(w =~= prev.subrange(0, i as int) + prev.subrange(
                i as int + 1,
                prev.len() as int,
            ));
            assert(forall|k: int| 0 <= k < i ==> w[k] == prev[k]);
        }
        let mut j: usize = 0;
        while j < i && v[j] <= x
            invariant
                j <= i,
                i < w.len() + 1,
                v@ == w,
                forall|k: int| 0 <= k < j ==> (#[trigger] w[k]) <= x,
            decreases i - j,
        {
            j = j + 1;
        }
        v.insert(j, x);
        proof {
            broadcast use group_multiset_axioms;

            assert(v@ =~= w.insert(j as int, x));
            assert(w == prev.remove(i as int));
            vstd::seq_lib::to_multiset_remove(prev, i as int);
            vstd::seq_lib::to_multiset_insert(w, j as int, x);
            vstd::seq_lib::to_multiset_contains(prev, x);
            assert(prev.contains(x)) by {
                assert(prev[i as int] == x);
            }
            assert(v@.to_multiset() =~= prev.to_multiset());
            let leq = price_le();
            assert forall|a: int, b: int|
                0 <= a < b < i + 1 implies #[trigger] leq(v@[a], v@[b]) by {
                assert(sorted_by(prev.subrange(0, i as int), leq));
                if b < j {
                    assert(leq(prev[a], prev[b]));
                } else if a < j && b == j {
                    assert(w[a] <= x);
                } else if a < j && b > j {
                    assert(leq(prev[a], prev[b - 1]));
                } else if a == j {
                    if b > j {
                        assert(j < i);
                        assert(!(w[j as int] <= x));
                        assert(leq(prev[j as int], prev[b - 1]));
                    }
                } else {
                    assert(leq(prev[a - 1], prev[b - 1]));
                }
            }
            assert(sorted_by(v@.subrange(0, i as int + 1), leq));
        }
        i = i + 1;
    }
    proof {
        assert(v@.subrange(0, v@.len() as int) =~= v@);
        lemma_is_sorted_asc(old(v)@, v@);
    }
}

/// Computes the monitored scalar for the given aggregation rule over the
/// prices at `indices`.
pub fn calculate_reference(
    prices: &Vec<i64>,
    indices: &Vec<usize>,
    barrier_type: BarrierType,
) -> (r: i64)
    requires
        indices@.len() > 0,
        indices_ok(indices@, prices@.len() as int),
    ensures
        r as int == spec_reference(prices@, indices@, barrier_type),
{
    match barrier_type {
        BarrierType::WorstOf => {
            let mut m: i64 = prices[indices[0]];
            proof {
                assert(selected(prices@, indices@.subrange(0, 1)) =~= seq![prices@[indices@[0] as int]]);
            }
            let mut k: usize = 1;
            while k < indices.len()
                invariant
                    1 <= k <= indices@.len(),
                    indices_ok(indices@, prices@.len() as int),
                    m as int == seq_min(selected(prices@, indices@.subrange(0, k as int))),
                decreases indices@.len() - k,
            {
                proof {
                    assert(selected(prices@, indices@.subrange(0, k as int + 1)).drop_last()
                        =~= selected(prices@, indices@.subrange(0, k as int)));
                }
                let val = prices[indices[k]];
                if val < m {
                    m = val;
                }
                k = k + 1;
            }
            proof {
                assert(indices@.subrange(0, indices@.len() as int) =~= indices@);
            }
            m
        },
        BarrierType::BestOf => {
            let mut m: i64 = prices[indices[0]];
            proof {
                assert(selected(prices@, indices@.subrange(0, 1)) =~= seq![prices@[indices@[0] as int]]);
            }
            let mut k: usize = 1;
            while k < indices.len()
                invariant
                    1 <= k <= indices@.len(),
                    indices_ok(indices@, prices@.len() as int),
                    m as int == seq_max(selected(prices@, indices@.subrange(0, k as int))),
                decreases indices@.len() - k,
            {
                proof {
                    assert(selected(prices@, indices@.subrange(0, k as int + 1)).drop_last()
                        =~= selected(prices@, indices@.subrange(0, k as int)));
                }
                let val = prices[indices[k]];
                if val > m {
                    m = val;
                }
                k = k + 1;
            }
            proof {
                assert(indices@.subrange(0, indices@.len() as int) =~= indices@);
            }
            m
        },
        BarrierType::Average => {
            let mut total: i128 = 0;
            let mut k: usize = 0;
            proof {
                assert(selected(prices@, indices@.subrange(0, 0)) =~= Seq::<i64>::empty());
            }
            while k < indices.len()
                invariant
                    k <= indices@.len(),
                    indices_ok(indices@, prices@.len() as int),
                    total as int == seq_sum(selected(prices@, indices@.subrange(0, k as int))),
                    (k as int) * (i64::MIN as int) <= total as int
                        <= (k as int) * (i64::MAX as int),
                decreases indices@.len() - k,
            {
                proof {
                    assert(selected(prices@, indices@.subrange(0, k as int + 1)).drop_last()
                        =~= selected(prices@, indices@.subrange(0, k as int)));
                }
                let val = prices[indices[k]];
                total = total + (val as i128);
                k = k + 1;
            }
            proof {
                assert(indices@.subrange(0, indices@.len() as int) =~= indices@);
                lemma_avg_in_range(selected(prices@, indices@));
            }
            let avg = div_signed(total, indices.len() as u128);
            avg as i64
        },
        BarrierType::Median => {
            let mut vals: Vec<i64> = Vec::new();
            let mut k: usize = 0;
            while k < indices.len()
                invariant
                    k <= indices@.len(),
                    indices_ok(indices@, prices@.len() as int),
                    vals@ == selected(prices@, indices@.subrange(0, k as int)),
                decreases indices@.len() - k,
            {
                let val = prices[indices[k]];
                vals.push(val);
                proof {
                    assert(vals@ =~= selected(prices@, indices@.subrange(0, k as int + 1)));
                }
                k = k + 1;
            }
            proof {
                assert(indices@.subrange(0, indices@.len() as int) =~= indices@);
                assert(vals@ == selected(prices@, indices@));
            }
            sort_values(&mut vals);
            proof {
                broadcast use group_to_multiset_ensures;

                lemma_price_le_total();
                selected(prices@, indices@).lemma_sort_by_ensures(price_le());
                assert(vals@.to_multiset().len() == vals@.len());
                assert(vals@.len() == indices@.len());
            }
            let mid = vals.len() / 2;
            if vals.len() % 2 == 1 {
                vals[mid]
            } else {
                mid_pair(vals[mid - 1], vals[mid])
            }
        },
    }
}

} // verus!
