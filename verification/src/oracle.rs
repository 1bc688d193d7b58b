//! The exact reference answerer: a sorted copy of every observation.
//!
//! The oracle is built once from a finished sequence and then answers exact
//! quantile and rank queries by indexing into the sorted copy. It exists to
//! validate a digest's approximate answers; the digest never consults it.

use vstd::prelude::*;
use vstd::arithmetic::div_mod::{lemma_div_is_ordered, lemma_div_multiples_vanish, lemma_div_pos_is_pos};
use crate::centroid::lemma_mul_le;
use crate::compact::lemma_mul_bounds;
use crate::sorting::{lemma_sort_values_props, sort_values, sort_values_spec};
use crate::Frac;

verus! {

/// The index that the exact quantile `qn / qd` selects in a sorted run of
/// `len` observations: the last one at or above the whole range, otherwise
/// the floor of `q * (len - 1)`.
pub open spec fn oracle_index(len: int, qn: int, qd: int) -> int {
    if qn >= qd {
        len - 1
    } else {
        (qn * (len - 1)) / qd
    }
}

/// An exact quantile/rank answerer over a sorted copy of the observations.
pub struct Oracle {
    /// The observations, sorted ascending. Read-only after construction.
    pub values: Vec<i64>,
}

impl Oracle {
    /// The sorted copy really is sorted.
    pub open spec fn wf(&self) -> bool {
        forall|i: int, j: int|
            0 <= i < j < self.values@.len() ==> #[trigger] self.values@[i] <= #[trigger] self.values@[j]
    }

    /// Builds the oracle by sorting the observations ascending.
    pub fn new(values: Vec<i64>) -> (o: Oracle)
        ensures
            o.wf(),
            o.values@ == sort_values_spec(values@),
            o.values@.len() == values@.len(),
    {
        let ghost orig = values@;
        let mut sorted_values = values;
        sort_values(&mut sorted_values);
        proof {
            lemma_sort_values_props(orig);
        }
        Oracle { values: sorted_values }
    }

    /// The exact value at quantile `qn / qd`: clamped to the extremes, and
    /// in between the value at index `floor(qn * (len - 1) / qd)`.
    pub fn quantile(&self, qn: u64, qd: u64) -> (r: i64)
        requires
            self.wf(),
            self.values@.len() >= 1,
            1 <= qd,
        ensures
            r == self.values@[oracle_index(self.values@.len() as int, qn as int, qd as int)],
    {
        let n = self.values.len();
        if qn >= qd {
            return self.values[n - 1];
        }
        proof {
            lemma_mul_le(qn as int, qd as int, n as int - 1);
            lemma_div_is_ordered(
                (qn as int) * (n as int - 1),
                (qd as int) * (n as int - 1),
                qd as int,
            );
            lemma_div_multiples_vanish(n as int - 1, qd as int);
            lemma_div_pos_is_pos((qn as int) * (n as int - 1), qd as int);
            lemma_mul_bounds(qn as int, n as int - 1, 0xffffffffffffffff, 0xffffffffffffffff);
        }
        let idx: u128 = ((qn as u128) * ((n as u128) - 1)) / (qd as u128);
        self.values[idx as usize]
    }

    /// Where `x` would sit in the sorted observations, as a fraction of the
    /// index range: the smallest index whose value is at or above `x`,
    /// divided by `len - 1`. Needs at least two observations so the
    /// denominator is positive.
    pub fn rank(&self, x: i64) -> (r: Frac)
        requires
            self.wf(),
            self.values@.len() >= 2,
        ensures
            r@.den == self.values@.len() - 1,
            0 <= r@.num <= self.values@.len(),
            forall|j: int| 0 <= j < r@.num ==> self.values@[j] < x,
            r@.num < self.values@.len() ==> self.values@[r@.num] >= x,
    {
        let n = self.values.len();
        let mut lo: usize = 0;
        let mut hi: usize = n;
        while lo < hi
            invariant
                self.wf(),
                0 <= lo <= hi <= n,
                n == self.values@.len(),
                forall|j: int| 0 <= j < lo ==> self.values@[j] < x,
                forall|j: int| hi <= j < n ==> self.values@[j] >= x,
            decreases hi - lo,
        {
            let mid = lo + (hi - lo) / 2;
            if self.values[mid] < x {
                proof {
                    assert forall|j: int| 0 <= j < mid + 1 implies self.values@[j] < x by {
                        if j < mid as int {
                            assert(self.values@[j] <= self.values@[mid as int]);
                        }
                    }
                }
                lo = mid + 1;
            } else {
                proof {
                    assert forall|j: int| mid <= j < n implies self.values@[j] >= x by {
                        if j > mid as int {
                            assert(self.values@[mid as int] <= self.values@[j]);
                        }
                    }
                }
                hi = mid;
            }
        }
        Frac { num: lo as i128, den: (n - 1) as i128 }
    }
}

} // verus!
