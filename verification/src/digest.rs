//! The digest: streaming ingestion, lazy compaction, and quantile queries.
//!
//! A digest owns an append buffer of raw observations and a bounded,
//! mean-sorted array of centroids. `add` appends (flushing when the buffer
//! is full); `estimate` flushes and then interpolates along the centroids.
//! Both operations are pinned to deterministic models over the views, so a
//! caller knows exactly which centroids a flush produces and exactly which
//! fraction a query returns.

use vstd::prelude::*;
use crate::centroid::{
    bounded_cent, bounded_cents, cents, lemma_cent_sum_bound, lemma_element_weight_le_sum,
    lemma_mul_bounds_signed,
    lemma_mul_ge1, lemma_mul_le, lemma_sorted_means_pairwise, lemma_weight_sum_from_len,
    lemma_weight_sum_from_nonneg, mean_le, means_in_range, sorted_means, sum_sum, sum_sum_from,
    weight_sum, weight_sum_from, weights_pos, Centroid, CentroidView,
};
use crate::compact::{
    compact_model, lemma_compact_len2, lemma_merge_from_props, lemma_mul_bounds,
    lemma_walk_props, merge_from,
};
use crate::compact::{compact_centroids, merge_centroids};
use crate::sorting::{
    int_sum, int_sum_from, lemma_sort_preserves_sum, lemma_sort_values_props, sort_values,
    sort_values_spec,
};
use crate::Estimator;
use crate::Frac;
use crate::FracView;
use crate::MAX_ABS_VALUE;
use crate::MAX_COMPRESSION;
use crate::MAX_QUANTILE_DEN;
use crate::MAX_TOTAL_WEIGHT;

verus! {

/// One single-observation centroid per raw value.
pub open spec fn singletons(s: Seq<i64>) -> Seq<CentroidView> {
    s.map_values(|x: i64| CentroidView { sum: x as int, weight: 1 })
}

/// What a flush leaves in the centroid array: with an empty buffer nothing
/// changes; otherwise the buffered points are sorted, turned into
/// singletons, merged into the existing sorted centroids, and the combined
/// run is compacted.
pub open spec fn flush_model(comp: int, cs: Seq<CentroidView>, buf: Seq<i64>) -> Seq<
    CentroidView,
> {
    if buf.len() == 0 {
        cs
    } else {
        compact_model(
            comp,
            weight_sum(cs) + buf.len(),
            merge_from(cs, singletons(sort_values_spec(buf)), 0, 0),
        )
    }
}

/// The streaming approximate-quantile digest.
pub struct TDigest {
    /// Fidelity parameter: more compression means more centroids.
    pub compression: u64,
    /// Buffered observations that force a flush when reached.
    pub max_size: usize,
    /// Smallest observation ever added (0 before the first).
    pub min: i64,
    /// Largest observation ever added (0 before the first).
    pub max: i64,
    /// The compacted summary, sorted ascending by mean.
    pub centroids: Vec<Centroid>,
    /// Sum of the weights of everything flushed into `centroids`.
    pub total_weight: u64,
    /// Observations not yet folded into the summary.
    pub buffer: Vec<i64>,
}

impl TDigest {
    /// How many observations this digest has ingested, flushed or not.
    pub open spec fn observed(&self) -> int {
        self.total_weight + self.buffer@.len()
    }

    /// The digest's invariant: parameters in range, centroid weights exact
    /// and positive, centroids sorted ascending by mean, every mean and
    /// every buffered point between `min` and `max`, and degenerate shapes
    /// pinned (a single centroid can only be a single observation).
    pub open spec fn wf(&self) -> bool {
        let cs = cents(self.centroids@);
        &&& 1 <= self.compression <= MAX_COMPRESSION
        &&& 1 <= self.max_size
        &&& self.observed() <= MAX_TOTAL_WEIGHT
        &&& weight_sum(cs) == self.total_weight
        &&& bounded_cents(cs)
        &&& sorted_means(cs)
        &&& self.observed() > 0 ==> (-MAX_ABS_VALUE <= self.min && self.min <= self.max
            && self.max <= MAX_ABS_VALUE)
        &&& means_in_range(cs, self.min as int, self.max as int)
        &&& forall|i: int|
            0 <= i < self.buffer@.len() ==> self.min <= #[trigger] self.buffer@[i] <= self.max
        &&& self.total_weight == 0 ==> self.centroids@.len() == 0
        &&& (self.buffer@.len() == 0 && self.centroids@.len() == 1) ==> (self.total_weight == 1
            && cs[0].sum == self.min && self.min == self.max)
        &&& self.observed() == 1 ==> self.min == self.max
        &&& self.observed() == 0 ==> (self.min == 0 && self.max == 0)
    }

    /// Creates an empty digest with the given compression and buffer bound.
    pub fn new(compression: u64, max_size: usize) -> (d: TDigest)
        requires
            1 <= compression <= MAX_COMPRESSION,
            1 <= max_size,
        ensures
            d.wf(),
            d.compression == compression,
            d.max_size == max_size,
            d.observed() == 0,
            d.centroids@.len() == 0,
            d.buffer@.len() == 0,
            d.total_weight == 0,
    {
        let d = TDigest {
            compression,
            max_size,
            min: 0,
            max: 0,
            centroids: Vec::new(),
            total_weight: 0,
            buffer: Vec::new(),
        };
        proof {
            assert(cents(d.centroids@) =~= Seq::<CentroidView>::empty());
        }
        d
    }

    /// Folds every buffered observation into the centroid array. The new
    /// array is pinned to [`flush_model`]; an empty buffer changes nothing.
    pub fn flush_buffer(&mut self)
        requires
            old(self).wf(),
        ensures
            final(self).wf(),
            final(self).compression == old(self).compression,
            final(self).max_size == old(self).max_size,
            final(self).min == old(self).min,
            final(self).max == old(self).max,
            final(self).buffer@.len() == 0,
            final(self).total_weight as int == old(self).observed(),
            final(self).observed() == old(self).observed(),
            cents(final(self).centroids@) == flush_model(
                old(self).compression as int,
                cents(old(self).centroids@),
                old(self).buffer@,
            ),
            sum_sum(cents(final(self).centroids@)) == sum_sum(cents(old(self).centroids@))
                + int_sum(old(self).buffer@),
            old(self).buffer@.len() == 0 ==> *final(self) == *old(self),
    {
        if self.buffer.len() == 0 {
            return ;
        }
        let ghost pre = *old(self);
        sort_values(&mut self.buffer);
        proof {
            lemma_sort_values_props(pre.buffer@);
        }
        let mut singles: Vec<Centroid> = Vec::new();
        let mut k: usize = 0;
        while k < self.buffer.len()
            invariant
                k <= self.buffer@.len(),
                self.buffer@ == sort_values_spec(pre.buffer@),
                self.centroids@ == pre.centroids@,
                self.total_weight == pre.total_weight,
                self.min == pre.min,
                self.max == pre.max,
                self.compression == pre.compression,
                self.max_size == pre.max_size,
                singles@.len() == k,
                forall|m: int|
                    0 <= m < k ==> #[trigger] singles@[m]@ == (CentroidView {
                        sum: self.buffer@[m] as int,
                        weight: 1 as int,
                    }),
            decreases self.buffer@.len() - k,
        {
            let x = self.buffer[k];
            singles.push(Centroid::single(x));
            k = k + 1;
        }
        proof {
            assert(cents(singles@) =~= singletons(self.buffer@));
        }
        let ghost csold = cents(pre.centroids@);
        let ghost sing = singletons(sort_values_spec(pre.buffer@));
        let ghost lo = pre.min as int;
        let ghost hi = pre.max as int;
        proof {
            // every sorted buffered point keeps the invariant's bounds
            let sv = sort_values_spec(pre.buffer@);
            assert forall|m: int| 0 <= m < sing.len() implies bounded_cent(#[trigger] sing[m])
                && lo * sing[m].weight <= sing[m].sum <= hi * sing[m].weight by {
                let e = sv[m];
                assert(sing[m] == (CentroidView { sum: e as int, weight: 1 as int }));
                assert(pre.buffer@.contains(e));
                let j = choose|j: int| 0 <= j < pre.buffer@.len() && pre.buffer@[j] == e;
                assert(pre.min <= pre.buffer@[j] <= pre.max);
                assert(lo * (1 as int) == lo);
                assert(hi * (1 as int) == hi);
                assert((-MAX_ABS_VALUE) * (1 as int) == -MAX_ABS_VALUE);
                assert(MAX_ABS_VALUE * (1 as int) == MAX_ABS_VALUE);
            }
            assert forall|m: int| 0 <= m && m + 1 < sing.len() implies mean_le(
                #[trigger] sing[m],
                sing[m + 1],
            ) by {
                assert(sing[m] == (CentroidView { sum: sv[m] as int, weight: 1 as int }));
                assert(sing[m + 1] == (CentroidView { sum: sv[m + 1] as int, weight: 1 as int }));
                assert(sv[m] <= sv[m + 1]);
            }
            assert(sorted_means(sing));
            assert(weights_pos(sing));
            lemma_singleton_weight_sum(sort_values_spec(pre.buffer@), 0);
        }
        let new_total: u64 = self.total_weight + (self.buffer.len() as u64);
        proof {
            lemma_merge_from_props(csold, sing, 0, 0, lo, hi);
            lemma_merge_from_props(csold, sing, 0, 0, -(MAX_ABS_VALUE as int), MAX_ABS_VALUE as int);
        }
        let merged_v = merge_centroids(&self.centroids, &singles);
        let ghost m = merge_from(csold, sing, 0, 0);
        proof {
            assert(weight_sum(m) == new_total);
            assert forall|e: int| 0 <= e < m.len() implies bounded_cent(#[trigger] m[e]) by {
                lemma_element_weight_le_sum(m, 0, e);
            }
            if pre.total_weight >= 1 && csold.len() == 0 {
                assert(weight_sum(csold) == 0);
            }
        }
        let out = compact_centroids(self.compression, new_total, &merged_v);
        proof {
            assert forall|j: int| 1 <= j < m.len() implies mean_le(m[0], #[trigger] m[j]) by {
                lemma_sorted_means_pairwise(m, 0, j);
            }
            lemma_walk_props(pre.compression as int, new_total as int, m, 1, m[0], 0, lo, hi);
            lemma_walk_props(
                pre.compression as int,
                new_total as int,
                m,
                1,
                m[0],
                0,
                -(MAX_ABS_VALUE as int),
                MAX_ABS_VALUE as int,
            );
            let o = compact_model(pre.compression as int, new_total as int, m);
            assert(weight_sum(o) == m[0].weight + weight_sum_from(m, 1));
            assert forall|e: int| 0 <= e < o.len() implies bounded_cent(#[trigger] o[e]) by {
                lemma_element_weight_le_sum(o, 0, e);
            }
            if new_total >= 2 {
                lemma_compact_len2(pre.compression as int, new_total as int, m);
            } else {
                // exactly one observation in total: the single buffered point
                assert(new_total == 1);
                assert(m.len() == 1);
                assert(o =~= seq![m[0]]);
            }
        }
        self.centroids = out;
        self.total_weight = new_total;
        self.buffer = Vec::new();
        proof {
            assert(cents(self.centroids@) == flush_model(
                pre.compression as int,
                cents(pre.centroids@),
                pre.buffer@,
            ));
            lemma_sort_preserves_sum(pre.buffer@);
            assert(sum_sum(cents(self.centroids@)) == sum_sum(csold) + int_sum(pre.buffer@));
            assert(self.wf());
        }
    }
}

/// The interpolation walk over consecutive centroid pairs, in doubled
/// cumulative-weight units: `wsf2` is twice the cumulative weight up to the
/// half of centroid `i`, and `t2` is twice the target weight times `qd`
/// divided out, i.e. the comparison `wsf * qd > qn * total` is kept in
/// integers throughout. Past the last pair the walk interpolates between
/// the last mean and the recorded maximum.
pub open spec fn interp_from(
    cs: Seq<CentroidView>,
    mx: int,
    qd: int,
    t2: int,
    i: int,
    wsf2: int,
) -> FracView
    decreases cs.len() - i,
    when 0 <= i < cs.len()
{
    if i + 1 < cs.len() {
        let dw2 = cs[i].weight + cs[i + 1].weight;
        if (wsf2 + dw2) * qd > t2 {
            let z1 = t2 - wsf2 * qd;
            let z2 = (wsf2 + dw2) * qd - t2;
            FracView {
                num: cs[i].sum * z2 * cs[i + 1].weight + cs[i + 1].sum * z1 * cs[i].weight,
                den: cs[i].weight * cs[i + 1].weight * dw2 * qd,
            }
        } else {
            interp_from(cs, mx, qd, t2, i + 1, wsf2 + dw2)
        }
    } else {
        let w = cs[i].weight;
        let z1 = t2 - wsf2 * qd;
        let z2 = (wsf2 + w) * qd - t2;
        FracView { num: cs[i].sum * z2 + mx * w * z1, den: w * w * qd }
    }
}

/// The exact value `estimate` returns on a flushed digest: the sentinel
/// `0 / 1` on no data, the single mean on one observation, `min` and `max`
/// at the extreme quantiles, and otherwise linear interpolation between the
/// two anchors whose half-weight boundary brackets `qn / qd` of the total
/// weight (`min` and `max` acting as the outermost anchors).
pub open spec fn estimate_model(
    cs: Seq<CentroidView>,
    total: int,
    mn: int,
    mx: int,
    qn: int,
    qd: int,
) -> FracView {
    if cs.len() == 0 {
        FracView { num: 0, den: 1 }
    } else if cs.len() == 1 {
        FracView { num: cs[0].sum, den: cs[0].weight }
    } else if qn <= 0 {
        FracView { num: mn, den: 1 }
    } else if qn >= qd {
        FracView { num: mx, den: 1 }
    } else {
        let t2 = 2 * qn * total;
        if t2 < cs[0].weight * qd {
            let z1 = t2;
            let z2 = cs[0].weight * qd - t2;
            FracView {
                num: mn * cs[0].weight * z2 + cs[0].sum * z1,
                den: cs[0].weight * cs[0].weight * qd,
            }
        } else {
            interp_from(cs, mx, qd, t2, 0, cs[0].weight)
        }
    }
}

impl Estimator for TDigest {
    open spec fn est_wf(&self) -> bool {
        self.wf()
    }

    open spec fn can_add(&self, x: i64) -> bool {
        &&& self.observed() < MAX_TOTAL_WEIGHT
        &&& -MAX_ABS_VALUE <= x <= MAX_ABS_VALUE
    }

    open spec fn add_post(&self, pre: Self, x: i64) -> bool {
        let new_min: int = if pre.observed() == 0 {
            x as int
        } else if (x as int) < pre.min {
            x as int
        } else {
            pre.min as int
        };
        let new_max: int = if pre.observed() == 0 {
            x as int
        } else if (x as int) > pre.max {
            x as int
        } else {
            pre.max as int
        };
        &&& self.compression == pre.compression
        &&& self.max_size == pre.max_size
        &&& self.observed() == pre.observed() + 1
        &&& self.min as int == new_min
        &&& self.max as int == new_max
        &&& if pre.buffer@.len() + 1 >= pre.max_size {
            &&& self.buffer@.len() == 0
            &&& self.total_weight as int == pre.observed() + 1
            &&& cents(self.centroids@) == flush_model(
                pre.compression as int,
                cents(pre.centroids@),
                pre.buffer@.push(x),
            )
        } else {
            &&& self.buffer@ == pre.buffer@.push(x)
            &&& self.centroids@ == pre.centroids@
            &&& self.total_weight == pre.total_weight
        }
    }

    open spec fn can_estimate(&self, qn: u64, qd: u64) -> bool {
        &&& 1 <= qd <= MAX_QUANTILE_DEN
        &&& qn <= qd
    }

    open spec fn estimate_post(&self, pre: Self, qn: u64, qd: u64, r: Frac) -> bool {
        &&& self.compression == pre.compression
        &&& self.max_size == pre.max_size
        &&& self.min == pre.min
        &&& self.max == pre.max
        &&& self.buffer@.len() == 0
        &&& self.total_weight as int == pre.observed()
        &&& cents(self.centroids@) == flush_model(
            pre.compression as int,
            cents(pre.centroids@),
            pre.buffer@,
        )
        &&& sum_sum(cents(self.centroids@)) == sum_sum(cents(pre.centroids@)) + int_sum(
            pre.buffer@,
        )
        &&& r@ == estimate_model(
            cents(self.centroids@),
            self.total_weight as int,
            self.min as int,
            self.max as int,
            qn as int,
            qd as int,
        )
        &&& r@.den >= 1
        &&& pre.observed() == 0 ==> r@ == (FracView { num: 0, den: 1 })
        &&& pre.observed() == 1 ==> r@ == (FracView { num: self.min as int, den: 1 })
        &&& (qn == 0 && pre.observed() > 0) ==> r@ == (FracView { num: self.min as int, den: 1 })
        &&& (qn == qd && pre.observed() > 0) ==> r@ == (FracView { num: self.max as int, den: 1 })
    }

    fn add(&mut self, x: i64) {
        let ghost pre = *old(self);
        if self.total_weight == 0 && self.buffer.len() == 0 {
            self.min = x;
            self.max = x;
        } else {
            if x < self.min {
                self.min = x;
            }
            if x > self.max {
                self.max = x;
            }
        }
        self.buffer.push(x);
        proof {
            let cs = cents(self.centroids@);
            assert forall|e: int| 0 <= e < cs.len() implies (self.min as int) * (
            #[trigger] cs[e]).weight <= cs[e].sum <= (self.max as int) * cs[e].weight by {
                lemma_mul_le(self.min as int, pre.min as int, cs[e].weight);
                lemma_mul_le(pre.max as int, self.max as int, cs[e].weight);
            }
            assert(self.wf());
        }
        if self.buffer.len() >= self.max_size {
            self.flush_buffer();
        }
    }

    #[verifier::loop_isolation(false)]
    fn estimate(&mut self, qn: u64, qd: u64) -> (r: Frac) {
        let ghost pre = *old(self);
        self.flush_buffer();
        let ghost cs = cents(self.centroids@);
        let ghost total = self.total_weight as int;
        let ghost mn = self.min as int;
        let ghost mx = self.max as int;
        proof {
            lemma_weight_sum_from_len(cs, 0);
            lemma_weight_sum_from_nonneg(cs, 0);
        }
        let n = self.centroids.len();
        if n == 0 {
            return Frac { num: 0, den: 1 };
        }
        if n == 1 {
            let c = self.centroids[0];
            proof {
                assert(weight_sum_from(cs, 1) == 0);
                assert(cs[0].weight == 1);
            }
            return Frac { num: c.sum, den: c.weight as i128 };
        }
        proof {
            // two or more centroids only arise from two or more observations
            assert(weight_sum(cs) >= cs.len());
        }
        if qn == 0 {
            return Frac { num: self.min as i128, den: 1 };
        }
        if qn >= qd {
            return Frac { num: self.max as i128, den: 1 };
        }
        let w_total: u64 = self.total_weight;
        proof {
            lemma_mul_bounds(2 * qn as int, w_total as int, 0x200000, 0x100000);
        }
        let t2: i128 = 2 * (qn as i128) * (w_total as i128);
        let qd_i: i128 = qd as i128;
        let w0: u64 = self.centroids[0].weight;
        proof {
            assert(bounded_cent(cs[0]));
            lemma_mul_bounds(w0 as int, qd as int, 0x100000, 0x100000);
        }
        if t2 < (w0 as i128) * qd_i {
            proof {
                lemma_cent_sum_bound(cs[0]);
                lemma_mul_bounds_signed(self.min as int, w0 as int, 0x100000000, 0x100000);
                lemma_mul_bounds_signed(
                    (self.min as int) * (w0 as int),
                    (w0 as int) * (qd as int) - t2 as int,
                    0x10000000000000,
                    0x10000000000,
                );
                lemma_mul_bounds_signed(cs[0].sum, t2 as int, 0x10000000000000, 0x20000000000);
                lemma_mul_bounds(w0 as int, w0 as int, 0x100000, 0x100000);
                lemma_mul_bounds((w0 as int) * (w0 as int), qd as int, 0x10000000000, 0x100000);
                lemma_mul_ge1(w0 as int, w0 as int);
                lemma_mul_ge1((w0 as int) * (w0 as int), qd as int);
            }
            let z1: i128 = t2;
            let z2: i128 = (w0 as i128) * qd_i - t2;
            return Frac {
                num: (self.min as i128) * (w0 as i128) * z2 + self.centroids[0].sum * z1,
                den: (w0 as i128) * (w0 as i128) * qd_i,
            };
        }
        let mut i: usize = 0;
        let mut wsf2: u64 = w0;
        while i + 1 < n
            invariant
                2 <= n == self.centroids@.len(),
                cs == cents(self.centroids@),
                bounded_cents(cs),
                weight_sum(cs) == self.total_weight,
                self.total_weight <= MAX_TOTAL_WEIGHT,
                0 <= i < n,
                1 <= qn < qd <= MAX_QUANTILE_DEN,
                w_total == self.total_weight,
                t2 == 2 * (qn as int) * (w_total as int),
                0 <= t2 <= 0x40000000000,
                qd_i == qd as int,
                wsf2 as int == 2 * (w_total - weight_sum_from(cs, i as int)) + cs[i as int].weight,
                (wsf2 as int) * (qd as int) <= t2,
                interp_from(cs, mx, qd as int, t2 as int, i as int, wsf2 as int) == interp_from(
                    cs,
                    mx,
                    qd as int,
                    t2 as int,
                    0,
                    cs[0].weight,
                ),
            decreases n - i,
        {
            proof {
                assert(bounded_cent(cs[i as int]));
                assert(bounded_cent(cs[i as int + 1]));
                lemma_weight_sum_from_nonneg(cs, i as int);
                lemma_weight_sum_from_nonneg(cs, i as int + 1);
                assert(weight_sum_from(cs, i as int) == cs[i as int].weight + weight_sum_from(
                    cs,
                    i as int + 1,
                ));
            }
            let wi: u64 = self.centroids[i].weight;
            let wi1: u64 = self.centroids[i + 1].weight;
            let dw2: u64 = wi + wi1;
            proof {
                lemma_mul_bounds(wsf2 as int + dw2 as int, qd as int, 0x400000, 0x100000);
                lemma_mul_bounds(wsf2 as int, qd as int, 0x400000, 0x100000);
            }
            let bound: i128 = ((wsf2 + dw2) as i128) * qd_i;
            if bound > t2 {
                proof {
                    lemma_cent_sum_bound(cs[i as int]);
                    lemma_cent_sum_bound(cs[i as int + 1]);
                    lemma_mul_bounds_signed(
                        cs[i as int].sum,
                        bound as int - t2 as int,
                        0x10000000000000,
                        0x40000000000,
                    );
                    lemma_mul_bounds_signed(
                        cs[i as int].sum * (bound as int - t2 as int),
                        wi1 as int,
                        0x400000000000000000000000,
                        0x100000,
                    );
                    lemma_mul_bounds_signed(
                        cs[i as int + 1].sum,
                        t2 as int - (wsf2 as int) * (qd as int),
                        0x10000000000000,
                        0x40000000000,
                    );
                    lemma_mul_bounds_signed(
                        cs[i as int + 1].sum * (t2 as int - (wsf2 as int) * (qd as int)),
                        wi as int,
                        0x400000000000000000000000,
                        0x100000,
                    );
                    lemma_mul_bounds(wi as int, wi1 as int, 0x100000, 0x100000);
                    lemma_mul_bounds((wi as int) * (wi1 as int), dw2 as int, 0x10000000000, 0x200000);
                    lemma_mul_bounds(
                        (wi as int) * (wi1 as int) * (dw2 as int),
                        qd as int,
                        0x2000000000000000,
                        0x100000,
                    );
                    lemma_mul_ge1(wi as int, wi1 as int);
                    lemma_mul_ge1((wi as int) * (wi1 as int), dw2 as int);
                    lemma_mul_ge1((wi as int) * (wi1 as int) * (dw2 as int), qd as int);
                }
                let z1: i128 = t2 - (wsf2 as i128) * qd_i;
                let z2: i128 = bound - t2;
                proof {
                    assert(interp_from(cs, mx, qd as int, t2 as int, i as int, wsf2 as int)
                        == (FracView {
                        num: cs[i as int].sum * (z2 as int) * cs[i as int + 1].weight + cs[
                            i as int + 1
                        ].sum * (z1 as int) * cs[i as int].weight,
                        den: cs[i as int].weight * cs[i as int + 1].weight * (dw2 as int) * (
                        qd as int),
                    }));
                }
                return Frac {
                    num: self.centroids[i].sum * z2 * (wi1 as i128) + self.centroids[i + 1].sum * z1
                        * (wi as i128),
                    den: (wi as i128) * (wi1 as i128) * (dw2 as i128) * qd_i,
                };
            }
            wsf2 = wsf2 + dw2;
            i = i + 1;
        }
        proof {
            assert(i as int == n - 1);
            lemma_weight_sum_from_nonneg(cs, i as int);
            assert(weight_sum_from(cs, i as int) == cs[i as int].weight + weight_sum_from(
                cs,
                i as int + 1,
            ));
            assert(weight_sum_from(cs, i as int + 1) == 0);
            lemma_cent_sum_bound(cs[i as int]);
            lemma_mul_bounds(wsf2 as int, qd as int, 0x400000, 0x100000);
            lemma_mul_bounds(wsf2 as int + cs[i as int].weight, qd as int, 0x400000, 0x100000);
            assert(wsf2 as int + cs[i as int].weight == 2 * (w_total as int));
            lemma_mul_le(2 * (qn as int), 2 * (qd as int), w_total as int);
            assert((2 * (qd as int)) * (w_total as int) == (wsf2 as int + cs[i as int].weight) * (
            qd as int)) by (nonlinear_arith)
                requires
                    wsf2 as int + cs[i as int].weight == 2 * (w_total as int),
            ;
            lemma_mul_bounds_signed(
                cs[i as int].sum,
                (wsf2 as int + cs[i as int].weight) * (qd as int) - t2 as int,
                0x10000000000000,
                0x40000000000,
            );
            lemma_mul_bounds_signed(mx, cs[i as int].weight, 0x100000000, 0x100000);
            lemma_mul_bounds_signed(
                mx * cs[i as int].weight,
                t2 as int - (wsf2 as int) * (qd as int),
                0x10000000000000,
                0x40000000000,
            );
            lemma_mul_bounds(cs[i as int].weight, cs[i as int].weight, 0x100000, 0x100000);
            lemma_mul_bounds(
                cs[i as int].weight * cs[i as int].weight,
                qd as int,
                0x10000000000,
                0x100000,
            );
            lemma_mul_ge1(cs[i as int].weight, cs[i as int].weight);
            lemma_mul_ge1(cs[i as int].weight * cs[i as int].weight, qd as int);
        }
        let wl: u64 = self.centroids[n - 1].weight;
        let z1: i128 = t2 - (wsf2 as i128) * qd_i;
        let z2: i128 = ((wsf2 + wl) as i128) * qd_i - t2;
        proof {
            assert(interp_from(cs, mx, qd as int, t2 as int, i as int, wsf2 as int) == (FracView {
                num: cs[i as int].sum * (z2 as int) + mx * cs[i as int].weight * (z1 as int),
                den: cs[i as int].weight * cs[i as int].weight * (qd as int),
            }));
        }
        Frac {
            num: self.centroids[n - 1].sum * z2 + (self.max as i128) * (wl as i128) * z1,
            den: (wl as i128) * (wl as i128) * qd_i,
        }
    }
}

/// Law: a flush of an already-flushed digest changes nothing, so two
/// estimates with no intervening add see the same centroids and return the
/// identical value.
pub proof fn lemma_flush_idempotent(comp: int, cs: Seq<CentroidView>, buf: Seq<i64>)
    ensures
        flush_model(comp, flush_model(comp, cs, buf), Seq::<i64>::empty()) == flush_model(
            comp,
            cs,
            buf,
        ),
{
}

/// A run of singletons weighs exactly its length and sums to exactly the
/// observations it came from.
proof fn lemma_singleton_weight_sum(s: Seq<i64>, i: int)
    requires
        0 <= i <= s.len(),
    ensures
        weight_sum_from(singletons(s), i) == s.len() - i,
        sum_sum_from(singletons(s), i) == int_sum_from(s, i),
    decreases s.len() - i,
{
    if i < s.len() {
        lemma_singleton_weight_sum(s, i + 1);
    }
}

} // verus!
