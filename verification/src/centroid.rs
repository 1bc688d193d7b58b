//! Centroids: weighted clusters of observations, with exact means.
//!
//! A centroid records the exact sum of the observations merged into it and
//! their count (weight), so its mean `sum / weight` is an exact rational.
//! Comparisons between means are stated by cross-multiplication, which keeps
//! every spec over the integers.

use vstd::prelude::*;
use crate::MAX_ABS_VALUE;
use crate::MAX_TOTAL_WEIGHT;

verus! {

/// A cluster of one or more observations collapsed to a single point.
/// Its mean is `sum / weight`, held exactly.
#[derive(Clone, Copy)]
pub struct Centroid {
    pub sum: i128,
    pub weight: u64,
}

/// The mathematical content of a [`Centroid`]: unbounded sum and weight.
pub ghost struct CentroidView {
    pub sum: int,
    pub weight: int,
}

impl View for Centroid {
    type V = CentroidView;

    open spec fn view(&self) -> CentroidView {
        CentroidView { sum: self.sum as int, weight: self.weight as int }
    }
}

impl Centroid {
    /// A centroid holding exactly one observation, with weight one.
    pub fn single(x: i64) -> (c: Centroid)
        ensures
            c@ == (CentroidView { sum: x as int, weight: 1 as int }),
    {
        Centroid { sum: x as i128, weight: 1 }
    }

    /// Folds `other` into `self`: sums and weights add, so the mean becomes
    /// the exact weight-weighted average of the two means.
    pub fn add(&mut self, other: &Centroid)
        requires
            bounded_cent(old(self)@),
            bounded_cent(other@),
            old(self)@.weight + other@.weight <= MAX_TOTAL_WEIGHT,
        ensures
            final(self)@ == merged(old(self)@, other@),
    {
        proof {
            lemma_cent_sum_bound(old(self)@);
            lemma_cent_sum_bound(other@);
        }
        self.sum = self.sum + other.sum;
        self.weight = self.weight + other.weight;
    }
}

/// Bound on the sum of a bounded centroid.
pub proof fn lemma_cent_sum_bound(c: CentroidView)
    by (nonlinear_arith)
    requires
        bounded_cent(c),
    ensures
        -(0x10000000000000 as int) <= c.sum <= 0x10000000000000 as int,
{
}

/// The views of a sequence of centroids.
pub open spec fn cents(s: Seq<Centroid>) -> Seq<CentroidView> {
    s.map_values(|c: Centroid| c@)
}

/// `a`'s mean is at most `b`'s mean: `a.sum / a.weight <= b.sum / b.weight`,
/// cross-multiplied (meaningful when both weights are positive).
pub open spec fn mean_le(a: CentroidView, b: CentroidView) -> bool {
    a.sum * b.weight <= b.sum * a.weight
}

/// The centroid obtained by merging `a` and `b`: sums and weights add, so
/// the mean is the exact weight-weighted average of the two means.
pub open spec fn merged(a: CentroidView, b: CentroidView) -> CentroidView {
    CentroidView { sum: a.sum + b.sum, weight: a.weight + b.weight }
}

/// Every centroid of the sequence has positive weight.
pub open spec fn weights_pos(cs: Seq<CentroidView>) -> bool {
    forall|i: int| 0 <= i < cs.len() ==> #[trigger] cs[i].weight >= 1
}

/// The sequence is sorted ascending by mean (adjacent form).
pub open spec fn sorted_means(cs: Seq<CentroidView>) -> bool {
    forall|i: int| 0 <= i && i + 1 < cs.len() ==> mean_le(#[trigger] cs[i], cs[i + 1])
}

/// Sum of the weights of `cs[i..]`.
pub open spec fn weight_sum_from(cs: Seq<CentroidView>, i: int) -> int
    decreases cs.len() - i,
{
    if i < 0 || i >= cs.len() {
        0
    } else {
        cs[i].weight + weight_sum_from(cs, i + 1)
    }
}

/// Sum of all centroid weights.
pub open spec fn weight_sum(cs: Seq<CentroidView>) -> int {
    weight_sum_from(cs, 0)
}

/// Sum of the sums of `cs[i..]`.
pub open spec fn sum_sum_from(cs: Seq<CentroidView>, i: int) -> int
    decreases cs.len() - i,
{
    if i < 0 || i >= cs.len() {
        0
    } else {
        cs[i].sum + sum_sum_from(cs, i + 1)
    }
}

/// Sum of all centroid sums: the exact sum of every observation represented.
pub open spec fn sum_sum(cs: Seq<CentroidView>) -> int {
    sum_sum_from(cs, 0)
}

/// Every mean of `cs[i..]` lies in `[lo, hi]` (cross-multiplied).
pub open spec fn means_in_range(cs: Seq<CentroidView>, lo: int, hi: int) -> bool {
    forall|i: int| 0 <= i < cs.len() ==>
        lo * (#[trigger] cs[i]).weight <= cs[i].sum <= hi * cs[i].weight
}

/// The weight and the sum of the centroid are small enough that every
/// product the digest's arithmetic forms stays inside `i128`.
pub open spec fn bounded_cent(c: CentroidView) -> bool {
    &&& 1 <= c.weight <= MAX_TOTAL_WEIGHT
    &&& (-MAX_ABS_VALUE) * c.weight <= c.sum <= MAX_ABS_VALUE * c.weight
}

/// Every centroid of the sequence is bounded.
pub open spec fn bounded_cents(cs: Seq<CentroidView>) -> bool {
    forall|i: int| 0 <= i < cs.len() ==> bounded_cent(#[trigger] cs[i])
}

/// Mean comparison is total on centroids of positive weight.
pub proof fn lemma_mean_le_total(a: CentroidView, b: CentroidView)
    ensures
        mean_le(a, b) || mean_le(b, a),
{
}

/// Mean comparison is transitive on centroids of positive weight.
pub proof fn lemma_mean_le_trans(a: CentroidView, b: CentroidView, c: CentroidView)
    by (nonlinear_arith)
    requires
        a.weight >= 1,
        b.weight >= 1,
        c.weight >= 1,
        mean_le(a, b),
        mean_le(b, c),
    ensures
        mean_le(a, c),
{
}

/// The mean of a merge lies at or below any bound both parts respect.
pub proof fn lemma_merged_le(a: CentroidView, b: CentroidView, c: CentroidView)
    by (nonlinear_arith)
    requires
        mean_le(a, c),
        mean_le(b, c),
    ensures
        mean_le(merged(a, b), c),
{
}

/// The mean of a merge lies at or above any bound both parts respect.
pub proof fn lemma_le_merged(a: CentroidView, b: CentroidView, c: CentroidView)
    by (nonlinear_arith)
    requires
        mean_le(c, a),
        mean_le(c, b),
    ensures
        mean_le(c, merged(a, b)),
{
}

/// A merge of two centroids whose means lie in `[lo, hi]` stays in `[lo, hi]`.
pub proof fn lemma_merged_in_range(a: CentroidView, b: CentroidView, lo: int, hi: int)
    by (nonlinear_arith)
    requires
        lo * a.weight <= a.sum <= hi * a.weight,
        lo * b.weight <= b.sum <= hi * b.weight,
    ensures
        lo * merged(a, b).weight <= merged(a, b).sum <= hi * merged(a, b).weight,
{
}

/// In a sequence sorted ascending by mean, any earlier mean is at most any
/// later one.
pub proof fn lemma_sorted_means_pairwise(cs: Seq<CentroidView>, i: int, j: int)
    requires
        weights_pos(cs),
        sorted_means(cs),
        0 <= i <= j < cs.len(),
    ensures
        mean_le(cs[i], cs[j]),
    decreases j - i,
{
    if i == j {
    } else {
        lemma_sorted_means_pairwise(cs, i, j - 1);
        lemma_mean_le_trans(cs[i], cs[j - 1], cs[j]);
    }
}

/// With positive weights, a tail weight sum is at least the weight of its
/// first element, and never negative.
pub proof fn lemma_weight_sum_from_nonneg(cs: Seq<CentroidView>, i: int)
    requires
        weights_pos(cs),
    ensures
        weight_sum_from(cs, i) >= 0,
        0 <= i < cs.len() ==> weight_sum_from(cs, i) >= cs[i].weight,
    decreases cs.len() - i,
{
    if 0 <= i && i < cs.len() {
        lemma_weight_sum_from_nonneg(cs, i + 1);
    }
}

/// Prepending one centroid shifts tail sums by one position.
pub proof fn lemma_sums_push_front(x: CentroidView, s: Seq<CentroidView>, i: int)
    requires
        0 <= i <= s.len(),
    ensures
        weight_sum_from(seq![x] + s, i + 1) == weight_sum_from(s, i),
        sum_sum_from(seq![x] + s, i + 1) == sum_sum_from(s, i),
    decreases s.len() - i,
{
    if i < s.len() {
        lemma_sums_push_front(x, s, i + 1);
        assert((seq![x] + s)[i + 1] == s[i]);
    }
}

/// Totals over a single prepended centroid.
pub proof fn lemma_sums_singleton_front(x: CentroidView, s: Seq<CentroidView>)
    ensures
        weight_sum(seq![x] + s) == x.weight + weight_sum(s),
        sum_sum(seq![x] + s) == x.sum + sum_sum(s),
{
    lemma_sums_push_front(x, s, 0);
    assert((seq![x] + s)[0] == x);
}

/// Pushing onto a vector of centroids pushes the view.
pub proof fn lemma_cents_push(s: Seq<Centroid>, c: Centroid)
    ensures
        cents(s.push(c)) == cents(s).push(c@),
{
    assert(cents(s.push(c)) =~= cents(s).push(c@));
}

/// Multiplying both sides of `a <= b` by a nonnegative factor keeps the order.
pub proof fn lemma_mul_le(a: int, b: int, w: int)
    by (nonlinear_arith)
    requires
        a <= b,
        w >= 0,
    ensures
        a * w <= b * w,
{
}

/// Bound on a product of a signed bounded factor and a nonnegative bounded
/// factor.
pub proof fn lemma_mul_bounds_signed(x: int, y: int, bx: int, by: int)
    by (nonlinear_arith)
    requires
        -bx <= x <= bx,
        0 <= y <= by,
    ensures
        -(bx * by) <= x * y <= bx * by,
{
}

/// A product of factors that are at least one is at least one.
pub proof fn lemma_mul_ge1(x: int, y: int)
    by (nonlinear_arith)
    requires
        x >= 1,
        y >= 1,
    ensures
        x * y >= 1,
{
}

/// With positive weights, each element's weight is at most the tail sum
/// that starts at or before it.
pub proof fn lemma_element_weight_le_sum(cs: Seq<CentroidView>, i: int, k: int)
    requires
        weights_pos(cs),
        0 <= i <= k < cs.len(),
    ensures
        cs[k].weight <= weight_sum_from(cs, i),
    decreases k - i,
{
    lemma_weight_sum_from_nonneg(cs, i + 1);
    if i < k {
        lemma_element_weight_le_sum(cs, i + 1, k);
    }
}

/// With positive weights, a tail sum is at least the number of elements in
/// the tail.
pub proof fn lemma_weight_sum_from_len(cs: Seq<CentroidView>, i: int)
    requires
        weights_pos(cs),
        0 <= i <= cs.len(),
    ensures
        weight_sum_from(cs, i) >= cs.len() - i,
    decreases cs.len() - i,
{
    if i < cs.len() {
        lemma_weight_sum_from_len(cs, i + 1);
    }
}

} // verus!
