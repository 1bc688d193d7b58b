//! The compaction routine: folding a sorted run of centroids into a bounded
//! summary.
//!
//! The routine walks the combined, mean-sorted sequence left to right and
//! greedily merges each element into a running candidate, as long as the
//! cumulative-weight interval the candidate would span stays inside one
//! bucket of the scale function `k(q) = 2 q^2` (mirrored around `1/2`).
//! The bucket condition is the compression-parameterised form: a merge of
//! proposed weight `pw` at cumulative weight `before` is accepted when
//! `(pw * compression / (pi * total))^2 <= q (1 - q)` at both ends of the
//! interval, with pi squared replaced by an exact rational approximation.
//!
//! Everything is specified by the recursive [`walk_model`]; the executable
//! walk and merge are proved equal to their models, so the flush that calls
//! them is pinned to a deterministic function of the digest's state.

use vstd::prelude::*;
use crate::centroid::{
    bounded_cent, bounded_cents, cents, lemma_cents_push, lemma_le_merged, lemma_mean_le_total,
    lemma_mean_le_trans, lemma_merged_in_range, lemma_merged_le, lemma_sorted_means_pairwise,
    lemma_sums_singleton_front, lemma_weight_sum_from_nonneg, mean_le, means_in_range, merged,
    sorted_means, sum_sum, sum_sum_from, weight_sum, weight_sum_from, weights_pos, Centroid,
    CentroidView,
};
use crate::MAX_ABS_VALUE;
use crate::MAX_COMPRESSION;
use crate::MAX_TOTAL_WEIGHT;
use crate::PI_SQUARED_DEN;
use crate::PI_SQUARED_NUM;

verus! {

/// The scale-function bucket condition: merging a candidate of proposed
/// weight `pw`, preceded by `before` closed-out weight, keeps the candidate
/// within one bucket for both interval ends.
pub open spec fn fits(comp: int, total: int, before: int, pw: int) -> bool {
    let pwc = pw * comp;
    let lhs = pwc * pwc * PI_SQUARED_DEN;
    let q0 = before;
    let q2 = before + pw;
    &&& lhs <= PI_SQUARED_NUM * q0 * (total - q0)
    &&& lhs <= PI_SQUARED_NUM * q2 * (total - q2)
}

/// The state of the greedy walk from position `i`: `acc` is the open
/// candidate, `before` the weight closed out so far. Returns the centroids
/// still to be emitted, the candidate included.
pub open spec fn walk_model(
    comp: int,
    total: int,
    items: Seq<CentroidView>,
    i: int,
    acc: CentroidView,
    before: int,
) -> Seq<CentroidView>
    decreases items.len() - i,
    when i <= items.len()
{
    if i < 0 || i >= items.len() {
        seq![acc]
    } else if fits(comp, total, before, acc.weight + items[i].weight) {
        walk_model(comp, total, items, i + 1, merged(acc, items[i]), before)
    } else {
        seq![acc] + walk_model(comp, total, items, i + 1, items[i], before + acc.weight)
    }
}

/// The compaction of a mean-sorted sequence: the full greedy walk.
pub open spec fn compact_model(comp: int, total: int, items: Seq<CentroidView>) -> Seq<
    CentroidView,
> {
    if items.len() == 0 {
        Seq::empty()
    } else {
        walk_model(comp, total, items, 1, items[0], 0)
    }
}

/// What the walk guarantees: at least one centroid comes out, all weights
/// are positive, the output is sorted ascending by mean, the candidate's
/// mean bounds the first output from below, weights and sums are conserved,
/// and every output mean stays inside any range that held of the input.
pub proof fn lemma_walk_props(
    comp: int,
    total: int,
    items: Seq<CentroidView>,
    i: int,
    acc: CentroidView,
    before: int,
    lo: int,
    hi: int,
)
    requires
        0 <= i <= items.len(),
        acc.weight >= 1,
        weights_pos(items),
        sorted_means(items),
        forall|j: int| i <= j < items.len() ==> mean_le(acc, #[trigger] items[j]),
        lo * acc.weight <= acc.sum <= hi * acc.weight,
        means_in_range(items, lo, hi),
    ensures
        ({
            let r = walk_model(comp, total, items, i, acc, before);
            &&& r.len() >= 1
            &&& weights_pos(r)
            &&& sorted_means(r)
            &&& mean_le(acc, r[0])
            &&& weight_sum(r) == acc.weight + weight_sum_from(items, i)
            &&& sum_sum(r) == acc.sum + sum_sum_from(items, i)
            &&& means_in_range(r, lo, hi)
        }),
    decreases items.len() - i,
{
    let r = walk_model(comp, total, items, i, acc, before);
    if i >= items.len() {
        assert(r =~= seq![acc]);
        assert(r[0] == acc);
        assert(weight_sum_from(r, 1) == 0);
        assert(sum_sum_from(r, 1) == 0);
    } else if fits(comp, total, before, acc.weight + items[i].weight) {
        let acc2 = merged(acc, items[i]);
        assert forall|j: int| i + 1 <= j < items.len() implies mean_le(acc2, #[trigger] items[j]) by {
            lemma_sorted_means_pairwise(items, i, j);
            lemma_merged_le(acc, items[i], items[j]);
        }
        lemma_merged_in_range(acc, items[i], lo, hi);
        lemma_walk_props(comp, total, items, i + 1, acc2, before, lo, hi);
        lemma_le_merged(acc, items[i], acc);
        lemma_mean_le_trans(acc, acc2, r[0]);
    } else {
        let rest = walk_model(comp, total, items, i + 1, items[i], before + acc.weight);
        assert forall|j: int| i + 1 <= j < items.len() implies mean_le(items[i], #[trigger] items[j]) by {
            lemma_sorted_means_pairwise(items, i, j);
        }
        lemma_walk_props(comp, total, items, i + 1, items[i], before + acc.weight, lo, hi);
        assert(r =~= seq![acc] + rest);
        assert(r[0] == acc);
        assert(forall|k: int| 0 <= k < rest.len() ==> r[k + 1] == #[trigger] rest[k]);
        assert forall|k: int| 0 <= k && k + 1 < r.len() implies mean_le(#[trigger] r[k], r[k + 1]) by {
            if k == 0 {
                assert(r[1] == rest[0]);
                lemma_mean_le_trans(acc, items[i], rest[0]);
            } else {
                assert(r[k] == rest[k - 1]);
                assert(r[k + 1] == rest[k]);
            }
        }
        lemma_sums_singleton_front(acc, rest);
        assert(weights_pos(r));
        assert(means_in_range(r, lo, hi));
    }
}

/// The deterministic merge of two mean-sorted runs, read from positions
/// `i` and `j`; on equal means the left run goes first.
pub open spec fn merge_from(a: Seq<CentroidView>, b: Seq<CentroidView>, i: int, j: int) -> Seq<
    CentroidView,
>
    decreases a.len() - i, b.len() - j,
    when 0 <= i <= a.len() && 0 <= j <= b.len()
{
    if i >= a.len() && j >= b.len() {
        Seq::empty()
    } else if j >= b.len() || (i < a.len() && mean_le(a[i], b[j])) {
        seq![a[i]] + merge_from(a, b, i + 1, j)
    } else {
        seq![b[j]] + merge_from(a, b, i, j + 1)
    }
}

/// The merge of two sorted runs is sorted, conserves weights and sums, and
/// keeps every mean inside any range that held of both inputs.
pub proof fn lemma_merge_from_props(
    a: Seq<CentroidView>,
    b: Seq<CentroidView>,
    i: int,
    j: int,
    lo: int,
    hi: int,
)
    requires
        0 <= i <= a.len(),
        0 <= j <= b.len(),
        weights_pos(a),
        weights_pos(b),
        sorted_means(a),
        sorted_means(b),
        means_in_range(a, lo, hi),
        means_in_range(b, lo, hi),
    ensures
        ({
            let r = merge_from(a, b, i, j);
            &&& r.len() == (a.len() - i) + (b.len() - j)
            &&& weights_pos(r)
            &&& sorted_means(r)
            &&& means_in_range(r, lo, hi)
            &&& weight_sum(r) == weight_sum_from(a, i) + weight_sum_from(b, j)
            &&& sum_sum(r) == sum_sum_from(a, i) + sum_sum_from(b, j)
            &&& r.len() > 0 ==> r[0] == if j >= b.len() || (i < a.len() && mean_le(a[i], b[j])) {
                a[i]
            } else {
                b[j]
            }
        }),
    decreases a.len() - i + b.len() - j,
{
    let r = merge_from(a, b, i, j);
    if i >= a.len() && j >= b.len() {
    } else if j >= b.len() || (i < a.len() && mean_le(a[i], b[j])) {
        let rest = merge_from(a, b, i + 1, j);
        lemma_merge_from_props(a, b, i + 1, j, lo, hi);
        assert(r =~= seq![a[i]] + rest);
        assert(r[0] == a[i]);
        assert(forall|k: int| 0 <= k < rest.len() ==> r[k + 1] == #[trigger] rest[k]);
        if rest.len() > 0 {
            if j >= b.len() || (i + 1 < a.len() && mean_le(a[i + 1], b[j])) {
                assert(rest[0] == a[i + 1]);
                assert(mean_le(a[i], a[i + 1]));
            } else {
                assert(rest[0] == b[j]);
            }
        }
        assert forall|k: int| 0 <= k && k + 1 < r.len() implies mean_le(#[trigger] r[k], r[k + 1]) by {
            if k == 0 {
                assert(r[1] == rest[0]);
            } else {
                assert(r[k] == rest[k - 1]);
                assert(r[k + 1] == rest[k]);
            }
        }
        lemma_sums_singleton_front(a[i], rest);
        assert(weights_pos(r));
        assert(means_in_range(r, lo, hi));
    } else {
        let rest = merge_from(a, b, i, j + 1);
        lemma_merge_from_props(a, b, i, j + 1, lo, hi);
        assert(r =~= seq![b[j]] + rest);
        assert(r[0] == b[j]);
        assert(forall|k: int| 0 <= k < rest.len() ==> r[k + 1] == #[trigger] rest[k]);
        lemma_mean_le_total(a[i], b[j]);
        if rest.len() > 0 {
            if j + 1 >= b.len() || (i < a.len() && mean_le(a[i], b[j + 1])) {
                assert(rest[0] == a[i]);
                assert(mean_le(b[j], a[i]));
            } else {
                assert(rest[0] == b[j + 1]);
                assert(mean_le(b[j], b[j + 1]));
            }
        }
        assert forall|k: int| 0 <= k && k + 1 < r.len() implies mean_le(#[trigger] r[k], r[k + 1]) by {
            if k == 0 {
                assert(r[1] == rest[0]);
            } else {
                assert(r[k] == rest[k - 1]);
                assert(r[k + 1] == rest[k]);
            }
        }
        lemma_sums_singleton_front(b[j], rest);
        assert(weights_pos(r));
        assert(means_in_range(r, lo, hi));
    }
}

/// Bound on products of a bounded sum and a bounded weight.
pub(crate) proof fn lemma_cross_bound(a: CentroidView, b: CentroidView)
    by (nonlinear_arith)
    requires
        bounded_cent(a),
        bounded_cent(b),
    ensures
        -(0x1000000000000000000 as int) <= a.sum * b.weight <= 0x1000000000000000000 as int,
{
}

/// Products of nonnegative bounded factors are nonnegative and bounded.
pub(crate) proof fn lemma_mul_bounds(x: int, y: int, bx: int, by: int)
    by (nonlinear_arith)
    requires
        0 <= x <= bx,
        0 <= y <= by,
    ensures
        0 <= x * y <= bx * by,
{
}

/// Compares two centroid means exactly, by cross-multiplication.
fn mean_le_exec(a: &Centroid, b: &Centroid) -> (r: bool)
    requires
        bounded_cent(a@),
        bounded_cent(b@),
    ensures
        r == mean_le(a@, b@),
{
    proof {
        lemma_cross_bound(a@, b@);
        lemma_cross_bound(b@, a@);
    }
    a.sum * (b.weight as i128) <= b.sum * (a.weight as i128)
}

/// Merges two mean-sorted runs of centroids into one; the result is pinned
/// to the deterministic [`merge_from`] of the two views.
pub(crate) fn merge_centroids(a: &Vec<Centroid>, b: &Vec<Centroid>) -> (r: Vec<Centroid>)
    requires
        bounded_cents(cents(a@)),
        bounded_cents(cents(b@)),
    ensures
        cents(r@) == merge_from(cents(a@), cents(b@), 0, 0),
{
    let ghost ca = cents(a@);
    let ghost cb = cents(b@);
    let mut r: Vec<Centroid> = Vec::new();
    let mut i: usize = 0;
    let mut j: usize = 0;
    while i < a.len() || j < b.len()
        invariant
            i <= a@.len(),
            j <= b@.len(),
            ca == cents(a@),
            cb == cents(b@),
            bounded_cents(ca),
            bounded_cents(cb),
            ca.len() == a@.len(),
            cb.len() == b@.len(),
            cents(r@) + merge_from(ca, cb, i as int, j as int) == merge_from(ca, cb, 0, 0),
        decreases a@.len() - i + b@.len() - j,
    {
        proof {
            assert(i < a@.len() ==> ca[i as int] == a@[i as int]@);
            assert(j < b@.len() ==> cb[j as int] == b@[j as int]@);
        }
        if j >= b.len() || (i < a.len() && mean_le_exec(&a[i], &b[j])) {
            let x = a[i];
            proof {
                assert(merge_from(ca, cb, i as int, j as int) == seq![ca[i as int]] + merge_from(
                    ca,
                    cb,
                    i as int + 1,
                    j as int,
                ));
                lemma_cents_push(r@, x);
                assert(cents(r@).push(x@) =~= cents(r@) + seq![x@]);
                assert((cents(r@) + seq![x@]) + merge_from(ca, cb, i as int + 1, j as int) =~= cents(
                    r@,
                ) + (seq![x@] + merge_from(ca, cb, i as int + 1, j as int)));
            }
            r.push(x);
            i = i + 1;
        } else {
            let x = b[j];
            proof {
                assert(merge_from(ca, cb, i as int, j as int) == seq![cb[j as int]] + merge_from(
                    ca,
                    cb,
                    i as int,
                    j as int + 1,
                ));
                lemma_cents_push(r@, x);
                assert(cents(r@).push(x@) =~= cents(r@) + seq![x@]);
                assert((cents(r@) + seq![x@]) + merge_from(ca, cb, i as int, j as int + 1) =~= cents(
                    r@,
                ) + (seq![x@] + merge_from(ca, cb, i as int, j as int + 1)));
            }
            r.push(x);
            j = j + 1;
        }
    }
    proof {
        assert(merge_from(ca, cb, i as int, j as int) =~= Seq::<CentroidView>::empty());
        assert(cents(r@) + Seq::<CentroidView>::empty() =~= cents(r@));
    }
    r
}

/// Runs the greedy compaction walk over a run of centroids whose weights
/// add up to `total`; the result is pinned to [`compact_model`].
pub(crate) fn compact_centroids(compression: u64, total: u64, items: &Vec<Centroid>) -> (r: Vec<
    Centroid,
>)
    requires
        items@.len() >= 1,
        1 <= compression <= MAX_COMPRESSION,
        1 <= total <= MAX_TOTAL_WEIGHT,
        bounded_cents(cents(items@)),
        weight_sum(cents(items@)) == total,
    ensures
        cents(r@) == compact_model(compression as int, total as int, cents(items@)),
{
    let ghost cs = cents(items@);
    let mut out: Vec<Centroid> = Vec::new();
    let mut acc: Centroid = items[0];
    let mut before: u64 = 0;
    let mut i: usize = 1;
    proof {
        assert(cs[0] == items@[0]@);
        assert(weight_sum_from(cs, 0) == cs[0].weight + weight_sum_from(cs, 1));
        assert(cents(out@) + walk_model(compression as int, total as int, cs, 1, cs[0], 0)
            =~= walk_model(compression as int, total as int, cs, 1, cs[0], 0));
    }
    while i < items.len()
        invariant
            1 <= i <= items@.len(),
            cs == cents(items@),
            bounded_cents(cs),
            cs.len() == items@.len(),
            1 <= compression <= MAX_COMPRESSION,
            1 <= total <= MAX_TOTAL_WEIGHT,
            bounded_cent(acc@),
            before + acc@.weight + weight_sum_from(cs, i as int) == total,
            cents(out@) + walk_model(
                compression as int,
                total as int,
                cs,
                i as int,
                acc@,
                before as int,
            ) == walk_model(compression as int, total as int, cs, 1, cs[0], 0),
        decreases items@.len() - i,
    {
        proof {
            assert(cs[i as int] == items@[i as int]@);
            assert(weight_sum_from(cs, i as int) == cs[i as int].weight + weight_sum_from(
                cs,
                i as int + 1,
            ));
            lemma_weight_sum_from_nonneg(cs, i as int + 1);
        }
        let c = items[i];
        let pw: u64 = acc.weight + c.weight;
        proof {
            lemma_mul_bounds(pw as int, compression as int, 0x100000, 0x100000);
        }
        let pwc: i128 = (pw as i128) * (compression as i128);
        proof {
            lemma_mul_bounds(pwc as int, pwc as int, 0x10000000000, 0x10000000000);
            lemma_mul_bounds(
                pwc as int * pwc as int,
                PI_SQUARED_DEN as int,
                0x100000000000000000000,
                100,
            );
        }
        let lhs: i128 = pwc * pwc * (PI_SQUARED_DEN as i128);
        let t: i128 = total as i128;
        let q0: i128 = before as i128;
        let q2: i128 = (before + pw) as i128;
        proof {
            lemma_mul_bounds(PI_SQUARED_NUM as int, q0 as int, 0x400, 0x100000);
            lemma_mul_bounds(PI_SQUARED_NUM as int * q0 as int, t as int - q0 as int, 0x40000000, 0x100000);
            lemma_mul_bounds(PI_SQUARED_NUM as int, q2 as int, 0x400, 0x100000);
            lemma_mul_bounds(PI_SQUARED_NUM as int * q2 as int, t as int - q2 as int, 0x40000000, 0x100000);
        }
        let rhs0: i128 = (PI_SQUARED_NUM as i128) * q0 * (t - q0);
        let rhs2: i128 = (PI_SQUARED_NUM as i128) * q2 * (t - q2);
        if lhs <= rhs0 && lhs <= rhs2 {
            proof {
                assert(fits(compression as int, total as int, before as int, pw as int));
                lemma_merged_in_range(
                    acc@,
                    cs[i as int],
                    -(MAX_ABS_VALUE as int),
                    MAX_ABS_VALUE as int,
                );
                assert(walk_model(
                    compression as int,
                    total as int,
                    cs,
                    i as int,
                    acc@,
                    before as int,
                ) == walk_model(
                    compression as int,
                    total as int,
                    cs,
                    i as int + 1,
                    merged(acc@, cs[i as int]),
                    before as int,
                ));
            }
            acc.add(&c);
        } else {
            proof {
                assert(!fits(compression as int, total as int, before as int, pw as int));
                assert(walk_model(
                    compression as int,
                    total as int,
                    cs,
                    i as int,
                    acc@,
                    before as int,
                ) == seq![acc@] + walk_model(
                    compression as int,
                    total as int,
                    cs,
                    i as int + 1,
                    cs[i as int],
                    before as int + acc@.weight,
                ));
                lemma_cents_push(out@, acc);
                assert(cents(out@).push(acc@) =~= cents(out@) + seq![acc@]);
                assert((cents(out@) + seq![acc@]) + walk_model(
                    compression as int,
                    total as int,
                    cs,
                    i as int + 1,
                    cs[i as int],
                    before as int + acc@.weight,
                ) =~= cents(out@) + (seq![acc@] + walk_model(
                    compression as int,
                    total as int,
                    cs,
                    i as int + 1,
                    cs[i as int],
                    before as int + acc@.weight,
                )));
            }
            out.push(acc);
            before = before + acc.weight;
            acc = c;
        }
        i = i + 1;
    }
    proof {
        assert(walk_model(compression as int, total as int, cs, i as int, acc@, before as int)
            =~= seq![acc@]);
        lemma_cents_push(out@, acc);
        assert(cents(out@).push(acc@) =~= cents(out@) + seq![acc@]);
    }
    out.push(acc);
    out
}

/// The walk emits at least one centroid.
pub proof fn lemma_walk_len(
    comp: int,
    total: int,
    items: Seq<CentroidView>,
    i: int,
    acc: CentroidView,
    before: int,
)
    requires
        0 <= i <= items.len(),
    ensures
        walk_model(comp, total, items, i, acc, before).len() >= 1,
    decreases items.len() - i,
{
    if i < items.len() {
        if fits(comp, total, before, acc.weight + items[i].weight) {
            lemma_walk_len(comp, total, items, i + 1, merged(acc, items[i]), before);
        } else {
            lemma_walk_len(comp, total, items, i + 1, items[i], before + acc.weight);
        }
    }
}

/// The very first candidate never absorbs its neighbour: at zero preceding
/// weight the bucket condition fails for any proposed weight of two or more.
proof fn lemma_first_close(comp: int, total: int, pw: int)
    by (nonlinear_arith)
    requires
        comp >= 1,
        pw >= 2,
    ensures
        !fits(comp, total, 0, pw),
{
}

/// A compaction of two or more centroids keeps at least two: the smallest
/// element always stands alone, so the minimum stays exact.
pub proof fn lemma_compact_len2(comp: int, total: int, items: Seq<CentroidView>)
    requires
        comp >= 1,
        items.len() >= 2,
        weights_pos(items),
    ensures
        compact_model(comp, total, items).len() >= 2,
{
    lemma_first_close(comp, total, items[0].weight + items[1].weight);
    lemma_walk_len(comp, total, items, 2, items[1], items[0].weight);
    assert(compact_model(comp, total, items) == seq![items[0]] + walk_model(
        comp,
        total,
        items,
        2,
        items[1],
        items[0].weight,
    ));
}

} // verus!
