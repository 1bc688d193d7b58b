//! Combining two centroid runs, and why the order of the runs cannot
//! matter.
//!
//! Distinct digests can be merged by handing both centroid arrays to the
//! compaction routine. The combined run is put in a canonical order first:
//! ascending by mean, ties broken by weight and then by sum, which is a
//! total order on centroids. Because a sorted arrangement under a total
//! order is unique, combining A with B and combining B with A feed the
//! compaction the very same sequence — so the merged digests agree exactly,
//! not merely up to rounding.

use vstd::prelude::*;
use crate::centroid::{mean_le, sorted_means, weights_pos, CentroidView};
use crate::compact::compact_model;

verus! {

/// The canonical total order on centroids: by mean (cross-multiplied),
/// ties by weight, remaining ties by sum.
pub open spec fn cent_le(a: CentroidView, b: CentroidView) -> bool {
    if a.sum * b.weight != b.sum * a.weight {
        a.sum * b.weight < b.sum * a.weight
    } else if a.weight != b.weight {
        a.weight < b.weight
    } else {
        a.sum <= b.sum
    }
}

/// Sorted under the canonical order, pairwise form.
pub open spec fn sorted_cent(s: Seq<CentroidView>) -> bool {
    forall|i: int, j: int| 0 <= i < j < s.len() ==> cent_le(#[trigger] s[i], #[trigger] s[j])
}

/// Insertion into a canonically sorted run.
pub open spec fn insert_cent(x: CentroidView, s: Seq<CentroidView>) -> Seq<CentroidView>
    decreases s.len(),
{
    if s.len() == 0 {
        seq![x]
    } else if cent_le(x, s[0]) {
        seq![x] + s
    } else {
        seq![s[0]] + insert_cent(x, s.drop_first())
    }
}

/// The canonical ordering of a centroid run: insertion sort under
/// [`cent_le`].
pub open spec fn sort_cents(s: Seq<CentroidView>) -> Seq<CentroidView>
    decreases s.len(),
{
    if s.len() == 0 {
        Seq::empty()
    } else {
        insert_cent(s[0], sort_cents(s.drop_first()))
    }
}

/// Strict mean order composes with weak mean order (positive weights).
proof fn lemma_xmul_lt_le(a: CentroidView, b: CentroidView, c: CentroidView)
    by (nonlinear_arith)
    requires
        a.weight >= 1,
        b.weight >= 1,
        c.weight >= 1,
        a.sum * b.weight < b.sum * a.weight,
        b.sum * c.weight <= c.sum * b.weight,
    ensures
        a.sum * c.weight < c.sum * a.weight,
{
}

/// Weak mean order composes with strict mean order (positive weights).
proof fn lemma_xmul_le_lt(a: CentroidView, b: CentroidView, c: CentroidView)
    by (nonlinear_arith)
    requires
        a.weight >= 1,
        b.weight >= 1,
        c.weight >= 1,
        a.sum * b.weight <= b.sum * a.weight,
        b.sum * c.weight < c.sum * b.weight,
    ensures
        a.sum * c.weight < c.sum * a.weight,
{
}

/// Mean equality is transitive (positive weights).
proof fn lemma_xmul_eq_eq(a: CentroidView, b: CentroidView, c: CentroidView)
    by (nonlinear_arith)
    requires
        a.weight >= 1,
        b.weight >= 1,
        c.weight >= 1,
        a.sum * b.weight == b.sum * a.weight,
        b.sum * c.weight == c.sum * b.weight,
    ensures
        a.sum * c.weight == c.sum * a.weight,
{
}

/// The canonical order is total.
proof fn lemma_cent_le_total(a: CentroidView, b: CentroidView)
    ensures
        cent_le(a, b) || cent_le(b, a),
{
}

/// The canonical order is antisymmetric: mutual order means equality.
proof fn lemma_cent_le_antisym(a: CentroidView, b: CentroidView)
    requires
        cent_le(a, b),
        cent_le(b, a),
    ensures
        a == b,
{
}

/// The canonical order is transitive on positive-weight centroids.
proof fn lemma_cent_le_trans(a: CentroidView, b: CentroidView, c: CentroidView)
    requires
        a.weight >= 1,
        b.weight >= 1,
        c.weight >= 1,
        cent_le(a, b),
        cent_le(b, c),
    ensures
        cent_le(a, c),
{
    if a.sum * b.weight != b.sum * a.weight {
        if b.sum * c.weight != c.sum * b.weight {
            lemma_xmul_lt_le(a, b, c);
        } else {
            lemma_xmul_lt_le(a, b, c);
        }
    } else {
        if b.sum * c.weight != c.sum * b.weight {
            lemma_xmul_le_lt(a, b, c);
        } else {
            lemma_xmul_eq_eq(a, b, c);
        }
    }
}

/// The canonical order implies the mean order the compaction walk reads.
proof fn lemma_cent_le_mean_le(a: CentroidView, b: CentroidView)
    requires
        cent_le(a, b),
    ensures
        mean_le(a, b),
{
}

/// Inserting into a canonically sorted run keeps it sorted and adds
/// exactly the inserted centroid to the contents.
proof fn lemma_insert_cent_props(x: CentroidView, s: Seq<CentroidView>)
    requires
        x.weight >= 1,
        weights_pos(s),
        sorted_cent(s),
    ensures
        ({
            let r = insert_cent(x, s);
            &&& r.len() == s.len() + 1
            &&& r.to_multiset() == s.to_multiset().insert(x)
            &&& sorted_cent(r)
            &&& weights_pos(r)
        }),
    decreases s.len(),
{
    broadcast use vstd::seq_lib::group_to_multiset_ensures;
    broadcast use vstd::multiset::group_multiset_axioms;

    let r = insert_cent(x, s);
    if s.len() == 0 {
        assert(seq![x] =~= Seq::<CentroidView>::empty().push(x));
        assert(r.to_multiset() =~= s.to_multiset().insert(x));
    } else if cent_le(x, s[0]) {
        assert(r =~= seq![x] + s);
        vstd::seq_lib::lemma_multiset_commutative(seq![x], s);
        assert(seq![x] =~= Seq::<CentroidView>::empty().push(x));
        assert(r.to_multiset() =~= s.to_multiset().insert(x));
        assert(forall|k: int| 0 <= k < s.len() ==> r[k + 1] == #[trigger] s[k]);
        assert forall|i: int, j: int| 0 <= i < j < r.len() implies cent_le(
            #[trigger] r[i],
            #[trigger] r[j],
        ) by {
            if i == 0 {
                assert(r[j] == s[j - 1]);
                if j > 1 {
                    lemma_cent_le_trans(x, s[0], s[j - 1]);
                }
            } else {
                assert(r[i] == s[i - 1]);
                assert(r[j] == s[j - 1]);
            }
        }
        assert(weights_pos(r));
    } else {
        let tail = s.drop_first();
        assert(weights_pos(tail)) by {
            assert(forall|k: int| 0 <= k < tail.len() ==> #[trigger] tail[k] == s[k + 1]);
        }
        assert(sorted_cent(tail)) by {
            assert(forall|k: int| 0 <= k < tail.len() ==> #[trigger] tail[k] == s[k + 1]);
        }
        lemma_insert_cent_props(x, tail);
        let rest = insert_cent(x, tail);
        assert(r =~= seq![s[0]] + rest);
        assert(s =~= seq![s[0]] + tail);
        vstd::seq_lib::lemma_multiset_commutative(seq![s[0]], tail);
        vstd::seq_lib::lemma_multiset_commutative(seq![s[0]], rest);
        assert(seq![s[0]] =~= Seq::<CentroidView>::empty().push(s[0]));
        assert(r.to_multiset() =~= s.to_multiset().insert(x));
        lemma_cent_le_total(x, s[0]);
        assert(forall|k: int| 0 <= k < rest.len() ==> r[k + 1] == #[trigger] rest[k]);
        assert forall|k: int| 0 <= k < rest.len() implies cent_le(s[0], #[trigger] rest[k]) by {
            assert(rest.contains(rest[k]));
            assert(rest.to_multiset().contains(rest[k]));
            if rest[k] == x {
            } else {
                assert(tail.to_multiset().contains(rest[k]));
                assert(tail.contains(rest[k]));
                let m = choose|m: int| 0 <= m < tail.len() && tail[m] == rest[k];
                assert(tail[m] == s[m + 1]);
                assert(cent_le(s[0], s[m + 1]));
            }
        }
        assert forall|i: int, j: int| 0 <= i < j < r.len() implies cent_le(
            #[trigger] r[i],
            #[trigger] r[j],
        ) by {
            if i == 0 {
                assert(r[j] == rest[j - 1]);
            } else {
                assert(r[i] == rest[i - 1]);
                assert(r[j] == rest[j - 1]);
            }
        }
        assert forall|k: int| 0 <= k < r.len() implies #[trigger] r[k].weight >= 1 by {
            if k > 0 {
                assert(r[k] == rest[k - 1]);
            }
        }
    }
}

/// The canonical sort is sorted and keeps exactly the original contents.
proof fn lemma_sort_cents_props(s: Seq<CentroidView>)
    requires
        weights_pos(s),
    ensures
        ({
            let r = sort_cents(s);
            &&& r.len() == s.len()
            &&& r.to_multiset() == s.to_multiset()
            &&& sorted_cent(r)
            &&& weights_pos(r)
        }),
    decreases s.len(),
{
    broadcast use vstd::seq_lib::group_to_multiset_ensures;
    broadcast use vstd::multiset::group_multiset_axioms;

    if s.len() > 0 {
        let tail = s.drop_first();
        assert(weights_pos(tail)) by {
            assert(forall|k: int| 0 <= k < tail.len() ==> #[trigger] tail[k] == s[k + 1]);
        }
        lemma_sort_cents_props(tail);
        lemma_insert_cent_props(s[0], sort_cents(tail));
        assert(s.remove(0) =~= tail);
        assert(s.to_multiset() =~= tail.to_multiset().insert(s[0]));
    }
}

/// Two canonically sorted runs of positive-weight centroids with the same
/// contents are the same run.
proof fn lemma_sorted_cent_unique(x: Seq<CentroidView>, y: Seq<CentroidView>)
    requires
        sorted_cent(x),
        sorted_cent(y),
        weights_pos(x),
        weights_pos(y),
        x.to_multiset() == y.to_multiset(),
    ensures
        x == y,
    decreases x.len(),
{
    broadcast use vstd::seq_lib::group_to_multiset_ensures;
    broadcast use vstd::multiset::group_multiset_axioms;

    if x.len() == 0 || y.len() == 0 {
        assert(x.to_multiset().len() == x.len());
        assert(y.to_multiset().len() == y.len());
        assert(x =~= y);
    } else {
        assert(x.to_multiset().contains(y[0])) by {
            assert(y.to_multiset().contains(y[0]));
        }
        assert(x.contains(y[0]));
        let i = choose|i: int| 0 <= i < x.len() && x[i] == y[0];
        assert(cent_le(x[0], y[0])) by {
            if i > 0 {
                assert(cent_le(x[0], x[i]));
            } else {
                lemma_cent_le_total(x[0], x[0]);
            }
        }
        assert(y.to_multiset().contains(x[0])) by {
            assert(x.to_multiset().contains(x[0]));
        }
        assert(y.contains(x[0]));
        let j = choose|j: int| 0 <= j < y.len() && y[j] == x[0];
        assert(cent_le(y[0], x[0])) by {
            if j > 0 {
                assert(cent_le(y[0], y[j]));
            } else {
                lemma_cent_le_total(y[0], y[0]);
            }
        }
        lemma_cent_le_antisym(x[0], y[0]);
        let xt = x.drop_first();
        let yt = y.drop_first();
        assert(x.remove(0) =~= xt);
        assert(y.remove(0) =~= yt);
        assert(xt.to_multiset() =~= x.to_multiset().remove(x[0]));
        assert(yt.to_multiset() =~= y.to_multiset().remove(y[0]));
        assert(weights_pos(xt) && sorted_cent(xt)) by {
            assert(forall|k: int| 0 <= k < xt.len() ==> #[trigger] xt[k] == x[k + 1]);
        }
        assert(weights_pos(yt) && sorted_cent(yt)) by {
            assert(forall|k: int| 0 <= k < yt.len() ==> #[trigger] yt[k] == y[k + 1]);
        }
        lemma_sorted_cent_unique(xt, yt);
        assert(x.to_multiset().len() == x.len());
        assert(y.to_multiset().len() == y.len());
        assert forall|k: int| 0 <= k < x.len() implies x[k] == y[k] by {
            if k > 0 {
                assert(x[k] == xt[k - 1]);
                assert(y[k] == yt[k - 1]);
            }
        }
        assert(x =~= y);
    }
}

/// Law: combining two centroid runs and compacting them does not depend on
/// which run is named first. The canonical combination of A and B equals
/// that of B and A exactly, is sorted ascending by mean, and therefore the
/// compaction routine produces identical centroids either way.
pub proof fn lemma_combine_commutes(
    comp: int,
    total: int,
    a: Seq<CentroidView>,
    b: Seq<CentroidView>,
)
    requires
        weights_pos(a),
        weights_pos(b),
    ensures
        sort_cents(a + b) == sort_cents(b + a),
        sorted_means(sort_cents(a + b)),
        compact_model(comp, total, sort_cents(a + b)) == compact_model(
            comp,
            total,
            sort_cents(b + a),
        ),
{
    assert(weights_pos(a + b)) by {
        assert(forall|k: int|
            0 <= k < a.len() + b.len() ==> #[trigger] (a + b)[k] == if k < a.len() {
                a[k]
            } else {
                b[k - a.len()]
            });
    }
    assert(weights_pos(b + a)) by {
        assert(forall|k: int|
            0 <= k < a.len() + b.len() ==> #[trigger] (b + a)[k] == if k < b.len() {
                b[k]
            } else {
                a[k - b.len()]
            });
    }
    lemma_sort_cents_props(a + b);
    lemma_sort_cents_props(b + a);
    vstd::seq_lib::lemma_multiset_commutative(a, b);
    vstd::seq_lib::lemma_multiset_commutative(b, a);
    broadcast use vstd::multiset::group_multiset_axioms;

    assert((a + b).to_multiset() =~= (b + a).to_multiset());
    lemma_sorted_cent_unique(sort_cents(a + b), sort_cents(b + a));
    let r = sort_cents(a + b);
    assert forall|k: int| 0 <= k && k + 1 < r.len() implies mean_le(#[trigger] r[k], r[k + 1]) by {
        lemma_cent_le_mean_le(r[k], r[k + 1]);
    }
}

} // verus!
