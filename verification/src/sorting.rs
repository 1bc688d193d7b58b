//! Sorting support for the compaction pass.
//!
//! Raw buffered observations are sorted with std's unstable sort, taken on
//! trust with the contract its documentation states: the vector afterwards is
//! ascending and holds exactly the same elements. A bridge lemma then pins
//! the sorted vector to the unique sorted permutation `Seq::sort_by` denotes,
//! so callers get a deterministic description of the result.

use vstd::prelude::*;
use vstd::relations::{sorted_by, total_ordering};
use vstd::seq_lib::lemma_sorted_unique;

verus! {

/// The ascending order on observations, as a spec relation.
pub open spec fn value_le(x: i64, y: i64) -> bool {
    x <= y
}

/// The unique ascending reordering of a sequence of observations.
pub open spec fn sort_values_spec(s: Seq<i64>) -> Seq<i64> {
    s.sort_by(|x: i64, y: i64| value_le(x, y))
}

/// Relies on std's `slice::sort_unstable`: it sorts the slice in place in
/// ascending order and keeps exactly the same elements.
#[verifier::external_body]
fn sort_raw(v: &mut Vec<i64>)
    ensures
        final(v)@.to_multiset() == old(v)@.to_multiset(),
        forall|i: int, j: int|
            0 <= i < j < final(v)@.len() ==> #[trigger] final(v)@[i] <= #[trigger] final(v)@[j],
{
    v.sort_unstable();
}

/// `value_le` is a total order, so a sorted permutation is unique.
pub proof fn lemma_value_le_total_ordering()
    ensures
        total_ordering(|x: i64, y: i64| value_le(x, y)),
{
    let leq = |x: i64, y: i64| value_le(x, y);
    assert forall|x: i64| #[trigger] leq(x, x) by {}
    assert forall|x: i64, y: i64| #[trigger] leq(x, y) && #[trigger] leq(y, x) implies x == y by {}
    assert forall|x: i64, y: i64, z: i64| #[trigger] leq(x, y) && #[trigger] leq(y, z)
        implies leq(x, z) by {}
    assert forall|x: i64, y: i64| #[trigger] leq(x, y) || #[trigger] leq(y, x) by {}
}

/// The sorted reordering keeps the length, is ascending, and draws every
/// element from the original sequence.
pub proof fn lemma_sort_values_props(s: Seq<i64>)
    ensures
        sort_values_spec(s).len() == s.len(),
        forall|i: int, j: int|
            0 <= i < j < sort_values_spec(s).len() ==> #[trigger] sort_values_spec(s)[i]
                <= #[trigger] sort_values_spec(s)[j],
        forall|i: int|
            0 <= i < sort_values_spec(s).len() ==> s.contains(#[trigger] sort_values_spec(s)[i]),
{
    broadcast use vstd::seq_lib::group_to_multiset_ensures;

    let leq = |x: i64, y: i64| value_le(x, y);
    lemma_value_le_total_ordering();
    s.lemma_sort_by_ensures(leq);
    let t = sort_values_spec(s);
    assert(s.to_multiset().len() == s.len());
    assert(t.to_multiset().len() == t.len());
    assert forall|i: int| 0 <= i < t.len() implies s.contains(#[trigger] t[i]) by {
        assert(t.contains(t[i]));
    }
    assert forall|i: int, j: int| 0 <= i < j < t.len() implies #[trigger] t[i] <= #[trigger] t[j] by {
        assert(leq(t[i], t[j]));
    }
}

/// Sum of the observations `s[i..]`.
pub open spec fn int_sum_from(s: Seq<i64>, i: int) -> int
    decreases s.len() - i,
{
    if i < 0 || i >= s.len() {
        0
    } else {
        s[i] + int_sum_from(s, i + 1)
    }
}

/// Sum of all observations of the sequence.
pub open spec fn int_sum(s: Seq<i64>) -> int {
    int_sum_from(s, 0)
}

/// Removing an element past the reading position leaves a tail sum short by
/// exactly that element.
proof fn lemma_int_sum_tail_shift(s: Seq<i64>, j: int, k: int)
    requires
        0 <= j < s.len(),
        j <= k <= s.len() - 1,
    ensures
        int_sum_from(s.remove(j), k) == int_sum_from(s, k + 1),
    decreases s.len() - k,
{
    if k < s.len() - 1 {
        lemma_int_sum_tail_shift(s, j, k + 1);
        assert(s.remove(j)[k] == s[k + 1]);
    }
}

/// The sum of a sequence is any one element plus the sum of the rest.
proof fn lemma_int_sum_remove(s: Seq<i64>, j: int, i: int)
    requires
        0 <= i <= j < s.len(),
    ensures
        int_sum_from(s, i) == s[j] + int_sum_from(s.remove(j), i),
    decreases j - i,
{
    if i == j {
        lemma_int_sum_tail_shift(s, j, j);
    } else {
        lemma_int_sum_remove(s, j, i + 1);
        assert(s.remove(j)[i] == s[i]);
    }
}

/// Sequences with the same contents have the same sum.
pub proof fn lemma_int_sum_permutation(x: Seq<i64>, y: Seq<i64>)
    requires
        x.to_multiset() == y.to_multiset(),
    ensures
        int_sum(x) == int_sum(y),
    decreases x.len(),
{
    broadcast use vstd::seq_lib::group_to_multiset_ensures;
    broadcast use vstd::multiset::group_multiset_axioms;

    assert(x.to_multiset().len() == x.len());
    assert(y.to_multiset().len() == y.len());
    if x.len() > 0 {
        assert(y.to_multiset().contains(x[0])) by {
            assert(x.to_multiset().contains(x[0]));
        }
        assert(y.contains(x[0]));
        let j = choose|j: int| 0 <= j < y.len() && y[j] == x[0];
        let xt = x.drop_first();
        assert(x.remove(0) =~= xt);
        assert(xt.to_multiset() =~= x.to_multiset().remove(x[0]));
        assert(y.remove(j).to_multiset() =~= y.to_multiset().remove(y[j]));
        lemma_int_sum_permutation(xt, y.remove(j));
        lemma_int_sum_remove(x, 0, 0);
        lemma_int_sum_remove(y, j, 0);
        assert(x.remove(0) =~= xt);
    }
}

/// Sorting keeps the sum of the observations.
pub proof fn lemma_sort_preserves_sum(s: Seq<i64>)
    ensures
        int_sum(sort_values_spec(s)) == int_sum(s),
{
    let leq = |x: i64, y: i64| value_le(x, y);
    lemma_value_le_total_ordering();
    s.lemma_sort_by_ensures(leq);
    lemma_int_sum_permutation(sort_values_spec(s), s);
}

/// Sorts the vector ascending; the result is pinned to `sort_values_spec`
/// of the old contents.
pub fn sort_values(v: &mut Vec<i64>)
    ensures
        final(v)@ == sort_values_spec(old(v)@),
{
    sort_raw(v);
    proof {
        let leq = |x: i64, y: i64| value_le(x, y);
        lemma_value_le_total_ordering();
        old(v)@.lemma_sort_by_ensures(leq);
        assert(sorted_by(v@, leq));
        assert(v@.to_multiset() == sort_values_spec(old(v)@).to_multiset());
        lemma_sorted_unique(v@, sort_values_spec(old(v)@), leq);
        assert(v@ =~= sort_values_spec(old(v)@));
    }
}

} // verus!
