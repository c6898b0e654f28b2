//! Percentile calibration: order statistics over all values seen.
use vstd::prelude::*;

use crate::quant::range::{
    abs_bits, fold_max, fold_min, is_nan, is_nan_bits, lemma_fold_max_is_greatest,
    lemma_fold_min_is_least, magnitude, order_key, value_rank, NEG_INFINITY_BITS,
    POS_INFINITY_BITS,
};

verus! {

/// The values of `s` are in non-decreasing order of value.
pub open spec fn sorted_by_value(s: Seq<u32>) -> bool {
    forall|i: int, j: int| 0 <= i <= j < s.len() ==> value_rank(s[i]) <= value_rank(s[j])
}

/// `s` holds the same values as `t`, each as many times, in non-decreasing
/// order of value.
pub open spec fn is_sorted_arrangement(s: Seq<u32>, t: Seq<u32>) -> bool {
    &&& s.len() == t.len()
    &&& s.to_multiset() == t.to_multiset()
    &&& sorted_by_value(s)
}

/// `idx` capped at the last position of a sequence of length `n`.
pub open spec fn capped_index(idx: int, n: int) -> int {
    if idx < n {
        idx
    } else {
        n - 1
    }
}

/// The magnitudes (absolute values) of the patterns in `s`.
pub open spec fn magnitudes(s: Seq<u32>) -> Seq<u32> {
    s.map_values(|b: u32| magnitude(b) as u32)
}

/// How many values of `s` satisfy `p`.
pub open spec fn count_where(s: Seq<u32>, p: spec_fn(u32) -> bool) -> nat
    decreases s.len(),
{
    if s.len() == 0 {
        0
    } else {
        count_where(s.drop_last(), p) + (if p(s.last()) {
            1nat
        } else {
            0nat
        })
    }
}

/// Law: `count_where` is the number of values of `s` that `p` keeps.
pub proof fn lemma_count_where_is_filter_len(s: Seq<u32>, p: spec_fn(u32) -> bool)
    ensures
        count_where(s, p) == s.filter(p).len(),
    decreases s.len(),
{
    reveal_with_fuel(Seq::<u32>::filter, 1);
    if s.len() > 0 {
        lemma_count_where_is_filter_len(s.drop_last(), p);
    }
}

/// Law: a capped position is the position itself when it is inside the
/// sequence, and the last position otherwise.
pub proof fn lemma_capped_index(idx: int, n: int)
    requires
        0 <= idx,
        n >= 1,
    ensures
        idx < n ==> capped_index(idx, n) == idx,
        idx >= n ==> capped_index(idx, n) == n - 1,
        0 <= capped_index(idx, n) < n,
{
}

/// Law: the magnitudes of a sequence have one entry per value, the
/// magnitude of the value at the same position.
pub proof fn lemma_magnitudes(s: Seq<u32>)
    ensures
        magnitudes(s).len() == s.len(),
        forall|i: int| 0 <= i < s.len() ==> #[trigger] magnitudes(s)[i] == magnitude(s[i]),
{
}

proof fn lemma_count_at_most_len(s: Seq<u32>, p: spec_fn(u32) -> bool)
    ensures
        count_where(s, p) <= s.len(),
    decreases s.len(),
{
    if s.len() > 0 {
        lemma_count_at_most_len(s.drop_last(), p);
    }
}

proof fn lemma_count_remove(t: Seq<u32>, i: int, p: spec_fn(u32) -> bool)
    requires
        0 <= i < t.len(),
    ensures
        count_where(t, p) == count_where(t.remove(i), p) + (if p(t[i]) {
            1nat
        } else {
            0nat
        }),
    decreases t.len(),
{
    if i == t.len() - 1 {
        assert(t.remove(i) =~= t.drop_last());
    } else {
        lemma_count_remove(t.drop_last(), i, p);
        assert(t.remove(i).drop_last() =~= t.drop_last().remove(i));
        assert(t.remove(i).last() == t.last());
    }
}

proof fn lemma_count_same_multiset(s: Seq<u32>, t: Seq<u32>, p: spec_fn(u32) -> bool)
    requires
        s.to_multiset() == t.to_multiset(),
    ensures
        count_where(s, p) == count_where(t, p),
    decreases s.len(),
{
    broadcast use vstd::seq_lib::group_to_multiset_ensures;
    broadcast use vstd::multiset::group_multiset_axioms;

    if s.len() == 0 {
        assert(t.to_multiset().len() == 0);
        assert(t.len() == 0);
    } else {
        let x = s.last();
        let q = s.drop_last();
        assert(s =~= q.push(x));
        assert(s.to_multiset() =~= q.to_multiset().insert(x));
        assert(t.to_multiset().count(x) > 0);
        assert(t.contains(x));
        let i = choose|i: int| 0 <= i < t.len() && t[i] == x;
        let u = t.remove(i);
        assert(u.to_multiset() =~= t.to_multiset().remove(x));
        assert(q.to_multiset() =~= u.to_multiset());
        lemma_count_same_multiset(q, u, p);
        lemma_count_remove(t, i, p);
    }
}

proof fn lemma_count_tail_excluded(s: Seq<u32>, m: int, p: spec_fn(u32) -> bool)
    requires
        0 <= m,
        forall|j: int| m <= j < s.len() ==> !p(#[trigger] s[j]),
    ensures
        count_where(s, p) <= m,
    decreases s.len(),
{
    if s.len() <= m {
        lemma_count_at_most_len(s, p);
    } else {
        let q = s.drop_last();
        assert forall|j: int| m <= j < q.len() implies !p(#[trigger] q[j]) by {
            assert(q[j] == s[j]);
        }
        lemma_count_tail_excluded(q, m, p);
        assert(!p(s[s.len() - 1]));
    }
}

proof fn lemma_count_head_included(s: Seq<u32>, m: int, p: spec_fn(u32) -> bool)
    requires
        0 <= m <= s.len(),
        forall|j: int| 0 <= j < m ==> p(#[trigger] s[j]),
    ensures
        count_where(s, p) >= m,
    decreases s.len(),
{
    if s.len() > 0 {
        let q = s.drop_last();
        if m == s.len() {
            assert forall|j: int| 0 <= j < m - 1 implies p(#[trigger] q[j]) by {
                assert(q[j] == s[j]);
            }
            lemma_count_head_included(q, m - 1, p);
            assert(p(s[s.len() - 1]));
        } else {
            assert forall|j: int| 0 <= j < m implies p(#[trigger] q[j]) by {
                assert(q[j] == s[j]);
            }
            lemma_count_head_included(q, m, p);
        }
    }
}

/// Law: the entry at position `k` of a sorted arrangement of `values` is the
/// `k`-th smallest value (from 0): at most `k` values are smaller than it and
/// more than `k` values are no greater than it.
pub proof fn lemma_sorted_position_is_order_statistic(values: Seq<u32>, s: Seq<u32>, k: int)
    requires
        is_sorted_arrangement(s, values),
        0 <= k < s.len(),
    ensures
        count_where(values, |b: u32| value_rank(b) < value_rank(s[k])) <= k,
        k < count_where(values, |b: u32| value_rank(b) <= value_rank(s[k])),
{
    let below = |b: u32| value_rank(b) < value_rank(s[k]);
    let at_most = |b: u32| value_rank(b) <= value_rank(s[k]);
    assert forall|j: int| k <= j < s.len() implies !below(#[trigger] s[j]) by {
        assert(value_rank(s[k]) <= value_rank(s[j]));
    }
    lemma_count_tail_excluded(s, k, below);
    assert forall|j: int| 0 <= j < k + 1 implies at_most(#[trigger] s[j]) by {
        assert(value_rank(s[j]) <= value_rank(s[k]));
    }
    lemma_count_head_included(s, k + 1, at_most);
    lemma_count_same_multiset(s, values, below);
    lemma_count_same_multiset(s, values, at_most);
}

/// Sorts by value with `slice::sort_by_key`, keyed by `order_key`.
///
/// Trusted: std documents `sort_by_key` as sorting the slice in ascending
/// order of the key while only permuting its elements; `order_key` is
/// monotone in `value_rank`, so the result is a sorted arrangement of the
/// input. Its stability on equal keys is not stated.
#[verifier::external_body]
fn sort_by_value(v: &mut Vec<u32>)
    ensures
        is_sorted_arrangement(final(v)@, old(v)@),
{
    v.sort_by_key(|b| order_key(*b));
}

/// Collects every value of the batches it is fed and answers order-statistic
/// queries over them. Values are binary32 bit patterns.
pub struct PercentileCalibrator {
    percentile: u32,
    all_values: Vec<u32>,
}

impl View for PercentileCalibrator {
    /// (percentile, all values in the order they were fed)
    type V = (u32, Seq<u32>);

    closed spec fn view(&self) -> (u32, Seq<u32>) {
        (self.percentile, self.all_values@)
    }
}

impl PercentileCalibrator {
    /// A calibrator for the given percentile (already clamped to `[0, 100]`
    /// by the caller) that has seen no values.
    pub fn new(percentile: u32) -> (c: Self)
        ensures
            c@ == (percentile, Seq::<u32>::empty()),
    {
        PercentileCalibrator { percentile, all_values: Vec::new() }
    }

    /// The percentile this calibrator was made with.
    pub fn percentile(&self) -> (r: u32)
        ensures
            r == self@.0,
    {
        self.percentile
    }

    /// Appends the values of a batch.
    pub fn update(&mut self, batch: &Vec<u32>)
        ensures
            final(self)@ == (old(self)@.0, old(self)@.1 + batch@),
    {
        let mut i: usize = 0;
        while i < batch.len()
            invariant
                i <= batch.len(),
                self@ == (old(self)@.0, old(self)@.1 + batch@.take(i as int)),
            decreases batch.len() - i,
        {
            self.all_values.push(batch[i]);
            proof {
                assert(batch@.take(i + 1) =~= batch@.take(i as int).push(batch@[i as int]));
            }
            i = i + 1;
        }
        proof {
            assert(batch@.take(batch.len() as int) =~= batch@);
        }
    }

    /// The number of values seen.
    pub fn num_samples(&self) -> (r: usize)
        ensures
            r == self@.1.len(),
    {
        self.all_values.len()
    }

    /// Whether some value seen is a NaN.
    pub fn has_nan(&self) -> (r: bool)
        ensures
            r == exists|i: int| 0 <= i < self@.1.len() && is_nan(#[trigger] self@.1[i]),
    {
        let mut i: usize = 0;
        while i < self.all_values.len()
            invariant
                i <= self.all_values.len(),
                forall|j: int| 0 <= j < i ==> !is_nan(#[trigger] self@.1[j]),
            decreases self.all_values.len() - i,
        {
            if is_nan_bits(self.all_values[i]) {
                proof {
                    assert(is_nan(self@.1[i as int]));
                }
                return true;
            }
            i = i + 1;
        }
        false
    }

    /// The value at position `min(idx, n - 1)` of the values seen, sorted by
    /// value.
    pub fn value_at(&self, idx: usize) -> (r: u32)
        requires
            self@.1.len() > 0,
        ensures
            exists|s: Seq<u32>|
                is_sorted_arrangement(s, self@.1) && r == s[capped_index(
                    idx as int,
                    s.len() as int,
                )],
            idx < self@.1.len() ==> count_where(self@.1, |b: u32| value_rank(b) < value_rank(r))
                <= idx < count_where(self@.1, |b: u32| value_rank(b) <= value_rank(r)),
            idx >= self@.1.len() ==> count_where(self@.1, |b: u32| value_rank(b) <= value_rank(r))
                == self@.1.len(),
    {
        let mut sorted = self.all_values.clone();
        proof {
            assert(sorted@ =~= self@.1);
        }
        sort_by_value(&mut sorted);
        let n = sorted.len();
        let k = if idx < n { idx } else { n - 1 };
        proof {
            lemma_sorted_position_is_order_statistic(self@.1, sorted@, k as int);
            lemma_count_at_most_len(
                self@.1,
                |b: u32| value_rank(b) <= value_rank(sorted@[k as int]),
            );
        }
        sorted[k]
    }

    /// The absolute value at position `min(idx, n - 1)` of the absolute
    /// values seen, sorted by value.
    pub fn abs_value_at(&self, idx: usize) -> (r: u32)
        requires
            self@.1.len() > 0,
        ensures
            exists|s: Seq<u32>|
                is_sorted_arrangement(s, magnitudes(self@.1)) && r == s[capped_index(
                    idx as int,
                    s.len() as int,
                )],
            idx < self@.1.len() ==> count_where(
                magnitudes(self@.1),
                |b: u32| value_rank(b) < value_rank(r),
            ) <= idx < count_where(magnitudes(self@.1), |b: u32| value_rank(b) <= value_rank(r)),
            idx >= self@.1.len() ==> count_where(
                magnitudes(self@.1),
                |b: u32| value_rank(b) <= value_rank(r),
            ) == self@.1.len(),
    {
        let mut abs_values: Vec<u32> = Vec::with_capacity(self.all_values.len());
        let mut i: usize = 0;
        while i < self.all_values.len()
            invariant
                i <= self.all_values.len(),
                abs_values@ =~= magnitudes(self@.1.take(i as int)),
            decreases self.all_values.len() - i,
        {
            abs_values.push(abs_bits(self.all_values[i]));
            proof {
                assert(self@.1.take(i + 1) =~= self@.1.take(i as int).push(self@.1[i as int]));
            }
            i = i + 1;
        }
        proof {
            assert(self@.1.take(self@.1.len() as int) =~= self@.1);
        }
        let ghost mags = abs_values@;
        sort_by_value(&mut abs_values);
        let n = abs_values.len();
        let k = if idx < n { idx } else { n - 1 };
        proof {
            lemma_sorted_position_is_order_statistic(mags, abs_values@, k as int);
            lemma_count_at_most_len(
                mags,
                |b: u32| value_rank(b) <= value_rank(abs_values@[k as int]),
            );
        }
        abs_values[k]
    }

    /// Forgets every value seen.
    pub fn reset(&mut self)
        ensures
            final(self)@ == (old(self)@.0, Seq::<u32>::empty()),
    {
        self.all_values.clear();
    }
}


/// Law: for values without NaN, the first and last entries of their sorted
/// arrangement are the minimum and maximum that min-max calibration finds, so
/// the extreme percentiles select the min-max range.
pub proof fn lemma_extreme_order_statistics(values: Seq<u32>, s: Seq<u32>)
    requires
        values.len() > 0,
        forall|i: int| 0 <= i < values.len() ==> !is_nan(#[trigger] values[i]),
        is_sorted_arrangement(s, values),
    ensures
        value_rank(s[0]) == value_rank(fold_min(POS_INFINITY_BITS, values)),
        value_rank(s[s.len() - 1]) == value_rank(fold_max(NEG_INFINITY_BITS, values)),
{
    broadcast use vstd::seq_lib::group_to_multiset_ensures;

    lemma_fold_min_is_least(POS_INFINITY_BITS, values);
    lemma_fold_max_is_greatest(NEG_INFINITY_BITS, values);
    let lo = fold_min(POS_INFINITY_BITS, values);
    let hi = fold_max(NEG_INFINITY_BITS, values);
    let first = s[0];
    let last = s[s.len() - 1];
    assert(s.contains(first));
    assert(s.to_multiset().count(first) > 0);
    assert(values.contains(first));
    assert(s.contains(last));
    assert(s.to_multiset().count(last) > 0);
    assert(values.contains(last));
    let i0 = choose|i: int| 0 <= i < values.len() && values[i] == first;
    let i1 = choose|i: int| 0 <= i < values.len() && values[i] == last;
    assert(value_rank(lo) <= value_rank(values[i0]));
    assert(value_rank(hi) >= value_rank(values[i1]));
    if lo != POS_INFINITY_BITS {
        let j = choose|j: int| 0 <= j < values.len() && values[j] == lo;
        assert(values.contains(lo));
        assert(values.to_multiset().count(lo) > 0);
        assert(s.contains(lo));
        let k = choose|k: int| 0 <= k < s.len() && s[k] == lo;
        assert(value_rank(s[0]) <= value_rank(s[k]));
    }
    if hi != NEG_INFINITY_BITS {
        let j = choose|j: int| 0 <= j < values.len() && values[j] == hi;
        assert(values.contains(hi));
        assert(values.to_multiset().count(hi) > 0);
        assert(s.contains(hi));
        let k = choose|k: int| 0 <= k < s.len() && s[k] == hi;
        assert(value_rank(s[k]) <= value_rank(s[s.len() - 1]));
    }
}


/// The ranks of the values of `s`, in order.
pub open spec fn ranks(s: Seq<u32>) -> Seq<int> {
    s.map_values(|b: u32| value_rank(b))
}

/// Sequences holding the same values hold the same ranks.
proof fn lemma_ranks_same_multiset(s: Seq<u32>, t: Seq<u32>)
    requires
        s.to_multiset() == t.to_multiset(),
    ensures
        ranks(s).to_multiset() == ranks(t).to_multiset(),
    decreases s.len(),
{
    broadcast use vstd::seq_lib::group_to_multiset_ensures;
    broadcast use vstd::multiset::group_multiset_axioms;

    if s.len() == 0 {
        assert(t.to_multiset().len() == 0);
        assert(t.len() == 0);
        assert(ranks(s) =~= ranks(t));
    } else {
        let x = s.last();
        let p = s.drop_last();
        assert(s =~= p.push(x));
        assert(s.to_multiset() =~= p.to_multiset().insert(x));
        assert(t.to_multiset().count(x) > 0);
        assert(t.contains(x));
        let i = choose|i: int| 0 <= i < t.len() && t[i] == x;
        let u = t.remove(i);
        assert(u.to_multiset() =~= t.to_multiset().remove(x));
        assert(p.to_multiset() =~= u.to_multiset());
        lemma_ranks_same_multiset(p, u);
        assert(ranks(s) =~= ranks(p).push(value_rank(x)));
        assert(ranks(s).to_multiset() =~= ranks(p).to_multiset().insert(value_rank(x)));
        assert(ranks(t).remove(i) =~= ranks(u));
        assert(ranks(t)[i] == value_rank(x));
        assert(ranks(u).to_multiset() =~= ranks(t).to_multiset().remove(value_rank(x)));
        assert(ranks(t).to_multiset().count(value_rank(x)) > 0) by {
            assert(ranks(t).contains(value_rank(x)));
        }
        assert(ranks(t).to_multiset() =~= ranks(u).to_multiset().insert(value_rank(x)));
    }
}

/// Law: two sorted arrangements of the same values agree, position by
/// position, on the value they hold (they can differ only in the sign of a
/// zero), so an order statistic does not depend on how ties were arranged.
pub proof fn lemma_sorted_arrangements_agree(values: Seq<u32>, s: Seq<u32>, t: Seq<u32>)
    requires
        is_sorted_arrangement(s, values),
        is_sorted_arrangement(t, values),
    ensures
        forall|k: int| 0 <= k < values.len() ==> value_rank(#[trigger] s[k]) == value_rank(t[k]),
{
    lemma_ranks_same_multiset(s, t);
    let leq = |a: int, b: int| a <= b;
    assert(vstd::relations::total_ordering(leq));
    assert(vstd::relations::sorted_by(ranks(s), leq));
    assert(vstd::relations::sorted_by(ranks(t), leq));
    vstd::seq_lib::lemma_sorted_unique(ranks(s), ranks(t), leq);
    assert forall|k: int| 0 <= k < values.len() implies value_rank(#[trigger] s[k]) == value_rank(
        t[k],
    ) by {
        assert(ranks(s)[k] == ranks(t)[k]);
    }
}

} // verus!
