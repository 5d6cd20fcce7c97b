//! Sums of weights, (weight, player) pairs and the greedy pick that the
//! subset-selection strategies share, with the facts proved about them.

use crate::player::Player;
use vstd::prelude::*;
use vstd::relations::*;

verus! {

broadcast use vstd::seq_lib::group_to_multiset_ensures;

/// Combined weight of a weight vector.
pub open spec fn sum(s: Seq<usize>) -> int
    decreases s.len(),
{
    if s.len() == 0 {
        0
    } else {
        sum(s.drop_last()) + s.last()
    }
}

/// Exclusive prefix sum: the combined weight of the first `i` entries.
pub open spec fn prefix_sum(s: Seq<usize>, i: int) -> int {
    sum(s.take(i))
}

/// `i` is the first index of `s` that holds a zero weight.
pub open spec fn is_first_zero(s: Seq<usize>, i: int) -> bool {
    &&& 0 <= i < s.len()
    &&& s[i] == 0
    &&& forall|j: int| 0 <= j < i ==> s[j] > 0
}

/// Every weight of `s` is positive.
pub open spec fn all_positive(s: Seq<usize>) -> bool {
    forall|i: int| 0 <= i < s.len() ==> s[i] > 0
}

/// `m` is the largest weight of `s`.
pub open spec fn is_max_of(m: int, s: Seq<usize>) -> bool {
    &&& exists|i: int| 0 <= i < s.len() && s[i] == m
    &&& forall|i: int| 0 <= i < s.len() ==> s[i] <= m
}

/// The (weight, player index) pairs of a weight vector, in player order.
pub open spec fn weight_index_pairs(w: Seq<usize>) -> Seq<(usize, usize)> {
    Seq::new(w.len(), |i: int| (w[i], i as usize))
}

/// Combined weight of a sequence of (weight, player index) pairs.
pub open spec fn pair_weight_sum(s: Seq<(usize, usize)>) -> int
    decreases s.len(),
{
    if s.len() == 0 {
        0
    } else {
        pair_weight_sum(s.drop_last()) + s.last().0
    }
}

/// Combined weight of the `k` pairs of `s` that start at position `a`.
pub open spec fn window_sum(s: Seq<(usize, usize)>, a: int, k: int) -> int {
    pair_weight_sum(s.subrange(a, a + k))
}

/// The order of (weight, player index) pairs: by weight, then by index.
pub open spec fn pair_le(a: (usize, usize), b: (usize, usize)) -> bool {
    a.0 < b.0 || (a.0 == b.0 && a.1 <= b.1)
}

pub open spec fn pair_order() -> spec_fn((usize, usize), (usize, usize)) -> bool {
    |a: (usize, usize), b: (usize, usize)| pair_le(a, b)
}

/// The players picked by taking pairs off the end of `s`, one at a time,
/// until their combined weight reaches `t`.
pub open spec fn greedy_pick(s: Seq<(usize, usize)>, t: int) -> Seq<Player>
    decreases s.len(),
{
    if t <= 0 || s.len() == 0 {
        Seq::empty()
    } else {
        seq![Player { id: s.last().1 }] + greedy_pick(s.drop_last(), t - s.last().0)
    }
}

pub proof fn lemma_pair_order_total()
    ensures
        total_ordering(pair_order()),
{
}

pub proof fn lemma_pair_sum_nonneg(s: Seq<(usize, usize)>)
    ensures
        pair_weight_sum(s) >= 0,
    decreases s.len(),
{
    if s.len() > 0 {
        lemma_pair_sum_nonneg(s.drop_last());
    }
}

/// Taking the pair at `i` out by moving the last pair into its place lowers
/// the combined weight by the weight of that pair.
pub proof fn lemma_pair_sum_swap_remove(s: Seq<(usize, usize)>, i: int)
    requires
        0 <= i < s.len(),
    ensures
        pair_weight_sum(s.update(i, s.last()).drop_last()) == pair_weight_sum(s) - s[i].0,
{
    lemma_pair_sum_update(s, i, s.last());
}

pub proof fn lemma_prefix_sum_step(s: Seq<usize>, i: int)
    requires
        0 <= i < s.len(),
    ensures
        prefix_sum(s, i + 1) == prefix_sum(s, i) + s[i],
{
    assert(s.take(i + 1).drop_last() =~= s.take(i));
}

pub proof fn lemma_prefix_sum_full(s: Seq<usize>)
    ensures
        prefix_sum(s, s.len() as int) == sum(s),
{
    assert(s.take(s.len() as int) =~= s);
}

pub proof fn lemma_prefix_sum_monotone(s: Seq<usize>, i: int, j: int)
    requires
        0 <= i <= j <= s.len(),
    ensures
        0 <= prefix_sum(s, i) <= prefix_sum(s, j),
    decreases j,
{
    if j == 0 {
        assert(s.take(0) =~= Seq::<usize>::empty());
    } else {
        lemma_prefix_sum_step(s, j - 1);
        if i < j {
            lemma_prefix_sum_monotone(s, i, j - 1);
        } else {
            lemma_prefix_sum_monotone(s, i - 1, j - 1);
        }
    }
}

/// Each prefix sum is at most the whole sum.
pub proof fn lemma_prefix_sum_bounded(s: Seq<usize>, i: int)
    requires
        0 <= i <= s.len(),
    ensures
        0 <= prefix_sum(s, i) <= sum(s),
{
    lemma_prefix_sum_monotone(s, i, s.len() as int);
    lemma_prefix_sum_full(s);
}

pub proof fn lemma_pairs_sum(w: Seq<usize>)
    ensures
        pair_weight_sum(weight_index_pairs(w)) == sum(w),
    decreases w.len(),
{
    if w.len() > 0 {
        assert(weight_index_pairs(w).drop_last() =~= weight_index_pairs(w.drop_last()));
        lemma_pairs_sum(w.drop_last());
    }
}

pub proof fn lemma_pair_sum_remove(s: Seq<(usize, usize)>, i: int)
    requires
        0 <= i < s.len(),
    ensures
        pair_weight_sum(s) == pair_weight_sum(s.remove(i)) + s[i].0,
    decreases s.len(),
{
    if i == s.len() - 1 {
        assert(s.remove(i) =~= s.drop_last());
    } else {
        assert(s.remove(i).drop_last() =~= s.drop_last().remove(i));
        lemma_pair_sum_remove(s.drop_last(), i);
    }
}

pub proof fn lemma_pair_sum_update(s: Seq<(usize, usize)>, i: int, x: (usize, usize))
    requires
        0 <= i < s.len(),
    ensures
        pair_weight_sum(s.update(i, x)) == pair_weight_sum(s) - s[i].0 + x.0,
    decreases s.len(),
{
    if i == s.len() - 1 {
        assert(s.update(i, x).drop_last() =~= s.drop_last());
    } else {
        assert(s.update(i, x).drop_last() =~= s.drop_last().update(i, x));
        lemma_pair_sum_update(s.drop_last(), i, x);
    }
}

/// Sequences that hold the same pairs have the same combined weight.
pub proof fn lemma_pair_sum_permutation(s: Seq<(usize, usize)>, r: Seq<(usize, usize)>)
    requires
        s.to_multiset() == r.to_multiset(),
    ensures
        pair_weight_sum(s) == pair_weight_sum(r),
    decreases r.len(),
{
    broadcast use vstd::multiset::group_multiset_axioms;

    if r.len() > 0 {
        let x = r.last();
        assert(r.to_multiset().count(x) > 0) by {
            assert(r.contains(x));
        }
        assert(s.contains(x));
        let i = choose|i: int| 0 <= i < s.len() && s[i] == x;
        assert(r.drop_last() =~= r.remove(r.len() - 1));
        lemma_pair_sum_remove(s, i);
        lemma_pair_sum_permutation(s.remove(i), r.drop_last());
    } else {
        assert(s.len() == s.to_multiset().len());
    }
}

pub proof fn lemma_pair_sum_reverse(s: Seq<(usize, usize)>)
    ensures
        pair_weight_sum(s.reverse()) == pair_weight_sum(s),
{
    s.lemma_reverse_to_multiset();
    lemma_pair_sum_permutation(s.reverse(), s);
}

/// In a sequence sorted by weight, a window further right weighs at least as
/// much as one of the same length further left.
pub proof fn lemma_window_sum_sorted(s: Seq<(usize, usize)>, a: int, b: int, k: int)
    requires
        sorted_by(s, pair_order()),
        0 <= a <= b,
        0 <= k,
        b + k <= s.len(),
    ensures
        window_sum(s, a, k) <= window_sum(s, b, k),
    decreases k,
{
    if k > 0 {
        assert(s.subrange(a, a + k).drop_last() =~= s.subrange(a, a + k - 1));
        assert(s.subrange(b, b + k).drop_last() =~= s.subrange(b, b + k - 1));
        if a < b {
            assert(pair_order()(s[a + k - 1], s[b + k - 1]));
        }
        lemma_window_sum_sorted(s, a, b, k - 1);
    }
}

/// The greedy pick takes as few pairs from the end as suffice to reach `t`.
pub proof fn lemma_greedy_pick_minimal(s: Seq<(usize, usize)>, t: int, j: int)
    requires
        0 <= j <= s.len(),
        window_sum(s, s.len() - j, j) >= t,
    ensures
        greedy_pick(s, t).len() <= j,
    decreases s.len(),
{
    if t > 0 && s.len() > 0 {
        if j == 0 {
            assert(s.subrange(s.len() - j, s.len() as int) =~= Seq::<(usize, usize)>::empty());
        } else {
            let n = s.len() as int;
            assert(s.subrange(n - j, n).drop_last() =~= s.drop_last().subrange(n - j, n - 1));
            lemma_greedy_pick_minimal(s.drop_last(), t - s.last().0, j - 1);
        }
    }
}

/// When the pairs weigh at least `t` in all, the greedy pick reaches `t`.
pub proof fn lemma_greedy_pick_reaches(s: Seq<(usize, usize)>, t: int)
    requires
        t <= pair_weight_sum(s),
    ensures
        greedy_pick(s, t).len() <= s.len(),
        window_sum(s, s.len() - greedy_pick(s, t).len(), greedy_pick(s, t).len() as int) >= t,
    decreases s.len(),
{
    let n = s.len() as int;
    if t <= 0 || n == 0 {
        assert(s.subrange(n, n) =~= Seq::<(usize, usize)>::empty());
    } else {
        let k = greedy_pick(s, t).len() as int;
        lemma_greedy_pick_reaches(s.drop_last(), t - s.last().0);
        assert(s.subrange(n - k, n).drop_last() =~= s.drop_last().subrange(n - k, n - 1));
    }
}

} // verus!
