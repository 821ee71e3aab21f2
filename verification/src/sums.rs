//! Sums of a projection over a sequence, with the algebra the ledger
//! invariants need: summing one more element, replacing one element, and
//! bounding a sum by a per-element bound.
use vstd::prelude::*;

verus! {

/// Sum of `f` over all elements of `s`.
pub open spec fn sum_map<A>(s: Seq<A>, f: spec_fn(A) -> int) -> int
    decreases s.len(),
{
    if s.len() == 0 {
        0
    } else {
        sum_map(s.drop_last(), f) + f(s.last())
    }
}

/// Appending an element adds its value to the sum.
pub proof fn lemma_sum_map_push<A>(s: Seq<A>, f: spec_fn(A) -> int, x: A)
    ensures
        sum_map(s.push(x), f) == sum_map(s, f) + f(x),
{
    assert(s.push(x).drop_last() =~= s);
}

/// The sum over one more element of a prefix.
pub proof fn lemma_sum_map_take_succ<A>(s: Seq<A>, f: spec_fn(A) -> int, i: int)
    requires
        0 <= i < s.len(),
    ensures
        sum_map(s.take(i + 1), f) == sum_map(s.take(i), f) + f(s[i]),
{
    assert(s.take(i + 1).drop_last() =~= s.take(i));
    assert(s.take(i + 1).last() == s[i]);
}

/// The whole sequence is its own full prefix.
pub proof fn lemma_sum_map_take_all<A>(s: Seq<A>, f: spec_fn(A) -> int)
    ensures
        sum_map(s.take(s.len() as int), f) == sum_map(s, f),
{
    assert(s.take(s.len() as int) =~= s);
}

/// Replacing one element adjusts the sum by the difference.
pub proof fn lemma_sum_map_update<A>(s: Seq<A>, f: spec_fn(A) -> int, i: int, x: A)
    requires
        0 <= i < s.len(),
    ensures
        sum_map(s.update(i, x), f) == sum_map(s, f) - f(s[i]) + f(x),
    decreases s.len(),
{
    if i == s.len() - 1 {
        assert(s.update(i, x).drop_last() =~= s.drop_last());
        assert(s.update(i, x).last() == x);
    } else {
        assert(s.update(i, x).drop_last() =~= s.drop_last().update(i, x));
        assert(s.update(i, x).last() == s.last());
        lemma_sum_map_update(s.drop_last(), f, i, x);
    }
}

/// A sum of elementwise-bounded values is bounded by `len` times the bound.
pub proof fn lemma_sum_map_bound<A>(s: Seq<A>, f: spec_fn(A) -> int, lo: int, hi: int)
    requires
        forall|i: int| 0 <= i < s.len() ==> lo <= #[trigger] f(s[i]) <= hi,
    ensures
        s.len() * lo <= sum_map(s, f) <= s.len() * hi,
    decreases s.len(),
{
    if s.len() == 0 {
    } else {
        lemma_sum_map_bound(s.drop_last(), f, lo, hi);
        assert((s.len() - 1) * lo + lo == s.len() * lo) by (nonlinear_arith);
        assert((s.len() - 1) * hi + hi == s.len() * hi) by (nonlinear_arith);
    }
}

/// Two projections that agree elementwise give the same sum.
pub proof fn lemma_sum_map_congruence<A>(s: Seq<A>, t: Seq<A>, f: spec_fn(A) -> int, g: spec_fn(
    A,
) -> int)
    requires
        s.len() == t.len(),
        forall|i: int| 0 <= i < s.len() ==> f(s[i]) == g(t[i]),
    ensures
        sum_map(s, f) == sum_map(t, g),
    decreases s.len(),
{
    if s.len() > 0 {
        lemma_sum_map_congruence(s.drop_last(), t.drop_last(), f, g);
    }
}

/// Two projections whose values move by the same amount at every position
/// have sums that move by the same amount.
pub proof fn lemma_sum_map_delta_eq<A>(
    pre: Seq<A>,
    post: Seq<A>,
    f: spec_fn(A) -> int,
    g: spec_fn(A) -> int,
)
    requires
        pre.len() == post.len(),
        forall|j: int|
            0 <= j < pre.len() ==> #[trigger] f(post[j]) - f(pre[j]) == g(post[j]) - g(pre[j]),
    ensures
        sum_map(post, f) - sum_map(pre, f) == sum_map(post, g) - sum_map(pre, g),
    decreases pre.len(),
{
    if pre.len() > 0 {
        lemma_sum_map_delta_eq(pre.drop_last(), post.drop_last(), f, g);
    }
}

/// A sum whose projection vanishes everywhere but one position is that
/// position's value.
pub proof fn lemma_sum_map_single<A>(s: Seq<A>, f: spec_fn(A) -> int, i: int)
    requires
        0 <= i < s.len(),
        forall|j: int| 0 <= j < s.len() && j != i ==> #[trigger] f(s[j]) == 0,
    ensures
        sum_map(s, f) == f(s[i]),
    decreases s.len(),
{
    if i == s.len() - 1 {
        lemma_sum_map_bound(s.drop_last(), f, 0, 0);
    } else {
        lemma_sum_map_single(s.drop_last(), f, i);
    }
}

/// Sum of a projection over the elements at positions the index filter
/// admits.
pub open spec fn sum_map_idx<A>(s: Seq<A>, f: spec_fn(int, A) -> int) -> int
    decreases s.len(),
{
    if s.len() == 0 {
        0
    } else {
        sum_map_idx(s.drop_last(), f) + f(s.len() - 1, s.last())
    }
}

/// Two index-aware projections that agree elementwise give the same sum.
pub proof fn lemma_sum_map_idx_congruence<A>(s: Seq<A>, f: spec_fn(int, A) -> int, g: spec_fn(
    int,
    A,
) -> int)
    requires
        forall|k: int| 0 <= k < s.len() ==> f(k, s[k]) == g(k, s[k]),
    ensures
        sum_map_idx(s, f) == sum_map_idx(s, g),
    decreases s.len(),
{
    if s.len() > 0 {
        lemma_sum_map_idx_congruence(s.drop_last(), f, g);
    }
}

/// An index-aware projection that ignores its index sums like the plain
/// projection.
pub proof fn lemma_sum_map_idx_value<A>(s: Seq<A>, f: spec_fn(int, A) -> int, h: spec_fn(A) -> int)
    requires
        forall|k: int| 0 <= k < s.len() ==> f(k, s[k]) == h(s[k]),
    ensures
        sum_map_idx(s, f) == sum_map(s, h),
    decreases s.len(),
{
    if s.len() > 0 {
        lemma_sum_map_idx_value(s.drop_last(), f, h);
    }
}

/// Admitting one more position adds exactly that position's value.
pub proof fn lemma_sum_map_idx_step<A>(
    s: Seq<A>,
    f: spec_fn(int, A) -> int,
    g: spec_fn(int, A) -> int,
    m: int,
    c: int,
)
    requires
        0 <= m < s.len(),
        forall|k: int| 0 <= k < s.len() && k != m ==> #[trigger] g(k, s[k]) == f(k, s[k]),
        g(m, s[m]) == f(m, s[m]) + c,
    ensures
        sum_map_idx(s, g) == sum_map_idx(s, f) + c,
    decreases s.len(),
{
    if m == s.len() - 1 {
        lemma_sum_map_idx_congruence(s.drop_last(), f, g);
    } else {
        lemma_sum_map_idx_step(s.drop_last(), f, g, m, c);
    }
}

/// Two projections that differ at one position have sums that differ by
/// that position's difference.
pub proof fn lemma_sum_map_diff_single<A>(s: Seq<A>, f: spec_fn(A) -> int, g: spec_fn(A) -> int, i: int)
    requires
        0 <= i < s.len(),
        forall|j: int| 0 <= j < s.len() && j != i ==> #[trigger] f(s[j]) == g(s[j]),
    ensures
        sum_map(s, f) - sum_map(s, g) == f(s[i]) - g(s[i]),
    decreases s.len(),
{
    if i == s.len() - 1 {
        lemma_sum_map_congruence(s.drop_last(), s.drop_last(), f, g);
    } else {
        lemma_sum_map_diff_single(s.drop_last(), f, g, i);
    }
}

/// A sum of non-negative values is non-negative.
pub proof fn lemma_sum_map_nonneg<A>(s: Seq<A>, f: spec_fn(A) -> int)
    requires
        forall|j: int| 0 <= j < s.len() ==> #[trigger] f(s[j]) >= 0,
    ensures
        sum_map(s, f) >= 0,
    decreases s.len(),
{
    if s.len() > 0 {
        lemma_sum_map_nonneg(s.drop_last(), f);
    }
}

/// A sum of non-negative values that is zero has no positive value.
pub proof fn lemma_sum_map_zero_each<A>(s: Seq<A>, f: spec_fn(A) -> int)
    requires
        forall|j: int| 0 <= j < s.len() ==> #[trigger] f(s[j]) >= 0,
    sum_map(s, f) == 0,
    ensures
        forall|j: int| 0 <= j < s.len() ==> #[trigger] f(s[j]) == 0,
    decreases s.len(),
{
    if s.len() > 0 {
        lemma_sum_map_nonneg(s.drop_last(), f);
        lemma_sum_map_zero_each(s.drop_last(), f);
        assert forall|j: int| 0 <= j < s.len() implies #[trigger] f(s[j]) == 0 by {
            if j < s.len() - 1 {
                assert(f(s.drop_last()[j]) == 0);
            }
        }
    }
}

} // verus!
