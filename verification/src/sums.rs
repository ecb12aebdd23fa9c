//! Sums of integer sequences and the small algebra of lemmas the solver
//! needs about them: how a sum reacts to updating one element, to adding
//! two sequences pointwise, to scaling, and how it is bounded by a bound
//! on the elements.

use vstd::prelude::*;

verus! {

/// Sum of a sequence of integers.
pub open spec fn sum_int(s: Seq<int>) -> int
    decreases s.len(),
{
    if s.len() == 0 {
        0
    } else {
        sum_int(s.drop_last()) + s.last()
    }
}

/// Extending a prefix by one element adds that element to the prefix sum.
pub proof fn lemma_sum_take_succ(s: Seq<int>, i: int)
    requires
        0 <= i < s.len(),
    ensures
        sum_int(s.take(i + 1)) == sum_int(s.take(i)) + s[i],
{
    assert(s.take(i + 1).drop_last() =~= s.take(i));
}

/// The full prefix sums the whole sequence.
pub proof fn lemma_sum_take_all(s: Seq<int>)
    ensures
        sum_int(s.take(s.len() as int)) == sum_int(s),
{
    assert(s.take(s.len() as int) =~= s);
}

/// Replacing one element changes the sum by the difference.
pub proof fn lemma_sum_update(s: Seq<int>, i: int, v: int)
    requires
        0 <= i < s.len(),
    ensures
        sum_int(s.update(i, v)) == sum_int(s) - s[i] + v,
    decreases s.len(),
{
    if i == s.len() - 1 {
        assert(s.update(i, v).drop_last() =~= s.drop_last());
    } else {
        lemma_sum_update(s.drop_last(), i, v);
        assert(s.update(i, v).drop_last() =~= s.drop_last().update(i, v));
        assert(s.update(i, v).last() == s.last());
    }
}

/// A sequence of elements bounded in magnitude has a sum bounded by the
/// length times the bound.
pub proof fn lemma_sum_bound(s: Seq<int>, b: int)
    requires
        forall|k: int| 0 <= k < s.len() ==> -b <= #[trigger] s[k] <= b,
    ensures
        -(s.len() as int) * b <= sum_int(s) <= (s.len() as int) * b,
    decreases s.len(),
{
    if s.len() == 0 {
    } else {
        let n = s.len() as int;
        assert forall|k: int|
            0 <= k < s.drop_last().len() implies -b <= #[trigger] s.drop_last()[k] <= b by {
            assert(s.drop_last()[k] == s[k]);
        }
        lemma_sum_bound(s.drop_last(), b);
        assert(s.drop_last().len() as int == n - 1);
        assert((-(n - 1)) * b == -((n - 1) * b)) by (nonlinear_arith);
        assert((-n) * b == -(n * b)) by (nonlinear_arith);
        assert(-((n - 1) * b) <= sum_int(s.drop_last()) <= (n - 1) * b);
        assert(-b <= s[n - 1] <= b);
        assert(sum_int(s) == sum_int(s.drop_last()) + s[n - 1]);
        assert((n - 1) * b + b == n * b) by (nonlinear_arith);
    }
}

/// Summing a pointwise sum of two sequences sums each of them.
pub proof fn lemma_sum_add(a: Seq<int>, b: Seq<int>, c: Seq<int>)
    requires
        a.len() == b.len(),
        c.len() == a.len(),
        forall|k: int| 0 <= k < a.len() ==> #[trigger] c[k] == a[k] + b[k],
    ensures
        sum_int(c) == sum_int(a) + sum_int(b),
    decreases a.len(),
{
    if a.len() == 0 {
    } else {
        lemma_sum_add(a.drop_last(), b.drop_last(), c.drop_last());
    }
}

/// Summing a pointwise multiple of a sequence scales its sum.
pub proof fn lemma_sum_scale(m: int, a: Seq<int>, b: Seq<int>)
    requires
        a.len() == b.len(),
        forall|k: int| 0 <= k < a.len() ==> #[trigger] b[k] == m * a[k],
    ensures
        sum_int(b) == m * sum_int(a),
    decreases a.len(),
{
    if a.len() == 0 {
        assert(m * 0 == 0) by (nonlinear_arith);
    } else {
        lemma_sum_scale(m, a.drop_last(), b.drop_last());
        assert(m * sum_int(a.drop_last()) + m * a.last() == m * (sum_int(a.drop_last()) + a.last()))
            by (nonlinear_arith);
    }
}

/// A sequence of zeros sums to zero.
pub proof fn lemma_sum_zero(s: Seq<int>)
    requires
        forall|k: int| 0 <= k < s.len() ==> #[trigger] s[k] == 0,
    ensures
        sum_int(s) == 0,
    decreases s.len(),
{
    if s.len() == 0 {
    } else {
        lemma_sum_zero(s.drop_last());
    }
}

/// A sum splits at any point into the sums of the two pieces.
pub proof fn lemma_sum_split(s: Seq<int>, k: int)
    requires
        0 <= k <= s.len(),
    ensures
        sum_int(s) == sum_int(s.take(k)) + sum_int(s.skip(k)),
    decreases s.len() - k,
{
    if k == s.len() {
        assert(s.take(k) =~= s);
        assert(s.skip(k).len() == 0);
    } else {
        lemma_sum_take_succ(s, k);
        lemma_sum_split(s, k + 1);
        assert(s.skip(k) =~= seq![s[k]] + s.skip(k + 1));
        lemma_sum_prepend(s[k], s.skip(k + 1));
    }
}

/// Prepending one element adds it to the sum.
pub proof fn lemma_sum_prepend(v: int, s: Seq<int>)
    ensures
        sum_int(seq![v] + s) == v + sum_int(s),
    decreases s.len(),
{
    if s.len() == 0 {
        assert((seq![v] + s) =~= seq![v]);
        assert(sum_int(seq![v]) == sum_int(seq![v].drop_last()) + v);
        assert(seq![v].drop_last() =~= Seq::<int>::empty());
    } else {
        lemma_sum_prepend(v, s.drop_last());
        assert((seq![v] + s).drop_last() =~= seq![v] + s.drop_last());
        assert((seq![v] + s).last() == s.last());
    }
}

/// The view of a vector of machine integers as a sequence of integers.
pub open spec fn int_seq(s: Seq<i64>) -> Seq<int> {
    Seq::new(s.len(), |i: int| s[i] as int)
}

} // verus!
