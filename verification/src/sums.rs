//! Sums of integer sequences.
use vstd::prelude::*;

verus! {

/// The sum of a sequence of integers.
pub open spec fn sum_of(s: Seq<int>) -> int
    decreases s.len(),
{
    if s.len() == 0 {
        0
    } else {
        sum_of(s.drop_last()) + s.last()
    }
}

pub proof fn lemma_sum_of_push(s: Seq<int>, v: int)
    ensures
        sum_of(s.push(v)) == sum_of(s) + v,
{
    assert(s.push(v).drop_last() =~= s);
}

pub proof fn lemma_sum_of_update(s: Seq<int>, j: int, v: int)
    requires
        0 <= j < s.len(),
    ensures
        sum_of(s.update(j, v)) == sum_of(s) - s[j] + v,
    decreases s.len(),
{
    if j == s.len() - 1 {
        assert(s.update(j, v).drop_last() =~= s.drop_last());
    } else {
        lemma_sum_of_update(s.drop_last(), j, v);
        assert(s.update(j, v).drop_last() =~= s.drop_last().update(j, v));
    }
}

pub proof fn lemma_sum_of_insert(s: Seq<int>, j: int, v: int)
    requires
        0 <= j <= s.len(),
    ensures
        sum_of(s.insert(j, v)) == sum_of(s) + v,
    decreases s.len(),
{
    if j == s.len() {
        assert(s.insert(j, v) =~= s.push(v));
        lemma_sum_of_push(s, v);
    } else {
        lemma_sum_of_insert(s.drop_last(), j, v);
        assert(s.insert(j, v).drop_last() =~= s.drop_last().insert(j, v));
    }
}

/// For a sequence of non-negative integers, every prefix sum lies between zero and
/// the whole sum.
pub proof fn lemma_sum_of_prefix(s: Seq<int>, k: int)
    requires
        forall|t: int| 0 <= t < s.len() ==> s[t] >= 0,
        0 <= k <= s.len(),
    ensures
        0 <= sum_of(s.take(k)) <= sum_of(s),
    decreases s.len(),
{
    if s.len() > 0 {
        if k == s.len() {
            assert(s.take(k) =~= s);
            lemma_sum_of_prefix(s.drop_last(), k - 1);
            assert(s.drop_last().take(k - 1) =~= s.drop_last());
        } else {
            lemma_sum_of_prefix(s.drop_last(), k);
            assert(s.drop_last().take(k) =~= s.take(k));
            lemma_sum_of_prefix(s.drop_last(), s.len() - 1);
            assert(s.drop_last().take(s.len() - 1) =~= s.drop_last());
        }
    } else {
        assert(s.take(k) =~= s);
    }
}

/// For a sequence of non-negative integers, each element is at most the sum.
pub proof fn lemma_sum_of_element(s: Seq<int>, t: int)
    requires
        forall|u: int| 0 <= u < s.len() ==> s[u] >= 0,
        0 <= t < s.len(),
    ensures
        0 <= s[t] <= sum_of(s),
{
    lemma_sum_of_prefix(s, t);
    lemma_sum_of_prefix(s, t + 1);
    assert(s.take(t + 1).drop_last() =~= s.take(t));
}

} // verus!
