use vstd::prelude::*;

verus! {

/// The sum of `f` over the elements of `s`.
pub open spec fn seq_sum<A>(s: Seq<A>, f: spec_fn(A) -> int) -> int
    decreases s.len(),
{
    if s.len() == 0 {
        0
    } else {
        seq_sum(s.drop_last(), f) + f(s.last())
    }
}

pub proof fn lemma_sum_take_next<A>(s: Seq<A>, k: int, f: spec_fn(A) -> int)
    requires
        0 <= k < s.len(),
    ensures
        seq_sum(s.take(k + 1), f) == seq_sum(s.take(k), f) + f(s[k]),
{
    assert(s.take(k + 1).drop_last() =~= s.take(k));
}

pub proof fn lemma_sum_update<A>(s: Seq<A>, k: int, x: A, f: spec_fn(A) -> int)
    requires
        0 <= k < s.len(),
    ensures
        seq_sum(s.update(k, x), f) == seq_sum(s, f) - f(s[k]) + f(x),
    decreases s.len(),
{
    if k == s.len() - 1 {
        assert(s.update(k, x).drop_last() =~= s.drop_last());
    } else {
        lemma_sum_update(s.drop_last(), k, x, f);
        assert(s.update(k, x).drop_last() =~= s.drop_last().update(k, x));
    }
}

pub proof fn lemma_sum_remove<A>(s: Seq<A>, k: int, f: spec_fn(A) -> int)
    requires
        0 <= k < s.len(),
    ensures
        seq_sum(s.remove(k), f) == seq_sum(s, f) - f(s[k]),
    decreases s.len(),
{
    if k == s.len() - 1 {
        assert(s.remove(k) =~= s.drop_last());
    } else {
        lemma_sum_remove(s.drop_last(), k, f);
        assert(s.remove(k).drop_last() =~= s.drop_last().remove(k));
        assert(s.remove(k).last() == s.last());
    }
}

pub proof fn lemma_sum_nonneg<A>(s: Seq<A>, f: spec_fn(A) -> int)
    requires
        forall|x: A| #[trigger] f(x) >= 0,
    ensures
        seq_sum(s, f) >= 0,
    decreases s.len(),
{
    if s.len() > 0 {
        lemma_sum_nonneg(s.drop_last(), f);
    }
}

/// With no negative term, one term is at most the sum.
pub proof fn lemma_sum_bounds_one<A>(s: Seq<A>, k: int, f: spec_fn(A) -> int)
    requires
        forall|x: A| #[trigger] f(x) >= 0,
        0 <= k < s.len(),
    ensures
        f(s[k]) <= seq_sum(s, f),
{
    lemma_sum_remove(s, k, f);
    lemma_sum_nonneg(s.remove(k), f);
}

/// With no negative term, two terms at different places are at most the sum.
pub proof fn lemma_sum_bounds_two<A>(s: Seq<A>, a: int, b: int, f: spec_fn(A) -> int)
    requires
        forall|x: A| #[trigger] f(x) >= 0,
        0 <= a < s.len(),
        0 <= b < s.len(),
        a != b,
    ensures
        f(s[a]) + f(s[b]) <= seq_sum(s, f),
{
    lemma_sum_remove(s, a, f);
    let b2 = if b < a { b } else { b - 1 };
    assert(s.remove(a)[b2] == s[b]);
    lemma_sum_bounds_one(s.remove(a), b2, f);
}

/// Every term is zero: so is the sum.
pub proof fn lemma_sum_zero<A>(s: Seq<A>, f: spec_fn(A) -> int)
    requires
        forall|i: int| 0 <= i < s.len() ==> f(#[trigger] s[i]) == 0,
    ensures
        seq_sum(s, f) == 0,
    decreases s.len(),
{
    if s.len() > 0 {
        lemma_sum_zero(s.drop_last(), f);
    }
}

/// With no negative term, a prefix sums to at most the whole.
pub proof fn lemma_sum_prefix<A>(s: Seq<A>, k: int, f: spec_fn(A) -> int)
    requires
        forall|x: A| #[trigger] f(x) >= 0,
        0 <= k <= s.len(),
    ensures
        seq_sum(s.take(k), f) <= seq_sum(s, f),
    decreases s.len(),
{
    if k == s.len() {
        assert(s.take(k) =~= s);
    } else {
        lemma_sum_prefix(s.drop_last(), k, f);
        assert(s.drop_last().take(k) =~= s.take(k));
    }
}

} // verus!
