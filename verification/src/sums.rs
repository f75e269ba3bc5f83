//! Summation over sequences, and the lemmas the aggregation engine needs:
//! stepping through a prefix, removing an element, invariance under
//! permutation, and bounds that keep runtime accumulators in range.

use vstd::prelude::*;

verus! {

use vstd::seq_lib::group_to_multiset_ensures;

/// The sum of `f` over all elements of `s`.
pub open spec fn seq_sum<T>(s: Seq<T>, f: spec_fn(T) -> int) -> int
    decreases s.len(),
{
    if s.len() == 0 {
        0
    } else {
        seq_sum(s.drop_last(), f) + f(s.last())
    }
}

/// Extending a prefix by one element adds that element's contribution.
pub proof fn lemma_seq_sum_take_step<T>(s: Seq<T>, f: spec_fn(T) -> int, i: int)
    requires
        0 <= i < s.len(),
    ensures
        seq_sum(s.take(i + 1), f) == seq_sum(s.take(i), f) + f(s[i]),
{
    assert(s.take(i + 1).drop_last() =~= s.take(i));
    assert(s.take(i + 1).last() == s[i]);
}

/// A full sequence is its own `take`.
pub proof fn lemma_seq_sum_take_all<T>(s: Seq<T>, f: spec_fn(T) -> int)
    ensures
        seq_sum(s.take(s.len() as int), f) == seq_sum(s, f),
{
    assert(s.take(s.len() as int) =~= s);
}

/// Removing an element subtracts its contribution.
pub proof fn lemma_seq_sum_remove<T>(s: Seq<T>, f: spec_fn(T) -> int, i: int)
    requires
        0 <= i < s.len(),
    ensures
        seq_sum(s.remove(i), f) == seq_sum(s, f) - f(s[i]),
    decreases s.len(),
{
    if i == s.len() - 1 {
        assert(s.remove(i) =~= s.drop_last());
    } else {
        assert(s.remove(i).drop_last() =~= s.drop_last().remove(i));
        assert(s.remove(i).last() == s.last());
        lemma_seq_sum_remove(s.drop_last(), f, i);
    }
}

/// Two sequences with the same multiset of elements have the same sum.
pub proof fn lemma_seq_sum_multiset<T>(s1: Seq<T>, s2: Seq<T>, f: spec_fn(T) -> int)
    requires
        s1.to_multiset() == s2.to_multiset(),
    ensures
        seq_sum(s1, f) == seq_sum(s2, f),
    decreases s1.len(),
{
    broadcast use group_to_multiset_ensures;

    if s1.len() == 0 {
        assert(s1.to_multiset().len() == 0);
        assert(s2.to_multiset().len() == s2.len());
        assert(s2.len() == 0);
    } else {
        let x = s1.last();
        let i1 = s1.len() - 1;
        assert(s1.contains(x));
        assert(s1.to_multiset().count(x) > 0);
        assert(s2.contains(x));
        let i2 = choose|i: int| 0 <= i < s2.len() && s2[i] == x;
        assert(s1.remove(i1).to_multiset() == s1.to_multiset().remove(x));
        assert(s2.remove(i2).to_multiset() == s2.to_multiset().remove(x));
        lemma_seq_sum_multiset(s1.remove(i1), s2.remove(i2), f);
        lemma_seq_sum_remove(s1, f, i1);
        lemma_seq_sum_remove(s2, f, i2);
    }
}

/// A point-wise bound on `f` bounds the sum linearly in the length.
pub proof fn lemma_seq_sum_abs_bound<T>(s: Seq<T>, f: spec_fn(T) -> int, b: int)
    requires
        b >= 0,
        forall|i: int| 0 <= i < s.len() ==> -b <= #[trigger] f(s[i]) <= b,
    ensures
        -(s.len() * b) <= seq_sum(s, f) <= s.len() * b,
    decreases s.len(),
{
    if s.len() == 0 {
    } else {
        assert(forall|i: int|
            0 <= i < s.drop_last().len() ==> -b <= #[trigger] f(s.drop_last()[i]) <= b) by {
            assert(forall|i: int|
                0 <= i < s.drop_last().len() ==> s.drop_last()[i] == s[i]);
        }
        lemma_seq_sum_abs_bound(s.drop_last(), f, b);
        assert(-b <= f(s.last()) <= b);
        assert((s.len() - 1) * b + b == s.len() * b) by (nonlinear_arith);
    }
}

/// Point-wise equal functions give equal sums.
pub proof fn lemma_seq_sum_pointwise<T>(s: Seq<T>, f: spec_fn(T) -> int, g: spec_fn(T) -> int)
    requires
        forall|i: int| 0 <= i < s.len() ==> f(#[trigger] s[i]) == g(s[i]),
    ensures
        seq_sum(s, f) == seq_sum(s, g),
    decreases s.len(),
{
    if s.len() > 0 {
        assert(forall|i: int|
            0 <= i < s.drop_last().len() ==> #[trigger] s.drop_last()[i] == s[i]);
        lemma_seq_sum_pointwise(s.drop_last(), f, g);
    }
}

/// Two equally long sequences whose elements are measured alike sum alike.
pub proof fn lemma_seq_sum_parallel<T, U>(
    s1: Seq<T>,
    s2: Seq<U>,
    f: spec_fn(T) -> int,
    g: spec_fn(U) -> int,
)
    requires
        s1.len() == s2.len(),
        forall|i: int| 0 <= i < s1.len() ==> f(#[trigger] s1[i]) == g(#[trigger] s2[i]),
    ensures
        seq_sum(s1, f) == seq_sum(s2, g),
    decreases s1.len(),
{
    if s1.len() > 0 {
        assert(forall|i: int|
            0 <= i < s1.drop_last().len() ==> #[trigger] s1.drop_last()[i] == s1[i]);
        assert(forall|i: int|
            0 <= i < s2.drop_last().len() ==> #[trigger] s2.drop_last()[i] == s2[i]);
        lemma_seq_sum_parallel(s1.drop_last(), s2.drop_last(), f, g);
    }
}

/// The point-wise sum of two functions.
pub open spec fn fn_plus<T>(f: spec_fn(T) -> int, g: spec_fn(T) -> int) -> spec_fn(T) -> int {
    |x: T| f(x) + g(x)
}

/// Summing a point-wise sum splits into two sums.
pub proof fn lemma_seq_sum_plus<T>(s: Seq<T>, f: spec_fn(T) -> int, g: spec_fn(T) -> int)
    ensures
        seq_sum(s, fn_plus(f, g)) == seq_sum(s, f) + seq_sum(s, g),
    decreases s.len(),
{
    if s.len() > 0 {
        lemma_seq_sum_plus(s.drop_last(), f, g);
    }
}

/// Summing over a filtered sequence is summing the guarded function.
pub proof fn lemma_seq_sum_filter<T>(
    s: Seq<T>,
    pred: spec_fn(T) -> bool,
    f: spec_fn(T) -> int,
    g: spec_fn(T) -> int,
)
    requires
        forall|i: int|
            0 <= i < s.len() ==> g(#[trigger] s[i]) == (if pred(s[i]) { f(s[i]) } else { 0 }),
    ensures
        seq_sum(s.filter(pred), f) == seq_sum(s, g),
    decreases s.len(),
{
    reveal(Seq::filter);
    if s.len() > 0 {
        assert(forall|i: int|
            0 <= i < s.drop_last().len() ==> #[trigger] s.drop_last()[i] == s[i]);
        lemma_seq_sum_filter(s.drop_last(), pred, f, g);
        if pred(s.last()) {
            let sub = s.drop_last().filter(pred);
            assert(s.filter(pred) == sub.push(s.last()));
            assert(sub.push(s.last()).drop_last() =~= sub);
            assert(sub.push(s.last()).last() == s.last());
        }
    }
}

/// Extending a filtered prefix by one element.
pub proof fn lemma_filter_take_step<T>(s: Seq<T>, pred: spec_fn(T) -> bool, i: int)
    requires
        0 <= i < s.len(),
    ensures
        s.take(i + 1).filter(pred) == (if pred(s[i]) {
            s.take(i).filter(pred).push(s[i])
        } else {
            s.take(i).filter(pred)
        }),
{
    reveal(Seq::filter);
    assert(s.take(i + 1).drop_last() =~= s.take(i));
    assert(s.take(i + 1).last() == s[i]);
}

/// Two maps compose point-wise.
pub proof fn lemma_map_values_compose<T, U, V>(
    s: Seq<T>,
    g: spec_fn(T) -> U,
    f: spec_fn(U) -> V,
    h: spec_fn(T) -> V,
)
    requires
        forall|i: int| 0 <= i < s.len() ==> h(#[trigger] s[i]) == f(g(s[i])),
    ensures
        s.map_values(g).map_values(f) == s.map_values(h),
{
    assert(s.map_values(g).map_values(f) =~= s.map_values(h));
}

/// Two sequences with the same multiset keep the same multiset after a map.
pub proof fn lemma_map_values_multiset<T, U>(s1: Seq<T>, s2: Seq<T>, g: spec_fn(T) -> U)
    requires
        s1.to_multiset() == s2.to_multiset(),
    ensures
        s1.map_values(g).to_multiset() == s2.map_values(g).to_multiset(),
    decreases s1.len(),
{
    broadcast use group_to_multiset_ensures;
    broadcast use vstd::multiset::group_multiset_axioms;

    if s1.len() == 0 {
        assert(s1.to_multiset().len() == 0);
        assert(s2.to_multiset().len() == s2.len());
        assert(s2.len() == 0);
        assert(s1.map_values(g) =~= s2.map_values(g));
    } else {
        let x = s1.last();
        let i1 = s1.len() - 1;
        assert(s1.contains(x));
        assert(s1.to_multiset().count(x) > 0);
        assert(s2.contains(x));
        let i2 = choose|i: int| 0 <= i < s2.len() && s2[i] == x;
        assert(s1.remove(i1).to_multiset() == s1.to_multiset().remove(x));
        assert(s2.remove(i2).to_multiset() == s2.to_multiset().remove(x));
        lemma_map_values_multiset(s1.remove(i1), s2.remove(i2), g);
        assert(s1.map_values(g).remove(i1) =~= s1.remove(i1).map_values(g));
        assert(s2.map_values(g).remove(i2) =~= s2.remove(i2).map_values(g));
        assert(s1.map_values(g).remove(i1).to_multiset()
            == s1.map_values(g).to_multiset().remove(g(x)));
        assert(s2.map_values(g).remove(i2).to_multiset()
            == s2.map_values(g).to_multiset().remove(g(x)));
        let ma = s1.map_values(g).to_multiset();
        let mb = s2.map_values(g).to_multiset();
        assert(ma.remove(g(x)) == mb.remove(g(x)));
        assert(s1.map_values(g)[i1] == g(x));
        assert(s2.map_values(g)[i2] == g(x));
        assert(s1.map_values(g).contains(g(x)));
        assert(s2.map_values(g).contains(g(x)));
        assert(ma.count(g(x)) > 0);
        assert(mb.count(g(x)) > 0);
        assert forall|z: U| ma.count(z) == mb.count(z) by {
            if z == g(x) {
                assert(ma.remove(g(x)).count(z) == ma.count(z) - 1);
                assert(mb.remove(g(x)).count(z) == mb.count(z) - 1);
            } else {
                assert(ma.remove(g(x)).count(z) == ma.count(z));
                assert(mb.remove(g(x)).count(z) == mb.count(z));
            }
        }
        assert(ma =~= mb);
    }
}

} // verus!
