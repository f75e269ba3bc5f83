//! A verified selection sort over any type that supplies a total "comes
//! before" order. Reports use it to order their rows.

use vstd::prelude::*;

verus! {

use vstd::relations::sorted_by;
use vstd::seq_lib::group_to_multiset_ensures;
use vstd::multiset::group_multiset_axioms;

/// A total preorder deciding which of two values comes first in a report.
pub trait SortOrd: Sized {
    /// `a.before_spec(b)`: `a` may stand on or above the row of `b`.
    spec fn before_spec(&self, other: &Self) -> bool;

    /// The order is total and transitive.
    proof fn lemma_total(a: &Self, b: &Self, c: &Self)
        ensures
            a.before_spec(b) || b.before_spec(a),
            a.before_spec(b) && b.before_spec(c) ==> a.before_spec(c),
    ;

    /// Runtime decision matching `before_spec`.
    fn before(&self, other: &Self) -> (r: bool)
        ensures
            r == self.before_spec(other),
    ;
}

/// The relation `before_spec` as a closed value, for use in `sorted_by`.
pub open spec fn before_rel<T: SortOrd>() -> spec_fn(T, T) -> bool {
    |a: T, b: T| a.before_spec(&b)
}

/// Sorts `v` by `before_spec`: the result is a permutation of the input and
/// each element comes before all later ones.
pub fn sort_rows<T: SortOrd>(v: Vec<T>) -> (r: Vec<T>)
    ensures
        r@.to_multiset() == v@.to_multiset(),
        sorted_by(r@, before_rel::<T>()),
        r@.len() == v@.len(),
{
    broadcast use group_to_multiset_ensures;
    broadcast use group_multiset_axioms;

    let ghost orig: Seq<T> = v@;
    let mut rest: Vec<T> = v;
    let mut out: Vec<T> = Vec::new();
    while rest.len() > 0
        invariant
            out@.to_multiset().add(rest@.to_multiset()) == orig.to_multiset(),
            sorted_by(out@, before_rel::<T>()),
            forall|i: int, j: int|
                0 <= i < out@.len() && 0 <= j < rest@.len()
                    ==> #[trigger] out@[i].before_spec(&rest@[j]),
            out@.len() + rest@.len() == orig.len(),
        decreases rest@.len(),
    {
        // find an element of `rest` that comes before every other one
        let mut best: usize = 0;
        let mut k: usize = 1;
        proof {
            T::lemma_total(&rest@[0], &rest@[0], &rest@[0]);
        }
        while k < rest.len()
            invariant
                0 < k <= rest@.len(),
                0 <= best < k,
                forall|j: int|
                    0 <= j < k ==> #[trigger] rest@[best as int].before_spec(&rest@[j]),
            decreases rest@.len() - k,
        {
            let takes_over = rest[k].before(&rest[best]);
            proof {
                T::lemma_total(&rest@[k as int], &rest@[best as int], &rest@[best as int]);
            }
            if takes_over {
                assert forall|j: int| 0 <= j < k + 1
                    implies #[trigger] rest@[k as int].before_spec(&rest@[j]) by {
                    T::lemma_total(&rest@[k as int], &rest@[best as int], &rest@[j]);
                    T::lemma_total(&rest@[k as int], &rest@[k as int], &rest@[k as int]);
                }
                best = k;
            } else {
                assert(rest@[best as int].before_spec(&rest@[k as int]));
            }
            k = k + 1;
        }
        let ghost old_out: Seq<T> = out@;
        let ghost old_rest: Seq<T> = rest@;
        let m = rest.remove(best);
        out.push(m);
        proof {
            broadcast use group_to_multiset_ensures;
            broadcast use group_multiset_axioms;

            assert(out@ == old_out.push(m));
            assert(rest@ == old_rest.remove(best as int));
            assert(out@.to_multiset() == old_out.to_multiset().insert(m));
            assert(rest@.to_multiset() == old_rest.to_multiset().remove(m));
            assert(old_rest.to_multiset().count(m) > 0);
            assert(out@.to_multiset().add(rest@.to_multiset()) =~= orig.to_multiset());
            // the new row stays sorted against everything before it
            assert forall|i: int, j: int| 0 <= i < j < out@.len()
                implies #[trigger] before_rel::<T>()(out@[i], out@[j]) by {
                if j < out@.len() - 1 {
                    assert(sorted_by(old_out, before_rel::<T>()));
                    assert(before_rel::<T>()(old_out[i], old_out[j]));
                } else {
                    assert(out@[j] == m);
                    assert(old_out[i].before_spec(&old_rest[best as int]));
                }
            }
            // the new row comes before everything still unsorted
            assert forall|i: int, j: int|
                0 <= i < out@.len() && 0 <= j < rest@.len()
                implies #[trigger] out@[i].before_spec(&rest@[j]) by {
                let rj = rest@[j];
                assert(old_rest.contains(rj)) by {
                    if j < best {
                        assert(old_rest[j] == rj);
                    } else {
                        assert(old_rest[j + 1] == rj);
                    }
                }
                let j0 = choose|j0: int| 0 <= j0 < old_rest.len() && old_rest[j0] == rj;
                assert(m.before_spec(&old_rest[j0]));
                if i < out@.len() - 1 {
                    assert(old_out[i].before_spec(&old_rest[best as int]));
                    T::lemma_total(&old_out[i], &m, &rj);
                } else {
                    assert(out@[i] == m);
                }
            }
        }
    }
    proof {
        assert(rest@.len() == 0);
        assert(rest@.to_multiset().len() == 0);
        assert(out@.to_multiset().add(rest@.to_multiset()) =~= out@.to_multiset());
        assert(out@.to_multiset().len() == out@.len());
    }
    out
}

} // verus!
