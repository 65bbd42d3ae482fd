//! Sorting of indices.

use vstd::prelude::*;

use crate::epa::prover::indices;

verus! {

/// No entry is larger than a later one.
pub open spec fn ascending(s: Seq<int>) -> bool {
    forall|i: int, j: int| 0 <= i < j < s.len() ==> #[trigger] s[i] <= #[trigger] s[j]
}

/// Merges two sorted lists into one.
fn merge(a: &Vec<usize>, b: &Vec<usize>) -> (r: Vec<usize>)
    requires
        ascending(indices(a@)),
        ascending(indices(b@)),
        a@.len() + b@.len() <= usize::MAX,
    ensures
        ascending(indices(r@)),
        indices(r@).to_multiset() == indices(a@).to_multiset().add(indices(b@).to_multiset()),
        r@.len() == a@.len() + b@.len(),
{
    let ghost (s, t) = (indices(a@), indices(b@));
    let mut r: Vec<usize> = Vec::new();
    let mut i: usize = 0;
    let mut j: usize = 0;
    proof {
        assert(indices(r@) =~= s.take(0));
        assert(s.take(0) =~= Seq::<int>::empty());
        assert(t.take(0) =~= Seq::<int>::empty());
        Seq::<int>::empty().to_multiset_ensures();
        assert(indices(r@).to_multiset() =~= s.take(0).to_multiset().add(t.take(0).to_multiset()));
    }
    while i < a.len() || j < b.len()
        invariant
            i <= a@.len(),
            j <= b@.len(),
            a@.len() + b@.len() <= usize::MAX,
            s == indices(a@),
            t == indices(b@),
            ascending(s),
            ascending(t),
            r@.len() == i + j,
            ascending(indices(r@)),
            forall|x: int, y: int|
                0 <= x < r@.len() && i <= y < s.len() ==> #[trigger] indices(r@)[x]
                    <= #[trigger] s[y],
            forall|x: int, y: int|
                0 <= x < r@.len() && j <= y < t.len() ==> #[trigger] indices(r@)[x]
                    <= #[trigger] t[y],
            indices(r@).to_multiset() == s.take(i as int).to_multiset().add(
                t.take(j as int).to_multiset(),
            ),
        decreases a.len() - i + b.len() - j,
    {
        let ghost before = indices(r@);
        let from_a = j == b.len() || (i < a.len() && a[i] <= b[j]);
        let x: usize = if from_a {
            a[i]
        } else {
            b[j]
        };
        r.push(x);
        proof {
            assert(indices(r@) =~= before.push(x as int));
            vstd::seq_lib::to_multiset_build(before, x as int);
            if from_a {
                assert(s[i as int] == x);
                assert(s.take(i + 1) =~= s.take(i as int).push(x as int));
                vstd::seq_lib::to_multiset_build(s.take(i as int), x as int);
                if j < b@.len() {
                    assert(t[j as int] == b@[j as int]);
                }
            } else {
                assert(t[j as int] == x);
                assert(t.take(j + 1) =~= t.take(j as int).push(x as int));
                vstd::seq_lib::to_multiset_build(t.take(j as int), x as int);
                if i < a@.len() {
                    assert(s[i as int] == a@[i as int]);
                }
            }
        }
        if from_a {
            i += 1;
        } else {
            j += 1;
        }
        proof {
            assert(indices(r@).to_multiset() =~= s.take(i as int).to_multiset().add(
                t.take(j as int).to_multiset(),
            ));
        }
    }
    proof {
        assert(s.take(s.len() as int) =~= s);
        assert(t.take(t.len() as int) =~= t);
    }
    r
}

/// A sorted copy of the entries from `low` to before `high`.
pub fn sorted_range(list: &Vec<usize>, low: usize, high: usize) -> (r: Vec<usize>)
    requires
        low <= high <= list@.len(),
    ensures
        ascending(indices(r@)),
        indices(r@).to_multiset() == indices(list@.subrange(low as int, high as int)).to_multiset(),
        r@.len() == high - low,
    decreases high - low,
{
    let ghost all = indices(list@.subrange(low as int, high as int));
    if high - low <= 1 {
        let mut r: Vec<usize> = Vec::new();
        if low < high {
            r.push(list[low]);
        }
        proof {
            assert(indices(r@) =~= all);
        }
        return r;
    }
    let mid: usize = low + (high - low) / 2;
    let a = sorted_range(list, low, mid);
    let b = sorted_range(list, mid, high);
    let r = merge(&a, &b);
    proof {
        let x = indices(list@.subrange(low as int, mid as int));
        let y = indices(list@.subrange(mid as int, high as int));
        assert(all =~= x + y);
        vstd::seq_lib::lemma_multiset_commutative(x, y);
    }
    r
}

/// A sorted copy of a list.
pub fn sorted_copy(list: &Vec<usize>) -> (r: Vec<usize>)
    ensures
        ascending(indices(r@)),
        indices(r@).to_multiset() == indices(list@).to_multiset(),
        r@.len() == list@.len(),
{
    proof {
        assert(list@.subrange(0, list@.len() as int) =~= list@);
    }
    sorted_range(list, 0, list.len())
}

} // verus!
