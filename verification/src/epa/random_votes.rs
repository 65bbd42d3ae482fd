//! Random votes: a random permutation of all indices, cut at random places.

use vstd::prelude::*;

use crate::epa::completeness::{flat, partition};
use crate::epa::prover::{index_lists, indices};
use crate::generator::{fixed_rng, fixed_words, skipped, words};
use crate::sorting::{ascending, sorted_copy, sorted_range};
use crate::tally_laws::{lemma_positions_partition, positions};

verus! {

/// The order into which a list is shuffled by a generator with these words,
/// and the number of words that this takes.
pub uninterp spec fn shuffling(w: Map<int, u32>, list: Seq<usize>) -> (Seq<usize>, int);

/// `SliceRandom::shuffle` of `rand`: the same values in an order that is
/// determined by the words that the generator gives next.
#[verifier::external_body]
fn shuffle(list: &mut Vec<usize>, rng: &mut rand::rngs::StdRng)
    ensures
        final(list)@ == shuffling(words(*old(rng)), old(list)@).0,
        final(list)@.to_multiset() == old(list)@.to_multiset(),
        final(list)@.len() == old(list)@.len(),
        words(*final(rng)) == skipped(
            words(*old(rng)),
            shuffling(words(*old(rng)), old(list)@).1,
        ),
{
    rand::seq::SliceRandom::shuffle(list.as_mut_slice(), rng)
}

/// The number from `low` to before `high` that is drawn from a generator with
/// these words on a machine whose sizes have so many bits, and the number of
/// words that it takes.
pub uninterp spec fn number_draw(
    w: Map<int, u32>,
    low: usize,
    high: usize,
    bits: u32,
) -> (usize, int);

/// `Rng::sample` of `rand` with a `Uniform` distribution: a number from `low`
/// to before `high`, determined by the words that the generator gives next
/// and by the size of a machine number.
#[verifier::external_body]
fn draw_between(low: usize, high: usize, rng: &mut rand::rngs::StdRng) -> (x: usize)
    requires
        low < high,
    ensures
        low <= x < high,
        x == number_draw(words(*old(rng)), low, high, usize::BITS).0,
        words(*final(rng)) == skipped(
            words(*old(rng)),
            number_draw(words(*old(rng)), low, high, usize::BITS).1,
        ),
{
    rand::Rng::sample(rng, rand::distributions::Uniform::new(low, high))
}

/// The numbers below `n`, in order.
pub open spec fn numbers(n: int) -> Seq<usize> {
    Seq::new(n as nat, |i: int| i as usize)
}

/// A random order of the numbers below `n`: that into which the generator
/// shuffles them.
pub fn get_permutation(n: usize, rng: &mut rand::rngs::StdRng) -> (r: Vec<usize>)
    ensures
        r@ == shuffling(words(*old(rng)), numbers(n as int)).0,
        words(*final(rng)) == skipped(
            words(*old(rng)),
            shuffling(words(*old(rng)), numbers(n as int)).1,
        ),
        indices(r@).to_multiset() == positions(n as int).to_multiset(),
        r@.len() == n,
{
    let mut list: Vec<usize> = Vec::new();
    let mut i: usize = 0;
    while i < n
        invariant
            i <= n,
            list@.len() == i,
            forall|k: int| 0 <= k < i ==> #[trigger] list@[k] == k,
        decreases n - i,
    {
        list.push(i);
        i += 1;
    }
    let ghost before = list@;
    proof {
        assert(before =~= numbers(n as int));
    }
    shuffle(&mut list, rng);
    proof {
        assert(indices(before) =~= positions(n as int));
        lemma_indices_multiset(before, list@);
    }
    list
}

/// Lists with the same machine numbers have the same numbers.
proof fn lemma_indices_multiset(a: Seq<usize>, b: Seq<usize>)
    requires
        a.to_multiset() == b.to_multiset(),
    ensures
        indices(a).to_multiset() == indices(b).to_multiset(),
{
    lemma_indices_count(a);
    lemma_indices_count(b);
    let (x, y) = (indices(a).to_multiset(), indices(b).to_multiset());
    assert forall|v: int| x.count(v) == y.count(v) by {
        if 0 <= v <= usize::MAX {
            assert(x.count(v) == a.to_multiset().count(v as usize));
            assert(y.count(v) == b.to_multiset().count(v as usize));
        } else {
            indices(a).to_multiset_ensures();
            indices(b).to_multiset_ensures();
        }
    }
    assert(x =~= y);
}

proof fn lemma_indices_count(a: Seq<usize>)
    ensures
        forall|v: usize| #[trigger]
            a.to_multiset().count(v) == indices(a).to_multiset().count(v as int),
    decreases a.len(),
{
    if a.len() == 0 {
        a.to_multiset_ensures();
        indices(a).to_multiset_ensures();
    } else {
        let (p, x) = (a.drop_last(), a.last());
        lemma_indices_count(p);
        assert(a =~= p.push(x));
        assert(indices(a) =~= indices(p).push(x as int));
        vstd::seq_lib::to_multiset_build(p, x);
        vstd::seq_lib::to_multiset_build(indices(p), x as int);
        assert forall|v: usize| #[trigger]
            a.to_multiset().count(v) == indices(a).to_multiset().count(v as int) by {
            assert(p.to_multiset().count(v) == indices(p).to_multiset().count(v as int));
        }
    }
}

// ---- cutting -------------------------------------------------------------------

/// The places where a list is cut: each separator once, in order, and the end.
pub open spec fn cuts_of(cuts: Seq<int>, separators: Seq<int>, n: int) -> bool {
    &&& cuts.len() > 0
    &&& cuts.last() == n
    &&& forall|i: int, j: int| 0 <= i < j < cuts.len() ==> #[trigger] cuts[i] < #[trigger] cuts[j]
    &&& forall|x: int| #[trigger] cuts.contains(x) <==> separators.contains(x) || x == n
}

/// The place before a cut.
pub open spec fn cut_start(cuts: Seq<int>, j: int) -> int {
    if j <= 0 {
        0
    } else {
        cuts[j - 1]
    }
}

/// Each list holds what is between two cuts, in ascending order.
pub open spec fn cut_lists(lists: Seq<Seq<int>>, cuts: Seq<int>, order: Seq<int>) -> bool {
    &&& lists.len() == cuts.len()
    &&& forall|j: int|
        0 <= j < lists.len() ==> ascending(#[trigger] lists[j]) && lists[j].to_multiset()
            == order.subrange(cut_start(cuts, j), cuts[j]).to_multiset()
}

/// Sorts the separators and leaves out repetitions, then adds the end.
fn sorted_cuts(separators: &Vec<usize>, n: usize) -> (r: Vec<usize>)
    requires
        forall|i: int| 0 <= i < separators@.len() ==> 0 < #[trigger] separators@[i] < n,
    ensures
        cuts_of(indices(r@), indices(separators@), n as int),
        r@.len() <= separators@.len() + 1,
        forall|i: int| 0 <= i < r@.len() ==> 0 < #[trigger] r@[i] <= n || n == 0,
{
    let sorted = sorted_copy(separators);
    let ghost s = indices(sorted@);
    let ghost given = indices(separators@);
    proof {
        s.to_multiset_ensures();
        given.to_multiset_ensures();
        assert forall|x: int| #[trigger] s.contains(x) <==> given.contains(x) by {
            assert(s.to_multiset().count(x) == given.to_multiset().count(x));
        }
    }
    let mut r: Vec<usize> = Vec::new();
    let mut i: usize = 0;
    while i < sorted.len()
        invariant
            i <= sorted@.len(),
            s == indices(sorted@),
            ascending(s),
            r@.len() <= i,
            forall|a: int, b: int|
                0 <= a < b < r@.len() ==> #[trigger] indices(r@)[a] < #[trigger] indices(r@)[b],
            forall|x: int| #[trigger] indices(r@).contains(x) <==> s.take(i as int).contains(x),
            r@.len() > 0 ==> i > 0 && indices(r@).last() == s[i - 1],
            r@.len() == 0 ==> i == 0,
        decreases sorted.len() - i,
    {
        let x: usize = sorted[i];
        let ghost before = indices(r@);
        let ghost (p, q) = (s.take(i as int), s.take(i + 1));
        proof {
            assert(s[i as int] == x);
            assert(q =~= p.push(x as int));
            if i > 0 {
                assert(s[i - 1] <= s[i as int]);
            }
        }
        if r.len() == 0 || r[r.len() - 1] != x {
            r.push(x);
            proof {
                assert(indices(r@) =~= before.push(x as int));
                assert forall|a: int, b: int| 0 <= a < b < r@.len() implies #[trigger] indices(
                    r@,
                )[a] < #[trigger] indices(r@)[b] by {
                    if b == r@.len() - 1 {
                        if a < before.len() - 1 {
                            assert(before[a] < before[before.len() - 1]);
                        }
                    } else {
                        assert(before[a] < before[b]);
                    }
                }
            }
        }
        proof {
            lemma_push_contains(p, x as int);
            if r@.len() > before.len() {
                lemma_push_contains(before, x as int);
            } else {
                assert(before.last() == x);
                assert(before.contains(x as int));
            }
            assert forall|y: int| #[trigger] indices(r@).contains(y) <==> q.contains(y) by {
                assert(before.contains(y) <==> p.contains(y));
            }
        }
        i += 1;
    }
    let ghost before = indices(r@);
    proof {
        assert(s.take(s.len() as int) =~= s);
    }
    r.push(n);
    proof {
        let c = indices(r@);
        assert(c =~= before.push(n as int));
        lemma_push_contains(before, n as int);
        assert forall|a: int| 0 <= a < before.len() implies 0 < #[trigger] before[a] < n by {
            assert(before.contains(before[a]));
            assert(s.contains(before[a]));
            assert(given.contains(before[a]));
            let k = choose|k: int| 0 <= k < given.len() && given[k] == before[a];
            assert(separators@[k] == before[a]);
        }
        assert forall|a: int, b: int| 0 <= a < b < c.len() implies #[trigger] c[a]
            < #[trigger] c[b] by {
            assert(c[a] == before[a]);
            if b < before.len() {
                assert(c[b] == before[b]);
            }
        }
        assert forall|x: int| #[trigger] c.contains(x) <==> given.contains(x) || x == n by {
            assert(before.contains(x) <==> s.contains(x));
            assert(s.contains(x) <==> given.contains(x));
        }
        assert forall|a: int| 0 <= a < r@.len() implies 0 < #[trigger] r@[a] <= n || n == 0 by {
            if a < before.len() {
                assert(before[a] == r@[a]);
            }
        }
    }
    r
}

proof fn lemma_push_contains(s: Seq<int>, x: int)
    ensures
        forall|y: int| #[trigger] s.push(x).contains(y) <==> s.contains(y) || y == x,
{
    assert forall|y: int| #[trigger] s.push(x).contains(y) <==> s.contains(y) || y == x by {
        let t = s.push(x);
        assert(t[s.len() as int] == x);
        if s.contains(y) {
            let i = choose|i: int| 0 <= i < s.len() && s[i] == y;
            assert(t[i] == y);
        }
    }
}

/// Cuts a list of all indices at the separators. The indices between two cuts
/// are put in ascending order.
pub fn cut_permutation(order: &Vec<usize>, separators: &Vec<usize>) -> (r: Vec<Vec<usize>>)
    requires
        forall|i: int| 0 <= i < separators@.len() ==> 0 < #[trigger] separators@[i] < order@.len(),
    ensures
        exists|cuts: Seq<int>|
            cuts_of(cuts, indices(separators@), order@.len() as int) && #[trigger] cut_lists(
                index_lists(r@),
                cuts,
                indices(order@),
            ),
        r@.len() <= separators@.len() + 1,
{
    let n = order.len();
    let cuts = sorted_cuts(separators, n);
    let ghost c = indices(cuts@);
    let ghost all = indices(order@);
    let mut r: Vec<Vec<usize>> = Vec::new();
    let mut previous: usize = 0;
    let mut j: usize = 0;
    while j < cuts.len()
        invariant
            j <= cuts.len(),
            n == order@.len(),
            c == indices(cuts@),
            all == indices(order@),
            cuts_of(c, indices(separators@), n as int),
            previous == cut_start(c, j as int),
            previous <= n,
            r@.len() == j,
            forall|k: int|
                0 <= k < j ==> ascending(indices((#[trigger] r@[k])@)) && indices(
                    r@[k]@,
                ).to_multiset() == all.subrange(cut_start(c, k), c[k]).to_multiset(),
        decreases cuts.len() - j,
    {
        let cut: usize = cuts[j];
        proof {
            assert(c[j as int] == cut);
            assert(c.last() == n);
            if j < c.len() - 1 {
                assert(c[j as int] < c[c.len() - 1]);
            }
            if j > 0 {
                assert(c[j - 1] < c[j as int]);
            }
        }
        let part = sorted_range(order, previous, cut);
        proof {
            assert(indices(order@.subrange(previous as int, cut as int)) =~= all.subrange(
                previous as int,
                cut as int,
            ));
        }
        r.push(part);
        previous = cut;
        j += 1;
    }
    proof {
        let lists = index_lists(r@);
        assert forall|k: int| 0 <= k < lists.len() implies ascending(#[trigger] lists[k])
            && lists[k].to_multiset() == all.subrange(cut_start(c, k), c[k]).to_multiset() by {
            assert(lists[k] == indices(r@[k]@));
        }
        assert(cut_lists(lists, c, all));
    }
    r
}

/// The lists between cuts hold each index once.
pub proof fn law_cuts_partition(lists: Seq<Seq<int>>, cuts: Seq<int>, separators: Seq<int>, order: Seq<int>, n: int)
    requires
        n >= 0,
        order.len() == n,
        order.to_multiset() == positions(n).to_multiset(),
        cuts_of(cuts, separators, n),
        forall|i: int| 0 <= i < separators.len() ==> 0 < #[trigger] separators[i] < n,
        cut_lists(lists, cuts, order),
    ensures
        partition(lists, n),
        n > 0 ==> forall|j: int| 0 <= j < lists.len() ==> (#[trigger] lists[j]).len() > 0,
{
    assert forall|i: int| 0 <= i < cuts.len() implies 0 <= #[trigger] cuts[i] <= n && (n > 0 ==> cuts[i] > 0) by {
        assert(cuts.contains(cuts[i]));
        if cuts[i] != n {
            assert(separators.contains(cuts[i]));
            let k = choose|k: int| 0 <= k < separators.len() && separators[k] == cuts[i];
            assert(0 < separators[k] < n);
        }
    }
    lemma_flat_cuts(lists, cuts, order, lists.len() as int);
    assert(lists.take(lists.len() as int) =~= lists);
    assert(order.subrange(0, n) =~= order);
    lemma_positions_partition(lists, n);
    if n > 0 {
        assert forall|j: int| 0 <= j < lists.len() implies (#[trigger] lists[j]).len() > 0 by {
            let part = order.subrange(cut_start(cuts, j), cuts[j]);
            lists[j].to_multiset_ensures();
            part.to_multiset_ensures();
            if j > 0 {
                assert(cuts[j - 1] < cuts[j]);
            }
        }
    }
}

proof fn lemma_flat_cuts(lists: Seq<Seq<int>>, cuts: Seq<int>, order: Seq<int>, count: int)
    requires
        cut_lists(lists, cuts, order),
        0 <= count <= lists.len(),
        forall|i: int| 0 <= i < cuts.len() ==> 0 <= #[trigger] cuts[i] <= order.len(),
        forall|i: int, j: int| 0 <= i < j < cuts.len() ==> #[trigger] cuts[i] < #[trigger] cuts[j],
    ensures
        flat(lists.take(count)).to_multiset() == order.subrange(
            0,
            cut_start(cuts, count),
        ).to_multiset(),
    decreases count,
{
    if count == 0 {
        assert(lists.take(0) =~= Seq::<Seq<int>>::empty());
        assert(order.subrange(0, 0) =~= Seq::<int>::empty());
        assert(flat(lists.take(0)) =~= Seq::<int>::empty());
    } else {
        lemma_flat_cuts(lists, cuts, order, count - 1);
        let (a, b) = (cut_start(cuts, count - 1), cuts[count - 1]);
        if count > 1 {
            assert(cuts[count - 2] < cuts[count - 1]);
        }
        let t = lists.take(count);
        assert(t.drop_last() =~= lists.take(count - 1));
        assert(t.last() == lists[count - 1]);
        vstd::seq_lib::lemma_multiset_commutative(flat(t.drop_last()), t.last());
        let (x, y) = (order.subrange(0, a), order.subrange(a, b));
        assert(order.subrange(0, b) =~= x + y);
        vstd::seq_lib::lemma_multiset_commutative(x, y);
    }
}

/// The words that are left after `count` separators below `n` were drawn.
pub open spec fn after_separators(w: Map<int, u32>, n: int, count: int) -> Map<int, u32>
    decreases count,
{
    if count <= 0 {
        w
    } else {
        let v = after_separators(w, n, count - 1);
        skipped(v, number_draw(v, 1, (n - 1) as usize, usize::BITS).1)
    }
}

/// The separators that are drawn from a generator with these words.
pub open spec fn drawn_separators(w: Map<int, u32>, n: int, count: int) -> Seq<int> {
    Seq::new(
        count as nat,
        |i: int|
            number_draw(after_separators(w, n, i), 1, (n - 1) as usize, usize::BITS).0 as int,
    )
}

/// The order of `n` voters that the generator with the fixed seed gives.
pub open spec fn drawn_order(n: int) -> Seq<int> {
    indices(shuffling(fixed_words(), numbers(n)).0)
}

/// The places where the order of `n` voters is cut for `k` candidates.
pub open spec fn drawn_cuts(n: int, k: int) -> Seq<int> {
    let w = skipped(fixed_words(), shuffling(fixed_words(), numbers(n)).1);
    drawn_separators(w, n, k - 1)
}

/// The votes that the generator with the fixed seed gives.
pub open spec fn fixed_votes(n: int, k: int, lists: Seq<Seq<int>>) -> bool {
    exists|cuts: Seq<int>|
        cuts_of(cuts, drawn_cuts(n, k), n) && #[trigger] cut_lists(lists, cuts, drawn_order(n))
}

/// Random votes of `n` voters for at most `k` candidates: the voters of each
/// candidate, in ascending order. Candidates without voters are left out.
pub fn get_random_votes(n: usize, k: usize) -> (r: Vec<Vec<usize>>)
    requires
        n >= 3,
        k >= 1,
    ensures
        partition(index_lists(r@), n as int),
        r@.len() <= k,
        forall|j: int|
            0 <= j < r@.len() ==> (#[trigger] r@[j])@.len() > 0 && ascending(indices(r@[j]@)),
        fixed_votes(n as int, k as int, index_lists(r@)),
{
    let mut rng = fixed_rng();
    let order = get_permutation(n, &mut rng);
    let ghost w = words(rng);
    let mut separators: Vec<usize> = Vec::new();
    let mut i: usize = 0;
    while i < k - 1
        invariant
            i <= k - 1,
            k >= 1,
            n >= 3,
            separators@.len() == i,
            words(rng) == after_separators(w, n as int, i as int),
            forall|x: int|
                0 <= x < i ==> 0 < #[trigger] separators@[x] < n && separators@[x]
                    == drawn_separators(w, n as int, k - 1)[x],
        decreases k - 1 - i,
    {
        separators.push(draw_between(1, n - 1, &mut rng));
        i += 1;
    }
    proof {
        assert(indices(separators@) =~= drawn_separators(w, n as int, k - 1));
    }
    let r = cut_permutation(&order, &separators);
    proof {
        let lists = index_lists(r@);
        let given = indices(separators@);
        let cuts = choose|cuts: Seq<int>|
            cuts_of(cuts, given, n as int) && #[trigger] cut_lists(lists, cuts, indices(order@));
        assert forall|x: int| 0 <= x < given.len() implies 0 < #[trigger] given[x] < n by {
            assert(0 < separators@[x] < n);
        }
        law_cuts_partition(lists, cuts, given, indices(order@), n as int);
        assert(given == drawn_cuts(n as int, k as int));
        assert(indices(order@) == drawn_order(n as int));
        assert(cut_lists(lists, cuts, drawn_order(n as int)));
        assert forall|j: int| 0 <= j < r@.len() implies (#[trigger] r@[j])@.len() > 0 && ascending(
            indices(r@[j]@),
        ) by {
            assert(lists[j] == indices(r@[j]@));
            assert(lists[j].len() > 0);
        }
    }
    r
}

/// The number of candidates to ask for next, where `fake` gave `got` with voters
/// and `wanted` are wanted: as many more as were missing. There is none where
/// more came than are wanted, or the number does not fit.
pub fn next_count(fake: usize, wanted: usize, got: usize) -> (r: Option<usize>)
    ensures
        r == if got <= wanted && fake + (wanted - got) <= usize::MAX {
            Some((fake + (wanted - got)) as usize)
        } else {
            None
        },
{
    if got > wanted {
        return None;
    }
    fake.checked_add(wanted - got)
}

/// Two calls for the same numbers of voters and candidates give the same votes.
pub proof fn law_votes_same(n: int, k: int, a: Seq<Seq<int>>, b: Seq<Seq<int>>)
    requires
        fixed_votes(n, k, a),
        fixed_votes(n, k, b),
    ensures
        a == b,
{
    let s = drawn_cuts(n, k);
    let order = drawn_order(n);
    let c = choose|cuts: Seq<int>| cuts_of(cuts, s, n) && #[trigger] cut_lists(a, cuts, order);
    let d = choose|cuts: Seq<int>| cuts_of(cuts, s, n) && #[trigger] cut_lists(b, cuts, order);
    assert forall|x: int| #[trigger] c.contains(x) <==> d.contains(x) by {
        assert(c.contains(x) <==> s.contains(x) || x == n);
    }
    lemma_rising_same(c, d);
    assert forall|j: int| 0 <= j < a.len() implies #[trigger] a[j] == b[j] by {
        lemma_ascending_same(a[j], b[j]);
    }
    assert(a =~= b);
}

/// Rising lists of the same numbers are the same.
proof fn lemma_rising_same(c: Seq<int>, d: Seq<int>)
    requires
        forall|i: int, j: int| 0 <= i < j < c.len() ==> #[trigger] c[i] < #[trigger] c[j],
        forall|i: int, j: int| 0 <= i < j < d.len() ==> #[trigger] d[i] < #[trigger] d[j],
        forall|x: int| #[trigger] c.contains(x) <==> d.contains(x),
    ensures
        c == d,
    decreases c.len(),
{
    if c.len() == 0 {
        if d.len() > 0 {
            assert(d.contains(d[0]));
            assert(c.contains(d[0]));
        }
        assert(c =~= d);
    } else {
        assert(c.contains(c.last()));
        assert(d.contains(c.last()));
        assert(d.contains(d.last()));
        assert(c.contains(d.last()));
        let (p, q) = (c.drop_last(), d.drop_last());
        let i = choose|i: int| 0 <= i < d.len() && d[i] == c.last();
        let j = choose|j: int| 0 <= j < c.len() && c[j] == d.last();
        assert(c.last() == d.last());
        assert forall|x: int| #[trigger] p.contains(x) <==> q.contains(x) by {
            if p.contains(x) {
                let k = choose|k: int| 0 <= k < p.len() && p[k] == x;
                assert(c[k] == x && c[k] < c[c.len() - 1]);
                assert(c.contains(x));
                let m = choose|m: int| 0 <= m < d.len() && d[m] == x;
                assert(q[m] == x);
            }
            if q.contains(x) {
                let k = choose|k: int| 0 <= k < q.len() && q[k] == x;
                assert(d[k] == x && d[k] < d[d.len() - 1]);
                assert(d.contains(x));
                assert(c.contains(x));
                let m = choose|m: int| 0 <= m < c.len() && c[m] == x;
                assert(p[m] == x);
            }
        }
        lemma_rising_same(p, q);
        assert(c =~= p.push(c.last()));
        assert(d =~= q.push(d.last()));
    }
}

/// Ascending lists with the same numbers, each as often, are the same.
proof fn lemma_ascending_same(c: Seq<int>, d: Seq<int>)
    requires
        ascending(c),
        ascending(d),
        c.to_multiset() == d.to_multiset(),
    ensures
        c == d,
{
    vstd::seq_lib::lemma_sorted_unique(c, d, |x: int, y: int| x <= y);
}

} // verus!
