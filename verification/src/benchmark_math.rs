//! Counting the votes of a benchmark: what the aggregators count together is
//! what the voters chose.

use vstd::prelude::*;

use crate::benchmark::{assigned_to, by_id, expected, bench_ids, voted_for, BenchmarkConfig};
use crate::epa_adapter::size_total;
use crate::registration::{VoterView};
use crate::sums::{lemma_sum_add, lemma_sum_ext, lemma_sum_single, lemma_sum_zero, sum};
use crate::tally::{
    all_counts, last_position, lemma_position_range, position_of, verified, verified_votes,
    votes_for, TallyView, VerificationView,
};

verus! {

/// A voter of a benchmark: what the aggregator keeps, and what was chosen.
#[verifier::ext_equal]
pub struct BenchVoterView {
    pub registered: VoterView,
    pub aggregator: int,
    pub candidate: int,
}

/// Those of the first `count` voters that chose an aggregator.
pub open spec fn mine(vs: Seq<BenchVoterView>, a: int, count: int) -> Seq<BenchVoterView>
    decreases count,
{
    if count <= 0 {
        Seq::empty()
    } else if vs[count - 1].aggregator == a {
        mine(vs, a, count - 1).push(vs[count - 1])
    } else {
        mine(vs, a, count - 1)
    }
}

/// The voters chose what is listed.
pub open spec fn choose_as(vs: Seq<BenchVoterView>, cs: Seq<(usize, usize)>) -> bool {
    &&& vs.len() == cs.len()
    &&& forall|i: int|
        0 <= i < vs.len() ==> (#[trigger] vs[i]).aggregator == cs[i].0 && vs[i].candidate
            == cs[i].1
}

/// The choices name aggregators and candidates that exist.
pub open spec fn choices_ok(cs: Seq<(usize, usize)>, m: int, k: int) -> bool {
    forall|i: int| 0 <= i < cs.len() ==> (#[trigger] cs[i]).0 < m && cs[i].1 < k
}

pub proof fn lemma_mine_len(vs: Seq<BenchVoterView>, cs: Seq<(usize, usize)>, a: int, count: int)
    requires
        choose_as(vs, cs),
        0 <= count <= vs.len(),
    ensures
        mine(vs, a, count).len() == assigned_to(cs, a, count),
    decreases count,
{
    if count > 0 {
        lemma_mine_len(vs, cs, a, count - 1);
        assert(vs[count - 1].aggregator == cs[count - 1].0);
    }
}

/// Each voter of an aggregator is one of all voters, and comes after those
/// that are listed before.
pub proof fn lemma_mine_from(vs: Seq<BenchVoterView>, a: int, count: int) -> (at: Seq<int>)
    requires
        0 <= count <= vs.len(),
    ensures
        at.len() == mine(vs, a, count).len(),
        forall|i: int|
            0 <= i < at.len() ==> 0 <= #[trigger] at[i] < count && mine(vs, a, count)[i]
                == vs[at[i]] && vs[at[i]].aggregator == a,
        forall|i: int, j: int| 0 <= i < j < at.len() ==> #[trigger] at[i] < #[trigger] at[j],
    decreases count,
{
    if count == 0 {
        Seq::empty()
    } else {
        let before = lemma_mine_from(vs, a, count - 1);
        if vs[count - 1].aggregator == a {
            before.push(count - 1)
        } else {
            before
        }
    }
}

/// The number of the first `count` voters whose candidate's id has its last
/// position at `j`.
pub open spec fn picks(ids: Seq<Seq<char>>, vs: Seq<BenchVoterView>, j: int, count: int) -> int
    decreases count,
{
    if count <= 0 {
        0
    } else {
        picks(ids, vs, j, count - 1) + if position_of(ids, ids[vs[count - 1].candidate]) == Some(j) {
            1int
        } else {
            0int
        }
    }
}

/// The number of the first `count` voters whose candidate has an id.
pub open spec fn backers(ids: Seq<Seq<char>>, vs: Seq<BenchVoterView>, id: Seq<char>, count: int) -> int
    decreases count,
{
    if count <= 0 {
        0
    } else {
        backers(ids, vs, id, count - 1) + if ids[vs[count - 1].candidate] == id {
            1int
        } else {
            0int
        }
    }
}

/// The number of the first `count` choices of a candidate with an id.
pub open spec fn votes_of_id(ids: Seq<Seq<char>>, cs: Seq<(usize, usize)>, id: Seq<char>, count: int) -> int
    decreases count,
{
    if count <= 0 {
        0
    } else {
        votes_of_id(ids, cs, id, count - 1) + if ids[cs[count - 1].1 as int] == id {
            1int
        } else {
            0int
        }
    }
}

proof fn lemma_picks(ids: Seq<Seq<char>>, vs: Seq<BenchVoterView>, j: int, count: int)
    requires
        0 <= count <= vs.len(),
        0 <= j < ids.len(),
        forall|i: int| 0 <= i < vs.len() ==> 0 <= (#[trigger] vs[i]).candidate < ids.len(),
    ensures
        picks(ids, vs, j, count) == if position_of(ids, ids[j]) == Some(j) {
            backers(ids, vs, ids[j], count)
        } else {
            0
        },
        0 <= picks(ids, vs, j, count) <= count,
    decreases count,
{
    if count > 0 {
        lemma_picks(ids, vs, j, count - 1);
        let c = ids[vs[count - 1].candidate];
        lemma_position_range(ids, c, ids.len() as int);
        assert(0 <= vs[count - 1].candidate < ids.len());
        assert(ids[vs[count - 1].candidate] == c);
    }
}

/// The votes for an id in an aggregator's counts are those of its voters.
proof fn lemma_votes_for(
    ids: Seq<Seq<char>>,
    vs: Seq<BenchVoterView>,
    counts: Seq<usize>,
    id: Seq<char>,
    count: int,
)
    requires
        0 <= count <= ids.len(),
        counts.len() == ids.len(),
        forall|i: int| 0 <= i < vs.len() ==> 0 <= (#[trigger] vs[i]).candidate < ids.len(),
        forall|j: int|
            0 <= j < ids.len() ==> #[trigger] counts[j] == picks(ids, vs, j, vs.len() as int),
    ensures
        votes_for(ids, counts, id, count) == if last_position(ids, id, ids.len() as int) matches Some(
            p,
        ) && p < count {
            backers(ids, vs, id, vs.len() as int)
        } else {
            0
        },
    decreases count,
{
    lemma_position_range(ids, id, ids.len() as int);
    if count > 0 {
        lemma_votes_for(ids, vs, counts, id, count - 1);
        lemma_picks(ids, vs, count - 1, vs.len() as int);
        if ids[count - 1] == id {
            assert(position_of(ids, id) is Some);
        }
    }
}

/// Those who voted for an id, over the voters of one aggregator.
proof fn lemma_backers_mine(
    ids: Seq<Seq<char>>,
    vs: Seq<BenchVoterView>,
    cs: Seq<(usize, usize)>,
    id: Seq<char>,
    m: int,
    count: int,
)
    requires
        choose_as(vs, cs),
        0 <= count <= vs.len(),
        forall|i: int| 0 <= i < cs.len() ==> (#[trigger] cs[i]).0 < m,
    ensures
        sum(
            |a: int| backers(ids, mine(vs, a, count), id, mine(vs, a, count).len() as int),
            m,
        ) == votes_of_id(ids, cs, id, count),
    decreases count,
{
    let f = |n: int| |a: int| backers(ids, mine(vs, a, n), id, mine(vs, a, n).len() as int);
    let whole = |a: int| backers(ids, mine(vs, a, count), id, mine(vs, a, count).len() as int);
    lemma_sum_ext(whole, f(count), m);
    if count == 0 {
        lemma_sum_zero(f(0), m);
    } else {
        lemma_backers_mine(ids, vs, cs, id, m, count - 1);
        let part = |a: int| backers(ids, mine(vs, a, count - 1), id, mine(vs, a, count - 1).len() as int);
        lemma_sum_ext(part, f(count - 1), m);
        let v = vs[count - 1];
        assert(v.aggregator == cs[count - 1].0 && v.candidate == cs[count - 1].1);
        let one = if ids[v.candidate] == id {
            1int
        } else {
            0int
        };
        let here = |a: int| if a == v.aggregator {
            one
        } else {
            0int
        };
        assert forall|a: int| 0 <= a < m implies #[trigger] f(count)(a) == f(count - 1)(a) + here(
            a,
        ) by {
            let l = mine(vs, a, count - 1);
            if a == v.aggregator {
                assert(mine(vs, a, count) == l.push(v));
                lemma_backers_prefix(ids, l, l.push(v), id, l.len() as int);
            }
        }
        lemma_sum_add(f(count - 1), here, m);
        lemma_sum_ext(f(count), |a: int| f(count - 1)(a) + here(a), m);
        lemma_sum_single(here, m, v.aggregator);
    }
}

proof fn lemma_backers_prefix(
    ids: Seq<Seq<char>>,
    a: Seq<BenchVoterView>,
    b: Seq<BenchVoterView>,
    id: Seq<char>,
    count: int,
)
    requires
        0 <= count <= a.len(),
        count <= b.len(),
        forall|i: int| 0 <= i < count ==> a[i] == b[i],
    ensures
        backers(ids, a, id, count) == backers(ids, b, id, count),
    decreases count,
{
    if count > 0 {
        lemma_backers_prefix(ids, a, b, id, count - 1);
    }
}

/// The counts of one aggregator add up to at most its voters.
proof fn lemma_counts_total(ids: Seq<Seq<char>>, vs: Seq<BenchVoterView>, counts: Seq<usize>)
    requires
        counts.len() == ids.len(),
        forall|j: int|
            0 <= j < ids.len() ==> #[trigger] counts[j] == picks(ids, vs, j, vs.len() as int),
    ensures
        0 <= size_total(counts, counts.len() as int) <= vs.len(),
{
    let k = ids.len() as int;
    let f = |j: int| picks(ids, vs, j, vs.len() as int);
    lemma_size_sum(counts, f, k);
    lemma_picks_sum(ids, vs, k, vs.len() as int);
}

proof fn lemma_size_sum(counts: Seq<usize>, f: spec_fn(int) -> int, count: int)
    requires
        0 <= count <= counts.len(),
        forall|j: int| 0 <= j < counts.len() ==> #[trigger] counts[j] == f(j),
    ensures
        size_total(counts, count) == sum(f, count),
    decreases count,
{
    if count > 0 {
        lemma_size_sum(counts, f, count - 1);
        assert(counts[count - 1] == f(count - 1));
    }
}

proof fn lemma_picks_sum(ids: Seq<Seq<char>>, vs: Seq<BenchVoterView>, k: int, count: int)
    requires
        0 <= count <= vs.len(),
        k >= 0,
    ensures
        0 <= sum(|j: int| picks(ids, vs, j, count), k) <= count,
    decreases count,
{
    let f = |n: int| |j: int| picks(ids, vs, j, n);
    lemma_sum_ext(|j: int| picks(ids, vs, j, count), f(count), k);
    if count == 0 {
        lemma_sum_zero(f(0), k);
    } else {
        lemma_picks_sum(ids, vs, k, count - 1);
        lemma_sum_ext(|j: int| picks(ids, vs, j, count - 1), f(count - 1), k);
        let p = position_of(ids, ids[vs[count - 1].candidate]);
        let here = |j: int| if p == Some(j) {
            1int
        } else {
            0int
        };
        lemma_sum_add(f(count - 1), here, k);
        lemma_sum_ext(f(count), |j: int| f(count - 1)(j) + here(j), k);
        if p is Some && 0 <= p->0 < k {
            lemma_sum_single(here, k, p->0);
        } else {
            lemma_sum_zero(here, k);
        }
    }
}

/// The sum of the voters of the first aggregators.
proof fn lemma_mine_total(vs: Seq<BenchVoterView>, cs: Seq<(usize, usize)>, m: int, count: int)
    requires
        choose_as(vs, cs),
        0 <= count <= vs.len(),
        m >= 0,
    ensures
        0 <= sum(|a: int| assigned_to(cs, a, count), m) <= count,
    decreases count,
{
    let f = |n: int| |a: int| assigned_to(cs, a, n);
    lemma_sum_ext(|a: int| assigned_to(cs, a, count), f(count), m);
    if count == 0 {
        lemma_sum_zero(f(0), m);
    } else {
        lemma_mine_total(vs, cs, m, count - 1);
        lemma_sum_ext(|a: int| assigned_to(cs, a, count - 1), f(count - 1), m);
        let x = cs[count - 1].0 as int;
        let here = |a: int| if x == a {
            1int
        } else {
            0int
        };
        lemma_sum_add(f(count - 1), here, m);
        lemma_sum_ext(f(count), |a: int| f(count - 1)(a) + here(a), m);
        if 0 <= x < m {
            lemma_sum_single(here, m, x);
        } else {
            lemma_sum_zero(here, m);
        }
    }
}

/// The aggregators counted the votes of their own voters.
pub open spec fn counted_own(
    ids: Seq<Seq<char>>,
    vs: Seq<BenchVoterView>,
    posts: Seq<TallyView>,
) -> bool {
    forall|a: int|
        0 <= a < posts.len() ==> own_counts(ids, mine(vs, a, vs.len() as int), #[trigger] posts[a])
}

/// The counts in a post are those of some voters.
pub open spec fn own_counts(ids: Seq<Seq<char>>, own: Seq<BenchVoterView>, post: TallyView) -> bool {
    &&& post.candidate_counts.len() == ids.len()
    &&& forall|j: int|
        0 <= j < ids.len() ==> #[trigger] post.candidate_counts[j] == picks(
            ids,
            own,
            j,
            own.len() as int,
        )
}

/// All counts together fit.
pub proof fn lemma_counts_fit(
    ids: Seq<Seq<char>>,
    vs: Seq<BenchVoterView>,
    cs: Seq<(usize, usize)>,
    posts: Seq<TallyView>,
)
    requires
        choose_as(vs, cs),
        counted_own(ids, vs, posts),
    ensures
        all_counts(posts, posts.len() as int) <= vs.len(),
{
    let n = vs.len() as int;
    lemma_counts_sum(ids, vs, cs, posts, posts.len() as int);
    lemma_mine_total(vs, cs, posts.len() as int, n);
}

proof fn lemma_counts_sum(
    ids: Seq<Seq<char>>,
    vs: Seq<BenchVoterView>,
    cs: Seq<(usize, usize)>,
    posts: Seq<TallyView>,
    count: int,
)
    requires
        choose_as(vs, cs),
        counted_own(ids, vs, posts),
        0 <= count <= posts.len(),
    ensures
        all_counts(posts, count) <= sum(|a: int| assigned_to(cs, a, vs.len() as int), count),
    decreases count,
{
    if count > 0 {
        lemma_counts_sum(ids, vs, cs, posts, count - 1);
        let own = mine(vs, count - 1, vs.len() as int);
        assert(own_counts(ids, own, posts[count - 1]));
        lemma_counts_total(ids, own, posts[count - 1].candidate_counts);
        lemma_mine_len(vs, cs, count - 1, vs.len() as int);
    }
}

/// What was verified of an id is what the voters of the first aggregators
/// chose.
proof fn lemma_verified_votes(
    ids: Seq<Seq<char>>,
    vs: Seq<BenchVoterView>,
    posts: Seq<TallyView>,
    found: Seq<VerificationView>,
    id: Seq<char>,
    count: int,
)
    requires
        counted_own(ids, vs, posts),
        0 <= count <= posts.len(),
        ids.contains(id),
        forall|i: int| 0 <= i < vs.len() ==> 0 <= (#[trigger] vs[i]).candidate < ids.len(),
        forall|a: int| 0 <= a < posts.len() ==> verified(found, (#[trigger] posts[a]).aggregator_id),
    ensures
        verified_votes(ids, posts, found, id, count) == sum(
            |a: int|
                backers(
                    ids,
                    mine(vs, a, vs.len() as int),
                    id,
                    mine(vs, a, vs.len() as int).len() as int,
                ),
            count,
        ),
    decreases count,
{
    if count > 0 {
        lemma_verified_votes(ids, vs, posts, found, id, count - 1);
        let own = mine(vs, count - 1, vs.len() as int);
        let post = posts[count - 1];
        assert(own_counts(ids, own, post));
        let at = lemma_mine_from(vs, count - 1, vs.len() as int);
        assert forall|i: int| 0 <= i < own.len() implies 0 <= (#[trigger] own[i]).candidate
            < ids.len() by {
            assert(own[i] == vs[at[i]]);
        }
        lemma_votes_for(ids, own, post.candidate_counts, id, ids.len() as int);
        lemma_position_range(ids, id, ids.len() as int);
        let j = choose|j: int| 0 <= j < ids.len() && ids[j] == id;
        assert(ids[j] == id);
        assert(verified(found, post.aggregator_id));
    }
}

/// The verified tally of all aggregators gives each candidate the votes of
/// those who chose the candidate.
pub proof fn law_votes_counted(
    ids: Seq<Seq<char>>,
    vs: Seq<BenchVoterView>,
    cs: Seq<(usize, usize)>,
    posts: Seq<TallyView>,
    found: Seq<VerificationView>,
    id: Seq<char>,
)
    requires
        choose_as(vs, cs),
        choices_ok(cs, posts.len() as int, ids.len() as int),
        counted_own(ids, vs, posts),
        ids.contains(id),
        forall|a: int| 0 <= a < posts.len() ==> verified(found, (#[trigger] posts[a]).aggregator_id),
    ensures
        verified_votes(ids, posts, found, id, posts.len() as int) == votes_of_id(
            ids,
            cs,
            id,
            cs.len() as int,
        ),
{
    assert forall|i: int| 0 <= i < vs.len() implies 0 <= (#[trigger] vs[i]).candidate
        < ids.len() by {
        assert(cs[i].1 < ids.len());
    }
    assert forall|i: int| 0 <= i < cs.len() implies (#[trigger] cs[i]).0 < posts.len() by {
    }
    lemma_verified_votes(ids, vs, posts, found, id, posts.len() as int);
    lemma_backers_mine(ids, vs, cs, id, posts.len() as int, vs.len() as int);
}

proof fn lemma_votes_of_last(ids: Seq<Seq<char>>, cs: Seq<(usize, usize)>, id: Seq<char>, count: int)
    requires
        0 <= count <= cs.len(),
        ids.no_duplicates(),
        ids.contains(id),
        forall|i: int| 0 <= i < cs.len() ==> (#[trigger] cs[i]).1 < ids.len(),
    ensures
        votes_of_id(ids, cs, id, count) == voted_for(cs, position_of(ids, id)->0, count),
        0 <= voted_for(cs, position_of(ids, id)->0, count) <= count,
    decreases count,
{
    lemma_position_range(ids, id, ids.len() as int);
    let j = choose|j: int| 0 <= j < ids.len() && ids[j] == id;
    assert(ids[j] == id);
    if count > 0 {
        lemma_votes_of_last(ids, cs, id, count - 1);
        assert(cs[count - 1].1 < ids.len());
    }
}

/// The verified tally is the expected one where the candidates have distinct
/// ids.
pub proof fn law_tally_as_expected(
    config: &BenchmarkConfig,
    cs: Seq<(usize, usize)>,
    tally: Map<Seq<char>, usize>,
)
    requires
        bench_ids(config).no_duplicates(),
        choices_ok(cs, config.aggregators as int, bench_ids(config).len() as int),
        cs.len() <= usize::MAX,
        forall|id: Seq<char>| #[trigger] tally.dom().contains(id) <==> bench_ids(config).contains(id),
        forall|id: Seq<char>| #[trigger]
            tally.dom().contains(id) ==> tally[id] == votes_of_id(
                bench_ids(config),
                cs,
                id,
                cs.len() as int,
            ),
    ensures
        tally == expected(config, cs),
{
    let ids = bench_ids(config);
    let counts = Seq::new(ids.len(), |j: int| voted_for(cs, j, cs.len() as int) as usize);
    assert forall|i: int| 0 <= i < cs.len() implies (#[trigger] cs[i]).1 < ids.len() by {
    }
    assert forall|id: Seq<char>| #[trigger] tally.dom().contains(id) implies tally[id] == by_id(
        ids,
        counts,
    )[id] by {
        lemma_votes_of_last(ids, cs, id, cs.len() as int);
        lemma_position_range(ids, id, ids.len() as int);
        let j = choose|j: int| 0 <= j < ids.len() && ids[j] == id;
        assert(ids[j] == id);
    }
    assert(tally =~= by_id(ids, counts));
}

} // verus!
