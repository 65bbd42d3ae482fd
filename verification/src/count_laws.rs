//! What the counts of tallies mean: those of one aggregator in terms of its
//! records and votes, those that validators accept in terms of the
//! registration post, and the global ones in terms of the aggregators that
//! were found valid.

use vstd::prelude::*;

use crate::domain::pad_value;
use crate::election::{candidate_ids, Candidate};
use crate::epa::structs::ProofView;
use crate::epa_adapter::{
    epa_proof_parsed, epa_valid, input_error, label_numbers, size_total, srs, InputView,
};
use crate::epa_laws::{law_input_taken, lemma_size_total, proper_labels, sum_of_sizes};
use crate::error::ErrorView;
use crate::labels::LabelsView;
use crate::modular::md;
use crate::poly::power_of_two;
use crate::registration::{taus, token_sum, RegistrationView};
use crate::sums::{lemma_sum_add, lemma_sum_ext, lemma_sum_single, sum};
use crate::tally::{
    ballot_error, ballot_problem, cast_ballots, choice, last_position, lemma_cast_shape,
    lemma_choice_range, lemma_padding_shape, lemma_position_range, lemma_tally_shape, placeable,
    note, position_of, proof_outcome, registered_ids, size_problems, tally_error, tally_made,
    tally_problems, tally_verdict, tally_witness, verified, verified_votes, votes_for, with_padding,
    tally_views, verification_views, AggregatorVerification, Ballots, TallyPost, TallyView,
    VerificationView,
};
use crate::tally_laws::{in_order, lemma_cast_in_order, lemma_padding_in_order, votes_known};

verus! {

/// For how many of the first `n` numbers something holds.
pub open spec fn how_many(p: spec_fn(int) -> bool, n: int) -> int {
    sum(
        |i: int|
            if p(i) {
                1int
            } else {
                0int
            },
        n,
    )
}

pub proof fn lemma_how_many_ext(p: spec_fn(int) -> bool, q: spec_fn(int) -> bool, n: int)
    requires
        forall|i: int| 0 <= i < n ==> #[trigger] p(i) == q(i),
    ensures
        how_many(p, n) == how_many(q, n),
{
    lemma_sum_ext(
        |i: int|
            if p(i) {
                1int
            } else {
                0int
            },
        |i: int|
            if q(i) {
                1int
            } else {
                0int
            },
        n,
    );
}

proof fn lemma_how_many_bound(p: spec_fn(int) -> bool, n: int)
    requires
        n >= 0,
    ensures
        0 <= how_many(p, n) <= n,
    decreases n,
{
    if n > 0 {
        lemma_how_many_bound(p, n - 1);
    }
}

// ---- the tally of one aggregator -------------------------------------------

/// The voter of record `i` cast a vote.
pub open spec fn voted(b: Ballots, i: int) -> bool {
    b.votes.dom().contains(b.records[i].voter_id)
}

/// The voter of record `i` cast a vote for the candidate with an id.
pub open spec fn voted_for(b: Ballots, i: int, id: Seq<char>) -> bool {
    voted(b, i) && b.votes[b.records[i].voter_id] == id
}

/// No later candidate has the id of candidate `j`.
pub open spec fn last_of_id(b: Ballots, j: int) -> bool {
    forall|l: int| j < l < b.candidates.len() ==> #[trigger] b.candidates[l] != b.candidates[j]
}

/// The record's voter is known, and a vote of theirs names a candidate.
pub open spec fn good_ballot(b: Ballots, i: int) -> bool {
    &&& exists|v: int|
        0 <= v < b.registered.len() && (#[trigger] b.registered[v]).voter_id
            == b.records[i].voter_id
    &&& voted(b, i) ==> b.candidates.contains(b.votes[b.records[i].voter_id])
}

proof fn lemma_last_found(ids: Seq<Seq<char>>, id: Seq<char>, count: int, j: int)
    requires
        0 <= j < count <= ids.len(),
        ids[j] == id,
    ensures
        last_position(ids, id, count) matches Some(l) && j <= l < count && ids[l] == id,
    decreases count,
{
    if ids[count - 1] != id {
        lemma_last_found(ids, id, count - 1, j);
    }
}

proof fn lemma_ballot_good(b: Ballots, i: int)
    requires
        0 <= i < b.records.len(),
    ensures
        ballot_problem(b, i) is None <==> good_ballot(b, i),
{
    let id = b.records[i].voter_id;
    let ids = registered_ids(b.registered);
    lemma_position_range(ids, id, ids.len() as int);
    if good_ballot(b, i) {
        let v = choose|v: int|
            0 <= v < b.registered.len() && (#[trigger] b.registered[v]).voter_id == id;
        assert(ids[v] == id);
        lemma_last_found(ids, id, ids.len() as int, v);
    }
    if position_of(ids, id) is Some {
        let v = position_of(ids, id)->0;
        assert(b.registered[v].voter_id == id);
    }
    if voted(b, i) {
        let c = b.votes[id];
        lemma_position_range(b.candidates, c, b.candidates.len() as int);
        if b.candidates.contains(c) {
            let j = choose|j: int| 0 <= j < b.candidates.len() && b.candidates[j] == c;
            lemma_last_found(b.candidates, c, b.candidates.len() as int, j);
        }
        if position_of(b.candidates, c) is Some {
            assert(b.candidates[position_of(b.candidates, c)->0] == c);
        }
    }
}

proof fn lemma_good_prefix(b: Ballots, count: int)
    requires
        0 <= count <= b.records.len(),
    ensures
        ballot_error(b, count) is None <==> forall|i: int|
            0 <= i < count ==> #[trigger] good_ballot(b, i),
    decreases count,
{
    if count > 0 {
        lemma_good_prefix(b, count - 1);
        lemma_ballot_good(b, count - 1);
        if forall|i: int| 0 <= i < count ==> #[trigger] good_ballot(b, i) {
            assert(good_ballot(b, count - 1));
        }
    }
}

proof fn lemma_error_kept(b: Ballots, i: int, count: int)
    requires
        0 <= i <= count,
        ballot_error(b, i) is Some,
    ensures
        ballot_error(b, count) == ballot_error(b, i),
    decreases count,
{
    if i < count {
        lemma_error_kept(b, i, count - 1);
    }
}

/// There is a tally only if every record's voter is known to the aggregator
/// and every vote names a candidate.
pub proof fn law_tallied_ballots_good(
    b: Ballots,
    eid: Seq<char>,
    labels: LabelsView,
    reg: RegistrationView,
    i: int,
)
    requires
        tally_error(b, eid, labels, reg) is None,
        0 <= i < b.records.len(),
    ensures
        good_ballot(b, i),
{
    lemma_good_prefix(b, b.records.len() as int);
}

/// The first record with an unknown voter, or else with a vote for an unknown
/// candidate, is what a refused tally names.
pub proof fn law_bad_ballot_named(
    b: Ballots,
    eid: Seq<char>,
    labels: LabelsView,
    reg: RegistrationView,
    i: int,
)
    requires
        0 <= i < b.records.len(),
        forall|l: int| 0 <= l < i ==> #[trigger] good_ballot(b, l),
        !good_ballot(b, i),
    ensures
        ({
            let id = b.records[i].voter_id;
            let known = exists|v: int|
                0 <= v < b.registered.len() && (#[trigger] b.registered[v]).voter_id == id;
            tally_error(b, eid, labels, reg) == Some(
                ErrorView::Tally(
                    if known {
                        "unknown candidate "@ + b.votes[id]
                    } else {
                        "aggregator has no private skv for voter "@ + id
                    },
                ),
            )
        }),
{
    let id = b.records[i].voter_id;
    let ids = registered_ids(b.registered);
    lemma_good_prefix(b, i);
    lemma_ballot_good(b, i);
    assert(ballot_error(b, i + 1) == ballot_problem(b, i));
    lemma_error_kept(b, i + 1, b.records.len() as int);
    lemma_position_range(ids, id, ids.len() as int);
    if exists|v: int| 0 <= v < b.registered.len() && (#[trigger] b.registered[v]).voter_id == id {
        let v = choose|v: int|
            0 <= v < b.registered.len() && (#[trigger] b.registered[v]).voter_id == id;
        assert(ids[v] == id);
        lemma_last_found(ids, id, ids.len() as int, v);
    } else if position_of(ids, id) is Some {
        assert(b.registered[position_of(ids, id)->0].voter_id == id);
    }
}

/// The partition of a good ballot: no vote, or the last candidate with the id
/// that was voted for.
proof fn lemma_choice_means(b: Ballots, i: int, j: int)
    requires
        0 <= i < b.records.len(),
        good_ballot(b, i),
        0 <= j <= b.candidates.len(),
    ensures
        choice(b, i) == j <==> if j == b.candidates.len() {
            !voted(b, i)
        } else {
            last_of_id(b, j) && voted_for(b, i, b.candidates[j])
        },
{
    if voted(b, i) {
        let c = b.votes[b.records[i].voter_id];
        let n = b.candidates.len() as int;
        lemma_position_range(b.candidates, c, n);
        let l = choose|l: int| 0 <= l < n && b.candidates[l] == c;
        lemma_last_found(b.candidates, c, n, l);
        let at = position_of(b.candidates, c)->0;
        assert(last_of_id(b, at)) by {
            assert forall|m: int| at < m < n implies #[trigger] b.candidates[m] != c by {
                if b.candidates[m] == c {
                    lemma_last_found(b.candidates, c, n, m);
                }
            }
        }
        if j < n && last_of_id(b, j) && b.candidates[j] == c {
            lemma_last_found(b.candidates, c, n, j);
            if j < at {
                assert(b.candidates[at] != b.candidates[j]);
            }
        }
    }
}

/// The ballots of a partition are those that mean it.
proof fn lemma_partition_means(b: Ballots, j: int)
    requires
        0 <= j < b.candidates.len(),
        forall|i: int| 0 <= i < b.records.len() ==> #[trigger] good_ballot(b, i),
    ensures
        how_many(|i: int| choice(b, i) == j, b.records.len() as int) == if last_of_id(b, j) {
            how_many(|i: int| voted_for(b, i, b.candidates[j]), b.records.len() as int)
        } else {
            0
        },
{
    let count = b.records.len() as int;
    let p = |i: int| choice(b, i) == j;
    let q = |i: int| last_of_id(b, j) && voted_for(b, i, b.candidates[j]);
    assert forall|i: int| 0 <= i < count implies #[trigger] p(i) == q(i) by {
        assert(good_ballot(b, i));
        lemma_choice_means(b, i, j);
    }
    lemma_how_many_ext(p, q, count);
    if last_of_id(b, j) {
        lemma_how_many_ext(q, |i: int| voted_for(b, i, b.candidates[j]), count);
    } else {
        lemma_how_many_ext(q, |i: int| false, count);
        lemma_none(count);
    }
}

/// The ballots of the partition for no vote are those without a vote.
proof fn lemma_no_vote_means(b: Ballots, k: int)
    requires
        k == b.candidates.len(),
        forall|i: int| 0 <= i < b.records.len() ==> #[trigger] good_ballot(b, i),
    ensures
        how_many(|i: int| choice(b, i) == k, b.records.len() as int) == how_many(
            |i: int| !voted(b, i),
            b.records.len() as int,
        ),
{
    let count = b.records.len() as int;
    let p = |i: int| choice(b, i) == k;
    let q = |i: int| !voted(b, i);
    assert forall|i: int| 0 <= i < count implies #[trigger] p(i) == q(i) by {
        assert(good_ballot(b, i));
        lemma_choice_means(b, i, k);
    }
    lemma_how_many_ext(p, q, count);
}

proof fn lemma_cast_count(b: Ballots, n: int, count: int, j: int)
    requires
        0 <= count <= b.records.len(),
        n >= 0,
        0 <= j <= b.candidates.len(),
        forall|i: int|
            0 <= i < b.records.len() ==> (#[trigger] b.records[i]).idx < n && good_ballot(b, i),
    ensures
        cast_ballots(b, n, count).partitions.len() == b.candidates.len() + 2,
        cast_ballots(b, n, count).partitions[j].len() == how_many(
            |i: int| choice(b, i) == j,
            count,
        ),
    decreases count,
{
    if count > 0 {
        lemma_cast_count(b, n, count - 1, j);
        assert(b.records[count - 1].idx < n && good_ballot(b, count - 1));
        lemma_good_prefix(b, count);
        lemma_choice_range(b, count - 1, count);
    }
}

/// Each voter is counted once: the counts of a tally are, for no vote, the
/// number of records whose voter cast no vote; for each candidate, the number
/// of records whose voter voted for that candidate (of candidates with one id,
/// for the last); and for the padding, what the registration post says.
pub proof fn law_counts_mean_votes(
    b: Ballots,
    eid: Seq<char>,
    labels: LabelsView,
    reg: RegistrationView,
    post: TallyView,
)
    requires
        b.records.len() <= usize::MAX,
        placeable(b, reg),
        tally_error(b, eid, labels, reg) is None,
        tally_made(b, eid, labels, reg, post),
    ensures
        post.no_vote_count == how_many(|i: int| !voted(b, i), b.records.len() as int),
        post.candidate_counts.len() == b.candidates.len(),
        forall|j: int|
            0 <= j < b.candidates.len() ==> #[trigger] post.candidate_counts[j] == if last_of_id(
                b,
                j,
            ) {
                how_many(|i: int| voted_for(b, i, b.candidates[j]), b.records.len() as int)
            } else {
                0
            },
        post.pad_count == reg.pad_count,
        post.aggregator_id == reg.aggregator_id,
        post.election_id == eid,
        post.domain_size == reg.domain_size,
{
    let n = reg.domain_size as int;
    let count = b.records.len() as int;
    let k = b.candidates.len() as int;
    lemma_good_prefix(b, count);
    assert forall|i: int| 0 <= i < count implies (#[trigger] b.records[i]).idx < n && good_ballot(
        b,
        i,
    ) by {
        lemma_prefix_none(b, i + 1, count);
    }
    lemma_tally_shape(b, eid, reg);
    lemma_cast_shape(b, n, count);
    let cast = cast_ballots(b, n, count);
    lemma_padding_shape(
        cast,
        eid,
        reg.aggregator_id,
        reg.real_registered_count as int,
        reg.pad_count as int,
    );
    let w = tally_witness(b, eid, reg);
    assert forall|j: int| 0 <= j <= k implies #[trigger] w.partitions[j].len() == how_many(
        |i: int| choice(b, i) == j,
        count,
    ) && w.partitions[j].len() <= usize::MAX by {
        lemma_cast_count(b, n, count, j);
        assert(w.partitions[j] == cast.partitions[j]);
        lemma_how_many_bound(|i: int| choice(b, i) == j, count);
    }
    assert(post.no_vote_count == w.partitions[k].len());
    lemma_no_vote_means(b, k);
    assert(w.partitions[k].len() == how_many(|i: int| choice(b, i) == k, count));
    assert forall|j: int| 0 <= j < k implies #[trigger] post.candidate_counts[j] == if last_of_id(
        b,
        j,
    ) {
        how_many(|i: int| voted_for(b, i, b.candidates[j]), count)
    } else {
        0
    } by {
        assert(post.candidate_counts[j] == post.sizes[j]);
        assert(w.partitions[j].len() == how_many(|i: int| choice(b, i) == j, count));
        lemma_partition_means(b, j);
    }
}

proof fn lemma_none(n: int)
    ensures
        how_many(|i: int| false, n) == 0,
    decreases n,
{
    if n > 0 {
        lemma_none(n - 1);
    }
}

proof fn lemma_prefix_none(b: Ballots, i: int, count: int)
    requires
        0 <= i <= count,
        ballot_error(b, count) is None,
    ensures
        ballot_error(b, i) is None,
{
    if ballot_error(b, i) is Some {
        lemma_error_kept(b, i, count);
    }
}

/// How many of the first `n` values are `j`.
spec fn part_size(f: spec_fn(int) -> int, j: int, n: int) -> int {
    how_many(|i: int| f(i) == j, n)
}

proof fn lemma_part_size(f: spec_fn(int) -> int, p: spec_fn(int) -> bool, j: int, n: int)
    requires
        forall|i: int| 0 <= i < n ==> #[trigger] p(i) == (f(i) == j),
    ensures
        part_size(f, j, n) == how_many(p, n),
    decreases n,
{
    if n > 0 {
        lemma_part_size(f, p, j, n - 1);
        assert(p(n - 1) == (f(n - 1) == j));
    }
}

proof fn lemma_count_parts(f: spec_fn(int) -> int, k: int, n: int)
    requires
        n >= 0,
        k >= 0,
        forall|i: int| 0 <= i < n ==> 0 <= #[trigger] f(i) < k,
    ensures
        sum(|j: int| part_size(f, j, n), k) == n,
    decreases n,
{
    let h = |j: int| part_size(f, j, n);
    if n == 0 {
        crate::sums::lemma_sum_zero(h, k);
    } else {
        lemma_count_parts(f, k, n - 1);
        let g = |j: int| part_size(f, j, n - 1);
        let d = |j: int|
            if f(n - 1) == j {
                1int
            } else {
                0int
            };
        lemma_sum_add(g, d, k);
        lemma_sum_ext(h, |j: int| g(j) + d(j), k);
        lemma_sum_single(d, k, f(n - 1));
    }
}

proof fn lemma_counts_complete(b: Ballots, counts: Seq<usize>, none: int)
    requires
        forall|i: int| 0 <= i < b.records.len() ==> #[trigger] good_ballot(b, i),
        counts.len() == b.candidates.len(),
        none == how_many(|i: int| !voted(b, i), b.records.len() as int),
        forall|j: int|
            0 <= j < b.candidates.len() ==> #[trigger] counts[j] == if last_of_id(b, j) {
                how_many(|i: int| voted_for(b, i, b.candidates[j]), b.records.len() as int)
            } else {
                0
            },
    ensures
        sum_of_sizes(counts) + none == b.records.len(),
{
    let count = b.records.len() as int;
    let k = b.candidates.len() as int;
    let f = |i: int| choice(b, i);
    lemma_good_prefix(b, count);
    assert forall|i: int| 0 <= i < count implies 0 <= #[trigger] f(i) < k + 1 by {
        lemma_choice_range(b, i, count);
    }
    lemma_count_parts(f, k + 1, count);
    let parts = |j: int| part_size(f, j, count);
    let posted = |j: int| counts[j] as int;
    assert forall|j: int| 0 <= j < k implies #[trigger] parts(j) == posted(j) by {
        lemma_part_size(f, |i: int| choice(b, i) == j, j, count);
        lemma_partition_means(b, j);
        assert(counts[j] == posted(j));
    }
    lemma_part_size(f, |i: int| choice(b, i) == k, k, count);
    lemma_no_vote_means(b, k);
    assert(sum(parts, k + 1) == sum(parts, k) + parts(k));
    lemma_sum_ext(parts, posted, k);
    assert(sum(parts, k + 1) == count) by {
        lemma_sum_ext(parts, |j: int| part_size(f, j, count), k + 1);
    }
    assert(parts(k) == none);
    assert(sum_of_sizes(counts) == sum(posted, k)) by {
        lemma_sum_ext(|i: int| counts[i] as int, posted, k);
    }
}

/// No voter is lost and none is counted twice: the votes for all candidates
/// and those for no vote are together as many as the records.
pub proof fn law_counts_complete(
    b: Ballots,
    eid: Seq<char>,
    labels: LabelsView,
    reg: RegistrationView,
    post: TallyView,
)
    requires
        b.records.len() <= usize::MAX,
        placeable(b, reg),
        tally_error(b, eid, labels, reg) is None,
        tally_made(b, eid, labels, reg, post),
    ensures
        sum_of_sizes(post.candidate_counts) + post.no_vote_count == b.records.len(),
{
    law_counts_mean_votes(b, eid, labels, reg, post);
    lemma_good_prefix(b, b.records.len() as int);
    lemma_counts_complete(b, post.candidate_counts, post.no_vote_count as int);
}

proof fn lemma_push_contains(s: Seq<int>, x: int)
    ensures
        forall|y: int| #[trigger] s.push(x).contains(y) <==> s.contains(y) || y == x,
{
    let t = s.push(x);
    assert forall|y: int| #[trigger] t.contains(y) <==> s.contains(y) || y == x by {
        if s.contains(y) {
            let i = choose|i: int| 0 <= i < s.len() && s[i] == y;
            assert(t[i] == y);
        }
        if y == x {
            assert(t[s.len() as int] == x);
        }
        if t.contains(y) && y != x {
            let i = choose|i: int| 0 <= i < t.len() && t[i] == y;
            assert(s[i] == y);
        }
    }
}

proof fn lemma_cast_places(b: Ballots, n: int, count: int, j: int)
    requires
        in_order(b),
        0 <= count <= b.records.len() <= n,
        0 <= j <= b.candidates.len(),
        forall|i: int| 0 <= i < b.records.len() ==> #[trigger] good_ballot(b, i),
    ensures
        cast_ballots(b, n, count).partitions.len() == b.candidates.len() + 2,
        forall|x: int| #[trigger]
            cast_ballots(b, n, count).partitions[j].contains(x) <==> 0 <= x < count && choice(b, x)
                == j,
    decreases count,
{
    if count > 0 {
        let last = count - 1;
        lemma_cast_places(b, n, last, j);
        lemma_good_prefix(b, count);
        assert(good_ballot(b, last));
        lemma_choice_range(b, last, count);
        assert(b.records[last].idx == last);
        let before = cast_ballots(b, n, last).partitions;
        lemma_push_contains(before[j], last);
        let now = cast_ballots(b, n, count).partitions;
        assert forall|x: int| #[trigger] now[j].contains(x) <==> 0 <= x < count && choice(b, x)
            == j by {
            assert(before[j].contains(x) <==> 0 <= x < last && choice(b, x) == j);
        }
    } else {
        assert(cast_ballots(b, n, 0).partitions[j] =~= Seq::<int>::empty());
    }
}

proof fn lemma_padding_places(
    w: crate::epa_adapter::WitnessView,
    eid: Seq<char>,
    aid: Seq<char>,
    start: int,
    count: int,
)
    requires
        w.partitions.len() >= 1,
        w.partitions.last().len() == 0,
        0 <= start,
        0 <= count,
        start + count <= w.values.len(),
    ensures
        forall|x: int| #[trigger]
            with_padding(w, eid, aid, start, count).partitions.last().contains(x) <==> start <= x
                < start + count,
    decreases count,
{
    if count > 0 {
        lemma_padding_places(w, eid, aid, start, count - 1);
        lemma_padding_shape(w, eid, aid, start, count - 1);
        let before = with_padding(w, eid, aid, start, count - 1).partitions;
        lemma_push_contains(before.last(), start + count - 1);
        let now = with_padding(w, eid, aid, start, count).partitions;
        assert forall|x: int| #[trigger] now.last().contains(x) <==> start <= x < start + count by {
            assert(before.last().contains(x) <==> start <= x < start + count - 1);
        }
    }
}

/// What an aggregator proves puts each voter's index where the vote says, and
/// nowhere else: under the candidate who was voted for (the last with the
/// id), or under no vote; the padding indices are in the padding partition and
/// nothing else is. The token at a voter's index is that voter's secret.
pub proof fn law_witness_follows_votes(b: Ballots, eid: Seq<char>, reg: RegistrationView)
    requires
        in_order(b),
        b.records.len() == reg.real_registered_count,
        reg.real_registered_count + reg.pad_count <= reg.domain_size,
        forall|i: int| 0 <= i < b.records.len() ==> #[trigger] good_ballot(b, i),
    ensures
        ({
            let w = tally_witness(b, eid, reg);
            let count = b.records.len() as int;
            let k = b.candidates.len() as int;
            &&& w.partitions.len() == k + 2
            &&& forall|j: int, x: int|
                0 <= j < k ==> (#[trigger] w.partitions[j].contains(x) <==> 0 <= x < count
                    && last_of_id(b, j) && voted_for(b, x, b.candidates[j]))
            &&& forall|x: int| #[trigger]
                w.partitions[k].contains(x) <==> 0 <= x < count && !voted(b, x)
            &&& forall|x: int| #[trigger]
                w.partitions[k + 1].contains(x) <==> count <= x < count + reg.pad_count
            &&& w.values.len() == reg.domain_size
            &&& forall|i: int| 0 <= i < count ==> #[trigger] w.values[i] == b.registered[i].skv
            &&& forall|p: int|
                0 <= p < reg.pad_count ==> #[trigger] w.values[count + p] == pad_value(
                    eid,
                    reg.aggregator_id,
                    p,
                )
        }),
{
    let n = reg.domain_size as int;
    let count = b.records.len() as int;
    let k = b.candidates.len() as int;
    let (start, pads) = (reg.real_registered_count as int, reg.pad_count as int);
    let cast = cast_ballots(b, n, count);
    let aid = reg.aggregator_id;
    let w = tally_witness(b, eid, reg);
    lemma_good_prefix(b, count);
    assert(votes_known(b)) by {
        assert forall|i: int|
            0 <= i < b.records.len() && b.votes.dom().contains(
                (#[trigger] b.records[i]).voter_id,
            ) implies b.candidates.contains(b.votes[b.records[i].voter_id]) by {
            assert(good_ballot(b, i));
        }
    }
    assert(placeable(b, reg));
    lemma_cast_shape(b, n, count);
    lemma_cast_in_order(b, n, count);
    lemma_padding_shape(cast, eid, aid, start, pads);
    lemma_padding_in_order(cast, eid, aid, start, pads);
    lemma_padding_places(cast, eid, aid, start, pads);
    assert forall|j: int, x: int| 0 <= j < k implies (#[trigger] w.partitions[j].contains(x) <==> 0
        <= x < count && last_of_id(b, j) && voted_for(b, x, b.candidates[j])) by {
        lemma_cast_places(b, n, count, j);
        assert(w.partitions[j] == cast.partitions[j]);
        if 0 <= x < count {
            assert(good_ballot(b, x));
            lemma_choice_means(b, x, j);
        }
    }
    assert forall|x: int| #[trigger] w.partitions[k].contains(x) <==> 0 <= x < count && !voted(
        b,
        x,
    ) by {
        lemma_cast_places(b, n, count, k);
        assert(w.partitions[k] == cast.partitions[k]);
        if 0 <= x < count {
            assert(good_ballot(b, x));
            lemma_choice_means(b, x, k);
        }
    }
    assert(w.partitions.last() == w.partitions[k + 1]);
    assert forall|i: int| 0 <= i < count implies #[trigger] w.values[i] == b.registered[i].skv by {
        assert(cast.values[i] == b.registered[i].skv);
    }
}

// ---- what validators accept ------------------------------------------------

/// The public input of a tally that validators check.
pub open spec fn checked_input(
    eid: Seq<char>,
    labels: LabelsView,
    reg: RegistrationView,
    post: TallyView,
) -> InputView {
    InputView {
        election_id: eid,
        aggregator_id: post.aggregator_id,
        domain_size: reg.domain_size,
        commitment_c: md(
            sum(|i: int| reg.voters[i].tau, reg.voters.len() as int) + sum(
                |p: int| reg.pad_tokens[p],
                reg.pad_tokens.len() as int,
            ),
        ),
        labels: labels.candidates + seq![labels.no_vote, labels.pad],
        label_indices: Seq::new(post.sizes.len(), |j: int| (j + 1) as usize),
        sizes: post.sizes,
        srs_ref: reg.srs_ref,
    }
}

/// A tally that is found valid has the domain and the padding of the
/// registration post; its counts are the sizes of the partitions, which fill
/// the domain; labels and commitment are those that follow from public data;
/// and its proof is valid for all this.
pub proof fn law_valid_tally(
    eid: Seq<char>,
    k: int,
    labels: LabelsView,
    reg: RegistrationView,
    post: TallyView,
)
    requires
        k >= 2,
        tally_verdict(eid, k, labels, reg, post).0,
    ensures
        tally_verdict(eid, k, labels, reg, post).1.len() == 0,
        post.domain_size == reg.domain_size,
        post.pad_count == reg.pad_count,
        post.sizes.len() == k,
        post.candidate_counts.len() == k - 2,
        forall|j: int| 0 <= j < k - 2 ==> #[trigger] post.candidate_counts[j] == post.sizes[j],
        post.no_vote_count == post.sizes[k - 2],
        post.pad_count == post.sizes[k - 1],
        sum_of_sizes(post.sizes) == reg.domain_size,
        post.c_commit == checked_input(eid, labels, reg, post).commitment_c,
        post.labels == checked_input(eid, labels, reg, post).labels,
        post.label_indices == checked_input(eid, labels, reg, post).label_indices,
        power_of_two(reg.domain_size as int),
        exists|view: ProofView|
            epa_proof_parsed(post.proof_bytes) == Ok::<ProofView, Seq<char>>(view)
                && #[trigger] epa_valid(
                &srs(reg.domain_size as int),
                checked_input(eid, labels, reg, post),
                view,
            ),
{
    let p = size_problems(k, reg, post);
    let all = tally_problems(k, labels, reg, post);
    assert(all.len() == 0);
    assert(all.len() >= p.len());
    lemma_size_total(post.sizes, k);
    let want = checked_input(eid, labels, reg, post);
    assert(labels.all() =~= want.labels);
    assert(post.candidate_counts == post.sizes.take(k - 2));
    lemma_token_sum(reg);
    assert(crate::tally::posted_input(eid, labels, reg, post) =~= want);
}

proof fn lemma_token_sum(reg: RegistrationView)
    ensures
        token_sum(reg.voters, reg.pad_tokens) == md(
            sum(|i: int| reg.voters[i].tau, reg.voters.len() as int) + sum(
                |p: int| reg.pad_tokens[p],
                reg.pad_tokens.len() as int,
            ),
        ),
{
    let t = taus(reg.voters);
    lemma_sum_ext(|i: int| t[i], |i: int| reg.voters[i].tau, t.len() as int);
}

proof fn lemma_sum_of_first(sizes: Seq<usize>, counts: Seq<usize>, k: int)
    requires
        0 <= k <= sizes.len(),
        counts.len() == k,
        forall|j: int| 0 <= j < k ==> #[trigger] counts[j] == sizes[j],
    ensures
        sum_of_sizes(counts) == sum(|j: int| sizes[j] as int, k),
{
    lemma_sum_ext(|i: int| counts[i] as int, |j: int| sizes[j] as int, k);
}

/// A tally that is found valid counts as many votes, no vote included, as
/// there are registered voters: padding is never counted as a vote.
pub proof fn law_valid_tally_counts_voters(
    eid: Seq<char>,
    k: int,
    labels: LabelsView,
    reg: RegistrationView,
    post: TallyView,
)
    requires
        k >= 2,
        reg.real_registered_count + reg.pad_count == reg.domain_size,
        tally_verdict(eid, k, labels, reg, post).0,
    ensures
        sum_of_sizes(post.candidate_counts) + post.no_vote_count == reg.real_registered_count,
{
    law_valid_tally(eid, k, labels, reg, post);
    lemma_sum_of_first(post.sizes, post.candidate_counts, k - 2);
    let f = |j: int| post.sizes[j] as int;
    assert(sum(f, k) == sum(f, k - 1) + f(k - 1));
    assert(sum(f, k - 1) == sum(f, k - 2) + f(k - 2));
}

/// Something is wrong with a tally, and what validators say of it.
pub open spec fn tally_fault(
    k: int,
    labels: LabelsView,
    reg: RegistrationView,
    post: TallyView,
    message: Seq<char>,
) -> bool {
    ||| message == "posted C_commit does not match registration tokens"@ && post.c_commit != md(
        sum(|i: int| reg.voters[i].tau, reg.voters.len() as int) + sum(
            |p: int| reg.pad_tokens[p],
            reg.pad_tokens.len() as int,
        ),
    )
    ||| message == "tally domain size does not match registration post"@ && post.domain_size
        != reg.domain_size
    ||| message == "wrong number of partitions"@ && post.sizes.len() != k
    ||| message == "partition sizes do not sum to domain size"@ && post.sizes.len() == k
        && sum_of_sizes(post.sizes) != post.domain_size
    ||| message == "candidate tally does not match partition sizes"@ && post.sizes.len() == k
        && !(post.candidate_counts.len() == k - 2 && forall|j: int|
        0 <= j < k - 2 ==> #[trigger] post.candidate_counts[j] == post.sizes[j])
    ||| message == "NO_VOTE count does not match partition size"@ && post.sizes.len() == k
        && post.no_vote_count != post.sizes[k - 2]
    ||| message == "PAD count does not match partition size"@ && post.sizes.len() == k
        && post.pad_count != post.sizes[k - 1]
    ||| message == "PAD count does not match registration post"@ && post.sizes.len() == k
        && post.pad_count != reg.pad_count
    ||| message == "posted labels do not match recomputed labels"@ && post.labels
        != labels.candidates + seq![labels.no_vote, labels.pad]
    ||| message == "posted label indices are not canonical"@ && post.label_indices != Seq::new(
        k as nat,
        |j: int| (j + 1) as usize,
    )
}

proof fn lemma_contains_sum(a: Seq<Seq<char>>, b: Seq<Seq<char>>)
    ensures
        forall|m: Seq<char>| #[trigger] (a + b).contains(m) <==> a.contains(m) || b.contains(m),
{
    let c = a + b;
    assert forall|m: Seq<char>| #[trigger] c.contains(m) <==> a.contains(m) || b.contains(m) by {
        if a.contains(m) {
            let i = choose|i: int| 0 <= i < a.len() && a[i] == m;
            assert(c[i] == m);
        }
        if b.contains(m) {
            let i = choose|i: int| 0 <= i < b.len() && b[i] == m;
            assert(c[a.len() + i] == m);
        }
        if c.contains(m) {
            let i = choose|i: int| 0 <= i < c.len() && c[i] == m;
            if i < a.len() {
                assert(a[i] == m);
            } else {
                assert(b[i - a.len()] == m);
            }
        }
    }
}

proof fn lemma_note(wrong: bool, message: Seq<char>)
    ensures
        forall|m: Seq<char>| #[trigger]
            note(wrong, message).contains(m) <==> wrong && m == message,
{
    if wrong {
        assert(note(wrong, message)[0] == message);
    }
}

/// Whatever is wrong with a posted tally apart from its proof is reported, and
/// the tally is not valid; nothing else is reported then.
pub proof fn law_tally_faults_reported(
    eid: Seq<char>,
    k: int,
    labels: LabelsView,
    reg: RegistrationView,
    post: TallyView,
    message: Seq<char>,
)
    requires
        k >= 2,
        exists|m: Seq<char>| #[trigger] tally_fault(k, labels, reg, post, m),
    ensures
        !tally_verdict(eid, k, labels, reg, post).0,
        tally_verdict(eid, k, labels, reg, post).1.contains(message) <==> tally_fault(
            k,
            labels,
            reg,
            post,
            message,
        ),
{
    lemma_tally_faults(k, labels, reg, post, message);
    let m = choose|m: Seq<char>| #[trigger] tally_fault(k, labels, reg, post, m);
    lemma_tally_faults(k, labels, reg, post, m);
}

proof fn lemma_tally_faults(
    k: int,
    labels: LabelsView,
    reg: RegistrationView,
    post: TallyView,
    message: Seq<char>,
)
    requires
        k >= 2,
    ensures
        tally_problems(k, labels, reg, post).contains(message) <==> tally_fault(
            k,
            labels,
            reg,
            post,
            message,
        ),
{
    lemma_size_total(post.sizes, k);
    lemma_token_sum(reg);
    assert(labels.all() =~= labels.candidates + seq![labels.no_vote, labels.pad]);
    let n1 = note(
        token_sum(reg.voters, reg.pad_tokens) != post.c_commit,
        "posted C_commit does not match registration tokens"@,
    );
    let n2 = note(
        post.domain_size != reg.domain_size,
        "tally domain size does not match registration post"@,
    );
    let s = size_problems(k, reg, post);
    let n3 = note(
        post.labels != labels.all(),
        "posted labels do not match recomputed labels"@,
    );
    let n4 = note(
        post.label_indices != label_numbers(k),
        "posted label indices are not canonical"@,
    );
    lemma_note(
        token_sum(reg.voters, reg.pad_tokens) != post.c_commit,
        "posted C_commit does not match registration tokens"@,
    );
    lemma_note(
        post.domain_size != reg.domain_size,
        "tally domain size does not match registration post"@,
    );
    lemma_note(post.labels != labels.all(), "posted labels do not match recomputed labels"@);
    lemma_note(
        post.label_indices != label_numbers(k),
        "posted label indices are not canonical"@,
    );
    assert(label_numbers(k) =~= Seq::new(k as nat, |j: int| (j + 1) as usize));
    lemma_contains_sum(n1, n2);
    lemma_contains_sum(n1 + n2, s);
    lemma_contains_sum(n1 + n2 + s, n3);
    lemma_contains_sum(n1 + n2 + s + n3, n4);
    lemma_size_faults(k, reg, post, message);
    if post.sizes.len() == k {
        let first = post.sizes.take(k - 2);
        if post.candidate_counts.len() == k - 2 && (forall|j: int|
            0 <= j < k - 2 ==> #[trigger] post.candidate_counts[j] == post.sizes[j]) {
            assert(post.candidate_counts =~= first);
        }
        if post.candidate_counts == first {
            assert forall|j: int| 0 <= j < k - 2 implies #[trigger] post.candidate_counts[j]
                == post.sizes[j] by {
                assert(first[j] == post.sizes[j]);
            }
        }
    }
}

proof fn lemma_size_faults(k: int, reg: RegistrationView, post: TallyView, message: Seq<char>)
    requires
        k >= 2,
    ensures
        size_problems(k, reg, post).contains(message) <==> {
            ||| post.sizes.len() != k && message == "wrong number of partitions"@
            ||| post.sizes.len() == k && {
                ||| size_total(post.sizes, k) != post.domain_size && message
                    == "partition sizes do not sum to domain size"@
                ||| post.candidate_counts != post.sizes.take(k - 2) && message
                    == "candidate tally does not match partition sizes"@
                ||| post.no_vote_count != post.sizes[k - 2] && message
                    == "NO_VOTE count does not match partition size"@
                ||| post.pad_count != post.sizes[k - 1] && message
                    == "PAD count does not match partition size"@
                ||| post.pad_count != reg.pad_count && message
                    == "PAD count does not match registration post"@
            }
        },
{
    let s = size_problems(k, reg, post);
    if post.sizes.len() != k {
        assert(s[0] == "wrong number of partitions"@);
    } else {
        let (w1, w2, w3, w4, w5) = (
            size_total(post.sizes, k) != post.domain_size,
            post.candidate_counts != post.sizes.take(k - 2),
            post.no_vote_count != post.sizes[k - 2],
            post.pad_count != post.sizes[k - 1],
            post.pad_count != reg.pad_count,
        );
        let a = note(w1, "partition sizes do not sum to domain size"@);
        let b = note(w2, "candidate tally does not match partition sizes"@);
        let c = note(w3, "NO_VOTE count does not match partition size"@);
        let d = note(w4, "PAD count does not match partition size"@);
        let e = note(w5, "PAD count does not match registration post"@);
        lemma_note(w1, "partition sizes do not sum to domain size"@);
        lemma_note(w2, "candidate tally does not match partition sizes"@);
        lemma_note(w3, "NO_VOTE count does not match partition size"@);
        lemma_note(w4, "PAD count does not match partition size"@);
        lemma_note(w5, "PAD count does not match registration post"@);
        lemma_contains_sum(a, b);
        lemma_contains_sum(a + b, c);
        lemma_contains_sum(a + b + c, d);
        lemma_contains_sum(a + b + c + d, e);
    }
}

/// A tally with nothing else wrong is valid exactly if its proof is: the
/// domain is one that there are parameters for, the bytes are those of a
/// proof, and the proof is valid for the recomputed public input.
pub proof fn law_verdict_by_proof(
    eid: Seq<char>,
    k: int,
    labels: LabelsView,
    reg: RegistrationView,
    post: TallyView,
)
    requires
        2 <= k <= usize::MAX,
        forall|m: Seq<char>| !#[trigger] tally_fault(k, labels, reg, post, m),
    ensures
        ({
            let n = reg.domain_size as int;
            let input = checked_input(eid, labels, reg, post);
            tally_verdict(eid, k, labels, reg, post).0 <==> {
                &&& power_of_two(n)
                &&& n <= 0x1_0000_0000
                &&& labels.candidates.len() == k - 2
                &&& k < n
                &&& epa_proof_parsed(post.proof_bytes) matches Ok(view) && epa_valid(
                    &srs(n),
                    input,
                    view,
                )
            }
        }),
        tally_verdict(eid, k, labels, reg, post).0 <==> tally_verdict(
            eid,
            k,
            labels,
            reg,
            post,
        ).1.len() == 0,
{
    let n = reg.domain_size as int;
    let want = checked_input(eid, labels, reg, post);
    lemma_faultless(eid, k, labels, reg, post);
    lemma_canonical_taken(want, k, n);
    lemma_outcome(want, post.proof_bytes);
}

proof fn lemma_faultless(
    eid: Seq<char>,
    k: int,
    labels: LabelsView,
    reg: RegistrationView,
    post: TallyView,
)
    requires
        2 <= k <= usize::MAX,
        forall|m: Seq<char>| !#[trigger] tally_fault(k, labels, reg, post, m),
    ensures
        tally_problems(k, labels, reg, post).len() == 0,
        crate::tally::posted_input(eid, labels, reg, post) == checked_input(
            eid,
            labels,
            reg,
            post,
        ),
        post.sizes.len() == k,
        sum_of_sizes(post.sizes) == reg.domain_size,
{
    let all = tally_problems(k, labels, reg, post);
    if all.len() > 0 {
        lemma_tally_faults(k, labels, reg, post, all[0]);
        assert(all.contains(all[0]));
    }
    assert(all.len() >= size_problems(k, reg, post).len());
    let want = checked_input(eid, labels, reg, post);
    assert(labels.all() =~= want.labels);
    lemma_token_sum(reg);
    assert(crate::tally::posted_input(eid, labels, reg, post) =~= want);
    lemma_size_total(post.sizes, k);
}

/// An input with canonical label indices is taken for a domain with room for
/// them.
proof fn lemma_canonical_taken(input: InputView, k: int, n: int)
    requires
        2 <= k <= usize::MAX,
        input.domain_size == n,
        input.sizes.len() == k,
        sum_of_sizes(input.sizes) == n,
        input.label_indices == Seq::new(k as nat, |j: int| (j + 1) as usize),
    ensures
        input_error(input, n) is None <==> input.labels.len() == k && k < n,
{
    let numbers = input.label_indices;
    law_input_taken(input, n);
    assert forall|i: int| 0 <= i < k implies #[trigger] numbers[i] == i + 1 by {}
    if proper_labels(numbers, n) {
        assert(numbers[k - 1] == k);
    }
}

proof fn lemma_outcome(input: InputView, bytes: Seq<u8>)
    ensures
        ({
            let n = input.domain_size as int;
            proof_outcome(input, bytes) == Ok::<bool, ErrorView>(true) <==> {
                &&& power_of_two(n)
                &&& n <= 0x1_0000_0000
                &&& input_error(input, n) is None
                &&& epa_proof_parsed(bytes) matches Ok(view) && epa_valid(&srs(n), input, view)
            }
        }),
{
}

// ---- the global tally ------------------------------------------------------

/// Some verification of this very aggregator found its tally valid.
pub open spec fn found_valid(vs: Seq<VerificationView>, aid: Seq<char>) -> bool {
    exists|i: int| 0 <= i < vs.len() && (#[trigger] vs[i]).aggregator_id == aid && vs[i].valid
}

/// The votes for candidate `j` in a list of counts; missing counts are none.
pub open spec fn count_at(counts: Seq<usize>, j: int) -> int {
    if j < counts.len() {
        counts[j] as int
    } else {
        0
    }
}

/// The global tally for an id: over the posts of aggregators whose tally was
/// found valid, and the candidates with that id.
pub open spec fn global_votes(
    ids: Seq<Seq<char>>,
    posts: Seq<TallyView>,
    vs: Seq<VerificationView>,
    id: Seq<char>,
) -> int {
    verified_votes(ids, posts, vs, id, posts.len() as int)
}

proof fn lemma_found(vs: Seq<VerificationView>, aid: Seq<char>)
    ensures
        verified(vs, aid) == found_valid(vs, aid),
{
    if verified(vs, aid) {
        let i = choose|i: int|
            0 <= i < vs.len() && (#[trigger] vs[i]).valid && vs[i].aggregator_id == aid;
        assert(vs[i].aggregator_id == aid);
    }
    if found_valid(vs, aid) {
        let i = choose|i: int|
            0 <= i < vs.len() && (#[trigger] vs[i]).aggregator_id == aid && vs[i].valid;
        assert(vs[i].valid);
    }
}

proof fn lemma_votes_single(ids: Seq<Seq<char>>, counts: Seq<usize>, j: int, count: int)
    requires
        ids.no_duplicates(),
        0 <= j < ids.len(),
        0 <= count <= ids.len(),
    ensures
        votes_for(ids, counts, ids[j], count) == if j < count {
            count_at(counts, j)
        } else {
            0
        },
    decreases count,
{
    if count > 0 {
        lemma_votes_single(ids, counts, j, count - 1);
        if count - 1 != j {
            assert(ids[count - 1] != ids[j]);
        }
    }
}

proof fn lemma_votes_absent(ids: Seq<Seq<char>>, counts: Seq<usize>, id: Seq<char>, count: int)
    requires
        !ids.contains(id),
        0 <= count <= ids.len(),
    ensures
        votes_for(ids, counts, id, count) == 0,
    decreases count,
{
    if count > 0 {
        lemma_votes_absent(ids, counts, id, count - 1);
        assert(ids.contains(ids[count - 1]));
    }
}

proof fn lemma_same_prefix(
    ids: Seq<Seq<char>>,
    a: Seq<TallyView>,
    b: Seq<TallyView>,
    va: Seq<VerificationView>,
    vb: Seq<VerificationView>,
    id: Seq<char>,
    count: int,
)
    requires
        0 <= count <= a.len(),
        count <= b.len(),
        forall|i: int|
            0 <= i < count ==> (#[trigger] a[i]).aggregator_id == b[i].aggregator_id && (
            found_valid(va, a[i].aggregator_id) == found_valid(vb, a[i].aggregator_id)) && (
            found_valid(va, a[i].aggregator_id) ==> a[i].candidate_counts
                == b[i].candidate_counts),
    ensures
        verified_votes(ids, a, va, id, count) == verified_votes(ids, b, vb, id, count),
    decreases count,
{
    if count > 0 {
        lemma_same_prefix(ids, a, b, va, vb, id, count - 1);
        let last = a[count - 1];
        lemma_found(va, last.aggregator_id);
        lemma_found(vb, last.aggregator_id);
    }
}

proof fn lemma_removed(
    ids: Seq<Seq<char>>,
    posts: Seq<TallyView>,
    vs: Seq<VerificationView>,
    id: Seq<char>,
    p: int,
    count: int,
)
    requires
        0 <= p < count <= posts.len(),
    ensures
        verified_votes(ids, posts, vs, id, count) == verified_votes(
            ids,
            posts.remove(p),
            vs,
            id,
            count - 1,
        ) + if found_valid(vs, posts[p].aggregator_id) {
            votes_for(ids, posts[p].candidate_counts, id, ids.len() as int)
        } else {
            0
        },
    decreases count,
{
    let rest = posts.remove(p);
    if p == count - 1 {
        lemma_same_prefix(ids, posts, rest, vs, vs, id, p);
        lemma_found(vs, posts[p].aggregator_id);
    } else {
        lemma_removed(ids, posts, vs, id, p, count - 1);
        assert(rest[count - 2] == posts[count - 1]);
    }
}

/// Without posts nothing is counted.
pub proof fn law_no_posts_no_votes(
    ids: Seq<Seq<char>>,
    vs: Seq<VerificationView>,
    id: Seq<char>,
)
    ensures
        global_votes(ids, Seq::empty(), vs, id) == 0,
{
}

/// A post whose aggregator has no valid verification of its own does not
/// count: the global tally is the same without it.
pub proof fn law_unverified_not_counted(
    ids: Seq<Seq<char>>,
    posts: Seq<TallyView>,
    vs: Seq<VerificationView>,
    id: Seq<char>,
    p: int,
)
    requires
        0 <= p < posts.len(),
        forall|i: int|
            0 <= i < vs.len() && (#[trigger] vs[i]).aggregator_id == posts[p].aggregator_id
                ==> !vs[i].valid,
    ensures
        global_votes(ids, posts, vs, id) == global_votes(ids, posts.remove(p), vs, id),
{
    lemma_removed(ids, posts, vs, id, p, posts.len() as int);
}

/// A post whose aggregator has a valid verification counts once: to the votes
/// for an id it adds its counts for the candidates with that id.
pub proof fn law_verified_counted(
    ids: Seq<Seq<char>>,
    posts: Seq<TallyView>,
    vs: Seq<VerificationView>,
    id: Seq<char>,
    p: int,
    i: int,
)
    requires
        0 <= p < posts.len(),
        0 <= i < vs.len(),
        vs[i].valid,
        vs[i].aggregator_id == posts[p].aggregator_id,
    ensures
        global_votes(ids, posts, vs, id) == global_votes(ids, posts.remove(p), vs, id) + sum(
            |j: int|
                if ids[j] == id {
                    count_at(posts[p].candidate_counts, j)
                } else {
                    0
                },
            ids.len() as int,
        ),
{
    assert(found_valid(vs, posts[p].aggregator_id));
    lemma_removed(ids, posts, vs, id, p, posts.len() as int);
    lemma_votes_sum(ids, posts[p].candidate_counts, id, ids.len() as int);
}

proof fn lemma_votes_sum(ids: Seq<Seq<char>>, counts: Seq<usize>, id: Seq<char>, count: int)
    requires
        0 <= count <= ids.len(),
    ensures
        votes_for(ids, counts, id, count) == sum(
            |j: int|
                if ids[j] == id {
                    count_at(counts, j)
                } else {
                    0
                },
            count,
        ),
    decreases count,
{
    if count > 0 {
        lemma_votes_sum(ids, counts, id, count - 1);
    }
}

/// Where no two candidates have one id, a verified post adds its count for the
/// candidate.
pub proof fn law_candidate_count_added(
    ids: Seq<Seq<char>>,
    posts: Seq<TallyView>,
    vs: Seq<VerificationView>,
    p: int,
    j: int,
    i: int,
)
    requires
        ids.no_duplicates(),
        0 <= p < posts.len(),
        0 <= j < ids.len(),
        0 <= i < vs.len(),
        vs[i].valid,
        vs[i].aggregator_id == posts[p].aggregator_id,
    ensures
        global_votes(ids, posts, vs, ids[j]) == global_votes(ids, posts.remove(p), vs, ids[j])
            + count_at(posts[p].candidate_counts, j),
{
    assert(found_valid(vs, posts[p].aggregator_id));
    lemma_removed(ids, posts, vs, ids[j], p, posts.len() as int);
    lemma_votes_single(ids, posts[p].candidate_counts, j, ids.len() as int);
}

/// An id that no candidate has gets no votes.
pub proof fn law_unknown_id_no_votes(
    ids: Seq<Seq<char>>,
    posts: Seq<TallyView>,
    vs: Seq<VerificationView>,
    id: Seq<char>,
)
    requires
        !ids.contains(id),
    ensures
        global_votes(ids, posts, vs, id) == 0,
{
    lemma_unknown(ids, posts, vs, id, posts.len() as int);
}

proof fn lemma_unknown(
    ids: Seq<Seq<char>>,
    posts: Seq<TallyView>,
    vs: Seq<VerificationView>,
    id: Seq<char>,
    count: int,
)
    requires
        !ids.contains(id),
        0 <= count <= posts.len(),
    ensures
        verified_votes(ids, posts, vs, id, count) == 0,
    decreases count,
{
    if count > 0 {
        lemma_unknown(ids, posts, vs, id, count - 1);
        lemma_votes_absent(ids, posts[count - 1].candidate_counts, id, ids.len() as int);
    }
}

/// The global tally does not depend on the counts of an aggregator without a
/// valid verification, nor on its counts for no vote and padding.
pub proof fn law_unverified_counts_ignored(
    ids: Seq<Seq<char>>,
    posts: Seq<TallyView>,
    vs: Seq<VerificationView>,
    id: Seq<char>,
    p: int,
    other: TallyView,
)
    requires
        0 <= p < posts.len(),
        other.aggregator_id == posts[p].aggregator_id,
        other.candidate_counts == posts[p].candidate_counts || forall|i: int|
            0 <= i < vs.len() && (#[trigger] vs[i]).aggregator_id == posts[p].aggregator_id
                ==> !vs[i].valid,
    ensures
        global_votes(ids, posts.update(p, other), vs, id) == global_votes(ids, posts, vs, id),
{
    lemma_same_prefix(ids, posts, posts.update(p, other), vs, vs, id, posts.len() as int);
}

/// Verifications that found a tally not valid change nothing, and neither does
/// their number or order: the global tally depends only on which of the
/// posting aggregators were found valid.
pub proof fn law_only_validity_matters(
    ids: Seq<Seq<char>>,
    posts: Seq<TallyView>,
    vs: Seq<VerificationView>,
    others: Seq<VerificationView>,
    id: Seq<char>,
)
    requires
        forall|p: int|
            0 <= p < posts.len() ==> found_valid(vs, (#[trigger] posts[p]).aggregator_id)
                == found_valid(others, posts[p].aggregator_id),
    ensures
        global_votes(ids, posts, vs, id) == global_votes(ids, posts, others, id),
{
    lemma_same_prefix(ids, posts, posts, vs, others, id, posts.len() as int);
}

proof fn lemma_votes_total(
    ids: Seq<Seq<char>>,
    posts: Seq<TallyView>,
    vs: Seq<VerificationView>,
    id: Seq<char>,
    f: spec_fn(int) -> int,
    count: int,
)
    requires
        0 <= count <= posts.len(),
        forall|p: int|
            0 <= p < count ==> #[trigger] f(p) == if found_valid(vs, posts[p].aggregator_id) {
                votes_for(ids, posts[p].candidate_counts, id, ids.len() as int)
            } else {
                0
            },
    ensures
        verified_votes(ids, posts, vs, id, count) == sum(f, count),
    decreases count,
{
    if count > 0 {
        lemma_votes_total(ids, posts, vs, id, f, count - 1);
        lemma_found(vs, posts[count - 1].aggregator_id);
        assert(f(count - 1) == f(count - 1));
    }
}

/// A verification of the aggregator with an id found its tally valid.
pub open spec fn some_valid(verifications: Seq<AggregatorVerification>, aid: Seq<char>) -> bool {
    exists|i: int|
        0 <= i < verifications.len() && (#[trigger] verifications[i]).aggregator_id@ == aid
            && verifications[i].valid
}

/// The counts of a post for the candidates with an id.
pub open spec fn counts_for(candidates: Seq<Candidate>, post: TallyPost, id: Seq<char>) -> int {
    sum(|j: int| count_for(candidates, post, id, j), candidates.len() as int)
}

/// The count of a post for candidate `j`, if that candidate has the id.
pub open spec fn count_for(
    candidates: Seq<Candidate>,
    post: TallyPost,
    id: Seq<char>,
    j: int,
) -> int {
    if candidates[j].id@ == id && j < post.candidate_counts@.len() {
        post.candidate_counts@[j] as int
    } else {
        0
    }
}

proof fn lemma_some_valid(verifications: Seq<AggregatorVerification>, aid: Seq<char>)
    ensures
        some_valid(verifications, aid) == found_valid(verification_views(verifications), aid),
{
    let vs = verification_views(verifications);
    if found_valid(vs, aid) {
        let i = choose|i: int|
            0 <= i < vs.len() && (#[trigger] vs[i]).aggregator_id == aid && vs[i].valid;
        assert(verifications[i].aggregator_id@ == aid && verifications[i].valid);
    }
    if some_valid(verifications, aid) {
        let i = choose|i: int|
            0 <= i < verifications.len() && (#[trigger] verifications[i]).aggregator_id@ == aid
                && verifications[i].valid;
        assert(vs[i].aggregator_id == aid && vs[i].valid);
    }
}

proof fn lemma_counts_for(candidates: Seq<Candidate>, post: TallyPost, id: Seq<char>)
    ensures
        counts_for(candidates, post, id) == votes_for(
            candidate_ids(candidates),
            post@.candidate_counts,
            id,
            candidates.len() as int,
        ),
{
    let ids = candidate_ids(candidates);
    let counts = post.candidate_counts@;
    let n = candidates.len() as int;
    lemma_votes_sum(ids, counts, id, n);
    let f = |j: int|
        if ids[j] == id {
            count_at(counts, j)
        } else {
            0
        };
    let g = |j: int| count_for(candidates, post, id, j);
    assert forall|j: int| 0 <= j < n implies #[trigger] f(j) == g(j) by {
        assert(ids[j] == candidates[j].id@);
    }
    lemma_sum_ext(f, g, n);
}

/// The votes for an id: the sum over the posts of all aggregators whose tally
/// was found valid.
pub proof fn lemma_global_total(
    candidates: Seq<Candidate>,
    posts: Seq<TallyPost>,
    verifications: Seq<AggregatorVerification>,
    id: Seq<char>,
)
    ensures
        verified_votes(
            candidate_ids(candidates),
            tally_views(posts),
            verification_views(verifications),
            id,
            posts.len() as int,
        ) == sum(
            |p: int|
                if some_valid(verifications, posts[p].aggregator_id@) {
                    counts_for(candidates, posts[p], id)
                } else {
                    0
                },
            posts.len() as int,
        ),
{
    let ids = candidate_ids(candidates);
    let views = tally_views(posts);
    let vs = verification_views(verifications);
    let f = |p: int|
        if some_valid(verifications, posts[p].aggregator_id@) {
            counts_for(candidates, posts[p], id)
        } else {
            0
        };
    assert forall|p: int| 0 <= p < posts.len() implies #[trigger] f(p) == if found_valid(
        vs,
        views[p].aggregator_id,
    ) {
        votes_for(ids, views[p].candidate_counts, id, ids.len() as int)
    } else {
        0
    } by {
        lemma_some_valid(verifications, posts[p].aggregator_id@);
        lemma_counts_for(candidates, posts[p], id);
    }
    lemma_votes_total(ids, views, vs, id, f, posts.len() as int);
    lemma_sum_ext(
        f,
        |p: int|
            if some_valid(verifications, posts[p].aggregator_id@) {
                counts_for(candidates, posts[p], id)
            } else {
                0
            },
        posts.len() as int,
    );
}

} // verus!
