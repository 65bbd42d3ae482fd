//! What holds of every election of the demonstration, whatever was asked of
//! it.

use vstd::prelude::*;

use crate::demo_election::with_vote;
use crate::demo_state::{
    aggregator_ok, ballots_with, election_ok, listed_voter, option_ids, tallied, ElectionStateView,
};
use crate::demo_tally::{duplicate_messages, registrations_of};
use crate::registration::{
    all_voter_ids, finalized, lemma_nothing_flagged, record_of, repeated, repeated_across_text,
    voter_ids,
};
use crate::tally::{indices_below, lemma_tally_shape, tally_error, tally_made, tally_witness};
use crate::tally_laws::{ballots_for, law_counts_votes};

verus! {

/// A vote is not published, and it changes nothing that was posted.
pub proof fn law_vote_not_published(s: ElectionStateView, vid: Seq<char>, cid: Seq<char>)
    ensures
        with_vote(s, vid, cid).bulletin == s.bulletin,
        with_vote(s, vid, cid).aggregators == s.aggregators,
        with_vote(s, vid, cid).params == s.params,
{
}

/// The voter is registered with one of the first aggregators.
spec fn registered_before(s: ElectionStateView, id: Seq<char>, count: int) -> bool {
    exists|j: int|
        0 <= j < count && s.voters[id].registered_with == Some(#[trigger] s.params.aggregators[j])
}

/// The voters of a post are those of the aggregator, each once.
proof fn lemma_post_voters(eid: Seq<char>, s: ElectionStateView, aid: Seq<char>)
    requires
        election_ok(eid, s),
        s.aggregators.dom().contains(aid),
        s.aggregators[aid].finalized is Some,
    ensures
        ({
            let ids = voter_ids(s.aggregators[aid].finalized->0.voters);
            &&& ids.no_duplicates()
            &&& forall|i: int|
                0 <= i < ids.len() ==> s.voters[#[trigger] ids[i]].registered_with == Some(aid)
        }),
{
    let a = s.aggregators[aid];
    let f = a.finalized->0;
    let ids = voter_ids(f.voters);
    assert(aggregator_ok(s, aid));
    assert forall|i: int| 0 <= i < ids.len() implies ids[i] == (#[trigger] a.registered[i]).voter_id by {
        assert(record_of(eid, aid, f.domain_size as int, a.registered[i], i, f.voters[i]));
    }
    assert forall|i: int| 0 <= i < ids.len() implies s.voters[#[trigger] ids[i]].registered_with
        == Some(aid) by {
        assert(listed_voter(s, aid, a.registered[i]));
    }
    assert forall|i: int, j: int| 0 <= i < ids.len() && 0 <= j < ids.len() && i != j implies ids[i]
        != ids[j] by {
        if i < j {
            assert(a.registered[i].voter_id != a.registered[j].voter_id);
        } else {
            assert(a.registered[j].voter_id != a.registered[i].voter_id);
        }
    }
}

proof fn lemma_distinct_across(eid: Seq<char>, s: ElectionStateView, count: int)
    requires
        election_ok(eid, s),
        s.params.aggregators.no_duplicates(),
        0 <= count <= s.params.aggregators.len(),
    ensures
        all_voter_ids(registrations_of(s, count)).no_duplicates(),
        forall|i: int|
            0 <= i < all_voter_ids(registrations_of(s, count)).len() ==> registered_before(
                s,
                #[trigger] all_voter_ids(registrations_of(s, count))[i],
                count,
            ),
    decreases count,
{
    if count > 0 {
        lemma_distinct_across(eid, s, count - 1);
        let aid = s.params.aggregators[count - 1];
        let before = all_voter_ids(registrations_of(s, count - 1));
        let now = all_voter_ids(registrations_of(s, count));
        assert(s.params.aggregators.contains(aid));
        assert(s.aggregators.dom().contains(aid));
        let regs = registrations_of(s, count);
        match s.aggregators[aid].finalized {
            Some(f) => {
                assert(regs.drop_last() =~= registrations_of(s, count - 1));
                assert(regs.last() == f);
                let more = voter_ids(f.voters);
                assert(now == before + more);
                lemma_post_voters(eid, s, aid);
                assert forall|i: int| 0 <= i < now.len() implies registered_before(
                    s,
                    #[trigger] now[i],
                    count,
                ) by {
                    if i < before.len() {
                        assert(now[i] == before[i]);
                        assert(registered_before(s, before[i], count - 1));
                        let j = choose|j: int|
                            0 <= j < count - 1 && s.voters[before[i]].registered_with == Some(
                                #[trigger] s.params.aggregators[j],
                            );
                        assert(s.voters[now[i]].registered_with == Some(
                            s.params.aggregators[j],
                        ));
                    } else {
                        assert(now[i] == more[i - before.len()]);
                        assert(s.voters[now[i]].registered_with == Some(
                            s.params.aggregators[count - 1],
                        ));
                    }
                }
                assert forall|i: int, k: int|
                    0 <= i < now.len() && 0 <= k < now.len() && i != k implies now[i] != now[k] by {
                    lemma_parts_distinct(s, before, more, aid, count, i, k);
                }
            },
            None => {
                assert forall|i: int| 0 <= i < now.len() implies registered_before(
                    s,
                    #[trigger] now[i],
                    count,
                ) by {
                    assert(registered_before(s, before[i], count - 1));
                    let j = choose|j: int|
                        0 <= j < count - 1 && s.voters[before[i]].registered_with == Some(
                            #[trigger] s.params.aggregators[j],
                        );
                    assert(s.voters[now[i]].registered_with == Some(s.params.aggregators[j]));
                }
            },
        }
    }
}

proof fn lemma_parts_distinct(
    s: ElectionStateView,
    before: Seq<Seq<char>>,
    more: Seq<Seq<char>>,
    aid: Seq<char>,
    count: int,
    i: int,
    k: int,
)
    requires
        0 < count <= s.params.aggregators.len(),
        s.params.aggregators.no_duplicates(),
        aid == s.params.aggregators[count - 1],
        before.no_duplicates(),
        more.no_duplicates(),
        forall|x: int|
            0 <= x < before.len() ==> registered_before(s, #[trigger] before[x], count - 1),
        forall|x: int|
            0 <= x < more.len() ==> s.voters[#[trigger] more[x]].registered_with == Some(aid),
        0 <= i < before.len() + more.len(),
        0 <= k < before.len() + more.len(),
        i != k,
    ensures
        (before + more)[i] != (before + more)[k],
{
    let n = before.len() as int;
    let (low, high) = if i < k {
        (i, k)
    } else {
        (k, i)
    };
    if high < n {
        assert(before[low] != before[high]);
    } else if low >= n {
        assert(more[low - n] != more[high - n]);
    } else {
        assert(registered_before(s, before[low], count - 1));
        let j = choose|j: int|
            0 <= j < count - 1 && s.voters[before[low]].registered_with == Some(
                #[trigger] s.params.aggregators[j],
            );
        assert(s.voters[more[high - n]].registered_with == Some(aid));
        assert(s.params.aggregators[j] != s.params.aggregators[count - 1]);
    }
}

/// No voter is found under two aggregators, where no aggregator is listed
/// twice.
pub proof fn law_no_voter_twice(eid: Seq<char>, s: ElectionStateView)
    requires
        election_ok(eid, s),
        s.params.aggregators.no_duplicates(),
    ensures
        duplicate_messages(s) == Seq::<Seq<char>>::empty(),
{
    let n = s.params.aggregators.len() as int;
    let ids = all_voter_ids(registrations_of(s, n));
    lemma_distinct_across(eid, s, n);
    assert forall|i: int| 0 <= i < ids.len() implies !#[trigger] repeated(ids)(i) by {
        if ids.take(i).contains(ids[i]) {
            let k = choose|k: int| 0 <= k < i && ids.take(i)[k] == ids[i];
            assert(ids[k] == ids[i]);
        }
    }
    lemma_nothing_flagged(ids.len() as int, repeated(ids), repeated_across_text(ids));
}

/// A posted tally counts each voter of the aggregator once: there are votes of
/// its voters such that each candidate, and no vote, has the number of those
/// who voted so.
pub open spec fn counts_ballots(s: ElectionStateView, aid: Seq<char>, votes: Map<Seq<char>, Seq<char>>) -> bool {
    let a = s.aggregators[aid];
    let b = ballots_with(option_ids(s.params), a.registered, a.finalized->0, votes);
    let post = a.tally_post->0;
    let n = a.registered.len() as int;
    &&& forall|j: int|
        0 <= j < post.candidate_counts.len() ==> #[trigger] post.candidate_counts[j]
            == ballots_for(b, j, n)
    &&& post.no_vote_count == ballots_for(b, post.candidate_counts.len() as int, n)
    &&& post.pad_count == a.finalized->0.pad_count
}

/// Every tally of the demonstration counts the votes of the aggregator's
/// voters.
pub proof fn law_tally_counts_votes(eid: Seq<char>, s: ElectionStateView, aid: Seq<char>)
    requires
        election_ok(eid, s),
        s.aggregators.dom().contains(aid),
        s.aggregators[aid].tally_post is Some,
    ensures
        exists|votes: Map<Seq<char>, Seq<char>>| #[trigger] counts_ballots(s, aid, votes),
{
    let a = s.aggregators[aid];
    let reg = a.finalized->0;
    let post = a.tally_post->0;
    let ids = option_ids(s.params);
    assert(aggregator_ok(s, aid));
    reveal(tallied);
    let votes = choose|votes: Map<Seq<char>, Seq<char>>|
        tally_error(ballots_with(ids, a.registered, reg, votes), eid, s.labels, reg) is None
            && #[trigger] tally_made(
            ballots_with(ids, a.registered, reg, votes),
            eid,
            s.labels,
            reg,
            post,
        );
    let b = ballots_with(ids, a.registered, reg, votes);
    let n = a.registered.len() as int;
    assert forall|i: int| 0 <= i < reg.voters.len() implies (#[trigger] reg.voters[i]).idx
        < reg.domain_size by {
        assert(record_of(eid, aid, reg.domain_size as int, a.registered[i], i, reg.voters[i]));
    }
    assert(indices_below(b.records, reg.domain_size as int));
    lemma_tally_shape(b, eid, reg);
    let w = tally_witness(b, eid, reg);
    assert forall|j: int| 0 <= j <= ids.len() implies #[trigger] w.partitions[j].len()
        == ballots_for(b, j, n) by {
        law_counts_votes(b, eid, reg, j);
        lemma_ballots_bound(b, j, n);
    }
    lemma_ballots_bound(b, ids.len() as int, n);
    assert(w.partitions[ids.len() as int].len() == ballots_for(b, ids.len() as int, n));
    assert forall|j: int| 0 <= j < post.candidate_counts.len() implies #[trigger] post.candidate_counts[j]
        == ballots_for(b, j, n) by {
        assert(w.partitions[j].len() == ballots_for(b, j, n));
        lemma_ballots_bound(b, j, n);
    }
    assert(counts_ballots(s, aid, votes));
}

proof fn lemma_ballots_bound(b: crate::tally::Ballots, j: int, count: int)
    requires
        count >= 0,
    ensures
        0 <= ballots_for(b, j, count) <= count,
    decreases count,
{
    if count > 0 {
        lemma_ballots_bound(b, j, count - 1);
    }
}

} // verus!
