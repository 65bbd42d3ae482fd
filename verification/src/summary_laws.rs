//! What an election shows of its aggregators and votes, in terms of its state.

use vstd::prelude::*;

use crate::artifacts::PublicElectionArtifact;
use crate::calls::{answered, Answer, RequestBody};
use crate::count_laws::{count_at, found_valid, how_many};
use crate::demo_state::{option_ids, partitions_of, DemoView, ElectionStateView};
use crate::demo_summary::{
    all_posts, all_verifications, any_valid, is_global_tally, posts_of, shows_aggregator, summarizes,
    verifications_of, votes_received, AggregatorSummary, ElectionSummary,
};
use crate::demo_tally::{
    all_answer, checks_match, publishes, tallied_ids, verifies_all, with_verifications,
};
use crate::registration::registration_problems;
use crate::request_laws::others_same;
use crate::routes::CallView;
use crate::sums::sum;
use crate::tally::{tally_verdict, verified, verified_votes, votes_for, TallyView, VerificationView};

verus! {

// ---- votes received --------------------------------------------------------------------

/// The voter is registered with the aggregator and has voted.
pub open spec fn vote_reached(s: ElectionStateView, aid: Seq<char>, i: int) -> bool {
    let v = s.voters[s.voter_order[i]];
    v.registered_with == Some(aid) && v.vote is Some
}

proof fn lemma_votes_received(s: ElectionStateView, aid: Seq<char>, n: int)
    requires
        0 <= n,
    ensures
        votes_received(s, aid, n) == how_many(|i: int| vote_reached(s, aid, i), n),
    decreases n,
{
    if n > 0 {
        lemma_votes_received(s, aid, n - 1);
    }
}

/// An aggregator is shown with the number of its voters who have voted, and
/// its proof as verified or rejected exactly if a tally was verified with that
/// outcome.
pub proof fn law_aggregator_shown(s: ElectionStateView, aid: Seq<char>, r: &AggregatorSummary)
    requires
        shows_aggregator(s, aid, r),
    ensures
        r.votes_received == how_many(
            |i: int| vote_reached(s, aid, i),
            s.voter_order.len() as int,
        ),
        r.registered_voters == s.aggregators[aid].registered.len(),
        r.proof_status@ == "verified"@ <==> s.aggregators[aid].tally_post is Some && (
        s.aggregators[aid].verification matches Some(v) && v.valid),
        r.proof_status@ == "rejected"@ <==> s.aggregators[aid].tally_post is Some && (
        s.aggregators[aid].verification matches Some(v) && !v.valid),
        r.proof_status@ == "proved"@ <==> s.aggregators[aid].tally_post is Some
            && s.aggregators[aid].verification is None,
        r.proof_status@ == "ready"@ <==> s.aggregators[aid].tally_post is None
            && s.aggregators[aid].finalized is Some,
        r.proof_status@ == "pending"@ <==> s.aggregators[aid].tally_post is None
            && s.aggregators[aid].finalized is None,
        s.aggregators[aid].tally_post is None ==> r.no_vote_count is None && forall|id: Seq<char>|
            #[trigger] r.candidate_counts@.dom().contains(id) ==> r.candidate_counts@[id] == 0,
{
    reveal_strlit("verified");
    reveal_strlit("rejected");
    reveal_strlit("proved");
    reveal_strlit("ready");
    reveal_strlit("pending");
    assert("verified"@.len() == 8 && "rejected"@.len() == 8 && "proved"@.len() == 6);
    assert("ready"@.len() == 5 && "pending"@.len() == 7);
    assert("verified"@[0] == 'v' && "rejected"@[0] == 'r');
    lemma_votes_received(s, aid, s.voter_order.len() as int);
}

// ---- totals ----------------------------------------------------------------------------

/// The tally that the aggregator at a place of the list has posted.
pub open spec fn post_at(s: ElectionStateView, i: int) -> Option<TallyView> {
    s.aggregators[s.params.aggregators[i]].tally_post
}

/// The verification of the aggregator at a place of the list.
pub open spec fn verification_at(s: ElectionStateView, i: int) -> Option<VerificationView> {
    s.aggregators[s.params.aggregators[i]].verification
}

/// Some aggregator in the list has a valid verification for an id.
pub open spec fn endorsed(s: ElectionStateView, aid: Seq<char>) -> bool {
    exists|i: int|
        0 <= i < s.params.aggregators.len() && (#[trigger] verification_at(s, i) matches Some(v)
            && v.valid && v.aggregator_id == aid)
}

/// The count of a tally for the candidate at a place, where that candidate has
/// the id.
pub open spec fn count_of(ids: Seq<Seq<char>>, p: TallyView, id: Seq<char>, j: int) -> int {
    if ids[j] == id {
        count_at(p.candidate_counts, j)
    } else {
        0
    }
}

/// The votes of a tally for an id.
pub open spec fn votes_in(s: ElectionStateView, p: TallyView, id: Seq<char>) -> int {
    let ids = option_ids(s.params);
    sum(|j: int| count_of(ids, p, id, j), ids.len() as int)
}

/// What the aggregator at a place adds to the votes for an id, where the
/// tallies of some aggregators count.
pub open spec fn share(
    s: ElectionStateView,
    counting: spec_fn(Seq<char>) -> bool,
    id: Seq<char>,
    i: int,
) -> int {
    match post_at(s, i) {
        Some(p) => if counting(p.aggregator_id) {
            votes_in(s, p, id)
        } else {
            0
        },
        None => 0,
    }
}

/// The votes for an id over the aggregators in the list whose tallies count.
pub open spec fn total_over(
    s: ElectionStateView,
    counting: spec_fn(Seq<char>) -> bool,
    id: Seq<char>,
) -> int {
    sum(|i: int| share(s, counting, id, i), s.params.aggregators.len() as int)
}

proof fn lemma_votes_in(ids: Seq<Seq<char>>, p: TallyView, id: Seq<char>, n: int)
    requires
        0 <= n <= ids.len(),
    ensures
        votes_for(ids, p.candidate_counts, id, n) == sum(|j: int| count_of(ids, p, id, j), n),
    decreases n,
{
    if n > 0 {
        lemma_votes_in(ids, p, id, n - 1);
    }
}

proof fn lemma_earlier_posts(
    ids: Seq<Seq<char>>,
    posts: Seq<TallyView>,
    p: TallyView,
    vs: Seq<VerificationView>,
    id: Seq<char>,
    n: int,
)
    requires
        n <= posts.len(),
    ensures
        verified_votes(ids, posts.push(p), vs, id, n) == verified_votes(ids, posts, vs, id, n),
    decreases n,
{
    if n > 0 {
        lemma_earlier_posts(ids, posts, p, vs, id, n - 1);
        assert(posts.push(p)[n - 1] == posts[n - 1]);
    }
}

proof fn lemma_total(
    s: ElectionStateView,
    vs: Seq<VerificationView>,
    counting: spec_fn(Seq<char>) -> bool,
    id: Seq<char>,
    n: int,
)
    requires
        0 <= n,
        forall|aid: Seq<char>| #[trigger] counting(aid) == found_valid(vs, aid),
    ensures
        verified_votes(
            option_ids(s.params),
            posts_of(s, n),
            vs,
            id,
            posts_of(s, n).len() as int,
        ) == sum(|i: int| share(s, counting, id, i), n),
    decreases n,
{
    if n > 0 {
        let ids = option_ids(s.params);
        let before = posts_of(s, n - 1);
        lemma_total(s, vs, counting, id, n - 1);
        match post_at(s, n - 1) {
            Some(p) => {
                lemma_earlier_posts(ids, before, p, vs, id, before.len() as int);
                lemma_votes_in(ids, p, id, ids.len() as int);
                assert(posts_of(s, n) == before.push(p));
                assert(before.push(p)[before.len() as int] == p);
                assert(counting(p.aggregator_id) == verified(vs, p.aggregator_id));
            },
            None => {},
        }
    }
}

proof fn lemma_verification_found(s: ElectionStateView, aid: Seq<char>, n: int)
    requires
        0 <= n,
    ensures
        found_valid(verifications_of(s, n), aid) <==> exists|i: int|
            0 <= i < n && (#[trigger] verification_at(s, i) matches Some(v) && v.valid
                && v.aggregator_id == aid),
        any_valid(verifications_of(s, n)) <==> exists|i: int|
            0 <= i < n && (#[trigger] verification_at(s, i) matches Some(v) && v.valid),
    decreases n,
{
    if n > 0 {
        lemma_verification_found(s, aid, n - 1);
        let before = verifications_of(s, n - 1);
        let now = verifications_of(s, n);
        let last = verification_at(s, n - 1);
        if last is Some {
            assert(now == before.push(last->0));
            assert(now[before.len() as int] == last->0);
            assert forall|k: int| 0 <= k < before.len() implies #[trigger] now[k] == before[k] by {
            }
            if found_valid(before, aid) {
                let k = choose|k: int|
                    0 <= k < before.len() && (#[trigger] before[k]).aggregator_id == aid
                        && before[k].valid;
                assert(now[k] == before[k]);
            }
            if any_valid(before) {
                let k = choose|k: int| 0 <= k < before.len() && (#[trigger] before[k]).valid;
                assert(now[k] == before[k]);
            }
        }
    }
}

proof fn lemma_endorsed_total(s: ElectionStateView, id: Seq<char>)
    ensures
        verified_votes(
            option_ids(s.params),
            all_posts(s),
            all_verifications(s),
            id,
            all_posts(s).len() as int,
        ) == total_over(s, |aid: Seq<char>| endorsed(s, aid), id),
{
    let n = s.params.aggregators.len() as int;
    let counting = |aid: Seq<char>| endorsed(s, aid);
    assert forall|aid: Seq<char>| #[trigger] counting(aid) == found_valid(
        all_verifications(s),
        aid,
    ) by {
        lemma_verification_found(s, aid, n);
    }
    lemma_total(s, all_verifications(s), counting, id, n);
}

/// The totals of an election are shown exactly if some aggregator in its list
/// has a valid verification. They are the votes in the tallies with a valid
/// verification, and no others.
pub proof fn law_totals_shown(s: ElectionStateView, r: &ElectionSummary, id: Seq<char>)
    requires
        summarizes(s, r),
        option_ids(s.params).contains(id),
    ensures
        r.verified_global_tally is Some <==> exists|i: int|
            0 <= i < s.params.aggregators.len() && (#[trigger] verification_at(s, i) matches Some(v)
                && v.valid),
        r.verified_global_tally matches Some(totals) ==> totals@.dom().contains(id) && totals@[id]
            == total_over(s, |aid: Seq<char>| endorsed(s, aid), id),
{
    lemma_verification_found(s, id, s.params.aggregators.len() as int);
    lemma_endorsed_total(s, id);
}

/// The totals that are published are the votes in the tallies with a valid
/// verification, and no others.
pub proof fn law_totals_published(s: ElectionStateView, a: &PublicElectionArtifact, id: Seq<char>)
    requires
        publishes(s, a),
        option_ids(s.params).contains(id),
    ensures
        a.verified_global_tally@.dom().contains(id),
        a.verified_global_tally@[id] == total_over(s, |aid: Seq<char>| endorsed(s, aid), id),
{
    assert(is_global_tally(
        option_ids(s.params),
        all_posts(s),
        all_verifications(s),
        &a.verified_global_tally,
    ));
    assert(a.verified_global_tally@.dom().contains(id));
    lemma_endorsed_total(s, id);
}

// ---- verifying everything --------------------------------------------------------------

/// The aggregator has posted its registration and its tally.
pub open spec fn has_posted(s: ElectionStateView, aid: Seq<char>) -> bool {
    s.aggregators[aid].finalized is Some && s.aggregators[aid].tally_post is Some
}

/// Nothing is wrong with the posts of an aggregator: neither with the
/// registration, whose signatures are checked one by one, nor with the tally.
pub open spec fn posts_good(s: ElectionStateView, aid: Seq<char>) -> bool {
    let a = s.aggregators[aid];
    &&& registration_problems(
        s.params.election_id,
        s.params.aggregators,
        partitions_of(s.params),
        a.finalized->0,
        false,
    ).len() == 0
    &&& tally_verdict(
        s.params.election_id,
        partitions_of(s.params),
        s.labels,
        a.finalized->0,
        a.tally_post->0,
    ).0
}

/// An aggregator of the list has posted, and its posts are good.
pub open spec fn passes(s: ElectionStateView, aid: Seq<char>) -> bool {
    s.params.aggregators.contains(aid) && has_posted(s, aid) && posts_good(s, aid)
}

proof fn lemma_tallied_ids(s: ElectionStateView, aid: Seq<char>, n: int)
    requires
        0 <= n <= s.params.aggregators.len(),
    ensures
        tallied_ids(s, n).contains(aid) <==> has_posted(s, aid) && exists|i: int|
            0 <= i < n && #[trigger] s.params.aggregators[i] == aid,
    decreases n,
{
    if n > 0 {
        lemma_tallied_ids(s, aid, n - 1);
        let before = tallied_ids(s, n - 1);
        let last = s.params.aggregators[n - 1];
        if has_posted(s, last) {
            let now = before.push(last);
            assert(tallied_ids(s, n) == now);
            assert(now[before.len() as int] == last);
            if before.contains(aid) {
                let k = choose|k: int| 0 <= k < before.len() && before[k] == aid;
                assert(now[k] == aid);
            }
            if now.contains(aid) && aid != last {
                let k = choose|k: int| 0 <= k < now.len() && now[k] == aid;
                assert(before[k] == aid);
            }
        }
    }
}

/// Some verification is for an id.
pub open spec fn some_for(vs: Seq<VerificationView>, aid: Seq<char>, n: int) -> bool {
    exists|i: int| 0 <= i < n && (#[trigger] vs[i]).aggregator_id == aid
}

proof fn lemma_with_verifications(
    s: ElectionStateView,
    vs: Seq<VerificationView>,
    aid: Seq<char>,
    n: int,
)
    requires
        0 <= n <= vs.len(),
    ensures
        ({
            let t = with_verifications(s, vs, n);
            &&& t.params == s.params
            &&& t.labels == s.labels
            &&& t.voters == s.voters
            &&& t.voter_order == s.voter_order
            &&& t.next_voter == s.next_voter
            &&& t.aggregators[aid].registered == s.aggregators[aid].registered
            &&& t.aggregators[aid].finalized == s.aggregators[aid].finalized
            &&& t.aggregators[aid].tally_post == s.aggregators[aid].tally_post
            &&& if some_for(vs, aid, n) {
                exists|i: int|
                    0 <= i < n && (#[trigger] vs[i]).aggregator_id == aid
                        && t.aggregators[aid].verification == Some(vs[i])
            } else {
                t.aggregators[aid] == s.aggregators[aid]
            }
        }),
    decreases n,
{
    if n > 0 {
        lemma_with_verifications(s, vs, aid, n - 1);
        if vs[n - 1].aggregator_id != aid && some_for(vs, aid, n) {
            let i = choose|i: int| 0 <= i < n && (#[trigger] vs[i]).aggregator_id == aid;
            assert(some_for(vs, aid, n - 1));
        }
    }
}

proof fn lemma_checks(s: ElectionStateView, vs: Seq<VerificationView>, aid: Seq<char>)
    requires
        checks_match(s, tallied_ids(s, s.params.aggregators.len() as int), vs),
    ensures
        found_valid(vs, aid) == passes(s, aid),
        some_for(vs, aid, vs.len() as int) == (s.params.aggregators.contains(aid) && has_posted(
            s,
            aid,
        )),
        forall|i: int|
            0 <= i < vs.len() && (#[trigger] vs[i]).aggregator_id == aid ==> vs[i].valid
                == posts_good(s, aid),
{
    let ids = tallied_ids(s, s.params.aggregators.len() as int);
    lemma_tallied_ids(s, aid, s.params.aggregators.len() as int);
    assert forall|i: int| 0 <= i < vs.len() && (#[trigger] vs[i]).aggregator_id == aid implies vs[i].valid
        == posts_good(s, aid) && ids.contains(aid) by {
        assert(ids[i] == aid);
    }
    if ids.contains(aid) {
        let k = choose|k: int| 0 <= k < ids.len() && ids[k] == aid;
        assert(vs[k].aggregator_id == aid);
    }
}

/// To verify everything gives each aggregator of the list that has posted a
/// verification, which is valid exactly if its posts are good. The totals are
/// the votes in the tallies of the aggregators that pass. Nothing else changes
/// but the board.
pub proof fn law_everything_verified(
    v: DemoView,
    w: DemoView,
    eid: Seq<char>,
    body: RequestBody,
    now: u64,
    rng: rand::rngs::StdRng,
    a: Answer,
    aid: Seq<char>,
    id: Seq<char>,
)
    requires
        answered(v, w, CallView::VerifyAll { eid }, body, now, rng, a),
        option_ids(v.elections[eid].params).contains(id),
    ensures
        others_same(v, w, eid),
        ({
            let (s, t) = (v.elections[eid], w.elections[eid]);
            &&& t.params == s.params
            &&& t.labels == s.labels
            &&& t.voters == s.voters
            &&& t.voter_order == s.voter_order
            &&& t.aggregators[aid].registered == s.aggregators[aid].registered
            &&& t.aggregators[aid].finalized == s.aggregators[aid].finalized
            &&& t.aggregators[aid].tally_post == s.aggregators[aid].tally_post
            &&& if s.params.aggregators.contains(aid) && has_posted(s, aid) {
                t.aggregators[aid].verification matches Some(x) && x.aggregator_id == aid && x.valid
                    == posts_good(s, aid)
            } else {
                t.aggregators[aid] == s.aggregators[aid]
            }
            &&& a matches Answer::AllVerified(r) && r.verified_global_tally@.dom().contains(id)
                && r.verified_global_tally@[id] == total_over(s, |k: Seq<char>| passes(s, k), id)
        }),
{
    let (s, t) = (v.elections[eid], w.elections[eid]);
    assert(w.elections.dom() =~= v.elections.dom());
    let r = a->AllVerified_0;
    let vs = choose|vs: Seq<VerificationView>| #[trigger]
        verifies_all(s, t, now, vs, r.verified_global_tally@) && all_answer(s, vs, &r);
    lemma_everything_verified(s, t, now, vs, aid);
    lemma_passing_total(s, vs, id);
    assert(is_global_tally(option_ids(s.params), all_posts(s), vs, &r.verified_global_tally));
    assert(r.verified_global_tally@.dom().contains(id));
}

proof fn lemma_everything_verified(
    s: ElectionStateView,
    t: ElectionStateView,
    now: u64,
    vs: Seq<VerificationView>,
    aid: Seq<char>,
)
    requires
        checks_match(s, tallied_ids(s, s.params.aggregators.len() as int), vs),
        t == (ElectionStateView {
            bulletin: t.bulletin,
            ..with_verifications(s, vs, vs.len() as int)
        }),
    ensures
        t.params == s.params,
        t.labels == s.labels,
        t.voters == s.voters,
        t.voter_order == s.voter_order,
        t.aggregators[aid].registered == s.aggregators[aid].registered,
        t.aggregators[aid].finalized == s.aggregators[aid].finalized,
        t.aggregators[aid].tally_post == s.aggregators[aid].tally_post,
        if s.params.aggregators.contains(aid) && has_posted(s, aid) {
            t.aggregators[aid].verification matches Some(x) && x.aggregator_id == aid && x.valid
                == posts_good(s, aid)
        } else {
            t.aggregators[aid] == s.aggregators[aid]
        },
{
    lemma_with_verifications(s, vs, aid, vs.len() as int);
    lemma_checks(s, vs, aid);
}

proof fn lemma_passing_total(s: ElectionStateView, vs: Seq<VerificationView>, id: Seq<char>)
    requires
        checks_match(s, tallied_ids(s, s.params.aggregators.len() as int), vs),
    ensures
        verified_votes(option_ids(s.params), all_posts(s), vs, id, all_posts(s).len() as int)
            == total_over(s, |k: Seq<char>| passes(s, k), id),
{
    let counting = |k: Seq<char>| passes(s, k);
    assert forall|k: Seq<char>| #[trigger] counting(k) == found_valid(vs, k) by {
        lemma_checks(s, vs, k);
    }
    lemma_total(s, vs, counting, id, s.params.aggregators.len() as int);
}

} // verus!
