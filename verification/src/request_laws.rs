//! What requests do, in terms of the state before and after: which are taken,
//! what they change, and what they leave alone.

use vstd::prelude::*;

use crate::bls::{delegation_hashable, delegation_log, delegation_valid};
use crate::calls::{answer_refusal, answered, Answer, RequestBody};
use crate::count_laws::{
    how_many, last_of_id, law_counts_mean_votes, lemma_how_many_ext, voted, voted_for,
};
use crate::demo_state::{
    aggregator_ok, ballots_with, election_ok, listed_voter, option_ids, partitions_of, DemoView,
    ElectionStateView,
};
use crate::demo_tally::{
    finalizes, lemma_tally_possible, own_tally, prove_answer, proves, votes_of,
};
use crate::election::{ElectionPhase, ElectionTemplate};
use crate::modular::md;
use crate::registration::{record_of, RegistrationView};
use crate::routes::CallView;
use crate::tally::{placeable, tally_verdict, Ballots, TallyView};
use crate::text::texts;

verus! {

/// All elections but one are the same, and none comes or goes.
pub open spec fn others_same(v: DemoView, w: DemoView, eid: Seq<char>) -> bool {
    &&& w.elections.dom() == v.elections.dom()
    &&& forall|e: Seq<char>| #[trigger]
        v.elections.dom().contains(e) && e != eid ==> w.elections[e] == v.elections[e]
    &&& w.election_order == v.election_order
    &&& w.counter == v.counter
}

/// A vote is taken exactly if the election is in its voting phase, the voter is
/// registered, and the candidate is one of the election.
pub proof fn law_vote_taken(v: DemoView, eid: Seq<char>, body: RequestBody, now: u64)
    requires
        body.voter_id is Some,
        body.candidate_id is Some,
        v.elections.dom().contains(eid),
    ensures
        answer_refusal(v, CallView::Vote { eid }, &body, now) is None <==> {
            let s = v.elections[eid];
            let vid = body.voter_id->0@;
            &&& s.params.phase == ElectionPhase::Voting
            &&& s.voters.dom().contains(vid)
            &&& s.voters[vid].registered_with is Some
            &&& exists|j: int|
                0 <= j < s.params.candidates.len() && (#[trigger] s.params.candidates[j]).0
                    == body.candidate_id->0@
        },
{
    let s = v.elections[eid];
    let cid = body.candidate_id->0@;
    let ids = option_ids(s.params);
    if ids.contains(cid) {
        let j = choose|j: int| 0 <= j < ids.len() && ids[j] == cid;
        assert(s.params.candidates[j].0 == cid);
    }
    if exists|j: int|
        0 <= j < s.params.candidates.len() && (#[trigger] s.params.candidates[j]).0 == cid {
        let j = choose|j: int|
            0 <= j < s.params.candidates.len() && (#[trigger] s.params.candidates[j]).0 == cid;
        assert(ids[j] == cid);
    }
}

/// A vote changes the vote of that voter and nothing else; a later one takes
/// the place of an earlier one.
pub proof fn law_vote_changes(
    v: DemoView,
    w: DemoView,
    eid: Seq<char>,
    body: RequestBody,
    now: u64,
    rng: rand::rngs::StdRng,
    a: Answer,
)
    requires
        answered(v, w, CallView::Vote { eid }, body, now, rng, a),
    ensures
        others_same(v, w, eid),
        ({
            let (s, t) = (v.elections[eid], w.elections[eid]);
            let vid = body.voter_id->0@;
            &&& t.voters.dom() == s.voters.dom()
            &&& t.voters[vid].vote == Some(body.candidate_id->0@)
            &&& t.voters[vid].registered_with == s.voters[vid].registered_with
            &&& t.voters[vid].keys == s.voters[vid].keys
            &&& forall|k: Seq<char>| #[trigger]
                s.voters.dom().contains(k) && k != vid ==> t.voters[k] == s.voters[k]
            &&& t.aggregators == s.aggregators
            &&& t.bulletin == s.bulletin
            &&& t.params == s.params
            &&& t.labels == s.labels
            &&& t.voter_order == s.voter_order
            &&& t.next_voter == s.next_voter
        }),
{
    let s = v.elections[eid];
    assert(w.elections.dom() =~= v.elections.dom());
    assert(w.elections[eid].voters.dom() =~= s.voters.dom());
}

/// A registration that is taken is one in the registration phase, of a voter
/// of the election who is not registered, with an aggregator of the election
/// that has not finalized. It registers the voter, puts them at the end of
/// the aggregator's list, and changes no other voter and no other list.
pub proof fn law_registration_changes(
    v: DemoView,
    w: DemoView,
    eid: Seq<char>,
    body: RequestBody,
    now: u64,
    rng: rand::rngs::StdRng,
    a: Answer,
)
    requires
        answered(v, w, CallView::Register { eid }, body, now, rng, a),
    ensures
        others_same(v, w, eid),
        ({
            let (s, t) = (v.elections[eid], w.elections[eid]);
            let (vid, aid) = (body.voter_id->0@, body.aggregator_id->0@);
            let (l, m) = (s.aggregators[aid].registered, t.aggregators[aid].registered);
            &&& s.params.phase == ElectionPhase::Registration
            &&& s.aggregators.dom().contains(aid)
            &&& s.aggregators[aid].finalized is None
            &&& s.voters.dom().contains(vid)
            &&& s.voters[vid].registered_with is None
            &&& t.voters.dom() == s.voters.dom()
            &&& t.voters[vid].registered_with == Some(aid)
            &&& t.voters[vid].vote == s.voters[vid].vote
            &&& t.voters[vid].keys == s.voters[vid].keys
            &&& forall|k: Seq<char>| #[trigger]
                s.voters.dom().contains(k) && k != vid ==> t.voters[k] == s.voters[k]
            &&& m.len() == l.len() + 1
            &&& m.take(l.len() as int) == l
            &&& m.last().voter_id == vid
            &&& m.last().pk == s.voters[vid].keys.signing.pk@
            &&& m.last().pkv == s.voters[vid].keys.pkv@
            &&& m.last().skv == s.voters[vid].keys.skv@
            &&& t.aggregators.dom() == s.aggregators.dom()
            &&& forall|k: Seq<char>| #[trigger]
                s.aggregators.dom().contains(k) && k != aid ==> t.aggregators[k]
                    == s.aggregators[k]
            &&& t.params == s.params
            &&& t.labels == s.labels
        }),
{
    let (s, t) = (v.elections[eid], w.elections[eid]);
    let aid = body.aggregator_id->0@;
    assert(w.elections.dom() =~= v.elections.dom());
    assert(t.voters.dom() =~= s.voters.dom());
    assert(t.aggregators.dom() =~= s.aggregators.dom());
    let l = s.aggregators[aid].registered;
    assert(t.aggregators[aid].registered.take(l.len() as int) =~= l);
}

/// A change of phase changes the phase, and says so on the board.
pub proof fn law_phase_changes(
    v: DemoView,
    w: DemoView,
    eid: Seq<char>,
    body: RequestBody,
    now: u64,
    rng: rand::rngs::StdRng,
    a: Answer,
)
    requires
        answered(v, w, CallView::SetPhase { eid }, body, now, rng, a),
    ensures
        others_same(v, w, eid),
        ({
            let (s, t) = (v.elections[eid], w.elections[eid]);
            let name = body.phase->0@;
            &&& match t.params.phase {
                ElectionPhase::Setup => name == "setup"@,
                ElectionPhase::Registration => name == "registration"@,
                ElectionPhase::Voting => name == "voting"@,
                ElectionPhase::Tally => name == "tally"@,
                ElectionPhase::Closed => name == "closed"@,
            }
            &&& t.voters == s.voters
            &&& t.aggregators == s.aggregators
            &&& t.labels == s.labels
            &&& t.params.candidates == s.params.candidates
            &&& t.params.aggregators == s.params.aggregators
            &&& t.params.election_id == s.params.election_id
            &&& t.bulletin.len() == s.bulletin.len() + 1
        }),
{
    assert(w.elections.dom() =~= v.elections.dom());
}

/// Finalizing is taken only once for an aggregator, and not before registration
/// is closed. The post is for the aggregator's voters, each at their place in
/// its list; no voter and no other aggregator changes.
pub proof fn law_finalize_changes(
    v: DemoView,
    w: DemoView,
    eid: Seq<char>,
    aid: Seq<char>,
    body: RequestBody,
    now: u64,
    rng: rand::rngs::StdRng,
    a: Answer,
)
    requires
        answered(v, w, CallView::Finalize { eid, aid }, body, now, rng, a),
    ensures
        others_same(v, w, eid),
        ({
            let (s, t) = (v.elections[eid], w.elections[eid]);
            let l = s.aggregators[aid].registered;
            &&& s.params.phase != ElectionPhase::Registration
            &&& s.aggregators.dom().contains(aid)
            &&& s.aggregators[aid].finalized is None
            &&& t.aggregators.dom() == s.aggregators.dom()
            &&& t.aggregators[aid].registered == l
            &&& t.aggregators[aid].finalized matches Some(f) && f.aggregator_id == aid
                && f.election_id == s.params.election_id && f.voters.len() == l.len()
                && f.real_registered_count == l.len() && forall|i: int|
                0 <= i < l.len() ==> (#[trigger] f.voters[i]).voter_id == l[i].voter_id
                    && f.voters[i].idx == i && f.voters[i].pk == l[i].pk && f.voters[i].pkv
                    == l[i].pkv
            &&& forall|k: Seq<char>| #[trigger]
                s.aggregators.dom().contains(k) && k != aid ==> t.aggregators[k]
                    == s.aggregators[k]
            &&& t.voters == s.voters
            &&& t.params == s.params
            &&& t.labels == s.labels
        }),
{
    let (s, t) = (v.elections[eid], w.elections[eid]);
    let l = s.aggregators[aid].registered;
    assert(w.elections.dom() =~= v.elections.dom());
    let post = choose|post: RegistrationView| #[trigger] finalizes(s, t, aid, now, rng, post);
    assert(t.aggregators.dom() =~= s.aggregators.dom());
    assert forall|i: int| 0 <= i < l.len() implies (#[trigger] post.voters[i]).voter_id
        == l[i].voter_id && post.voters[i].idx == i && post.voters[i].pk == l[i].pk
        && post.voters[i].pkv == l[i].pkv by {
        assert(record_of(
            s.params.election_id,
            aid,
            post.domain_size as int,
            l[i],
            i,
            post.voters[i],
        ));
    }
}

/// The vote of the voter at a place of an aggregator's list.
pub open spec fn vote_at(s: ElectionStateView, aid: Seq<char>, i: int) -> Option<Seq<char>> {
    s.voters[s.aggregators[aid].registered[i].voter_id].vote
}

/// No later candidate has the id of candidate `j`.
pub open spec fn last_option(s: ElectionStateView, j: int) -> bool {
    forall|l: int|
        j < l < s.params.candidates.len() ==> (#[trigger] s.params.candidates[l]).0
            != s.params.candidates[j].0
}

/// The number of voters in an aggregator's list without a vote.
pub open spec fn silent_voters(s: ElectionStateView, aid: Seq<char>) -> int {
    how_many(
        |i: int| vote_at(s, aid, i) is None,
        s.aggregators[aid].registered.len() as int,
    )
}

/// The number of voters in an aggregator's list with a vote for an id.
pub open spec fn voters_for(s: ElectionStateView, aid: Seq<char>, id: Seq<char>) -> int {
    how_many(
        |i: int| vote_at(s, aid, i) == Some(id),
        s.aggregators[aid].registered.len() as int,
    )
}

proof fn lemma_silent(eid: Seq<char>, s: ElectionStateView, aid: Seq<char>)
    requires
        election_ok(eid, s),
        s.aggregators.dom().contains(aid),
        s.aggregators[aid].finalized is Some,
    ensures
        ({
            let a = s.aggregators[aid];
            let b = ballots_with(
                option_ids(s.params),
                a.registered,
                a.finalized->0,
                votes_of(s, aid),
            );
            &&& b.records.len() == a.registered.len()
            &&& forall|i: int|
                0 <= i < b.records.len() ==> (#[trigger] b.records[i]).voter_id
                    == a.registered[i].voter_id
            &&& forall|i: int|
                0 <= i < b.records.len() ==> #[trigger] voted(b, i) == (vote_at(s, aid, i) is Some)
            &&& forall|i: int|
                0 <= i < b.records.len() && #[trigger] voted(b, i) ==> b.votes[b.records[i].voter_id]
                    == vote_at(s, aid, i)->0
        }),
{
    let a = s.aggregators[aid];
    let reg = a.finalized->0;
    let b = ballots_with(option_ids(s.params), a.registered, reg, votes_of(s, aid));
    assert(aggregator_ok(s, aid));
    assert forall|i: int| 0 <= i < b.records.len() implies (#[trigger] b.records[i]).voter_id
        == a.registered[i].voter_id by {
        assert(record_of(eid, aid, reg.domain_size as int, a.registered[i], i, reg.voters[i]));
    }
    assert forall|i: int| 0 <= i < b.records.len() implies #[trigger] voted(b, i) == (vote_at(
        s,
        aid,
        i,
    ) is Some) by {
        assert(b.records[i].voter_id == a.registered[i].voter_id);
        assert(listed_voter(s, aid, a.registered[i]));
    }
    assert forall|i: int| 0 <= i < b.records.len() && #[trigger] voted(b, i) implies b.votes[
        b.records[i].voter_id
    ] == vote_at(s, aid, i)->0 by {
        assert(b.records[i].voter_id == a.registered[i].voter_id);
    }
}

/// A tally is made only for a finalized aggregator. It counts each voter of the
/// aggregator's list by their vote: for the candidate (of those with one id,
/// the last), or as no vote. No voter and no other aggregator changes.
pub proof fn law_prove_changes(
    v: DemoView,
    w: DemoView,
    eid: Seq<char>,
    aid: Seq<char>,
    body: RequestBody,
    now: u64,
    rng: rand::rngs::StdRng,
    a: Answer,
)
    requires
        election_ok(eid, v.elections[eid]),
        answered(v, w, CallView::Prove { eid, aid }, body, now, rng, a),
    ensures
        others_same(v, w, eid),
        ({
            let (s, t) = (v.elections[eid], w.elections[eid]);
            &&& s.aggregators.dom().contains(aid)
            &&& s.aggregators[aid].finalized is Some
            &&& t.aggregators.dom() == s.aggregators.dom()
            &&& t.aggregators[aid].registered == s.aggregators[aid].registered
            &&& t.aggregators[aid].finalized == s.aggregators[aid].finalized
            &&& t.aggregators[aid].tally_post matches Some(post) && counts_list(s, aid, post)
            &&& forall|k: Seq<char>| #[trigger]
                s.aggregators.dom().contains(k) && k != aid ==> t.aggregators[k]
                    == s.aggregators[k]
            &&& t.voters == s.voters
            &&& t.params == s.params
            &&& t.labels == s.labels
        }),
{
    let (s, t) = (v.elections[eid], w.elections[eid]);
    let x = a->Proved_0;
    assert(w.elections.dom() =~= v.elections.dom());
    let post = choose|post: TallyView| #[trigger]
        proves(s, t, aid, now, post) && prove_answer(&x, post);
    assert(t.aggregators.dom() =~= s.aggregators.dom());
    lemma_counts_list(eid, s, aid, post);
}

/// The counts of a tally are those of an aggregator's list.
pub open spec fn counts_list(s: ElectionStateView, aid: Seq<char>, post: TallyView) -> bool {
    &&& post.aggregator_id == aid
    &&& post.election_id == s.params.election_id
    &&& post.no_vote_count == silent_voters(s, aid)
    &&& post.candidate_counts.len() == s.params.candidates.len()
    &&& forall|j: int|
        0 <= j < s.params.candidates.len() ==> #[trigger] post.candidate_counts[j]
            == if last_option(s, j) {
            voters_for(s, aid, s.params.candidates[j].0)
        } else {
            0
        }
}

proof fn lemma_counts_list(eid: Seq<char>, s: ElectionStateView, aid: Seq<char>, post: TallyView)
    requires
        election_ok(eid, s),
        s.aggregators.dom().contains(aid),
        s.aggregators[aid].finalized is Some,
        own_tally(s, aid, post),
    ensures
        counts_list(s, aid, post),
{
    let a = s.aggregators[aid];
    let reg = a.finalized->0;
    let b = ballots_with(option_ids(s.params), a.registered, reg, votes_of(s, aid));
    assert(aggregator_ok(s, aid));
    lemma_silent(eid, s, aid);
    lemma_tally_possible(eid, s, aid);
    let n = reg.domain_size as int;
    assert(placeable(b, reg)) by {
        assert forall|i: int| 0 <= i < b.records.len() implies (#[trigger] b.records[i]).idx < n by {
            assert(record_of(eid, aid, n, a.registered[i], i, reg.voters[i]));
        }
    }
    law_counts_mean_votes(b, eid, s.labels, reg, post);
    let count = b.records.len() as int;
    lemma_silent_count(s, aid, b);
    assert forall|j: int| 0 <= j < s.params.candidates.len() implies #[trigger] post.candidate_counts[j]
        == if last_option(s, j) {
        voters_for(s, aid, s.params.candidates[j].0)
    } else {
        0
    } by {
        assert(b.candidates[j] == s.params.candidates[j].0);
        lemma_last_option(s, b, j);
        lemma_voters_for(s, aid, b, b.candidates[j]);
    }
}

proof fn lemma_last_option(s: ElectionStateView, b: Ballots, j: int)
    requires
        b.candidates == option_ids(s.params),
        0 <= j < s.params.candidates.len(),
    ensures
        last_of_id(b, j) == last_option(s, j),
{
    assert(b.candidates[j] == s.params.candidates[j].0);
    if last_of_id(b, j) {
        assert forall|l: int| j < l < s.params.candidates.len() implies (
        #[trigger] s.params.candidates[l]).0 != s.params.candidates[j].0 by {
            assert(b.candidates[l] != b.candidates[j]);
        }
    }
    if last_option(s, j) {
        assert forall|l: int| j < l < b.candidates.len() implies #[trigger] b.candidates[l]
            != b.candidates[j] by {
            assert(s.params.candidates[l].0 != s.params.candidates[j].0);
        }
    }
}

proof fn lemma_silent_count(s: ElectionStateView, aid: Seq<char>, b: Ballots)
    requires
        b.records.len() == s.aggregators[aid].registered.len(),
        forall|i: int|
            0 <= i < b.records.len() ==> #[trigger] voted(b, i) == (vote_at(s, aid, i) is Some),
    ensures
        how_many(|i: int| !voted(b, i), b.records.len() as int) == silent_voters(s, aid),
{
    let p = |i: int| !voted(b, i);
    let q = |i: int| vote_at(s, aid, i) is None;
    assert forall|i: int| 0 <= i < b.records.len() implies #[trigger] p(i) == q(i) by {
        assert(voted(b, i) == (vote_at(s, aid, i) is Some));
    }
    lemma_how_many_ext(p, q, b.records.len() as int);
}

proof fn lemma_voters_for(
    s: ElectionStateView,
    aid: Seq<char>,
    b: Ballots,
    id: Seq<char>,
)
    requires
        b.records.len() == s.aggregators[aid].registered.len(),
        forall|i: int|
            0 <= i < b.records.len() ==> #[trigger] voted(b, i) == (vote_at(s, aid, i) is Some),
        forall|i: int|
            0 <= i < b.records.len() && #[trigger] voted(b, i) ==> b.votes[b.records[i].voter_id]
                == vote_at(s, aid, i)->0,
    ensures
        how_many(|i: int| voted_for(b, i, id), b.records.len() as int) == voters_for(s, aid, id),
{
    let p = |i: int| voted_for(b, i, id);
    let q = |i: int| vote_at(s, aid, i) == Some(id);
    assert forall|i: int| 0 <= i < b.records.len() implies #[trigger] p(i) == q(i) by {
        assert(voted(b, i) == (vote_at(s, aid, i) is Some));
    }
    lemma_how_many_ext(p, q, b.records.len() as int);
}

/// Verifying is taken only where there is a tally; it changes only what was
/// found of that aggregator.
pub proof fn law_verify_changes(
    v: DemoView,
    w: DemoView,
    eid: Seq<char>,
    aid: Seq<char>,
    body: RequestBody,
    now: u64,
    rng: rand::rngs::StdRng,
    a: Answer,
)
    requires
        answered(v, w, CallView::Verify { eid, aid }, body, now, rng, a),
    ensures
        others_same(v, w, eid),
        ({
            let (s, t) = (v.elections[eid], w.elections[eid]);
            &&& s.aggregators.dom().contains(aid)
            &&& s.aggregators[aid].finalized is Some
            &&& s.aggregators[aid].tally_post is Some
            &&& t.aggregators.dom() == s.aggregators.dom()
            &&& t.aggregators[aid].verification matches Some(x) && x.aggregator_id == aid
            &&& a matches Answer::Verified(r) && r.valid
                == (t.aggregators[aid].verification->0).valid
            &&& (t.aggregators[aid].verification->0).valid == tally_verdict(
                s.params.election_id,
                partitions_of(s.params),
                s.labels,
                s.aggregators[aid].finalized->0,
                s.aggregators[aid].tally_post->0,
            ).0
            &&& t.aggregators[aid].tally_post == s.aggregators[aid].tally_post
            &&& t.aggregators[aid].registered == s.aggregators[aid].registered
            &&& t.aggregators[aid].finalized == s.aggregators[aid].finalized
            &&& forall|k: Seq<char>| #[trigger]
                s.aggregators.dom().contains(k) && k != aid ==> t.aggregators[k]
                    == s.aggregators[k]
            &&& t.voters == s.voters
            &&& t.params == s.params
            &&& t.labels == s.labels
        }),
{
    let (s, t) = (v.elections[eid], w.elections[eid]);
    assert(w.elections.dom() =~= v.elections.dom());
    assert(t.aggregators.dom() =~= s.aggregators.dom());
}

/// New voters are not registered and have not voted; nobody else changes.
pub proof fn law_voters_created(
    v: DemoView,
    w: DemoView,
    eid: Seq<char>,
    body: RequestBody,
    now: u64,
    rng: rand::rngs::StdRng,
    a: Answer,
)
    requires
        answered(v, w, CallView::CreateVoters { eid }, body, now, rng, a),
    ensures
        others_same(v, w, eid),
        ({
            let (s, t) = (v.elections[eid], w.elections[eid]);
            let count = match body.count {
                Some(n) => n as int,
                None => 1,
            };
            &&& 1 <= count <= 500
            &&& t.next_voter == s.next_voter + count
            &&& t.voter_order.len() == s.next_voter + count
            &&& forall|k: Seq<char>| #[trigger]
                s.voters.dom().contains(k) ==> t.voters.dom().contains(k) && t.voters[k]
                    == s.voters[k]
            &&& forall|i: int|
                s.next_voter <= i < s.next_voter + count ==> t.voters.dom().contains(
                    #[trigger] t.voter_order[i],
                ) && t.voters[t.voter_order[i]].registered_with is None
                    && t.voters[t.voter_order[i]].vote is None
            &&& t.aggregators == s.aggregators
            &&& t.bulletin == s.bulletin
            &&& t.params == s.params
            &&& t.labels == s.labels
        }),
{
    assert(w.elections.dom() =~= v.elections.dom());
}

/// A registration is taken exactly if
/// registration is open, the aggregator is one of the election and has not
/// finalized, the voter is one of the election and has not registered, and
/// the delegation can be signed and is valid.
pub proof fn law_registration_taken(v: DemoView, eid: Seq<char>, body: RequestBody, now: u64)
    requires
        body.voter_id is Some,
        body.aggregator_id is Some,
        v.elections.dom().contains(eid),
    ensures
        answer_refusal(v, CallView::Register { eid }, &body, now) is None <==> {
            let s = v.elections[eid];
            let (vid, aid) = (body.voter_id->0@, body.aggregator_id->0@);
            let keys = s.voters[vid].keys;
            let e = s.params.election_id;
            &&& s.params.phase == ElectionPhase::Registration
            &&& s.aggregators.dom().contains(aid)
            &&& s.aggregators[aid].finalized is None
            &&& s.voters.dom().contains(vid)
            &&& s.voters[vid].registered_with is None
            &&& delegation_hashable(e, aid)
            &&& delegation_valid(md(delegation_log(e, aid) * keys.signing.sk@), keys.signing.pk@, e, aid)
            &&& keys.pkv@ == keys.skv@
        },
{
}

/// A tally is proved exactly for an aggregator of the election that has
/// finalized, and verified exactly for one that has posted a tally too. A
/// proof is given out exactly where there is a tally.
pub proof fn law_tally_requests_taken(
    v: DemoView,
    eid: Seq<char>,
    aid: Seq<char>,
    body: RequestBody,
    now: u64,
)
    requires
        v.elections.dom().contains(eid),
    ensures
        ({
            let s = v.elections[eid];
            let known = s.aggregators.dom().contains(aid);
            let a = s.aggregators[aid];
            &&& answer_refusal(v, CallView::Prove { eid, aid }, &body, now) is None <==> known
                && a.finalized is Some
            &&& answer_refusal(v, CallView::Verify { eid, aid }, &body, now) is None <==> known
                && a.finalized is Some && a.tally_post is Some
            &&& answer_refusal(v, CallView::Proof { eid, aid }, &body, now) is None <==> known
                && a.tally_post is Some
            &&& answer_refusal(v, CallView::Finalize { eid, aid }, &body, now) is None ==> known
                && a.finalized is None && s.params.phase != ElectionPhase::Registration
        }),
{
}

/// A request for an election that does not exist is refused, whatever it asks.
pub proof fn law_no_election_refused(
    v: DemoView,
    eid: Seq<char>,
    aid: Seq<char>,
    body: RequestBody,
    now: u64,
)
    requires
        !v.elections.dom().contains(eid),
    ensures
        answer_refusal(v, CallView::GetElection { eid }, &body, now) is Some,
        answer_refusal(v, CallView::SetPhase { eid }, &body, now) is Some,
        answer_refusal(v, CallView::CreateVoters { eid }, &body, now) is Some,
        answer_refusal(v, CallView::Register { eid }, &body, now) is Some,
        answer_refusal(v, CallView::Vote { eid }, &body, now) is Some,
        answer_refusal(v, CallView::Receipt { eid, vid: aid }, &body, now) is Some,
        answer_refusal(v, CallView::Finalize { eid, aid }, &body, now) is Some,
        answer_refusal(v, CallView::Prove { eid, aid }, &body, now) is Some,
        answer_refusal(v, CallView::Verify { eid, aid }, &body, now) is Some,
        answer_refusal(v, CallView::Proof { eid, aid }, &body, now) is Some,
        answer_refusal(v, CallView::VerifyAll { eid }, &body, now) is Some,
        answer_refusal(v, CallView::Board { eid }, &body, now) is Some,
        answer_refusal(v, CallView::Artifact { eid }, &body, now) is Some,
{
}

/// A new election has an id that no election had, what was asked for, and
/// nobody in it. It comes last in the list, and changes no other election.
pub proof fn law_election_created(
    v: DemoView,
    w: DemoView,
    body: RequestBody,
    now: u64,
    rng: rand::rngs::StdRng,
    a: Answer,
)
    requires
        answered(v, w, CallView::CreateElection, body, now, rng, a),
    ensures
        body.create is Ok,
        w.election_order.len() == v.election_order.len() + 1,
        w.election_order.take(v.election_order.len() as int) == v.election_order,
        w.counter == v.counter + 1,
        ({
            let req = body.create->Ok_0;
            let id = w.election_order.last();
            let s = w.elections[id];
            &&& !v.elections.dom().contains(id)
            &&& w.elections.dom() == v.elections.dom().insert(id)
            &&& forall|e: Seq<char>| #[trigger]
                v.elections.dom().contains(e) ==> w.elections[e] == v.elections[e]
            &&& s.params.election_id == id
            &&& s.params.phase == ElectionPhase::Setup
            &&& req.template == ElectionTemplate::Custom ==> {
                &&& req.custom_options@.len() >= 2
                &&& s.params.candidates.len() == req.custom_options@.len()
                &&& forall|j: int|
                    0 <= j < req.custom_options@.len() ==> (#[trigger] s.params.candidates[j]).1
                        == req.custom_options@[j]@
            }
            &&& req.aggregators@.len() > 0 ==> s.params.aggregators == texts(req.aggregators@)
            &&& req.aggregators@.len() == 0 ==> s.params.aggregators.len() == 3
            &&& req.title matches Some(x) ==> (x@.len() > 0 ==> s.params.title == x@)
            &&& req.description matches Some(x) ==> s.params.description == x@
            &&& req.max_voters matches Some(n) ==> s.params.max_voters == n
            &&& s.voters.dom() == Set::<Seq<char>>::empty()
            &&& s.voter_order.len() == 0
            &&& forall|k: Seq<char>| #[trigger]
                s.aggregators.dom().contains(k) <==> s.params.aggregators.contains(k)
            &&& forall|k: Seq<char>| #[trigger]
                s.aggregators.dom().contains(k) ==> {
                    let x = s.aggregators[k];
                    &&& x.registered.len() == 0
                    &&& x.finalized is None
                    &&& x.tally_post is None
                    &&& x.verification is None
                }
            &&& s.bulletin.len() == 1
        }),
{
    let id = w.election_order.last();
    let s = w.elections[id];
    assert(w.election_order.take(v.election_order.len() as int) =~= v.election_order);
    assert(w.elections.dom() =~= v.elections.dom().insert(id));
    assert(s.voters.dom() =~= Set::<Seq<char>>::empty());
}

/// What a request only asks for it does not change.
pub proof fn law_reading_changes_nothing(
    v: DemoView,
    w: DemoView,
    c: CallView,
    body: RequestBody,
    now: u64,
    rng: rand::rngs::StdRng,
    a: Answer,
)
    requires
        answered(v, w, c, body, now, rng, a),
        c is ListElections || c is GetElection || c is Receipt || c is Proof || c is Board || c
            is Artifact,
    ensures
        w == v,
{
}

/// The board of an election only grows: what was posted stays, in its place,
/// over every request.
pub proof fn law_board_only_grows(
    v: DemoView,
    w: DemoView,
    c: CallView,
    body: RequestBody,
    now: u64,
    rng: rand::rngs::StdRng,
    a: Answer,
    e: Seq<char>,
)
    requires
        answered(v, w, c, body, now, rng, a),
        v.elections.dom().contains(e),
    ensures
        w.elections.dom().contains(e),
        w.elections[e].bulletin.len() >= v.elections[e].bulletin.len(),
        w.elections[e].bulletin.take(v.elections[e].bulletin.len() as int)
            == v.elections[e].bulletin,
{
    let (s, t) = (v.elections[e], w.elections[e]);
    if s.bulletin == t.bulletin {
        assert(s.bulletin.take(s.bulletin.len() as int) =~= s.bulletin);
    } else {
        assert(t.bulletin.take(s.bulletin.len() as int) =~= s.bulletin);
    }
}

} // verus!
