//! Finalizing, proving and verifying in one election of the demonstration.

use vstd::prelude::*;

use crate::artifacts::{
    fr_hex, fr_to_hex, registration_texts, scalar_hexes, scalars_to_hex, short_time, shorten,
    tally_texts, PublicElectionArtifact, RegistrationPostArtifact, TallyPostArtifact,
    VerificationArtifact,
};
use crate::demo_election::{
    but_board, extends, lemma_board_ok, lemma_extends_numbered, lemma_extends_push,
    verification_texts, Content,
};
use crate::demo_state::{
    aggregator_ok, ballots_with, election_ok, listed_voter, option_ids, partitions_of, refuses,
    sizable, srs_exists, tallied, AggregatorView, DemoError, DemoResult, ElectionState,
    ElectionStateView, Payload,
};
use crate::demo_summary::{
    all_posts, all_verifications, is_global_tally, posts_of, showable, tally_fits,
};
use crate::election::{candidate_ids, ElectionPhase};
use crate::epa_adapter::{kept_positions, lone_partition, zero_blinder_text, SrsBundle, EPA_BACKEND_ID};
use crate::error::{error_text, ErrorView};
use crate::labels::lemma_candidate_labels_len;
use crate::proof_bytes::MAX_COUNT;
use crate::registration::{
    all_voter_ids, check_no_duplicate_voters, checkable, domain_error, domain_size_for,
    finalize_registration, finalized, flagged, law_finalized_is_valid, nonces_drawn, post_views, record_of,
    registration_problems, repeated, repeated_across_text, validate_finalized_registration,
    FinalizedRegistration, RegistrationView, VoterView,
};
use crate::string_map::{lemma_viewed_insert, viewed, StringMap};
use crate::tally::{
    ballots_of, build_and_prove_tally, built_input, clone_sizes, global_tally, indices_below, lemma_tally_shape,
    lemma_totals_fit, tally_error, tally_made, tally_verdict, tally_views, verification_views,
    verify_aggregator_tally, AggregatorVerification, TallyPost, TallyView, VerificationView,
};
use crate::tally_laws::{law_honest_tally, law_tally_verifies, votes_known};
use crate::text::{clone_texts, texts};

verus! {

/// The sizes of a post that was made for its voters.
proof fn lemma_finalized_sizes(
    eid: Seq<char>,
    partitions: int,
    aid: Seq<char>,
    voters: Seq<VoterView>,
    reg: RegistrationView,
)
    requires
        partitions >= 2,
        finalized(eid, partitions, aid, voters, reg.timestamp_unix_ms, reg),
    ensures
        indices_below(reg.voters, reg.domain_size as int),
        reg.real_registered_count + reg.pad_count == reg.domain_size,
        reg.domain_size > partitions,
        reg.aggregator_id == aid,
        reg.c_commit == crate::registration::token_sum(reg.voters, reg.pad_tokens),
{
    assert forall|i: int| 0 <= i < reg.voters.len() implies (#[trigger] reg.voters[i]).idx
        < reg.domain_size by {
        assert(record_of(eid, aid, reg.domain_size as int, voters[i], i, reg.voters[i]));
    }
}

/// What a tally of the demonstration belongs to.
pub proof fn lemma_tallied(
    candidates: Seq<Seq<char>>,
    eid: Seq<char>,
    labels: crate::labels::LabelsView,
    aid: Seq<char>,
    registered: Seq<VoterView>,
    reg: RegistrationView,
    post: TallyView,
)
    requires
        tallied(candidates, eid, labels, registered, reg, post),
        finalized(
            eid,
            candidates.len() as int + 2,
            aid,
            registered,
            reg.timestamp_unix_ms,
            reg,
        ),
    ensures
        post.candidate_counts.len() == candidates.len(),
        post.domain_size == reg.domain_size,
        post.aggregator_id == aid,
        kept_positions(post.sizes).len() <= MAX_COUNT ==> tally_verdict(
            eid,
            candidates.len() as int + 2,
            labels,
            reg,
            post,
        ) == (true, Seq::<Seq<char>>::empty()),
{
    reveal(tallied);
    let votes = choose|votes: Map<Seq<char>, Seq<char>>|
        tally_error(ballots_with(candidates, registered, reg, votes), eid, labels, reg) is None
            && #[trigger] tally_made(
            ballots_with(candidates, registered, reg, votes),
            eid,
            labels,
            reg,
            post,
        );
    let b = ballots_with(candidates, registered, reg, votes);
    lemma_finalized_sizes(eid, candidates.len() as int + 2, aid, registered, reg);
    lemma_tally_shape(b, eid, reg);
    if kept_positions(post.sizes).len() <= MAX_COUNT {
        law_tally_verifies(b, eid, labels, reg, post);
    }
}

/// A sound election can be shown.
pub proof fn lemma_showable(eid: Seq<char>, e: &ElectionState)
    requires
        e.maps_ok(),
        election_ok(eid, e@),
    ensures
        showable(e),
{
    let s = e@;
    assert forall|a: Seq<char>| #[trigger] s.params.aggregators.contains(a) implies s.aggregators.dom().contains(
        a,
    ) by {
        assert(s.aggregators.dom().contains(a) <==> s.params.aggregators.contains(a));
    }
    assert forall|a: Seq<char>| #[trigger] s.aggregators.dom().contains(a) implies (
    s.aggregators[a].tally_post matches Some(p) ==> p.candidate_counts.len()
        == s.params.candidates.len()) by {
        assert(aggregator_ok(s, a));
        let x = s.aggregators[a];
        if let Some(p) = x.tally_post {
            lemma_tallied(option_ids(s.params), eid, s.labels, a, x.registered, x.finalized->0, p);
        }
    }
}

// ---- finalizing --------------------------------------------------------------

/// Why an aggregator's registration is not finalized.
pub open spec fn finalize_refusal(s: ElectionStateView, aid: Seq<char>) -> Option<
    (u16, Seq<char>),
> {
    let a = s.aggregators[aid];
    let (count, parts) = (a.registered.len() as int, partitions_of(s.params));
    if !s.aggregators.dom().contains(aid) {
        Some((404u16, "aggregator not found"@))
    } else if a.finalized is Some {
        Some((400u16, "registration already finalized"@))
    } else if s.params.phase == ElectionPhase::Registration {
        Some((400u16, "close registration before finalizing (set phase to voting)"@))
    } else if !sizable(count, parts) {
        Some((422u16, "too many voters for a domain"@))
    } else {
        match domain_error(domain_size_for(count, parts)) {
            Some(e) => Some((422u16, error_text(e))),
            None => None,
        }
    }
}

/// The state after an aggregator posted its registration. The post stands up
/// to the validators' checks.
pub open spec fn with_post(s: ElectionStateView, aid: Seq<char>, post: RegistrationView) -> ElectionStateView {
    let a = s.aggregators[aid];
    ElectionStateView {
        aggregators: s.aggregators.insert(
            aid,
            AggregatorView {
                finalized: Some(post),
                registration_valid: Some(true),
                registration_errors: Seq::empty(),
                ..a
            },
        ),
        ..s
    }
}

/// What is published of a post.
pub open spec fn post_contents(aid: Seq<char>, post: RegistrationView) -> Seq<Content> {
    seq![
        Content::Post { post },
        Content::Validated { aggregator_id: aid, valid: true, errors: Seq::empty() },
    ]
}

/// A change of one aggregator that keeps its voters leaves the others sound.
proof fn lemma_aggregator_changed(
    eid: Seq<char>,
    s: ElectionStateView,
    aid: Seq<char>,
    a: AggregatorView,
)
    requires
        election_ok(eid, s),
        s.aggregators.dom().contains(aid),
        a.registered == s.aggregators[aid].registered,
        a.finalized matches Some(f) ==> sizable(
            a.registered.len() as int,
            partitions_of(s.params),
        ) && srs_exists(f.domain_size as int) && finalized(
            eid,
            partitions_of(s.params),
            aid,
            a.registered,
            f.timestamp_unix_ms,
            f,
        ),
        a.tally_post matches Some(p) ==> a.finalized is Some && tallied(
            option_ids(s.params),
            eid,
            s.labels,
            a.registered,
            a.finalized->0,
            p,
        ),
    ensures
        election_ok(
            eid,
            (ElectionStateView { aggregators: s.aggregators.insert(aid, a), ..s }),
        ),
{
    let t = ElectionStateView { aggregators: s.aggregators.insert(aid, a), ..s };
    assert forall|x: Seq<char>| #[trigger]
        t.aggregators.dom().contains(x) <==> t.params.aggregators.contains(x) by {
        assert(s.aggregators.dom().contains(x) <==> s.params.aggregators.contains(x));
    }
    assert forall|x: Seq<char>| #[trigger] t.aggregators.dom().contains(x) implies aggregator_ok(
        t,
        x,
    ) by {
        assert(s.aggregators.dom().contains(x));
        assert(aggregator_ok(s, x));
        assert forall|i: int| 0 <= i < t.aggregators[x].registered.len() implies listed_voter(
            t,
            x,
            #[trigger] t.aggregators[x].registered[i],
        ) by {
            assert(listed_voter(s, x, s.aggregators[x].registered[i]));
        }
    }
}

/// The answer to finalizing.
#[derive(Debug)]
pub struct FinalizeResponse {
    pub ok: bool,
    pub errors: Vec<String>,
}

/// The registration of an aggregator was finalized, with nonces from a
/// generator.
pub open spec fn finalizes(
    s: ElectionStateView,
    t: ElectionStateView,
    aid: Seq<char>,
    now: u64,
    rng: rand::rngs::StdRng,
    post: RegistrationView,
) -> bool {
    &&& nonces_drawn(s.params.election_id, aid, s.aggregators[aid].registered, rng, post)
    &&& finalized(
        s.params.election_id,
        partitions_of(s.params),
        aid,
        s.aggregators[aid].registered,
        now,
        post,
    )
    &&& t == but_board(with_post(s, aid, post), t.bulletin)
    &&& extends(s.bulletin, t.bulletin, now, post_contents(aid, post))
}

/// The voters of an aggregator are those that it accepted, each once.
proof fn lemma_posted_is_valid(
    eid: Seq<char>,
    s: ElectionStateView,
    aid: Seq<char>,
    now: u64,
    post: RegistrationView,
)
    requires
        election_ok(eid, s),
        s.aggregators.dom().contains(aid),
        finalized(
            eid,
            partitions_of(s.params),
            aid,
            s.aggregators[aid].registered,
            now,
            post,
        ),
    ensures
        checkable(s.params.aggregators, partitions_of(s.params), post),
        registration_problems(
            eid,
            s.params.aggregators,
            partitions_of(s.params),
            post,
            false,
        ) == Seq::<Seq<char>>::empty(),
        indices_below(post.voters, post.domain_size as int),
        post.voters.len() > 0 ==> crate::bls::delegation_hashable(eid, aid),
{
    let voters = s.aggregators[aid].registered;
    assert(aggregator_ok(s, aid));
    assert(s.params.aggregators.contains(aid));
    assert forall|i: int| 0 <= i < voters.len() implies crate::registration::accepted_voter(
        eid,
        aid,
        #[trigger] voters[i],
    ) && 0 <= voters[i].skv < crate::modular::modulus() by {
        assert(listed_voter(s, aid, voters[i]));
    }
    law_finalized_is_valid(
        eid,
        s.params.aggregators,
        partitions_of(s.params),
        aid,
        voters,
        now,
        post,
    );
    lemma_finalized_sizes(eid, partitions_of(s.params), aid, voters, post);
    if post.voters.len() > 0 {
        assert(listed_voter(s, aid, voters[0]));
    }
}

impl ElectionState {
    /// Finalizes the registration of an aggregator and checks what it posts.
    pub(crate) fn finalize(
        &mut self,
        aid: &str,
        now_ms: u64,
        rng: &mut rand::rngs::StdRng,
        Ghost(eid): Ghost<Seq<char>>,
    ) -> (r: DemoResult<FinalizeResponse>)
        requires
            old(self).maps_ok(),
            election_ok(eid, old(self)@),
        ensures
            final(self).maps_ok(),
            election_ok(eid, final(self)@),
            refuses(r, finalize_refusal(old(self)@, aid@)),
            r is Err ==> final(self)@ == old(self)@,
            r matches Ok(x) ==> x.ok && x.errors@.len() == 0 && exists|post: RegistrationView|
                #[trigger] finalizes(old(self)@, final(self)@, aid@, now_ms, *old(rng), post),
    {
        let ghost s = self@;
        let ghost maps = *self;
        let agg = match self.aggregators.get(aid) {
            Some(a) => a,
            None => {
                return Err(DemoError::not_found("aggregator not found"));
            },
        };
        if agg.finalized.is_some() {
            return Err(DemoError::bad("registration already finalized"));
        }
        if self.params.phase == ElectionPhase::Registration {
            return Err(
                DemoError::bad("close registration before finalizing (set phase to voting)"),
            );
        }
        if agg.registered.len() > usize::MAX / 2 + 1 {
            return Err(DemoError::unprocessable("too many voters for a domain"));
        }
        proof {
            assert(s.aggregators[aid@] == agg@);
            assert(partitions_of(s.params) == self.params.partitions());
        }
        let (post, bundle) = match finalize_registration(
            &self.params,
            aid,
            &agg.registered,
            now_ms,
            rng,
        ) {
            Ok(x) => x,
            Err(e) => {
                return Err(DemoError::from_error(e));
            },
        };
        let ghost view = post@;
        proof {
            lemma_posted_is_valid(eid, s, aid@, now_ms, view);
            assert forall|i: int| 0 <= i < post.voters@.len() implies (
            #[trigger] post.voters@[i]).idx < post.domain_size by {
                assert(view.voters[i] == post.voters@[i]@);
            }
        }
        let report = match validate_finalized_registration(&self.params, &post, false) {
            Ok(x) => x,
            Err(e) => {
                return Err(DemoError::from_error(e));
            },
        };
        proof {
            assert(texts(report.errors@).len() == report.errors@.len());
            assert(srs_exists(view.domain_size as int)) by {
                assert(bundle.wf());
            }
        }
        let artifact = RegistrationPostArtifact::from_post(&post);
        let ok = report.ok();
        let ghost new_agg = with_post(s, aid@, view).aggregators[aid@];
        if let Some(a) = self.aggregators.get_mut(aid) {
            a.finalized = Some(post);
            a.registration_valid = Some(ok);
            a.registration_errors = clone_texts(&report.errors);
            proof {
                assert(a@ =~= new_agg);
                lemma_viewed_insert(maps.aggregators@, aid@, *a);
            }
        }
        let ghost t = with_post(s, aid@, view);
        proof {
            assert(self@ =~= t);
            lemma_aggregator_changed(eid, s, aid@, new_agg);
        }
        let ghost contents = post_contents(aid@, view);
        self.post_bulletin(
            now_ms,
            "registration_post",
            Payload::RegistrationPost { post: artifact },
            Ghost(contents[0]),
        );
        let ghost mid = self@.bulletin;
        self.post_bulletin(
            now_ms,
            "registration_validated",
            Payload::RegistrationValidated {
                aggregator_id: String::from_str(aid),
                valid: ok,
                errors: clone_texts(&report.errors),
            },
            Ghost(contents[1]),
        );
        proof {
            assert(seq![contents[0]].push(contents[1]) =~= contents);
            lemma_extends_push(
                s.bulletin,
                mid,
                self@.bulletin,
                now_ms,
                seq![contents[0]],
                contents[1],
            );
            lemma_extends_numbered(s.bulletin, self@.bulletin, now_ms, contents);
            lemma_board_ok(eid, t, self@.bulletin);
            assert(finalizes(s, self@, aid@, now_ms, *old(rng), view));
        }
        Ok(FinalizeResponse { ok, errors: report.errors })
    }
}

// ---- proving -----------------------------------------------------------------

/// The votes that reached an aggregator.
pub open spec fn votes_of(s: ElectionStateView, aid: Seq<char>) -> Map<Seq<char>, Seq<char>> {
    Map::new(
        |k: Seq<char>|
            s.voters.dom().contains(k) && s.voters[k].registered_with == Some(aid)
                && s.voters[k].vote is Some,
        |k: Seq<char>| s.voters[k].vote->0,
    )
}

/// Why an aggregator's tally is not proved.
pub open spec fn prove_refusal(s: ElectionStateView, aid: Seq<char>) -> Option<(u16, Seq<char>)> {
    if !s.aggregators.dom().contains(aid) {
        Some((404u16, "aggregator not found"@))
    } else if s.aggregators[aid].finalized is None {
        Some((400u16, "finalize registration first"@))
    } else {
        None
    }
}

/// The state with a tally.
pub open spec fn with_tally(s: ElectionStateView, aid: Seq<char>, post: TallyView) -> ElectionStateView {
    let a = s.aggregators[aid];
    ElectionStateView {
        aggregators: s.aggregators.insert(
            aid,
            AggregatorView { tally_post: Some(post), ..a },
        ),
        ..s
    }
}

/// The tally of the votes that reached an aggregator.
pub open spec fn own_tally(s: ElectionStateView, aid: Seq<char>, post: TallyView) -> bool {
    let a = s.aggregators[aid];
    tally_made(
        ballots_with(option_ids(s.params), a.registered, a.finalized->0, votes_of(s, aid)),
        s.params.election_id,
        s.labels,
        a.finalized->0,
        post,
    )
}

/// The sizes of the partitions of an aggregator's tally.
pub open spec fn tally_sizes(s: ElectionStateView, aid: Seq<char>) -> Seq<usize> {
    let a = s.aggregators[aid];
    built_input(
        ballots_with(option_ids(s.params), a.registered, a.finalized->0, votes_of(s, aid)),
        s.params.election_id,
        s.labels,
        a.finalized->0,
    ).sizes
}

/// A tally was not proved because a factor was drawn that is zero, which is
/// possible with two partitions or more only.
pub open spec fn unlucky(s: ElectionStateView, aid: Seq<char>, e: (u16, Seq<char>)) -> bool {
    &&& e == (422u16, error_text(ErrorView::Epa(zero_blinder_text())))
    &&& !lone_partition(tally_sizes(s, aid))
}

/// An aggregator proved the tally of the votes that reached it.
pub open spec fn proves(
    s: ElectionStateView,
    t: ElectionStateView,
    aid: Seq<char>,
    now: u64,
    post: TallyView,
) -> bool {
    &&& own_tally(s, aid, post)
    &&& t == but_board(with_tally(s, aid, post), t.bulletin)
    &&& extends(s.bulletin, t.bulletin, now, seq![Content::Tally { tally: post }])
}

/// The answer to proving.
#[derive(Debug)]
pub struct ProveResponse {
    pub ok: bool,
    pub proving_time_ms: u64,
    pub proof_size_bytes: usize,
    pub candidate_counts: Vec<usize>,
    pub no_vote_count: usize,
    pub pad_count: usize,
}

/// The answer for a tally.
pub open spec fn prove_answer(r: &ProveResponse, post: TallyView) -> bool {
    &&& r.ok
    &&& r.proving_time_ms == short_time(post.proving_time_ms)
    &&& r.proof_size_bytes == post.proof_size_bytes
    &&& r.candidate_counts@ == post.candidate_counts
    &&& r.no_vote_count == post.no_vote_count
    &&& r.pad_count == post.pad_count
}

/// An aggregator proved its tally, and this is the answer.
pub open spec fn tally_proved(
    s: ElectionStateView,
    t: ElectionStateView,
    aid: Seq<char>,
    now: u64,
    r: &ProveResponse,
) -> bool {
    exists|post: TallyView| #[trigger] proves(s, t, aid, now, post) && prove_answer(r, post)
}

/// A tally of the votes that reached an aggregator can be proved.
pub proof fn lemma_tally_possible(eid: Seq<char>, s: ElectionStateView, aid: Seq<char>)
    requires
        election_ok(eid, s),
        prove_refusal(s, aid) is None,
    ensures
        ({
            let a = s.aggregators[aid];
            let reg = a.finalized->0;
            let b = ballots_with(option_ids(s.params), a.registered, reg, votes_of(s, aid));
            tally_error(b, eid, s.labels, reg) is None
        }),
{
    let a = s.aggregators[aid];
    let reg = a.finalized->0;
    let b = ballots_with(option_ids(s.params), a.registered, reg, votes_of(s, aid));
    assert(aggregator_ok(s, aid));
    let bundle = choose|b: SrsBundle| #[trigger] b.wf() && b.spec_size() == reg.domain_size;
    lemma_candidate_labels_len(eid, s.params.candidates);
    lemma_finalized_sizes(eid, partitions_of(s.params), aid, a.registered, reg);
    assert(votes_known(b)) by {
        assert forall|i: int|
            0 <= i < b.records.len() && b.votes.dom().contains(
                (#[trigger] b.records[i]).voter_id,
            ) implies b.candidates.contains(b.votes[b.records[i].voter_id]) by {
            let k = b.records[i].voter_id;
            assert(s.voters.dom().contains(k));
        }
    }
    law_honest_tally(b, eid, s.labels, reg, reg.timestamp_unix_ms, &bundle);
}

impl ElectionState {
    /// The votes that reached an aggregator.
    fn collected_votes(&self, aid: &str, Ghost(eid): Ghost<Seq<char>>) -> (r: StringMap<String>)
        requires
            self.maps_ok(),
            election_ok(eid, self@),
        ensures
            r.wf(),
            viewed(r@) == votes_of(self@, aid@),
    {
        let ghost s = self@;
        let ghost all = votes_of(s, aid@);
        let wanted = String::from_str(aid);
        let mut r: StringMap<String> = StringMap::new();
        let mut i: usize = 0;
        while i < self.voter_order.len()
            invariant
                i <= self.voter_order.len(),
                self.maps_ok(),
                election_ok(eid, s),
                s == self@,
                wanted@ == aid@,
                all == votes_of(s, aid@),
                r.wf(),
                forall|k: Seq<char>| #[trigger]
                    viewed(r@).dom().contains(k) <==> s.voter_order.take(i as int).contains(k)
                        && all.dom().contains(k),
                forall|k: Seq<char>| #[trigger]
                    viewed(r@).dom().contains(k) ==> viewed(r@)[k] == all[k],
            decreases self.voter_order.len() - i,
        {
            assert(self.voters.spec_keys().len() == self.voter_order@.len());
            let v = self.voters.value_at(i);
            let ghost id = s.voter_order[i as int];
            let ghost before = viewed(r@);
            let ghost raw = r@;
            proof {
                assert(id == self.voters.spec_keys()[i as int]);
                assert(s.voters[id] == v@);
                assert(s.voters.dom().contains(id));
                let (p, q) = (s.voter_order.take(i as int), s.voter_order.take(i + 1));
                assert(q =~= p.push(id));
                assert forall|k: Seq<char>| #[trigger] q.contains(k) <==> p.contains(k) || k == id by {
                    assert(q[p.len() as int] == id);
                    if p.contains(k) {
                        let j = choose|j: int| 0 <= j < p.len() && p[j] == k;
                        assert(q[j] == k);
                    }
                }
            }
            let here = match &v.registered_with {
                Some(a) => *a == wanted,
                None => false,
            };
            if here {
                if let Some(c) = &v.vote {
                    let choice = c.clone();
                    proof {
                        lemma_viewed_insert(raw, id, choice);
                    }
                    r.insert(v.voter_id.clone(), choice);
                }
            }
            proof {
                assert(s.voter_order.take(i + 1).contains(id));
                assert forall|k: Seq<char>| #[trigger]
                    viewed(r@).dom().contains(k) <==> s.voter_order.take(i + 1).contains(k)
                        && all.dom().contains(k) by {
                    assert(before.dom().contains(k) <==> s.voter_order.take(i as int).contains(k)
                        && all.dom().contains(k));
                }
                assert forall|k: Seq<char>| #[trigger] viewed(r@).dom().contains(k) implies viewed(
                    r@,
                )[k] == all[k] by {
                    if k != id {
                        assert(before.dom().contains(k));
                    }
                }
            }
            i += 1;
        }
        proof {
            assert(s.voter_order.take(s.voter_order.len() as int) =~= s.voter_order);
            assert(viewed(r@) =~= all) by {
                assert forall|k: Seq<char>| #[trigger] viewed(r@).dom().contains(k)
                    <==> all.dom().contains(k) by {
                    assert(s.voters.dom().contains(k) <==> s.voter_order.contains(k));
                }
            }
        }
        r
    }

    /// Makes the tally of an aggregator.
    fn make_tally(&self, aid: &str, Ghost(eid): Ghost<Seq<char>>) -> (r: DemoResult<TallyPost>)
        requires
            self.maps_ok(),
            election_ok(eid, self@),
        ensures
            match prove_refusal(self@, aid@) {
                Some(e) => r matches Err(x) && x@ == e,
                None => match r {
                    Ok(p) => own_tally(self@, aid@, p@) && tallied(
                        option_ids(self@.params),
                        eid,
                        self@.labels,
                        self@.aggregators[aid@].registered,
                        self@.aggregators[aid@].finalized->0,
                        p@,
                    ),
                    Err(e) => unlucky(self@, aid@, e@),
                },
            },
    {
        let ghost s = self@;
        let agg = match self.aggregators.get(aid) {
            Some(a) => a,
            None => {
                return Err(DemoError::not_found("aggregator not found"));
            },
        };
        let reg = match &agg.finalized {
            Some(f) => f,
            None => {
                return Err(DemoError::bad("finalize registration first"));
            },
        };
        let votes = self.collected_votes(aid, Ghost(eid));
        let ghost view = s.aggregators[aid@];
        let ghost b = ballots_with(
            option_ids(s.params),
            view.registered,
            reg@,
            votes_of(s, aid@),
        );
        proof {
            assert(view == agg@);
            assert(aggregator_ok(s, aid@));
            lemma_finalized_sizes(eid, partitions_of(s.params), aid@, view.registered, reg@);
            lemma_tally_possible(eid, s, aid@);
            assert(candidate_ids(self.params.candidates@) =~= option_ids(s.params));
            assert(ballots_of(&self.params, reg, &agg.registered, &votes) == b);
        }
        match build_and_prove_tally(&self.params, &self.labels, reg, &agg.registered, &votes) {
            Ok(p) => {
                proof {
                    reveal(tallied);
                    assert(tally_made(b, eid, s.labels, reg@, p@));
                }
                Ok(p)
            },
            Err(e) => Err(DemoError::from_error(e)),
        }
    }

    /// Proves the tally of an aggregator.
    pub(crate) fn prove_tally(&mut self, aid: &str, now_ms: u64, Ghost(eid): Ghost<Seq<char>>) -> (r:
        DemoResult<ProveResponse>)
        requires
            old(self).maps_ok(),
            election_ok(eid, old(self)@),
        ensures
            final(self).maps_ok(),
            election_ok(eid, final(self)@),
            match prove_refusal(old(self)@, aid@) {
                Some(e) => r matches Err(x) && x@ == e,
                None => match r {
                    Ok(x) => tally_proved(old(self)@, final(self)@, aid@, now_ms, &x),
                    Err(e) => unlucky(old(self)@, aid@, e@),
                },
            },
            r is Err ==> final(self)@ == old(self)@,
    {
        let ghost s = self@;
        let ghost maps = *self;
        let post = match self.make_tally(aid, Ghost(eid)) {
            Ok(p) => p,
            Err(e) => {
                return Err(e);
            },
        };
        let artifact = TallyPostArtifact::from_post(&post);
        let response = ProveResponse {
            ok: true,
            proving_time_ms: shorten(post.proving_time_ms),
            proof_size_bytes: post.proof_size_bytes,
            candidate_counts: clone_sizes(&post.candidate_counts),
            no_vote_count: post.no_vote_count,
            pad_count: post.pad_count,
        };
        let ghost p = post@;
        let ghost new_agg = with_tally(s, aid@, p).aggregators[aid@];
        if let Some(a) = self.aggregators.get_mut(aid) {
            a.tally_post = Some(post);
            proof {
                assert(a@ =~= new_agg);
                lemma_viewed_insert(maps.aggregators@, aid@, *a);
            }
        }
        let ghost t = with_tally(s, aid@, p);
        proof {
            assert(self@ =~= t);
            assert(aggregator_ok(s, aid@));
            lemma_aggregator_changed(eid, s, aid@, new_agg);
        }
        let ghost content = Content::Tally { tally: p };
        self.post_bulletin(
            now_ms,
            "tally_post",
            Payload::TallyPost { tally: artifact },
            Ghost(content),
        );
        proof {
            lemma_extends_numbered(s.bulletin, self@.bulletin, now_ms, seq![content]);
            lemma_board_ok(eid, t, self@.bulletin);
            assert(proves(s, self@, aid@, now_ms, p));
            assert(tally_proved(s, self@, aid@, now_ms, &response));
        }
        Ok(response)
    }
}

// ---- verifying one tally -----------------------------------------------------

/// Why an aggregator's tally is not verified.
pub open spec fn verify_refusal(s: ElectionStateView, aid: Seq<char>) -> Option<(u16, Seq<char>)> {
    if !s.aggregators.dom().contains(aid) {
        Some((404u16, "aggregator not found"@))
    } else if s.aggregators[aid].finalized is None {
        Some((400u16, "no finalized registration"@))
    } else if s.aggregators[aid].tally_post is None {
        Some((400u16, "no proof to verify; run prove first"@))
    } else {
        None
    }
}

/// What validators find of an aggregator's tally.
pub open spec fn verdict_of(s: ElectionStateView, aid: Seq<char>) -> (bool, Seq<Seq<char>>) {
    let a = s.aggregators[aid];
    tally_verdict(
        s.params.election_id,
        partitions_of(s.params),
        s.labels,
        a.finalized->0,
        a.tally_post->0,
    )
}

/// The state with a verification.
pub open spec fn with_verification(s: ElectionStateView, v: VerificationView) -> ElectionStateView {
    let a = s.aggregators[v.aggregator_id];
    ElectionStateView {
        aggregators: s.aggregators.insert(
            v.aggregator_id,
            AggregatorView { verification: Some(v), ..a },
        ),
        ..s
    }
}

/// An aggregator's tally was verified.
pub open spec fn verifies(
    s: ElectionStateView,
    t: ElectionStateView,
    aid: Seq<char>,
    now: u64,
    v: VerificationView,
) -> bool {
    &&& v.aggregator_id == aid
    &&& (v.valid, v.errors) == verdict_of(s, aid)
    &&& t == but_board(with_verification(s, v), t.bulletin)
    &&& extends(
        s.bulletin,
        t.bulletin,
        now,
        seq![Content::Verified { election_id: s.params.election_id, v }],
    )
}

/// A tally of the demonstration is found valid, unless it has more partitions
/// that are not empty than a proof's lists may have members.
pub proof fn law_demo_tally_valid(eid: Seq<char>, s: ElectionStateView, aid: Seq<char>)
    requires
        election_ok(eid, s),
        verify_refusal(s, aid) is None,
        kept_positions((s.aggregators[aid].tally_post->0).sizes).len() <= MAX_COUNT,
    ensures
        verdict_of(s, aid) == (true, Seq::<Seq<char>>::empty()),
{
    let a = s.aggregators[aid];
    assert(aggregator_ok(s, aid));
    lemma_tallied(
        option_ids(s.params),
        eid,
        s.labels,
        aid,
        a.registered,
        a.finalized->0,
        a.tally_post->0,
    );
}

/// The answer to verifying.
#[derive(Debug)]
pub struct VerifyResponse {
    pub valid: bool,
    pub errors: Vec<String>,
    pub verification_time_ms: u64,
}

/// A verification leaves the state sound.
proof fn lemma_verification_ok(eid: Seq<char>, s: ElectionStateView, v: VerificationView)
    requires
        election_ok(eid, s),
        s.aggregators.dom().contains(v.aggregator_id),
    ensures
        election_ok(eid, with_verification(s, v)),
{
    assert(aggregator_ok(s, v.aggregator_id));
    lemma_aggregator_changed(
        eid,
        s,
        v.aggregator_id,
        with_verification(s, v).aggregators[v.aggregator_id],
    );
}

/// What is known of an aggregator that has a tally.
proof fn lemma_tally_sizes(eid: Seq<char>, s: ElectionStateView, aid: Seq<char>)
    requires
        election_ok(eid, s),
        s.aggregators.dom().contains(aid),
        s.aggregators[aid].tally_post is Some,
    ensures
        s.aggregators[aid].finalized is Some,
        (s.aggregators[aid].tally_post->0).domain_size > 2,
        (s.aggregators[aid].tally_post->0).aggregator_id == aid,
{
    let a = s.aggregators[aid];
    assert(aggregator_ok(s, aid));
    lemma_tallied(
        option_ids(s.params),
        eid,
        s.labels,
        aid,
        a.registered,
        a.finalized->0,
        a.tally_post->0,
    );
    lemma_finalized_sizes(eid, partitions_of(s.params), aid, a.registered, a.finalized->0);
}

impl ElectionState {
    /// Keeps a verification and publishes it.
    fn record_verification(
        &mut self,
        v: AggregatorVerification,
        now_ms: u64,
        Ghost(eid): Ghost<Seq<char>>,
    )
        requires
            old(self).maps_ok(),
            election_ok(eid, old(self)@),
            old(self)@.aggregators.dom().contains(v.aggregator_id@),
        ensures
            final(self).maps_ok(),
            election_ok(eid, final(self)@),
            final(self)@ == but_board(with_verification(old(self)@, v@), final(self)@.bulletin),
            extends(
                old(self)@.bulletin,
                final(self)@.bulletin,
                now_ms,
                seq![Content::Verified { election_id: eid, v: v@ }],
            ),
    {
        let ghost s = self@;
        let ghost view = v@;
        let artifact = VerificationArtifact::from_verification(
            self.params.election_id.as_str(),
            &v,
        );
        let ghost content = Content::Verified { election_id: eid, v: view };
        self.post_bulletin(
            now_ms,
            "verification_result",
            Payload::VerificationResult { result: artifact },
            Ghost(content),
        );
        let ghost board = self@.bulletin;
        let ghost maps = *self;
        let aid = v.aggregator_id.clone();
        if let Some(a) = self.aggregators.get_mut(aid.as_str()) {
            a.verification = Some(v);
            proof {
                assert(a@ =~= with_verification(s, view).aggregators[view.aggregator_id]);
                lemma_viewed_insert(maps.aggregators@, aid@, *a);
            }
        }
        proof {
            let t = with_verification(s, view);
            assert(self@ =~= but_board(t, board));
            lemma_verification_ok(eid, s, view);
            lemma_extends_numbered(s.bulletin, board, now_ms, seq![content]);
            lemma_board_ok(eid, t, board);
        }
    }

    /// Verifies the tally of an aggregator.
    pub(crate) fn verify_tally(&mut self, aid: &str, now_ms: u64, Ghost(eid): Ghost<Seq<char>>) -> (r:
        DemoResult<VerifyResponse>)
        requires
            old(self).maps_ok(),
            election_ok(eid, old(self)@),
        ensures
            final(self).maps_ok(),
            election_ok(eid, final(self)@),
            refuses(r, verify_refusal(old(self)@, aid@)),
            r is Err ==> final(self)@ == old(self)@,
            r matches Ok(x) ==> exists|v: VerificationView| #[trigger]
                verifies(old(self)@, final(self)@, aid@, now_ms, v) && x.valid == v.valid
                    && texts(x.errors@) == v.errors && x.verification_time_ms == short_time(
                    v.verification_time_ms,
                ),
    {
        let ghost s = self@;
        let agg = match self.aggregators.get(aid) {
            Some(a) => a,
            None => {
                return Err(DemoError::not_found("aggregator not found"));
            },
        };
        let reg = match &agg.finalized {
            Some(f) => f,
            None => {
                return Err(DemoError::bad("no finalized registration"));
            },
        };
        let post = match &agg.tally_post {
            Some(p) => p,
            None => {
                return Err(DemoError::bad("no proof to verify; run prove first"));
            },
        };
        proof {
            assert(s.aggregators[aid@] == agg@);
            lemma_tally_sizes(eid, s, aid@);
        }
        let v = verify_aggregator_tally(&self.params, &self.labels, reg, post);
        let response = VerifyResponse {
            valid: v.valid,
            errors: clone_texts(&v.errors),
            verification_time_ms: shorten(v.verification_time_ms),
        };
        let ghost view = v@;
        self.record_verification(v, now_ms, Ghost(eid));
        proof {
            assert(verifies(s, self@, aid@, now_ms, view));
        }
        Ok(response)
    }
}

// ---- verifying all -----------------------------------------------------------

/// Whether an aggregator's registration stands up to the checks, and messages.
pub open spec fn registration_check(s: ElectionStateView, aid: Seq<char>) -> (bool, Seq<Seq<char>>) {
    match s.aggregators[aid].finalized {
        Some(f) => {
            let problems = registration_problems(
                s.params.election_id,
                s.params.aggregators,
                partitions_of(s.params),
                f,
                false,
            );
            (problems.len() == 0, problems)
        },
        None => (false, seq!["registration not finalized"@]),
    }
}

/// Whether an aggregator's tally is valid, and messages. It is not if its
/// registration is not.
pub open spec fn tally_check(s: ElectionStateView, aid: Seq<char>) -> (bool, Seq<Seq<char>>) {
    let v = verdict_of(s, aid);
    if registration_check(s, aid).0 {
        v
    } else {
        (false, v.1.push("registration post invalid"@))
    }
}

/// The ids of the first `count` aggregators that have a tally.
pub open spec fn tallied_ids(s: ElectionStateView, count: int) -> Seq<Seq<char>>
    decreases count,
{
    if count <= 0 {
        Seq::empty()
    } else {
        let aid = s.params.aggregators[count - 1];
        if s.aggregators[aid].finalized is Some && s.aggregators[aid].tally_post is Some {
            tallied_ids(s, count - 1).push(aid)
        } else {
            tallied_ids(s, count - 1)
        }
    }
}

/// The verifications of the aggregators with the given ids.
pub open spec fn checks_match(s: ElectionStateView, ids: Seq<Seq<char>>, vs: Seq<VerificationView>) -> bool {
    &&& vs.len() == ids.len()
    &&& forall|i: int|
        0 <= i < ids.len() ==> {
            let v = #[trigger] vs[i];
            v.aggregator_id == ids[i] && (v.valid, v.errors) == tally_check(s, ids[i])
        }
}

/// The state with the first `count` verifications.
pub open spec fn with_verifications(s: ElectionStateView, vs: Seq<VerificationView>, count: int) -> ElectionStateView
    decreases count,
{
    if count <= 0 {
        s
    } else {
        with_verification(with_verifications(s, vs, count - 1), vs[count - 1])
    }
}

/// What is published of the first `count` verifications.
pub open spec fn verified_contents(eid: Seq<char>, vs: Seq<VerificationView>, count: int) -> Seq<
    Content,
> {
    Seq::new(count as nat, |i: int| Content::Verified { election_id: eid, v: vs[i] })
}

/// The posts of the first `count` aggregators, of those that have one.
pub open spec fn registrations_of(s: ElectionStateView, count: int) -> Seq<RegistrationView>
    decreases count,
{
    if count <= 0 {
        Seq::empty()
    } else {
        match s.aggregators[s.params.aggregators[count - 1]].finalized {
            Some(f) => registrations_of(s, count - 1).push(f),
            None => registrations_of(s, count - 1),
        }
    }
}

/// The messages for voters that occur twice in all posts.
pub open spec fn duplicate_messages(s: ElectionStateView) -> Seq<Seq<char>> {
    let ids = all_voter_ids(registrations_of(s, s.params.aggregators.len() as int));
    flagged(ids.len() as int, repeated(ids), repeated_across_text(ids))
}

/// What was found of one registration.
#[derive(Debug)]
pub struct RegistrationResult {
    pub aggregator_id: String,
    pub registration_valid: bool,
    pub errors: Vec<String>,
}

/// What was found of one tally.
#[derive(Debug)]
pub struct VerificationSummary {
    pub aggregator_id: String,
    pub valid: bool,
    pub errors: Vec<String>,
    pub verification_time_ms: u64,
}

/// The answer to verifying everything.
#[derive(Debug)]
pub struct VerifyAllResponse {
    pub duplicate_voter_errors: Vec<String>,
    pub registration: Vec<RegistrationResult>,
    pub verifications: Vec<VerificationSummary>,
    pub verified_global_tally: StringMap<usize>,
}

pub open spec fn registration_answer(s: ElectionStateView, aid: Seq<char>, r: &RegistrationResult) -> bool {
    r.aggregator_id@ == aid && (r.registration_valid, texts(r.errors@)) == registration_check(
        s,
        aid,
    )
}

pub open spec fn verification_answer(v: VerificationView, r: &VerificationSummary) -> bool {
    &&& r.aggregator_id@ == v.aggregator_id
    &&& r.valid == v.valid
    &&& texts(r.errors@) == v.errors
    &&& r.verification_time_ms == short_time(v.verification_time_ms)
}

/// The answer to verifying everything.
pub open spec fn all_answer(s: ElectionStateView, vs: Seq<VerificationView>, r: &VerifyAllResponse) -> bool {
    &&& texts(r.duplicate_voter_errors@) == duplicate_messages(s)
    &&& r.registration@.len() == s.params.aggregators.len()
    &&& forall|i: int|
        0 <= i < s.params.aggregators.len() ==> registration_answer(
            s,
            s.params.aggregators[i],
            &#[trigger] r.registration@[i],
        )
    &&& r.verifications@.len() == vs.len()
    &&& forall|i: int|
        0 <= i < vs.len() ==> verification_answer(vs[i], &#[trigger] r.verifications@[i])
    &&& is_global_tally(option_ids(s.params), all_posts(s), vs, &r.verified_global_tally)
}

/// Everything was verified.
pub open spec fn verifies_all(
    s: ElectionStateView,
    t: ElectionStateView,
    now: u64,
    vs: Seq<VerificationView>,
    totals: Map<Seq<char>, usize>,
) -> bool {
    &&& checks_match(s, tallied_ids(s, s.params.aggregators.len() as int), vs)
    &&& t == but_board(with_verifications(s, vs, vs.len() as int), t.bulletin)
    &&& extends(
        s.bulletin,
        t.bulletin,
        now,
        verified_contents(s.params.election_id, vs, vs.len() as int).push(
            Content::Global { totals, errors: duplicate_messages(s) },
        ),
    )
}

proof fn lemma_with_verifications(
    eid: Seq<char>,
    s: ElectionStateView,
    vs: Seq<VerificationView>,
    count: int,
)
    requires
        election_ok(eid, s),
        0 <= count <= vs.len(),
        forall|i: int|
            0 <= i < vs.len() ==> s.aggregators.dom().contains((#[trigger] vs[i]).aggregator_id),
    ensures
        election_ok(eid, with_verifications(s, vs, count)),
        with_verifications(s, vs, count).aggregators.dom() == s.aggregators.dom(),
        with_verifications(s, vs, count).bulletin == s.bulletin,
    decreases count,
{
    if count > 0 {
        lemma_with_verifications(eid, s, vs, count - 1);
        let t = with_verifications(s, vs, count - 1);
        assert(s.aggregators.dom().contains(vs[count - 1].aggregator_id));
        lemma_verification_ok(eid, t, vs[count - 1]);
        assert(with_verifications(s, vs, count).aggregators.dom() =~= s.aggregators.dom());
    }
}

/// The tallies and those that are verified are the same.
proof fn lemma_tallied_ids(eid: Seq<char>, s: ElectionStateView, count: int)
    requires
        election_ok(eid, s),
        0 <= count <= s.params.aggregators.len(),
    ensures
        tallied_ids(s, count).len() == posts_of(s, count).len(),
        forall|i: int|
            0 <= i < tallied_ids(s, count).len() ==> {
                let a = #[trigger] tallied_ids(s, count)[i];
                s.aggregators.dom().contains(a) && verify_refusal(s, a) is None
            },
    decreases count,
{
    if count > 0 {
        lemma_tallied_ids(eid, s, count - 1);
        let aid = s.params.aggregators[count - 1];
        assert(s.params.aggregators.contains(aid));
        assert(s.aggregators.dom().contains(aid));
        assert(aggregator_ok(s, aid));
    }
}

impl ElectionState {
    /// The messages for voters that occur twice in all posts.
    fn duplicate_voters(&self) -> (r: Vec<String>)
        requires
            showable(self),
        ensures
            texts(r@) == duplicate_messages(self@),
    {
        let ghost s = self@;
        let mut posts: Vec<&FinalizedRegistration> = Vec::new();
        let mut i: usize = 0;
        proof {
            assert(post_views(posts@) =~= Seq::<RegistrationView>::empty());
        }
        while i < self.params.aggregators.len()
            invariant
                i <= self.params.aggregators.len(),
                showable(self),
                s == self@,
                post_views(posts@) == registrations_of(s, i as int),
            decreases self.params.aggregators.len() - i,
        {
            let aid = &self.params.aggregators[i];
            assert(s.params.aggregators[i as int] == aid@);
            assert(s.params.aggregators.contains(aid@));
            if let Some(a) = self.aggregators.get(aid.as_str()) {
                let ghost before = post_views(posts@);
                if let Some(f) = &a.finalized {
                    posts.push(f);
                    proof {
                        assert(post_views(posts@) =~= before.push(f@));
                    }
                }
            }
            i += 1;
        }
        check_no_duplicate_voters(&posts)
    }

    /// Checks the registration of an aggregator.
    fn check_registration(&self, aid: &String, Ghost(eid): Ghost<Seq<char>>) -> (r: (bool, Vec<String>))
        requires
            self.maps_ok(),
            election_ok(eid, self@),
            self@.aggregators.dom().contains(aid@),
        ensures
            (r.0, texts(r.1@)) == registration_check(self@, aid@),
    {
        let ghost s = self@;
        let mut errors: Vec<String> = Vec::new();
        if let Some(a) = self.aggregators.get(aid.as_str()) {
            assert(s.aggregators[aid@] == a@);
            if let Some(f) = &a.finalized {
                proof {
                    assert(aggregator_ok(s, aid@));
                    lemma_posted_is_valid(eid, s, aid@, f.timestamp_unix_ms, f@);
                    assert forall|i: int| 0 <= i < f.voters@.len() implies (
                    #[trigger] f.voters@[i]).idx < f.domain_size by {
                        assert(f@.voters[i] == f.voters@[i]@);
                    }
                }
                return match validate_finalized_registration(&self.params, f, false) {
                    Ok(report) => {
                        assert(texts(report.errors@).len() == report.errors@.len());
                        (report.ok(), report.errors)
                    },
                    Err(e) => (false, vec![e.to_text()]),
                };
            }
        }
        errors.push(String::from_str("registration not finalized"));
        proof {
            assert(texts(errors@) =~= seq!["registration not finalized"@]);
        }
        (false, errors)
    }
}

/// What was found of all aggregators.
pub open spec fn findings(
    s: ElectionStateView,
    registration: Seq<RegistrationResult>,
    vs: Seq<VerificationView>,
    count: int,
) -> bool {
    &&& registration.len() == count
    &&& forall|i: int|
        0 <= i < count ==> registration_answer(
            s,
            s.params.aggregators[i],
            &#[trigger] registration[i],
        )
    &&& checks_match(s, tallied_ids(s, count), vs)
}

impl ElectionState {
    /// Checks all registrations and tallies.
    fn check_everything(&self, Ghost(eid): Ghost<Seq<char>>) -> (r: (
        Vec<RegistrationResult>,
        Vec<AggregatorVerification>,
    ))
        requires
            self.maps_ok(),
            election_ok(eid, self@),
        ensures
            findings(
                self@,
                r.0@,
                verification_views(r.1@),
                self@.params.aggregators.len() as int,
            ),
    {
        let ghost s = self@;
        let mut registration: Vec<RegistrationResult> = Vec::new();
        let mut verifications: Vec<AggregatorVerification> = Vec::new();
        let mut i: usize = 0;
        while i < self.params.aggregators.len()
            invariant
                i <= self.params.aggregators.len(),
                self.maps_ok(),
                election_ok(eid, s),
                s == self@,
                findings(s, registration@, verification_views(verifications@), i as int),
            decreases self.params.aggregators.len() - i,
        {
            let aid = &self.params.aggregators[i];
            let ghost ids = tallied_ids(s, i as int);
            let ghost before = verification_views(verifications@);
            let ghost listed = registration@;
            proof {
                assert(s.params.aggregators[i as int] == aid@);
                assert(s.params.aggregators.contains(aid@));
                assert(s.aggregators.dom().contains(aid@));
            }
            let (valid, errors) = self.check_registration(aid, Ghost(eid));
            if let Some(a) = self.aggregators.get(aid.as_str()) {
                assert(s.aggregators[aid@] == a@);
                if let Some(f) = &a.finalized {
                    if let Some(p) = &a.tally_post {
                        proof {
                            lemma_tally_sizes(eid, s, aid@);
                        }
                        let mut v = verify_aggregator_tally(&self.params, &self.labels, f, p);
                        if !valid {
                            let ghost found = texts(v.errors@);
                            v.valid = false;
                            v.errors.push(String::from_str("registration post invalid"));
                            proof {
                                assert(texts(v.errors@) =~= found.push(
                                    "registration post invalid"@,
                                ));
                            }
                        }
                        let ghost view = v@;
                        verifications.push(v);
                        proof {
                            assert(verification_views(verifications@) =~= before.push(view));
                        }
                    }
                }
            }
            registration.push(
                RegistrationResult {
                    aggregator_id: aid.clone(),
                    registration_valid: valid,
                    errors,
                },
            );
            proof {
                let now = registration@;
                assert forall|k: int| 0 <= k < i + 1 implies registration_answer(
                    s,
                    s.params.aggregators[k],
                    &#[trigger] now[k],
                ) by {
                    if k < i {
                        assert(now[k] == listed[k]);
                    }
                }
                let vs = verification_views(verifications@);
                let all = tallied_ids(s, i + 1);
                assert forall|k: int| 0 <= k < all.len() implies {
                    let v = #[trigger] vs[k];
                    v.aggregator_id == all[k] && (v.valid, v.errors) == tally_check(s, all[k])
                } by {
                    if k < ids.len() {
                        assert(vs[k] == before[k]);
                        assert(all[k] == ids[k]);
                    }
                }
            }
            i += 1;
        }
        (registration, verifications)
    }

    /// What is answered of the verifications.
    fn summarize_verifications(list: &Vec<AggregatorVerification>) -> (r: Vec<VerificationSummary>)
        ensures
            r@.len() == list@.len(),
            forall|i: int|
                0 <= i < r@.len() ==> verification_answer(
                    verification_views(list@)[i],
                    &#[trigger] r@[i],
                ),
    {
        let mut r: Vec<VerificationSummary> = Vec::new();
        let mut i: usize = 0;
        while i < list.len()
            invariant
                i <= list.len(),
                r@.len() == i,
                forall|k: int|
                    0 <= k < i ==> verification_answer(
                        verification_views(list@)[k],
                        &#[trigger] r@[k],
                    ),
            decreases list.len() - i,
        {
            let v = &list[i];
            assert(verification_views(list@)[i as int] == v@);
            r.push(
                VerificationSummary {
                    aggregator_id: v.aggregator_id.clone(),
                    valid: v.valid,
                    errors: clone_texts(&v.errors),
                    verification_time_ms: shorten(v.verification_time_ms),
                },
            );
            i += 1;
        }
        r
    }

    /// Keeps and publishes verifications.
    fn record_all(
        &mut self,
        verifications: &Vec<AggregatorVerification>,
        now_ms: u64,
        Ghost(eid): Ghost<Seq<char>>,
    )
        requires
            old(self).maps_ok(),
            election_ok(eid, old(self)@),
            forall|i: int|
                0 <= i < verifications@.len() ==> old(self)@.aggregators.dom().contains(
                    (#[trigger] verification_views(verifications@)[i]).aggregator_id,
                ),
        ensures
            final(self).maps_ok(),
            election_ok(eid, final(self)@),
            final(self)@ == but_board(
                with_verifications(
                    old(self)@,
                    verification_views(verifications@),
                    verifications@.len() as int,
                ),
                final(self)@.bulletin,
            ),
            extends(
                old(self)@.bulletin,
                final(self)@.bulletin,
                now_ms,
                verified_contents(
                    eid,
                    verification_views(verifications@),
                    verifications@.len() as int,
                ),
            ),
    {
        let ghost s = self@;
        let ghost vs = verification_views(verifications@);
        let mut i: usize = 0;
        proof {
            assert(but_board(s, s.bulletin) =~= s);
        }
        while i < verifications.len()
            invariant
                i <= verifications.len(),
                vs == verification_views(verifications@),
                election_ok(eid, s),
                forall|k: int|
                    0 <= k < vs.len() ==> s.aggregators.dom().contains(
                        (#[trigger] vs[k]).aggregator_id,
                    ),
                self.maps_ok(),
                election_ok(eid, self@),
                self@ == but_board(with_verifications(s, vs, i as int), self@.bulletin),
                extends(
                    s.bulletin,
                    self@.bulletin,
                    now_ms,
                    verified_contents(eid, vs, i as int),
                ),
            decreases verifications.len() - i,
        {
            let ghost before = self@;
            proof {
                lemma_with_verifications(eid, s, vs, i as int);
                assert(vs[i as int] == verifications@[i as int]@);
                assert(s.aggregators.dom().contains(vs[i as int].aggregator_id));
            }
            self.record_verification(verifications[i].clone(), now_ms, Ghost(eid));
            proof {
                let content = Content::Verified { election_id: eid, v: vs[i as int] };
                lemma_extends_push(
                    s.bulletin,
                    before.bulletin,
                    self@.bulletin,
                    now_ms,
                    verified_contents(eid, vs, i as int),
                    content,
                );
                assert(verified_contents(eid, vs, i + 1) =~= verified_contents(
                    eid,
                    vs,
                    i as int,
                ).push(content));
                assert(self@ =~= but_board(with_verifications(s, vs, i + 1), self@.bulletin));
            }
            i += 1;
        }
    }

    /// Checks everything and counts the votes of what is valid.
    fn survey(&self, Ghost(eid): Ghost<Seq<char>>) -> (r: DemoResult<Survey>)
        requires
            self.maps_ok(),
            election_ok(eid, self@),
        ensures
            refuses(r, counting_refusal(self@)),
            r matches Ok(x) ==> surveyed(self@, &x),
    {
        let ghost s = self@;
        proof {
            lemma_showable(eid, self);
        }
        if !self.counts_fit() {
            return Err(DemoError::unprocessable("vote counts are too large"));
        }
        let duplicates = self.duplicate_voters();
        let (registration, verifications) = self.check_everything(Ghost(eid));
        let posts = self.tally_posts();
        proof {
            assert(tally_views(posts@).len() == posts@.len());
            assert(candidate_ids(self.params.candidates@) =~= option_ids(s.params));
            lemma_totals_fit(
                option_ids(s.params),
                tally_views(posts@),
                verification_views(verifications@),
            );
        }
        let totals = global_tally(&self.params, &posts, &verifications);
        Ok(Survey { duplicates, registration, verifications, totals })
    }

    /// Keeps and publishes what was found.
    fn publish(&mut self, found: &Survey, now_ms: u64, Ghost(eid): Ghost<Seq<char>>)
        requires
            old(self).maps_ok(),
            election_ok(eid, old(self)@),
            surveyed(old(self)@, found),
        ensures
            final(self).maps_ok(),
            election_ok(eid, final(self)@),
            verifies_all(
                old(self)@,
                final(self)@,
                now_ms,
                verification_views(found.verifications@),
                found.totals@,
            ),
    {
        let ghost s = self@;
        let ghost vs = verification_views(found.verifications@);
        proof {
            let n = s.params.aggregators.len() as int;
            lemma_tallied_ids(eid, s, n);
            let ids = tallied_ids(s, n);
            assert forall|i: int| 0 <= i < vs.len() implies s.aggregators.dom().contains(
                (#[trigger] vs[i]).aggregator_id,
            ) by {
                assert(vs[i].aggregator_id == ids[i]);
                assert(s.aggregators.dom().contains(ids[i]));
            }
        }
        self.record_all(&found.verifications, now_ms, Ghost(eid));
        let ghost mid = self@;
        let ghost content = Content::Global {
            totals: found.totals@,
            errors: duplicate_messages(s),
        };
        let shown = found.totals.copy_counts();
        self.post_bulletin(
            now_ms,
            "global_tally",
            Payload::GlobalTally {
                verified_global_tally: shown,
                duplicate_voter_errors: clone_texts(&found.duplicates),
            },
            Ghost(content),
        );
        proof {
            let items = verified_contents(eid, vs, vs.len() as int);
            lemma_extends_push(s.bulletin, mid.bulletin, self@.bulletin, now_ms, items, content);
            lemma_extends_numbered(mid.bulletin, self@.bulletin, now_ms, seq![content]);
            lemma_board_ok(eid, mid, self@.bulletin);
            assert(self@ =~= but_board(
                with_verifications(s, vs, vs.len() as int),
                self@.bulletin,
            ));
        }
    }

    /// Verifies the registrations and tallies of all aggregators, and counts
    /// the votes of those that are valid.
    pub(crate) fn verify_everything(&mut self, now_ms: u64, Ghost(eid): Ghost<Seq<char>>) -> (r:
        DemoResult<VerifyAllResponse>)
        requires
            old(self).maps_ok(),
            election_ok(eid, old(self)@),
        ensures
            final(self).maps_ok(),
            election_ok(eid, final(self)@),
            refuses(r, counting_refusal(old(self)@)),
            r is Err ==> final(self)@ == old(self)@,
            r matches Ok(x) ==> verified_everything(old(self)@, final(self)@, now_ms, &x),
    {
        let found = match self.survey(Ghost(eid)) {
            Ok(found) => found,
            Err(e) => {
                return Err(e);
            },
        };
        let ghost s = self@;
        let ghost vs = verification_views(found.verifications@);
        self.publish(&found, now_ms, Ghost(eid));
        let verifications = Self::summarize_verifications(&found.verifications);
        let r = VerifyAllResponse {
            duplicate_voter_errors: found.duplicates,
            registration: found.registration,
            verifications,
            verified_global_tally: found.totals,
        };
        proof {
            assert(vs.len() == found.verifications@.len());
            assert(all_answer(s, vs, &r));
            assert(verifies_all(s, self@, now_ms, vs, r.verified_global_tally@));
            assert(verified_everything(s, self@, now_ms, &r));
        }
        Ok(r)
    }
}

/// Everything was verified, and this is the answer.
pub open spec fn verified_everything(
    s: ElectionStateView,
    t: ElectionStateView,
    now: u64,
    r: &VerifyAllResponse,
) -> bool {
    exists|vs: Seq<VerificationView>| #[trigger]
        verifies_all(s, t, now, vs, r.verified_global_tally@) && all_answer(s, vs, r)
}

/// What was found of a whole election.
struct Survey {
    duplicates: Vec<String>,
    registration: Vec<RegistrationResult>,
    verifications: Vec<AggregatorVerification>,
    totals: StringMap<usize>,
}

/// What was found of an election in a state.
spec fn surveyed(s: ElectionStateView, x: &Survey) -> bool {
    let vs = verification_views(x.verifications@);
    &&& texts(x.duplicates@) == duplicate_messages(s)
    &&& findings(s, x.registration@, vs, s.params.aggregators.len() as int)
    &&& is_global_tally(option_ids(s.params), all_posts(s), vs, &x.totals)
}

/// The refusal where the counts do not fit.
pub open spec fn counting_refusal(s: ElectionStateView) -> Option<(u16, Seq<char>)> {
    if tally_fits(all_posts(s)) {
        None
    } else {
        Some((422u16, "vote counts are too large"@))
    }
}

// ---- the public artifact -----------------------------------------------------

/// All that is public of an election.
pub open spec fn publishes(s: ElectionStateView, a: &PublicElectionArtifact) -> bool {
    let n = s.params.aggregators.len() as int;
    let (regs, posts, vs) = (registrations_of(s, n), all_posts(s), all_verifications(s));
    &&& a.version == crate::election::ARTIFACT_VERSION
    &&& a.object_type@ == "aggios_public_election_artifact"@
    &&& a.curve@ == EPA_BACKEND_ID@
    &&& a.election@ == s.params
    &&& texts(a.candidate_labels@) == scalar_hexes(s.labels.candidates)
    &&& a.no_vote_label@ == fr_hex(s.labels.no_vote)
    &&& a.pad_label@ == fr_hex(s.labels.pad)
    &&& a.registration_posts@.len() == regs.len()
    &&& forall|i: int|
        0 <= i < regs.len() ==> registration_texts(
            &#[trigger] a.registration_posts@[i],
            regs[i],
        )
    &&& a.tally_posts@.len() == posts.len()
    &&& forall|i: int|
        0 <= i < posts.len() ==> tally_texts(&#[trigger] a.tally_posts@[i], posts[i])
    &&& a.verifications@.len() == vs.len()
    &&& forall|i: int|
        0 <= i < vs.len() ==> verification_texts(
            &#[trigger] a.verifications@[i],
            s.params.election_id,
            vs[i],
        )
    &&& is_global_tally(option_ids(s.params), posts, vs, &a.verified_global_tally)
}

impl ElectionState {
    /// The registration posts of all aggregators, as artifacts.
    fn registration_artifacts(&self) -> (r: Vec<RegistrationPostArtifact>)
        requires
            showable(self),
        ensures
            ({
                let regs = registrations_of(self@, self@.params.aggregators.len() as int);
                r@.len() == regs.len() && forall|i: int|
                    0 <= i < regs.len() ==> registration_texts(&#[trigger] r@[i], regs[i])
            }),
    {
        let ghost s = self@;
        let mut r: Vec<RegistrationPostArtifact> = Vec::new();
        let mut i: usize = 0;
        while i < self.params.aggregators.len()
            invariant
                i <= self.params.aggregators.len(),
                showable(self),
                s == self@,
                r@.len() == registrations_of(s, i as int).len(),
                forall|k: int|
                    0 <= k < r@.len() ==> registration_texts(
                        &#[trigger] r@[k],
                        registrations_of(s, i as int)[k],
                    ),
            decreases self.params.aggregators.len() - i,
        {
            let aid = &self.params.aggregators[i];
            let ghost before = r@;
            let ghost regs = registrations_of(s, i as int);
            assert(s.params.aggregators[i as int] == aid@);
            assert(s.params.aggregators.contains(aid@));
            if let Some(a) = self.aggregators.get(aid.as_str()) {
                if let Some(f) = &a.finalized {
                    r.push(RegistrationPostArtifact::from_post(f));
                }
            }
            proof {
                let now = registrations_of(s, i + 1);
                assert forall|k: int| 0 <= k < r@.len() implies registration_texts(
                    &#[trigger] r@[k],
                    now[k],
                ) by {
                    if k < before.len() {
                        assert(r@[k] == before[k]);
                        assert(now[k] == regs[k]);
                    }
                }
            }
            i += 1;
        }
        r
    }

    /// All that is public of the election.
    pub(crate) fn artifact(&self, Ghost(eid): Ghost<Seq<char>>) -> (r: DemoResult<
        PublicElectionArtifact,
    >)
        requires
            self.maps_ok(),
            election_ok(eid, self@),
        ensures
            refuses(r, counting_refusal(self@)),
            r matches Ok(a) ==> publishes(self@, &a),
    {
        let ghost s = self@;
        proof {
            lemma_showable(eid, self);
        }
        if !self.counts_fit() {
            return Err(DemoError::unprocessable("vote counts are too large"));
        }
        let registration_posts = self.registration_artifacts();
        let posts = self.tally_posts();
        let found = self.verification_list();
        proof {
            assert(tally_views(posts@).len() == posts@.len());
            assert(verification_views(found@).len() == found@.len());
            assert(candidate_ids(self.params.candidates@) =~= option_ids(s.params));
            lemma_totals_fit(
                option_ids(s.params),
                tally_views(posts@),
                verification_views(found@),
            );
        }
        let totals = global_tally(&self.params, &posts, &found);
        let mut tally_posts: Vec<TallyPostArtifact> = Vec::new();
        let mut i: usize = 0;
        while i < posts.len()
            invariant
                i <= posts.len(),
                tally_posts@.len() == i,
                forall|k: int|
                    0 <= k < i ==> tally_texts(
                        &#[trigger] tally_posts@[k],
                        tally_views(posts@)[k],
                    ),
            decreases posts.len() - i,
        {
            assert(tally_views(posts@)[i as int] == posts@[i as int]@);
            tally_posts.push(TallyPostArtifact::from_post(&posts[i]));
            i += 1;
        }
        let mut verifications: Vec<VerificationArtifact> = Vec::new();
        let mut j: usize = 0;
        while j < found.len()
            invariant
                j <= found.len(),
                s == self@,
                verifications@.len() == j,
                forall|k: int|
                    0 <= k < j ==> verification_texts(
                        &#[trigger] verifications@[k],
                        s.params.election_id,
                        verification_views(found@)[k],
                    ),
            decreases found.len() - j,
        {
            assert(verification_views(found@)[j as int] == found@[j as int]@);
            verifications.push(
                VerificationArtifact::from_verification(
                    self.params.election_id.as_str(),
                    &found[j],
                ),
            );
            j += 1;
        }
        Ok(
            PublicElectionArtifact {
                version: crate::election::ARTIFACT_VERSION,
                object_type: String::from_str("aggios_public_election_artifact"),
                curve: String::from_str(EPA_BACKEND_ID),
                election: self.params.clone(),
                candidate_labels: scalars_to_hex(&self.labels.candidate_labels),
                no_vote_label: fr_to_hex(&self.labels.no_vote_label),
                pad_label: fr_to_hex(&self.labels.pad_label),
                registration_posts,
                tally_posts,
                verifications,
                verified_global_tally: totals,
            },
        )
    }
}

} // verus!
