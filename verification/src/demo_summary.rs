//! What the demonstration shows of an election.

use vstd::prelude::*;

use crate::artifacts::{fr_hex, fr_to_hex, scalar_hexes, scalars_to_hex, short_time, shorten};
use crate::demo_state::{
    option_ids, optional_text, AggregatorState, AggregatorView, DemoVoterView, ElectionState,
    ElectionStateView,
};
use crate::election::{candidate_ids, ElectionParams, ElectionPhase};

use crate::string_map::StringMap;
use crate::tally::{
    all_counts, count_all, global_tally, lemma_totals_fit, tally_views, verification_views,
    verified_votes, AggregatorVerification, TallyPost, TallyView, VerificationView,
};
use crate::text::{clone_texts, texts};

verus! {

/// The name of a phase.
pub open spec fn phase_text(phase: ElectionPhase) -> Seq<char> {
    match phase {
        ElectionPhase::Setup => "setup"@,
        ElectionPhase::Registration => "registration"@,
        ElectionPhase::Voting => "voting"@,
        ElectionPhase::Tally => "tally"@,
        ElectionPhase::Closed => "closed"@,
    }
}

pub fn phase_str(phase: ElectionPhase) -> (s: &'static str)
    ensures
        s@ == phase_text(phase),
{
    match phase {
        ElectionPhase::Setup => "setup",
        ElectionPhase::Registration => "registration",
        ElectionPhase::Voting => "voting",
        ElectionPhase::Tally => "tally",
        ElectionPhase::Closed => "closed",
    }
}

/// One voter, as shown. The vote is shown because the aggregator knows it.
#[derive(Debug)]
pub struct VoterSummary {
    pub voter_id: String,
    pub registered_with: Option<String>,
    pub has_voted: bool,
    pub vote: Option<String>,
}

/// One aggregator, as shown.
#[derive(Debug)]
pub struct AggregatorSummary {
    pub aggregator_id: String,
    pub registered_voters: usize,
    pub votes_received: usize,
    pub finalized: bool,
    pub domain_size: Option<usize>,
    pub pad_count: Option<usize>,
    pub registration_valid: Option<bool>,
    pub registration_errors: Vec<String>,
    pub proof_status: String,
    pub candidate_counts: StringMap<usize>,
    pub no_vote_count: Option<usize>,
    pub proving_time_ms: Option<u64>,
    pub proof_size_bytes: Option<usize>,
    pub verification_time_ms: Option<u64>,
    pub verification_errors: Option<Vec<String>>,
}

/// An election, as shown.
#[derive(Debug)]
pub struct ElectionSummary {
    pub election: ElectionParams,
    pub phase: String,
    pub num_voters: usize,
    pub voters: Vec<VoterSummary>,
    pub aggregators: Vec<AggregatorSummary>,
    /// The votes for each candidate over verified aggregators, once there is
    /// one.
    pub verified_global_tally: Option<StringMap<usize>>,
    pub candidate_labels: Vec<String>,
    pub no_vote_label: String,
    pub pad_label: String,
}

/// How far an aggregator's proof is.
pub open spec fn proof_status(a: AggregatorView) -> Seq<char> {
    match a.tally_post {
        Some(_) => match a.verification {
            Some(v) => if v.valid {
                "verified"@
            } else {
                "rejected"@
            },
            None => "proved"@,
        },
        None => if a.finalized is Some {
            "ready"@
        } else {
            "pending"@
        },
    }
}

/// The votes that reached an aggregator, of the first `count` voters.
pub open spec fn votes_received(s: ElectionStateView, aid: Seq<char>, count: int) -> int
    decreases count,
{
    if count <= 0 {
        0
    } else {
        let v = s.voters[s.voter_order[count - 1]];
        votes_received(s, aid, count - 1) + if v.registered_with == Some(aid) && v.vote is Some {
            1int
        } else {
            0int
        }
    }
}

/// The count of a post for the last candidate with an id, or zero where there
/// is no post.
pub open spec fn shown_count(ids: Seq<Seq<char>>, post: Option<TallyView>, id: Seq<char>) -> int {
    match post {
        Some(p) => p.candidate_counts[crate::tally::position_of(ids, id)->0] as int,
        None => 0,
    }
}

/// What is shown of an aggregator.
pub open spec fn shows_aggregator(
    s: ElectionStateView,
    aid: Seq<char>,
    r: &AggregatorSummary,
) -> bool {
    let a = s.aggregators[aid];
    let ids = option_ids(s.params);
    &&& r.aggregator_id@ == aid
    &&& r.registered_voters == a.registered.len()
    &&& r.votes_received == votes_received(s, aid, s.voter_order.len() as int)
    &&& r.finalized == a.finalized is Some
    &&& r.domain_size == (match a.finalized {
        Some(f) => Some(f.domain_size),
        None => None,
    })
    &&& r.pad_count == (match a.finalized {
        Some(f) => Some(f.pad_count),
        None => None,
    })
    &&& r.registration_valid == a.registration_valid
    &&& texts(r.registration_errors@) == a.registration_errors
    &&& r.proof_status@ == proof_status(a)
    &&& r.candidate_counts.wf()
    &&& forall|id: Seq<char>| #[trigger]
        r.candidate_counts@.dom().contains(id) <==> ids.contains(id)
    &&& forall|id: Seq<char>| #[trigger]
        r.candidate_counts@.dom().contains(id) ==> r.candidate_counts@[id] == shown_count(
            ids,
            a.tally_post,
            id,
        )
    &&& r.no_vote_count == (match a.tally_post {
        Some(p) => Some(p.no_vote_count),
        None => None,
    })
    &&& r.proving_time_ms == (match a.tally_post {
        Some(p) => Some(short_time(p.proving_time_ms)),
        None => None,
    })
    &&& r.proof_size_bytes == (match a.tally_post {
        Some(p) => Some(p.proof_size_bytes),
        None => None,
    })
    &&& r.verification_time_ms == (match a.verification {
        Some(v) => Some(short_time(v.verification_time_ms)),
        None => None,
    })
    &&& match a.verification {
        Some(v) => r.verification_errors matches Some(list) && texts(list@) == v.errors,
        None => r.verification_errors is None,
    }
}

/// What is shown of a voter.
pub open spec fn shows_voter(v: DemoVoterView, r: &VoterSummary) -> bool {
    &&& r.voter_id@ == v.voter_id
    &&& optional_text(r.registered_with) == v.registered_with
    &&& r.has_voted == v.vote is Some
    &&& optional_text(r.vote) == v.vote
}

/// The tallies of the first `count` aggregators in the list, of those that
/// have one.
pub open spec fn posts_of(s: ElectionStateView, count: int) -> Seq<TallyView>
    decreases count,
{
    if count <= 0 {
        Seq::empty()
    } else {
        match s.aggregators[s.params.aggregators[count - 1]].tally_post {
            Some(p) => posts_of(s, count - 1).push(p),
            None => posts_of(s, count - 1),
        }
    }
}

/// The verifications of the first `count` aggregators in the list.
pub open spec fn verifications_of(s: ElectionStateView, count: int) -> Seq<VerificationView>
    decreases count,
{
    if count <= 0 {
        Seq::empty()
    } else {
        match s.aggregators[s.params.aggregators[count - 1]].verification {
            Some(v) => verifications_of(s, count - 1).push(v),
            None => verifications_of(s, count - 1),
        }
    }
}

/// All tallies.
pub open spec fn all_posts(s: ElectionStateView) -> Seq<TallyView> {
    posts_of(s, s.params.aggregators.len() as int)
}

/// All verifications.
pub open spec fn all_verifications(s: ElectionStateView) -> Seq<VerificationView> {
    verifications_of(s, s.params.aggregators.len() as int)
}

/// The counts of all tallies add up to a number that fits.
pub open spec fn tally_fits(posts: Seq<TallyView>) -> bool {
    all_counts(posts, posts.len() as int) <= usize::MAX
}

/// A map that holds the verified votes for each candidate.
pub open spec fn is_global_tally(
    ids: Seq<Seq<char>>,
    posts: Seq<TallyView>,
    verifications: Seq<VerificationView>,
    totals: &StringMap<usize>,
) -> bool {
    &&& totals.wf()
    &&& forall|id: Seq<char>| #[trigger] totals@.dom().contains(id) <==> ids.contains(id)
    &&& forall|id: Seq<char>| #[trigger]
        totals@.dom().contains(id) ==> totals@[id] == verified_votes(
            ids,
            posts,
            verifications,
            id,
            posts.len() as int,
        )
}

/// Some verification is valid.
pub open spec fn any_valid(s: Seq<VerificationView>) -> bool {
    exists|i: int| 0 <= i < s.len() && (#[trigger] s[i]).valid
}

/// What is shown of an election.
pub open spec fn summarizes(s: ElectionStateView, r: &ElectionSummary) -> bool {
    &&& r.election@ == s.params
    &&& r.phase@ == phase_text(s.params.phase)
    &&& r.num_voters == s.voter_order.len()
    &&& r.voters@.len() == s.voter_order.len()
    &&& forall|i: int|
        0 <= i < s.voter_order.len() ==> shows_voter(
            s.voters[s.voter_order[i]],
            &#[trigger] r.voters@[i],
        )
    &&& r.aggregators@.len() == s.params.aggregators.len()
    &&& forall|i: int|
        0 <= i < s.params.aggregators.len() ==> shows_aggregator(
            s,
            s.params.aggregators[i],
            &#[trigger] r.aggregators@[i],
        )
    &&& match r.verified_global_tally {
        Some(totals) => any_valid(all_verifications(s)) && is_global_tally(
            option_ids(s.params),
            all_posts(s),
            all_verifications(s),
            &totals,
        ),
        None => !any_valid(all_verifications(s)),
    }
    &&& texts(r.candidate_labels@) == scalar_hexes(s.labels.candidates)
    &&& r.no_vote_label@ == fr_hex(s.labels.no_vote)
    &&& r.pad_label@ == fr_hex(s.labels.pad)
}

pub fn clone_optional_text(s: &Option<String>) -> (r: Option<String>)
    ensures
        r == *s,
{
    match s {
        Some(t) => Some(t.clone()),
        None => None,
    }
}

/// The maps of an election and its aggregators belong together.
pub open spec fn showable(e: &ElectionState) -> bool {
    &&& e.maps_ok()
    &&& forall|a: Seq<char>| #[trigger]
        e@.params.aggregators.contains(a) ==> e@.aggregators.dom().contains(a)
    &&& forall|a: Seq<char>| #[trigger]
        e@.aggregators.dom().contains(a) ==> (e@.aggregators[a].tally_post matches Some(p)
            ==> p.candidate_counts.len() == e@.params.candidates.len())
}

impl ElectionState {
    /// The tallies of all aggregators, in the order of the list.
    pub(crate) fn tally_posts(&self) -> (r: Vec<TallyPost>)
        requires
            showable(self),
        ensures
            tally_views(r@) == all_posts(self@),
    {
        let ghost s = self@;
        let mut r: Vec<TallyPost> = Vec::new();
        let mut i: usize = 0;
        proof {
            assert(tally_views(r@) =~= Seq::<TallyView>::empty());
        }
        while i < self.params.aggregators.len()
            invariant
                i <= self.params.aggregators.len(),
                showable(self),
                s == self@,
                tally_views(r@) == posts_of(s, i as int),
            decreases self.params.aggregators.len() - i,
        {
            let aid = &self.params.aggregators[i];
            assert(s.params.aggregators[i as int] == aid@);
            assert(s.params.aggregators.contains(aid@));
            if let Some(a) = self.aggregators.get(aid.as_str()) {
                let ghost before = tally_views(r@);
                if let Some(p) = &a.tally_post {
                    r.push(p.clone());
                    proof {
                        assert(tally_views(r@) =~= before.push(p@));
                    }
                }
            }
            i += 1;
        }
        r
    }

    /// The verifications of all aggregators, in the order of the list.
    pub(crate) fn verification_list(&self) -> (r: Vec<AggregatorVerification>)
        requires
            showable(self),
        ensures
            verification_views(r@) == all_verifications(self@),
    {
        let ghost s = self@;
        let mut r: Vec<AggregatorVerification> = Vec::new();
        let mut i: usize = 0;
        proof {
            assert(verification_views(r@) =~= Seq::<VerificationView>::empty());
        }
        while i < self.params.aggregators.len()
            invariant
                i <= self.params.aggregators.len(),
                showable(self),
                s == self@,
                verification_views(r@) == verifications_of(s, i as int),
            decreases self.params.aggregators.len() - i,
        {
            let aid = &self.params.aggregators[i];
            assert(s.params.aggregators[i as int] == aid@);
            assert(s.params.aggregators.contains(aid@));
            if let Some(a) = self.aggregators.get(aid.as_str()) {
                let ghost before = verification_views(r@);
                if let Some(v) = &a.verification {
                    r.push(v.clone());
                    proof {
                        assert(verification_views(r@) =~= before.push(v@));
                    }
                }
            }
            i += 1;
        }
        r
    }

    /// The votes that reached an aggregator.
    fn received(&self, aid: &String) -> (n: usize)
        requires
            self.maps_ok(),
        ensures
            n == votes_received(self@, aid@, self@.voter_order.len() as int),
    {
        let ghost s = self@;
        let mut n: usize = 0;
        let mut i: usize = 0;
        while i < self.voter_order.len()
            invariant
                i <= self.voter_order.len(),
                self.maps_ok(),
                s == self@,
                n <= i,
                n == votes_received(s, aid@, i as int),
            decreases self.voter_order.len() - i,
        {
            assert(self.voters.spec_keys().len() == self.voter_order@.len());
            let v = self.voters.value_at(i);
            proof {
                assert(s.voter_order[i as int] == self.voters.spec_keys()[i as int]);
                assert(s.voters[s.voter_order[i as int]] == v@);
            }
            let here = match &v.registered_with {
                Some(a) => *a == *aid,
                None => false,
            };
            if here && v.vote.is_some() {
                n += 1;
            }
            i += 1;
        }
        n
    }

    /// The counts of an aggregator for each candidate.
    fn shown_counts(&self, a: &AggregatorState) -> (r: StringMap<usize>)
        requires
            a.tally_post matches Some(p) ==> p@.candidate_counts.len()
                == self.params.candidates@.len(),
        ensures
            r.wf(),
            forall|id: Seq<char>| #[trigger]
                r@.dom().contains(id) <==> option_ids(self@.params).contains(id),
            forall|id: Seq<char>| #[trigger]
                r@.dom().contains(id) ==> r@[id] == shown_count(
                    option_ids(self@.params),
                    a@.tally_post,
                    id,
                ),
    {
        let ghost ids = option_ids(self@.params);
        let mut r: StringMap<usize> = StringMap::new();
        let mut j: usize = 0;
        while j < self.params.candidates.len()
            invariant
                j <= self.params.candidates.len(),
                ids == option_ids(self@.params),
                a.tally_post matches Some(p) ==> p@.candidate_counts.len()
                    == self.params.candidates@.len(),
                r.wf(),
                forall|id: Seq<char>| #[trigger]
                    r@.dom().contains(id) <==> ids.take(j as int).contains(id),
                forall|id: Seq<char>| #[trigger]
                    r@.dom().contains(id) ==> r@[id] == (match a@.tally_post {
                        Some(p) => p.candidate_counts[crate::tally::last_position(
                            ids,
                            id,
                            j as int,
                        )->0] as int,
                        None => 0,
                    }),
            decreases self.params.candidates.len() - j,
        {
            let ghost before = r@;
            let count: usize = match &a.tally_post {
                Some(p) => p.candidate_counts[j],
                None => 0,
            };
            r.insert(self.params.candidates[j].id.clone(), count);
            proof {
                let x = ids[j as int];
                assert(x == self.params.candidates@[j as int].id@);
                let (p, q) = (ids.take(j as int), ids.take(j + 1));
                assert(q =~= p.push(x));
                assert forall|id: Seq<char>| #[trigger] r@.dom().contains(id) <==> q.contains(id) by {
                    assert(q[p.len() as int] == x);
                    if p.contains(id) {
                        let i = choose|i: int| 0 <= i < p.len() && p[i] == id;
                        assert(q[i] == id);
                    }
                }
                assert forall|id: Seq<char>| #[trigger] r@.dom().contains(id) implies r@[id] == (
                match a@.tally_post {
                    Some(p) => p.candidate_counts[crate::tally::last_position(
                        ids,
                        id,
                        j + 1,
                    )->0] as int,
                    None => 0,
                }) by {
                    if id != x {
                        assert(before.dom().contains(id));
                    }
                }
            }
            j += 1;
        }
        proof {
            assert(ids.take(ids.len() as int) =~= ids);
        }
        r
    }

    /// What is shown of an aggregator.
    fn show_aggregator(&self, aid: &String, a: &AggregatorState) -> (r: AggregatorSummary)
        requires
            showable(self),
            self@.aggregators.dom().contains(aid@),
            self.aggregators@[aid@] == *a,
        ensures
            shows_aggregator(self@, aid@, &r),
    {
        assert(self@.aggregators[aid@] == a@);
        let status = if a.tally_post.is_some() {
            match &a.verification {
                Some(v) => if v.valid {
                    "verified"
                } else {
                    "rejected"
                },
                None => "proved",
            }
        } else if a.finalized.is_some() {
            "ready"
        } else {
            "pending"
        };
        let verification_errors = match &a.verification {
            Some(v) => Some(clone_texts(&v.errors)),
            None => None,
        };
        AggregatorSummary {
            aggregator_id: aid.clone(),
            registered_voters: a.registered.len(),
            votes_received: self.received(aid),
            finalized: a.finalized.is_some(),
            domain_size: match &a.finalized {
                Some(f) => Some(f.domain_size),
                None => None,
            },
            pad_count: match &a.finalized {
                Some(f) => Some(f.pad_count),
                None => None,
            },
            registration_valid: a.registration_valid,
            registration_errors: clone_texts(&a.registration_errors),
            proof_status: String::from_str(status),
            candidate_counts: self.shown_counts(a),
            no_vote_count: match &a.tally_post {
                Some(p) => Some(p.no_vote_count),
                None => None,
            },
            proving_time_ms: match &a.tally_post {
                Some(p) => Some(shorten(p.proving_time_ms)),
                None => None,
            },
            proof_size_bytes: match &a.tally_post {
                Some(p) => Some(p.proof_size_bytes),
                None => None,
            },
            verification_time_ms: match &a.verification {
                Some(v) => Some(shorten(v.verification_time_ms)),
                None => None,
            },
            verification_errors,
        }
    }

    /// What is shown of the voters.
    fn show_voters(&self) -> (r: Vec<VoterSummary>)
        requires
            self.maps_ok(),
        ensures
            r@.len() == self@.voter_order.len(),
            forall|i: int|
                0 <= i < r@.len() ==> shows_voter(
                    self@.voters[self@.voter_order[i]],
                    &#[trigger] r@[i],
                ),
    {
        let ghost s = self@;
        let mut r: Vec<VoterSummary> = Vec::new();
        let mut i: usize = 0;
        while i < self.voter_order.len()
            invariant
                i <= self.voter_order.len(),
                self.maps_ok(),
                s == self@,
                r@.len() == i,
                forall|k: int|
                    0 <= k < i ==> shows_voter(s.voters[s.voter_order[k]], &#[trigger] r@[k]),
            decreases self.voter_order.len() - i,
        {
            assert(self.voters.spec_keys().len() == self.voter_order@.len());
            let v = self.voters.value_at(i);
            proof {
                assert(s.voter_order[i as int] == self.voters.spec_keys()[i as int]);
                assert(s.voters[s.voter_order[i as int]] == v@);
            }
            r.push(
                VoterSummary {
                    voter_id: v.voter_id.clone(),
                    registered_with: clone_optional_text(&v.registered_with),
                    has_voted: v.vote.is_some(),
                    vote: clone_optional_text(&v.vote),
                },
            );
            i += 1;
        }
        r
    }

    /// Whether the counts of all tallies add up to a number that fits.
    pub(crate) fn counts_fit(&self) -> (b: bool)
        requires
            showable(self),
        ensures
            b == tally_fits(all_posts(self@)),
    {
        let posts = self.tally_posts();
        assert(tally_views(posts@).len() == posts@.len());
        match count_all(&posts) {
            Some(n) => n <= usize::MAX as u128,
            None => false,
        }
    }

    /// What is shown of the election.
    pub(crate) fn summary(&self) -> (r: ElectionSummary)
        requires
            showable(self),
            tally_fits(all_posts(self@)),
        ensures
            summarizes(self@, &r),
    {
        let ghost s = self@;
        let mut aggregators: Vec<AggregatorSummary> = Vec::new();
        let mut i: usize = 0;
        while i < self.params.aggregators.len()
            invariant
                i <= self.params.aggregators.len(),
                showable(self),
                s == self@,
                aggregators@.len() == i,
                forall|k: int|
                    0 <= k < i ==> shows_aggregator(
                        s,
                        s.params.aggregators[k],
                        &#[trigger] aggregators@[k],
                    ),
            decreases self.params.aggregators.len() - i,
        {
            let aid = &self.params.aggregators[i];
            assert(s.params.aggregators[i as int] == aid@);
            assert(s.params.aggregators.contains(aid@));
            if let Some(a) = self.aggregators.get(aid.as_str()) {
                aggregators.push(self.show_aggregator(aid, a));
            }
            i += 1;
        }
        let posts = self.tally_posts();
        let verifications = self.verification_list();
        proof {
            assert(tally_views(posts@).len() == posts@.len());
            assert(candidate_ids(self.params.candidates@) =~= option_ids(s.params));
            lemma_totals_fit(
                option_ids(s.params),
                tally_views(posts@),
                verification_views(verifications@),
            );
        }
        let totals = global_tally(&self.params, &posts, &verifications);
        let mut any_verified = false;
        let ghost found = verification_views(verifications@);
        let mut j: usize = 0;
        while j < verifications.len()
            invariant
                j <= verifications.len(),
                found == verification_views(verifications@),
                any_verified == (exists|k: int| 0 <= k < j && (#[trigger] found[k]).valid),
            decreases verifications.len() - j,
        {
            assert(found[j as int] == verifications@[j as int]@);
            if verifications[j].valid {
                any_verified = true;
            }
            j += 1;
        }
        ElectionSummary {
            election: self.params.clone(),
            phase: String::from_str(phase_str(self.params.phase)),
            num_voters: self.voters.len(),
            voters: self.show_voters(),
            aggregators,
            verified_global_tally: if any_verified {
                Some(totals)
            } else {
                None
            },
            candidate_labels: scalars_to_hex(&self.labels.candidate_labels),
            no_vote_label: fr_to_hex(&self.labels.no_vote_label),
            pad_label: fr_to_hex(&self.labels.pad_label),
        }
    }
}

} // verus!
