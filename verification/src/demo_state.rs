//! The state of a demonstration: elections with their voters, aggregators and
//! bulletin boards.

use vstd::prelude::*;

use crate::artifacts::{RegistrationPostArtifact, TallyPostArtifact, VerificationArtifact};
use crate::bls::delegation_hashable;
use crate::election::{ElectionParams, ElectionView};
use crate::epa_adapter::SrsBundle;
use crate::error::AggiosError;
use crate::labels::{election_labels, ElectionLabels, LabelsView};
use crate::modular::modulus;
use crate::registration::{
    accepted_voter, distinct_voters, finalized, voter_views, FinalizedRegistration, RegisteredVoter,
    RegistrationView, VoterKeys, VoterView,
};
use crate::string_map::{viewed, StringMap};
use crate::tally::{
    tally_error, tally_made, AggregatorVerification, Ballots, TallyPost, TallyView,
    VerificationView,
};
use crate::text::{decimal, hexadecimal, lemma_decimal, lemma_hexadecimal, texts};

verus! {

/// A refused request: a status as in HTTP, and a message.
#[derive(Clone, Debug)]
pub struct DemoError {
    pub status: u16,
    pub message: String,
}

impl View for DemoError {
    type V = (u16, Seq<char>);

    open spec fn view(&self) -> (u16, Seq<char>) {
        (self.status, self.message@)
    }
}

impl DemoError {
    pub fn bad(msg: &str) -> (e: DemoError)
        ensures
            e@ == (400u16, msg@),
    {
        DemoError { status: 400, message: String::from_str(msg) }
    }

    pub fn not_found(msg: &str) -> (e: DemoError)
        ensures
            e@ == (404u16, msg@),
    {
        DemoError { status: 404, message: String::from_str(msg) }
    }

    /// A request that could not be carried out.
    pub fn unprocessable(msg: &str) -> (e: DemoError)
        ensures
            e@ == (422u16, msg@),
    {
        DemoError { status: 422, message: String::from_str(msg) }
    }

    /// The error of the library as the answer to a request.
    pub fn from_error(e: AggiosError) -> (d: DemoError)
        ensures
            d@ == (422u16, e.shown()),
    {
        DemoError { status: 422, message: e.to_text() }
    }
}

pub type DemoResult<T> = std::result::Result<T, DemoError>;

/// The result is the given refusal, or a success where there is none.
pub open spec fn refuses<T>(r: DemoResult<T>, e: Option<(u16, Seq<char>)>) -> bool {
    match e {
        Some(v) => r matches Err(x) && x@ == v,
        None => r is Ok,
    }
}

/// A voter of the demonstration, with all keys.
#[derive(Debug)]
pub struct DemoVoter {
    pub voter_id: String,
    pub keys: VoterKeys,
    pub registered_with: Option<String>,
    pub vote: Option<String>,
}

#[verifier::ext_equal]
pub struct DemoVoterView {
    pub voter_id: Seq<char>,
    pub keys: VoterKeys,
    pub registered_with: Option<Seq<char>>,
    pub vote: Option<Seq<char>>,
}

pub open spec fn optional_text(s: Option<String>) -> Option<Seq<char>> {
    match s {
        Some(t) => Some(t@),
        None => None,
    }
}

impl View for DemoVoter {
    type V = DemoVoterView;

    open spec fn view(&self) -> DemoVoterView {
        DemoVoterView {
            voter_id: self.voter_id@,
            keys: self.keys,
            registered_with: optional_text(self.registered_with),
            vote: optional_text(self.vote),
        }
    }
}

/// What an aggregator has done so far.
#[derive(Debug)]
pub struct AggregatorState {
    pub registered: Vec<RegisteredVoter>,
    pub finalized: Option<FinalizedRegistration>,
    pub registration_valid: Option<bool>,
    pub registration_errors: Vec<String>,
    pub tally_post: Option<TallyPost>,
    pub verification: Option<AggregatorVerification>,
}

#[verifier::ext_equal]
pub struct AggregatorView {
    pub registered: Seq<VoterView>,
    pub finalized: Option<RegistrationView>,
    pub registration_valid: Option<bool>,
    pub registration_errors: Seq<Seq<char>>,
    pub tally_post: Option<TallyView>,
    pub verification: Option<VerificationView>,
}

pub open spec fn optional_view<T: View>(x: Option<T>) -> Option<T::V> {
    match x {
        Some(t) => Some(t@),
        None => None,
    }
}

impl View for AggregatorState {
    type V = AggregatorView;

    open spec fn view(&self) -> AggregatorView {
        AggregatorView {
            registered: voter_views(self.registered@),
            finalized: optional_view(self.finalized),
            registration_valid: self.registration_valid,
            registration_errors: texts(self.registration_errors@),
            tally_post: optional_view(self.tally_post),
            verification: optional_view(self.verification),
        }
    }
}

/// An aggregator that has done nothing.
pub open spec fn fresh_aggregator() -> AggregatorView {
    AggregatorView {
        registered: Seq::empty(),
        finalized: None,
        registration_valid: None,
        registration_errors: Seq::empty(),
        tally_post: None,
        verification: None,
    }
}

impl Default for AggregatorState {
    fn default() -> (a: AggregatorState)
        ensures
            a@ == fresh_aggregator(),
    {
        let a = AggregatorState {
            registered: Vec::new(),
            finalized: None,
            registration_valid: None,
            registration_errors: Vec::new(),
            tally_post: None,
            verification: None,
        };
        proof {
            assert(a@ =~= fresh_aggregator());
        }
        a
    }
}

/// What an event on the bulletin board holds. Secrets and votes have no place
/// in it.
#[derive(Debug)]
pub enum Payload {
    ElectionCreated { election: ElectionParams },
    PhaseChanged { phase: String },
    VoterRegistered {
        voter_id: String,
        aggregator_id: String,
        pk: String,
        pkv: String,
        delegation_signature: String,
    },
    RegistrationPost { post: RegistrationPostArtifact },
    RegistrationValidated { aggregator_id: String, valid: bool, errors: Vec<String> },
    TallyPost { tally: TallyPostArtifact },
    VerificationResult { result: VerificationArtifact },
    GlobalTally {
        verified_global_tally: StringMap<usize>,
        duplicate_voter_errors: Vec<String>,
    },
}

/// An event on the bulletin board.
#[derive(Debug)]
pub struct BulletinEvent {
    pub seq: u64,
    pub timestamp_unix_ms: u64,
    pub kind: String,
    pub payload: Payload,
}

#[verifier::ext_equal]
pub struct EventView {
    pub seq: u64,
    pub timestamp_unix_ms: u64,
    pub kind: Seq<char>,
    pub payload: Payload,
}

impl View for BulletinEvent {
    type V = EventView;

    open spec fn view(&self) -> EventView {
        EventView {
            seq: self.seq,
            timestamp_unix_ms: self.timestamp_unix_ms,
            kind: self.kind@,
            payload: self.payload,
        }
    }
}

pub open spec fn event_views(s: Seq<BulletinEvent>) -> Seq<EventView> {
    Seq::new(s.len(), |i: int| s[i]@)
}

/// One election of the demonstration.
#[derive(Debug)]
pub struct ElectionState {
    pub params: ElectionParams,
    pub labels: ElectionLabels,
    pub voters: StringMap<DemoVoter>,
    pub voter_order: Vec<String>,
    pub aggregators: StringMap<AggregatorState>,
    pub bulletin: Vec<BulletinEvent>,
    pub next_voter: u64,
}

#[verifier::ext_equal]
pub struct ElectionStateView {
    pub params: ElectionView,
    pub labels: LabelsView,
    pub voters: Map<Seq<char>, DemoVoterView>,
    pub voter_order: Seq<Seq<char>>,
    pub aggregators: Map<Seq<char>, AggregatorView>,
    pub bulletin: Seq<EventView>,
    pub next_voter: u64,
}

impl View for ElectionState {
    type V = ElectionStateView;

    open spec fn view(&self) -> ElectionStateView {
        ElectionStateView {
            params: self.params@,
            labels: self.labels@,
            voters: viewed(self.voters@),
            voter_order: texts(self.voter_order@),
            aggregators: viewed(self.aggregators@),
            bulletin: event_views(self.bulletin@),
            next_voter: self.next_voter,
        }
    }
}

// ---- what holds of every state ----------------------------------------------

/// The id of the voter with a number.
pub open spec fn voter_name(n: int) -> Seq<char> {
    "voter-"@ + decimal(n)
}

/// The ids of the first `count` voters.
pub open spec fn voter_names(count: int) -> Seq<Seq<char>> {
    Seq::new(count as nat, |i: int| voter_name(i + 1))
}

/// The ids of candidates in a view.
pub open spec fn option_ids(e: ElectionView) -> Seq<Seq<char>> {
    Seq::new(e.candidates.len(), |i: int| e.candidates[i].0)
}

/// The number of partitions.
pub open spec fn partitions_of(e: ElectionView) -> int {
    e.candidates.len() as int + 2
}

/// The size of the domain can be computed.
pub open spec fn sizable(count: int, partitions: int) -> bool {
    crate::registration::least_domain(count, partitions) <= usize::MAX / 2 + 1
}

/// A voter of an aggregator's list: known, registered with this aggregator
/// and accepted.
pub open spec fn listed_voter(s: ElectionStateView, aid: Seq<char>, v: VoterView) -> bool {
    &&& s.voters.dom().contains(v.voter_id)
    &&& s.voters[v.voter_id].registered_with == Some(aid)
    &&& accepted_voter(s.params.election_id, aid, v)
    &&& delegation_hashable(s.params.election_id, aid)
    &&& 0 <= v.skv < modulus()
}

/// What holds of an aggregator: its voters are listed once each; what it
/// posted is for them; a tally belongs to its post.
pub open spec fn aggregator_ok(s: ElectionStateView, aid: Seq<char>) -> bool {
    let a = s.aggregators[aid];
    &&& distinct_voters(a.registered)
    &&& forall|i: int|
        0 <= i < a.registered.len() ==> listed_voter(s, aid, #[trigger] a.registered[i])
    &&& a.finalized matches Some(f) ==> sizable(
        a.registered.len() as int,
        partitions_of(s.params),
    ) && srs_exists(f.domain_size as int) && finalized(
        s.params.election_id,
        partitions_of(s.params),
        aid,
        a.registered,
        f.timestamp_unix_ms,
        f,
    )
    &&& a.tally_post matches Some(p) ==> a.finalized is Some && tallied(
        option_ids(s.params),
        s.params.election_id,
        s.labels,
        a.registered,
        a.finalized->0,
        p,
    )
}

/// There are parameters for a domain size.
pub open spec fn srs_exists(n: int) -> bool {
    exists|b: SrsBundle| #[trigger] b.wf() && b.spec_size() == n
}

/// The ballots of registered voters with some votes.
pub open spec fn ballots_with(
    candidates: Seq<Seq<char>>,
    registered: Seq<VoterView>,
    reg: RegistrationView,
    votes: Map<Seq<char>, Seq<char>>,
) -> Ballots {
    Ballots { candidates, registered, votes, records: reg.voters }
}

/// The tally was made of some votes of the aggregator's voters.
#[verifier::opaque]
pub open spec fn tallied(
    candidates: Seq<Seq<char>>,
    eid: Seq<char>,
    labels: LabelsView,
    registered: Seq<VoterView>,
    reg: RegistrationView,
    post: TallyView,
) -> bool {
    exists|votes: Map<Seq<char>, Seq<char>>|
        tally_error(ballots_with(candidates, registered, reg, votes), eid, labels, reg) is None
            && #[trigger] tally_made(
            ballots_with(candidates, registered, reg, votes),
            eid,
            labels,
            reg,
            post,
        )
}

/// What holds of every election.
pub open spec fn election_ok(eid: Seq<char>, s: ElectionStateView) -> bool {
    &&& s.params.election_id == eid
    &&& partitions_of(s.params) + 1 <= usize::MAX / 2 + 1
    &&& s.labels == election_labels(eid, s.params.candidates)
    &&& s.voter_order == voter_names(s.next_voter as int)
    &&& forall|k: Seq<char>| #[trigger] s.voters.dom().contains(k) <==> s.voter_order.contains(k)
    &&& forall|k: Seq<char>| #[trigger]
        s.voters.dom().contains(k) ==> s.voters[k].voter_id == k && s.voters[k].keys.matching()
    &&& forall|k: Seq<char>| #[trigger]
        s.voters.dom().contains(k) ==> (s.voters[k].vote matches Some(c) ==> option_ids(
            s.params,
        ).contains(c))
    &&& forall|a: Seq<char>| #[trigger]
        s.aggregators.dom().contains(a) <==> s.params.aggregators.contains(a)
    &&& forall|a: Seq<char>| #[trigger]
        s.aggregators.dom().contains(a) ==> aggregator_ok(s, a)
    &&& forall|i: int| 0 <= i < s.bulletin.len() ==> (#[trigger] s.bulletin[i]).seq == i
}

/// A voter is registered with at most one aggregator.
pub proof fn law_one_aggregator(
    eid: Seq<char>,
    s: ElectionStateView,
    a: Seq<char>,
    b: Seq<char>,
    i: int,
    j: int,
)
    requires
        election_ok(eid, s),
        s.aggregators.dom().contains(a),
        s.aggregators.dom().contains(b),
        0 <= i < s.aggregators[a].registered.len(),
        0 <= j < s.aggregators[b].registered.len(),
        s.aggregators[a].registered[i].voter_id == s.aggregators[b].registered[j].voter_id,
    ensures
        a == b,
        i == j,
{
    let (x, y) = (s.aggregators[a].registered[i], s.aggregators[b].registered[j]);
    assert(aggregator_ok(s, a) && aggregator_ok(s, b));
    assert(listed_voter(s, a, x));
    assert(listed_voter(s, b, y));
    if i < j {
        assert(s.aggregators[a].registered[i].voter_id != s.aggregators[a].registered[j].voter_id);
    } else if j < i {
        assert(s.aggregators[a].registered[j].voter_id != s.aggregators[a].registered[i].voter_id);
    }
}

/// The numbers of two voters with one id are the same.
pub proof fn lemma_voter_name(a: int, b: int)
    requires
        a >= 0,
        b >= 0,
        voter_name(a) == voter_name(b),
    ensures
        a == b,
{
    let p = "voter-"@;
    lemma_decimal(a);
    lemma_decimal(b);
    assert(decimal(a) =~= voter_name(a).skip(p.len() as int));
    assert(decimal(b) =~= voter_name(b).skip(p.len() as int));
}

// ---- all elections ----------------------------------------------------------

/// All elections of the demonstration, as values.
#[verifier::ext_equal]
pub struct DemoView {
    pub elections: Map<Seq<char>, ElectionStateView>,
    pub election_order: Seq<Seq<char>>,
    pub counter: u64,
}

/// An id made of a prefix, a time and a number.
pub open spec fn id_text(prefix: Seq<char>, now_ms: int, counter: int) -> Seq<char> {
    prefix + "-"@ + decimal(now_ms % 1_000_000) + "-"@ + hexadecimal(counter, 4)
}

/// Ids with different numbers are different, whatever the time.
pub proof fn law_ids_distinct(prefix: Seq<char>, t: int, c: int, u: int, d: int)
    requires
        c >= 0,
        d >= 0,
        id_text(prefix, t, c) == id_text(prefix, u, d),
    ensures
        c == d,
{
    let (x, y) = (decimal(t % 1_000_000), decimal(u % 1_000_000));
    let (g, h) = (hexadecimal(c, 4), hexadecimal(d, 4));
    let (a, b) = (id_text(prefix, t, c), id_text(prefix, u, d));
    lemma_decimal(t % 1_000_000);
    lemma_decimal(u % 1_000_000);
    lemma_hexadecimal(c, 4);
    lemma_hexadecimal(d, 4);
    reveal_strlit("-");
    let at = prefix.len() as int + 1;
    if x.len() < y.len() {
        assert(a[at + x.len()] == '-');
        assert(b[at + x.len()] == y[x.len() as int]);
    } else if y.len() < x.len() {
        assert(b[at + y.len()] == '-');
        assert(a[at + y.len()] == x[y.len() as int]);
    }
    assert(g =~= a.skip(at + x.len() + 1));
    assert(h =~= b.skip(at + y.len() + 1));
}

/// What holds of the whole demonstration: each election is sound, and the
/// list names each election once.
pub open spec fn demo_ok(v: DemoView) -> bool {
    &&& forall|e: Seq<char>| #[trigger]
        v.elections.dom().contains(e) ==> election_ok(e, v.elections[e])
    &&& v.election_order.no_duplicates()
    &&& forall|e: Seq<char>| #[trigger]
        v.elections.dom().contains(e) <==> v.election_order.contains(e)
    &&& forall|e: Seq<char>| #[trigger]
        v.elections.dom().contains(e) ==> exists|t: int, c: int|
            1 <= c <= v.counter && e == #[trigger] id_text("elec"@, t, c)
}

impl ElectionState {
    /// The maps hold each key once, and the voters are in order.
    pub open spec fn maps_ok(&self) -> bool {
        &&& self.voters.wf()
        &&& self.aggregators.wf()
        &&& self.voters.spec_keys() == texts(self.voter_order@)
    }
}

} // verus!
