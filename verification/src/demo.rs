//! The demonstration: elections, voters, registration, voting, proving,
//! verification and the bulletin board, as one state machine.

use vstd::prelude::*;

use crate::artifacts::{short_time, tally_texts, PublicElectionArtifact, TallyPostArtifact};
use crate::demo_election::{
    adds_voters, but_board, extends, in_phase, parse_phase, phase_named, register_refusal,
    registered_content, vote_refusal, with_registration, with_vote, Content,
};
pub use crate::demo_state::{
    AggregatorState, BulletinEvent, DemoError, DemoResult, DemoVoter, ElectionState,
};
use crate::demo_state::{
    aggregator_ok, demo_ok, election_ok, event_views, fresh_aggregator, id_text, law_ids_distinct,
    optional_text, partitions_of, refuses, voter_names, DemoView, DemoVoterView, ElectionStateView,
    EventView, Payload,
};
use crate::demo_summary::{all_posts, phase_str, phase_text, posts_of, summarizes, ElectionSummary};
use crate::demo_tally::{
    counting_refusal, finalize_refusal, finalizes, lemma_showable, prove_refusal, publishes,
    tally_proved, unlucky, verified_everything, verifies, verify_refusal, FinalizeResponse, ProveResponse,
    VerifyAllResponse, VerifyResponse,
};
use crate::election::{
    candidate_texts, default_aggregators, template_candidates, template_texts, template_title,
    template_title_text, Candidate, ElectionParams, ElectionPhase, ElectionTemplate, ElectionView,
    ARTIFACT_VERSION,
};
use crate::epa_adapter::EPA_BACKEND_ID;
use crate::labels::{election_labels, labels_derivable, try_derive_election_labels};
use crate::registration::RegistrationView;
use crate::string_map::{lemma_viewed_insert, viewed, StringMap};
use crate::tally::{TallyView, VerificationView};
use crate::text::{cat2, clone_texts, decimal, decimal_text, push_decimal, push_hexadecimal, texts};

verus! {

/// All elections of the demonstration.
#[derive(Debug)]
pub struct DemoState {
    pub elections: StringMap<ElectionState>,
    pub election_order: Vec<String>,
    counter: u64,
}

impl View for DemoState {
    type V = DemoView;

    closed spec fn view(&self) -> DemoView {
        DemoView {
            elections: viewed(self.elections@),
            election_order: texts(self.election_order@),
            counter: self.counter,
        }
    }
}

/// A demonstration without elections.
pub open spec fn empty_demo() -> DemoView {
    DemoView { elections: Map::empty(), election_order: Seq::empty(), counter: 0 }
}

/// One election changed.
pub open spec fn changed(v: DemoView, eid: Seq<char>, t: ElectionStateView) -> DemoView {
    DemoView { elections: v.elections.insert(eid, t), ..v }
}

proof fn lemma_changed_ok(v: DemoView, eid: Seq<char>, t: ElectionStateView)
    requires
        demo_ok(v),
        v.elections.dom().contains(eid),
        election_ok(eid, t),
    ensures
        demo_ok(changed(v, eid, t)),
{
    let w = changed(v, eid, t);
    assert forall|e: Seq<char>| #[trigger] w.elections.dom().contains(e) implies election_ok(
        e,
        w.elections[e],
    ) by {
        if e != eid {
            assert(v.elections.dom().contains(e));
        }
    }
    assert forall|e: Seq<char>| #[trigger]
        w.elections.dom().contains(e) <==> w.election_order.contains(e) by {
        assert(v.elections.dom().contains(e) <==> v.election_order.contains(e));
    }
    assert forall|e: Seq<char>| #[trigger] w.elections.dom().contains(e) implies exists|
        x: int,
        c: int,
    |
        1 <= c <= w.counter && e == #[trigger] id_text("elec"@, x, c) by {
        assert(v.elections.dom().contains(e));
    }
}

/// The refusal for an election that does not exist.
pub open spec fn no_election(v: DemoView, eid: Seq<char>) -> Option<(u16, Seq<char>)> {
    if v.elections.dom().contains(eid) {
        None
    } else {
        Some((404u16, "election not found"@))
    }
}

/// The first refusal of two.
pub open spec fn either(a: Option<(u16, Seq<char>)>, b: Option<(u16, Seq<char>)>) -> Option<
    (u16, Seq<char>),
> {
    match a {
        Some(e) => Some(e),
        None => b,
    }
}

// ---- creating an election ----------------------------------------------------

/// What a new election is asked to be.
#[derive(Debug)]
pub struct CreateElectionRequest {
    pub template: ElectionTemplate,
    pub title: Option<String>,
    pub description: Option<String>,
    pub custom_options: Vec<String>,
    pub aggregators: Vec<String>,
    pub max_voters: Option<usize>,
}

/// The options of a custom election, numbered.
pub open spec fn custom_texts(options: Seq<Seq<char>>) -> Seq<(Seq<char>, Seq<char>)> {
    Seq::new(options.len(), |i: int| ("opt-"@ + decimal(i), options[i]))
}

/// The candidates of a requested election.
pub open spec fn requested_candidates(req: &CreateElectionRequest) -> Seq<(Seq<char>, Seq<char>)> {
    match req.template {
        ElectionTemplate::Custom => custom_texts(texts(req.custom_options@)),
        t => template_texts(t),
    }
}

/// The parameters of a requested election with an id.
pub open spec fn requested_params(req: &CreateElectionRequest, id: Seq<char>) -> ElectionView {
    ElectionView {
        version: ARTIFACT_VERSION,
        object_type: "aggios_election_params"@,
        curve: EPA_BACKEND_ID@,
        election_id: id,
        title: match optional_text(req.title) {
            Some(t) => if t.len() > 0 {
                t
            } else {
                template_title_text(req.template)
            },
            None => template_title_text(req.template),
        },
        description: match optional_text(req.description) {
            Some(t) => t,
            None => Seq::empty(),
        },
        candidates: requested_candidates(req),
        aggregators: if req.aggregators@.len() == 0 {
            seq!["A1"@, "A2"@, "A3"@]
        } else {
            texts(req.aggregators@)
        },
        max_voters: match req.max_voters {
            Some(n) => n,
            None => 10_000,
        },
        srs_ref: "epa-kzg10-bls12-381;deterministic-test-rng;n=per-aggregator"@,
        phase: ElectionPhase::Setup,
    }
}

/// The id of the next election.
pub open spec fn next_election_id(v: DemoView, now: u64) -> Seq<char> {
    id_text("elec"@, now as int, v.counter + 1)
}

/// Why an election is not created.
pub open spec fn creation_refusal(v: DemoView, req: &CreateElectionRequest, now: u64) -> Option<
    (u16, Seq<char>),
> {
    if req.template == ElectionTemplate::Custom && req.custom_options@.len() < 2 {
        Some((400u16, "custom election needs at least 2 options"@))
    } else if req.template == ElectionTemplate::Custom && req.custom_options@.len() + 3 > usize::MAX
        / 2 + 1 {
        Some((422u16, "too many options"@))
    } else if v.counter == u64::MAX {
        Some((422u16, "no election ids are left"@))
    } else if !labels_derivable(next_election_id(v, now), requested_candidates(req)) {
        Some((422u16, "labels cannot be derived"@))
    } else {
        None
    }
}

/// A new election.
pub open spec fn new_election(p: ElectionView, board: Seq<EventView>) -> ElectionStateView {
    ElectionStateView {
        params: p,
        labels: election_labels(p.election_id, p.candidates),
        voters: Map::empty(),
        voter_order: Seq::empty(),
        aggregators: Map::new(|a: Seq<char>| p.aggregators.contains(a), |a: Seq<char>| fresh_aggregator()),
        bulletin: board,
        next_voter: 0,
    }
}

/// The state with a new election.
pub open spec fn created(v: DemoView, w: DemoView, req: &CreateElectionRequest, now: u64) -> bool {
    let id = next_election_id(v, now);
    let p = requested_params(req, id);
    let board = w.elections[id].bulletin;
    &&& !v.elections.dom().contains(id)
    &&& w == (DemoView {
        elections: v.elections.insert(id, new_election(p, board)),
        election_order: v.election_order.push(id),
        counter: (v.counter + 1) as u64,
    })
    &&& extends(Seq::empty(), board, now, seq![Content::Created { election: p }])
}

proof fn lemma_new_election_ok(p: ElectionView, board: Seq<EventView>)
    requires
        partitions_of(p) + 1 <= usize::MAX / 2 + 1,
        forall|i: int| 0 <= i < board.len() ==> (#[trigger] board[i]).seq == i,
    ensures
        election_ok(p.election_id, new_election(p, board)),
        all_posts(new_election(p, board)) == Seq::<TallyView>::empty(),
{
    let s = new_election(p, board);
    assert(voter_names(0) =~= Seq::<Seq<char>>::empty());
    assert forall|a: Seq<char>| #[trigger] s.aggregators.dom().contains(a) implies aggregator_ok(
        s,
        a,
    ) by {
        assert(s.aggregators[a] == fresh_aggregator());
    }
    lemma_no_posts(s, p.aggregators.len() as int);
}

proof fn lemma_no_posts(s: ElectionStateView, count: int)
    requires
        0 <= count <= s.params.aggregators.len(),
        forall|a: Seq<char>| #[trigger]
            s.params.aggregators.contains(a) ==> s.aggregators[a].tally_post is None,
    ensures
        posts_of(s, count) == Seq::<TallyView>::empty(),
    decreases count,
{
    if count > 0 {
        lemma_no_posts(s, count - 1);
        assert(s.params.aggregators.contains(s.params.aggregators[count - 1]));
    }
}

/// The id of the next election is new.
proof fn lemma_fresh_id(v: DemoView, now: u64)
    requires
        demo_ok(v),
    ensures
        !v.elections.dom().contains(next_election_id(v, now)),
{
    let id = next_election_id(v, now);
    if v.elections.dom().contains(id) {
        let (x, c) = choose|x: int, c: int|
            1 <= c <= v.counter && id == #[trigger] id_text("elec"@, x, c);
        law_ids_distinct("elec"@, now as int, v.counter + 1, x, c);
    }
}

proof fn lemma_created_ok(v: DemoView, id: Seq<char>, t: ElectionStateView, now: u64)
    requires
        demo_ok(v),
        v.counter < u64::MAX,
        id == next_election_id(v, now),
        election_ok(id, t),
    ensures
        demo_ok(
            (DemoView {
                elections: v.elections.insert(id, t),
                election_order: v.election_order.push(id),
                counter: (v.counter + 1) as u64,
            }),
        ),
{
    lemma_fresh_id(v, now);
    let w = DemoView {
        elections: v.elections.insert(id, t),
        election_order: v.election_order.push(id),
        counter: (v.counter + 1) as u64,
    };
    let (a, b) = (v.election_order, w.election_order);
    assert(!a.contains(id)) by {
        assert(v.elections.dom().contains(id) <==> a.contains(id));
    }
    assert forall|e: Seq<char>| #[trigger] w.elections.dom().contains(e) implies election_ok(
        e,
        w.elections[e],
    ) by {
        if e != id {
            assert(v.elections.dom().contains(e));
        }
    }
    assert forall|e: Seq<char>| #[trigger] w.elections.dom().contains(e) <==> b.contains(e) by {
        assert(v.elections.dom().contains(e) <==> a.contains(e));
        assert(b[a.len() as int] == id);
        if a.contains(e) {
            let i = choose|i: int| 0 <= i < a.len() && a[i] == e;
            assert(b[i] == e);
        }
    }
    assert forall|i: int, j: int| 0 <= i < b.len() && 0 <= j < b.len() && i != j implies b[i]
        != b[j] by {
        if i < a.len() && j < a.len() {
            assert(a[i] != a[j]);
        } else if i < a.len() {
            assert(a.contains(a[i]));
        } else {
            assert(a.contains(a[j]));
        }
    }
    assert forall|e: Seq<char>| #[trigger] w.elections.dom().contains(e) implies exists|
        x: int,
        c: int,
    |
        1 <= c <= w.counter && e == #[trigger] id_text("elec"@, x, c) by {
        if e == id {
            assert(e == id_text("elec"@, now as int, v.counter + 1));
        } else {
            assert(v.elections.dom().contains(e));
            let (x, c) = choose|x: int, c: int|
                1 <= c <= v.counter && e == #[trigger] id_text("elec"@, x, c);
            assert(e == id_text("elec"@, x, c));
        }
    }
}

/// The candidates of a requested election.
fn make_candidates(req: &CreateElectionRequest) -> (r: Vec<Candidate>)
    ensures
        candidate_texts(r@) == requested_candidates(req),
{
    match req.template {
        ElectionTemplate::Custom => {
            let ghost all = texts(req.custom_options@);
            let mut r: Vec<Candidate> = Vec::new();
            let mut i: usize = 0;
            proof {
                assert(candidate_texts(r@) =~= custom_texts(all).take(0));
            }
            while i < req.custom_options.len()
                invariant
                    i <= req.custom_options.len(),
                    all == texts(req.custom_options@),
                    candidate_texts(r@) == custom_texts(all).take(i as int),
                decreases req.custom_options.len() - i,
            {
                let ghost before = candidate_texts(r@);
                r.push(
                    Candidate {
                        id: cat2("opt-", decimal_text(i as u64).as_str()),
                        name: req.custom_options[i].clone(),
                    },
                );
                proof {
                    let c = ("opt-"@ + decimal(i as int), all[i as int]);
                    assert(candidate_texts(r@) =~= before.push(c));
                    assert(custom_texts(all).take(i + 1) =~= custom_texts(all).take(
                        i as int,
                    ).push(c));
                }
                i += 1;
            }
            proof {
                assert(custom_texts(all).take(all.len() as int) =~= custom_texts(all));
            }
            r
        },
        t => template_candidates(t),
    }
}

/// The parameters of a requested election.
fn make_params(req: &CreateElectionRequest, id: &String) -> (r: ElectionParams)
    ensures
        r@ == requested_params(req, id@),
{
    let candidates = make_candidates(req);
    let aggregators = if req.aggregators.len() == 0 {
        default_aggregators()
    } else {
        clone_texts(&req.aggregators)
    };
    let default_title = String::from_str(template_title(req.template));
    let title = match &req.title {
        Some(t) => {
            if t.as_str().is_empty() {
                default_title
            } else {
                t.clone()
            }
        },
        None => default_title,
    };
    let description = match &req.description {
        Some(t) => t.clone(),
        None => String::new(),
    };
    let max_voters: usize = match req.max_voters {
        Some(n) => n,
        None => 10_000,
    };
    let r = ElectionParams::new(
        id.clone(),
        title,
        description,
        candidates,
        aggregators,
        max_voters,
    );
    proof {
        assert(r@ =~= requested_params(req, id@));
    }
    r
}

/// Fresh aggregators for a list of ids.
fn fresh_aggregators(ids: &Vec<String>) -> (r: StringMap<AggregatorState>)
    ensures
        r.wf(),
        viewed(r@) == Map::new(
            |a: Seq<char>| texts(ids@).contains(a),
            |a: Seq<char>| fresh_aggregator(),
        ),
{
    let ghost all = texts(ids@);
    let mut r: StringMap<AggregatorState> = StringMap::new();
    let mut i: usize = 0;
    while i < ids.len()
        invariant
            i <= ids.len(),
            all == texts(ids@),
            r.wf(),
            forall|a: Seq<char>| #[trigger]
                r@.dom().contains(a) <==> all.take(i as int).contains(a),
            forall|a: Seq<char>| #[trigger]
                r@.dom().contains(a) ==> r@[a]@ == fresh_aggregator(),
        decreases ids.len() - i,
    {
        let ghost before = r@;
        r.insert(ids[i].clone(), AggregatorState::default());
        proof {
            let x = all[i as int];
            let (p, q) = (all.take(i as int), all.take(i + 1));
            assert(q =~= p.push(x));
            assert forall|a: Seq<char>| #[trigger] r@.dom().contains(a) <==> q.contains(a) by {
                assert(q[p.len() as int] == x);
                if p.contains(a) {
                    let j = choose|j: int| 0 <= j < p.len() && p[j] == a;
                    assert(q[j] == a);
                }
                assert(before.dom().contains(a) <==> p.contains(a));
            }
            assert forall|a: Seq<char>| #[trigger] r@.dom().contains(a) implies r@[a]@
                == fresh_aggregator() by {
                if a != x {
                    assert(before.dom().contains(a));
                }
            }
        }
        i += 1;
    }
    proof {
        assert(all.take(all.len() as int) =~= all);
        assert(viewed(r@) =~= Map::new(
            |a: Seq<char>| all.contains(a),
            |a: Seq<char>| fresh_aggregator(),
        ));
    }
    r
}

impl DemoState {
    /// What holds of every state.
    pub closed spec fn wf(&self) -> bool {
        &&& self.elections.wf()
        &&& forall|e: Seq<char>| #[trigger]
            self.elections@.dom().contains(e) ==> self.elections@[e].maps_ok()
        &&& demo_ok(self@)
    }

    /// What holds of every state, in its view.
    pub proof fn lemma_wf(&self)
        requires
            self.wf(),
        ensures
            demo_ok(self@),
    {
    }

    /// An id that no earlier one has.
    fn next_id(&mut self, prefix: &str, now_ms: u64) -> (id: String)
        requires
            old(self).counter < u64::MAX,
        ensures
            id@ == id_text(prefix@, now_ms as int, old(self).counter + 1),
            final(self).counter == old(self).counter + 1,
            final(self).elections == old(self).elections,
            final(self).election_order == old(self).election_order,
    {
        self.counter = self.counter + 1;
        let mut id = cat2(prefix, "-");
        push_decimal(&mut id, (now_ms % 1_000_000) as u128);
        id.append("-");
        push_hexadecimal(&mut id, self.counter, 4);
        id
    }

    /// Creates an election and shows it.
    pub fn create_election(&mut self, req: CreateElectionRequest, now_ms: u64) -> (r: DemoResult<
        ElectionSummary,
    >)
        requires
            old(self).wf(),
        ensures
            final(self).wf(),
            refuses(r, creation_refusal(old(self)@, &req, now_ms)),
            r is Err ==> final(self)@ == old(self)@,
            r matches Ok(x) ==> created(old(self)@, final(self)@, &req, now_ms) && summarizes(
                final(self)@.elections[next_election_id(old(self)@, now_ms)],
                &x,
            ),
    {
        let ghost v = self@;
        let custom = match req.template {
            ElectionTemplate::Custom => true,
            _ => false,
        };
        if custom && req.custom_options.len() < 2 {
            return Err(DemoError::bad("custom election needs at least 2 options"));
        }
        if custom && req.custom_options.len() > usize::MAX / 2 - 2 {
            return Err(DemoError::unprocessable("too many options"));
        }
        if self.counter == u64::MAX {
            return Err(DemoError::unprocessable("no election ids are left"));
        }
        let id = self.next_id("elec", now_ms);
        let params = make_params(&req, &id);
        let pairs = params.candidate_pairs();
        let labels = match try_derive_election_labels(id.as_str(), &pairs) {
            Some(labels) => labels,
            None => {
                self.counter = self.counter - 1;
                return Err(DemoError::unprocessable("labels cannot be derived"));
            },
        };
        let ghost p = params@;
        let shown = params.clone();
        let aggregators = fresh_aggregators(&params.aggregators);
        let mut election = ElectionState {
            params,
            labels,
            voters: StringMap::new(),
            voter_order: Vec::new(),
            aggregators,
            bulletin: Vec::new(),
            next_voter: 0,
        };
        let ghost content = Content::Created { election: p };
        proof {
            assert(event_views(election.bulletin@) =~= Seq::<EventView>::empty());
            assert(texts(election.voter_order@) =~= Seq::<Seq<char>>::empty());
            assert(viewed(election.voters@) =~= Map::<Seq<char>, DemoVoterView>::empty());
            assert(election@ =~= new_election(p, Seq::empty()));
        }
        election.post_bulletin(
            now_ms,
            "election_created",
            Payload::ElectionCreated { election: shown },
            Ghost(content),
        );
        let ghost t = election@;
        proof {
            assert(t =~= new_election(p, t.bulletin));
            crate::demo_election::lemma_extends_numbered(
                Seq::empty(),
                t.bulletin,
                now_ms,
                seq![content],
            );
            lemma_new_election_ok(p, t.bulletin);
            lemma_showable(id@, &election);
            lemma_fresh_id(v, now_ms);
            lemma_created_ok(v, id@, t, now_ms);
            lemma_viewed_insert(self.elections@, id@, election);
        }
        let summary = election.summary();
        let ghost order = texts(self.election_order@);
        self.elections.insert(id.clone(), election);
        self.election_order.push(id);
        proof {
            assert(texts(self.election_order@) =~= order.push(id@));
            assert(self@.elections[id@] == t);
        }
        Ok(summary)
    }
}

// ---- requests on one election --------------------------------------------------

/// At most one election was changed.
pub open spec fn only_changed(v: DemoView, w: DemoView, eid: Seq<char>) -> bool {
    &&& v.elections.dom().contains(eid)
    &&& w == changed(v, eid, w.elections[eid])
}

/// An election was replaced by a sound one.
proof fn lemma_replaced(a: DemoState, b: DemoState, eid: Seq<char>, e: ElectionState)
    requires
        a.wf(),
        a.elections@.dom().contains(eid),
        b.elections.wf(),
        b.elections@ == a.elections@.insert(eid, e),
        b.election_order == a.election_order,
        b.counter == a.counter,
        e.maps_ok(),
        election_ok(eid, e@),
    ensures
        b.wf(),
        b@ == changed(a@, eid, e@),
        only_changed(a@, b@, eid),
        e@ == a@.elections[eid] ==> b@ == a@,
{
    lemma_viewed_insert(a.elections@, eid, e);
    lemma_changed_ok(a@, eid, e@);
    assert(b@ =~= changed(a@, eid, e@));
    if e@ == a@.elections[eid] {
        assert(b@.elections =~= a@.elections);
    }
}

/// Why the phase is not changed.
pub open spec fn phase_refusal(v: DemoView, eid: Seq<char>, phase: Seq<char>) -> Option<
    (u16, Seq<char>),
> {
    if phase_named(phase) is None {
        Some((400u16, "unknown phase "@ + phase))
    } else {
        either(no_election(v, eid), counting_refusal(v.elections[eid]))
    }
}

/// An election went to a phase.
pub open spec fn phase_entered(
    s: ElectionStateView,
    t: ElectionStateView,
    phase: ElectionPhase,
    now: u64,
) -> bool {
    &&& t == but_board(in_phase(s, phase), t.bulletin)
    &&& extends(s.bulletin, t.bulletin, now, seq![Content::Phase { phase }])
}

/// A voter was registered with an aggregator.
pub open spec fn registers(
    s: ElectionStateView,
    t: ElectionStateView,
    vid: Seq<char>,
    aid: Seq<char>,
    now: u64,
) -> bool {
    &&& t == but_board(with_registration(s, vid, aid), t.bulletin)
    &&& extends(s.bulletin, t.bulletin, now, seq![registered_content(s, vid, aid)])
}

proof fn lemma_same_posts(s: ElectionStateView, t: ElectionStateView, count: int)
    requires
        s.aggregators == t.aggregators,
        s.params.aggregators == t.params.aggregators,
    ensures
        posts_of(s, count) == posts_of(t, count),
    decreases count,
{
    if count > 0 {
        lemma_same_posts(s, t, count - 1);
    }
}

/// Why voters are not created.
pub open spec fn voters_refusal(v: DemoView, eid: Seq<char>, count: usize) -> Option<
    (u16, Seq<char>),
> {
    if count == 0 || count > 500 {
        Some((400u16, "count must be between 1 and 500 (demo)"@))
    } else if !v.elections.dom().contains(eid) {
        Some((404u16, "election not found"@))
    } else if v.elections[eid].next_voter + count > u64::MAX {
        Some((422u16, "no voter ids are left"@))
    } else {
        None
    }
}

/// Why a voter gets no answer.
pub open spec fn receipt_refusal(s: ElectionStateView, vid: Seq<char>) -> Option<(u16, Seq<char>)> {
    if s.voters.dom().contains(vid) {
        None
    } else {
        Some((404u16, "voter not found"@))
    }
}

/// Why no proof is given.
pub open spec fn proof_refusal(s: ElectionStateView, aid: Seq<char>) -> Option<(u16, Seq<char>)> {
    if !s.aggregators.dom().contains(aid) {
        Some((404u16, "aggregator not found"@))
    } else if s.aggregators[aid].tally_post is None {
        Some((404u16, "no proof yet"@))
    } else {
        None
    }
}

/// One line of the list of elections.
#[derive(Debug)]
pub struct ElectionListing {
    pub election_id: String,
    pub title: String,
    pub phase: String,
    pub candidates: usize,
    pub aggregators: usize,
    pub voters: usize,
}

/// The line of an election.
pub open spec fn lists(s: ElectionStateView, r: &ElectionListing) -> bool {
    &&& r.election_id@ == s.params.election_id
    &&& r.title@ == s.params.title
    &&& r.phase@ == phase_text(s.params.phase)
    &&& r.candidates == s.params.candidates.len()
    &&& r.aggregators == s.params.aggregators.len()
    &&& r.voters == s.voter_order.len()
}

/// Why no voter can have a receipt.
pub const RECEIPT_REASON: &'static str =
    "receipt support requires an EPA opening API; the existing EPA implementation only exposes blinded partition commitments with no opening hooks";

/// Whether a voter can have a receipt.
#[derive(Debug)]
pub struct ReceiptResponse {
    pub available: bool,
    pub reason: String,
}

impl DemoState {
    /// The elections in the order in which they were created.
    pub fn list_elections(&self) -> (r: Vec<ElectionListing>)
        requires
            self.wf(),
        ensures
            r@.len() == self@.election_order.len(),
            forall|i: int|
                0 <= i < r@.len() ==> lists(
                    self@.elections[self@.election_order[i]],
                    #[trigger] &r@[i],
                ),
    {
        let ghost v = self@;
        let mut r: Vec<ElectionListing> = Vec::new();
        let mut i: usize = 0;
        while i < self.election_order.len()
            invariant
                i <= self.election_order.len(),
                self.wf(),
                v == self@,
                r@.len() == i,
                forall|k: int|
                    0 <= k < i ==> lists(v.elections[v.election_order[k]], #[trigger] &r@[k]),
            decreases self.election_order.len() - i,
        {
            let id = &self.election_order[i];
            proof {
                assert(v.election_order[i as int] == id@);
                assert(v.election_order.contains(id@));
                assert(v.elections.dom().contains(id@));
            }
            if let Some(e) = self.elections.get(id.as_str()) {
                proof {
                    assert(e@ == v.elections[id@]);
                    assert(e@.voter_order.len() == e.voter_order@.len());
                }
                r.push(
                    ElectionListing {
                        election_id: e.params.election_id.clone(),
                        title: e.params.title.clone(),
                        phase: String::from_str(phase_str(e.params.phase)),
                        candidates: e.params.candidates.len(),
                        aggregators: e.params.aggregators.len(),
                        voters: e.voters.len(),
                    },
                );
            }
            i += 1;
        }
        r
    }

    /// What is shown of an election.
    pub fn get_election(&self, eid: &str) -> (r: DemoResult<ElectionSummary>)
        requires
            self.wf(),
        ensures
            refuses(
                r,
                either(no_election(self@, eid@), counting_refusal(self@.elections[eid@])),
            ),
            r matches Ok(x) ==> summarizes(self@.elections[eid@], &x),
    {
        match self.elections.get(eid) {
            Some(e) => {
                proof {
                    assert(self@.elections.dom().contains(eid@));
                    lemma_showable(eid@, e);
                }
                if !e.counts_fit() {
                    return Err(DemoError::unprocessable("vote counts are too large"));
                }
                Ok(e.summary())
            },
            None => Err(DemoError::not_found("election not found")),
        }
    }

    /// Changes the phase of an election and shows it.
    pub fn set_phase(&mut self, eid: &str, phase: &str, now_ms: u64) -> (r: DemoResult<
        ElectionSummary,
    >)
        requires
            old(self).wf(),
        ensures
            final(self).wf(),
            refuses(r, phase_refusal(old(self)@, eid@, phase@)),
            r is Err ==> final(self)@ == old(self)@,
            r matches Ok(x) ==> only_changed(old(self)@, final(self)@, eid@) && phase_entered(
                old(self)@.elections[eid@],
                final(self)@.elections[eid@],
                phase_named(phase@)->0,
                now_ms,
            ) && summarizes(final(self)@.elections[eid@], &x),
    {
        let phase = match parse_phase(phase) {
            Some(p) => p,
            None => {
                let message = cat2("unknown phase ", phase);
                return Err(DemoError::bad(message.as_str()));
            },
        };
        let ghost before = *self;
        let r = match self.elections.get_mut(eid) {
            Some(e) => {
                proof {
                    assert(before@.elections.dom().contains(eid@));
                    lemma_showable(eid@, e);
                }
                if e.counts_fit() {
                    let ghost s = e@;
                    e.enter_phase(phase, now_ms, Ghost(eid@));
                    proof {
                        lemma_showable(eid@, e);
                        lemma_same_posts(s, e@, s.params.aggregators.len() as int);
                    }
                    Ok(e.summary())
                } else {
                    Err(DemoError::unprocessable("vote counts are too large"))
                }
            },
            None => {
                return Err(DemoError::not_found("election not found"));
            },
        };
        proof {
            lemma_replaced(before, *self, eid@, self.elections@[eid@]);
        }
        r
    }

    /// Creates voters with fresh keys, and gives their ids.
    pub fn demo_create_voters(
        &mut self,
        eid: &str,
        count: usize,
        rng: &mut rand::rngs::StdRng,
    ) -> (r: DemoResult<Vec<String>>)
        requires
            old(self).wf(),
        ensures
            final(self).wf(),
            refuses(r, voters_refusal(old(self)@, eid@, count)),
            r is Err ==> final(self)@ == old(self)@,
            r matches Ok(created) ==> only_changed(old(self)@, final(self)@, eid@) && adds_voters(
                old(self)@.elections[eid@],
                final(self)@.elections[eid@],
                count as int,
                *old(rng),
            ) && texts(created@) == voter_names(
                old(self)@.elections[eid@].next_voter + count,
            ).skip(old(self)@.elections[eid@].next_voter as int),
    {
        if count == 0 || count > 500 {
            return Err(DemoError::bad("count must be between 1 and 500 (demo)"));
        }
        let ghost before = *self;
        let r = match self.elections.get_mut(eid) {
            Some(e) => {
                proof {
                    assert(before@.elections.dom().contains(eid@));
                }
                if e.next_voter > u64::MAX - count as u64 {
                    Err(DemoError::unprocessable("no voter ids are left"))
                } else {
                    Ok(e.add_voters(count, rng, Ghost(eid@)))
                }
            },
            None => {
                return Err(DemoError::not_found("election not found"));
            },
        };
        proof {
            lemma_replaced(before, *self, eid@, self.elections@[eid@]);
        }
        r
    }

    /// Registers a voter with an aggregator.
    pub fn register_voter(
        &mut self,
        eid: &str,
        voter_id: &str,
        aggregator_id: &str,
        now_ms: u64,
    ) -> (r: DemoResult<()>)
        requires
            old(self).wf(),
        ensures
            final(self).wf(),
            refuses(
                r,
                either(
                    no_election(old(self)@, eid@),
                    register_refusal(old(self)@.elections[eid@], voter_id@, aggregator_id@),
                ),
            ),
            r is Err ==> final(self)@ == old(self)@,
            r is Ok ==> only_changed(old(self)@, final(self)@, eid@) && registers(
                old(self)@.elections[eid@],
                final(self)@.elections[eid@],
                voter_id@,
                aggregator_id@,
                now_ms,
            ),
    {
        let ghost before = *self;
        let r = match self.elections.get_mut(eid) {
            Some(e) => {
                proof {
                    assert(before@.elections.dom().contains(eid@));
                }
                e.register(voter_id, aggregator_id, now_ms, Ghost(eid@))
            },
            None => {
                return Err(DemoError::not_found("election not found"));
            },
        };
        proof {
            lemma_replaced(before, *self, eid@, self.elections@[eid@]);
        }
        r
    }

    /// Sends a vote to the voter's aggregator. It is not published.
    pub fn cast_vote(&mut self, eid: &str, voter_id: &str, candidate_id: &str) -> (r: DemoResult<
        (),
    >)
        requires
            old(self).wf(),
        ensures
            final(self).wf(),
            refuses(
                r,
                either(
                    no_election(old(self)@, eid@),
                    vote_refusal(old(self)@.elections[eid@], voter_id@, candidate_id@),
                ),
            ),
            r is Err ==> final(self)@ == old(self)@,
            r is Ok ==> final(self)@ == changed(
                old(self)@,
                eid@,
                with_vote(old(self)@.elections[eid@], voter_id@, candidate_id@),
            ),
    {
        let ghost before = *self;
        let r = match self.elections.get_mut(eid) {
            Some(e) => {
                proof {
                    assert(before@.elections.dom().contains(eid@));
                }
                e.vote(voter_id, candidate_id, Ghost(eid@))
            },
            None => {
                return Err(DemoError::not_found("election not found"));
            },
        };
        proof {
            lemma_replaced(before, *self, eid@, self.elections@[eid@]);
        }
        r
    }

    /// Whether a voter can have a receipt: commitments are not opened.
    pub fn voter_receipt(&self, eid: &str, voter_id: &str) -> (r: DemoResult<ReceiptResponse>)
        requires
            self.wf(),
        ensures
            refuses(
                r,
                either(
                    no_election(self@, eid@),
                    receipt_refusal(self@.elections[eid@], voter_id@),
                ),
            ),
            r matches Ok(x) ==> !x.available && x.reason@ == RECEIPT_REASON@,
    {
        match self.elections.get(eid) {
            Some(e) => {
                proof {
                    assert(self@.elections.dom().contains(eid@));
                }
                if !e.voters.contains_key(voter_id) {
                    return Err(DemoError::not_found("voter not found"));
                }
                Ok(ReceiptResponse { available: false, reason: String::from_str(RECEIPT_REASON) })
            },
            None => Err(DemoError::not_found("election not found")),
        }
    }

    /// Finalizes the registration of an aggregator and checks what it posts.
    pub fn finalize_aggregator(
        &mut self,
        eid: &str,
        aid: &str,
        now_ms: u64,
        rng: &mut rand::rngs::StdRng,
    ) -> (r: DemoResult<FinalizeResponse>)
        requires
            old(self).wf(),
        ensures
            final(self).wf(),
            refuses(
                r,
                either(
                    no_election(old(self)@, eid@),
                    finalize_refusal(old(self)@.elections[eid@], aid@),
                ),
            ),
            r is Err ==> final(self)@ == old(self)@,
            r matches Ok(x) ==> only_changed(old(self)@, final(self)@, eid@) && x.ok
                && x.errors@.len() == 0 && exists|post: RegistrationView| #[trigger]
                finalizes(
                    old(self)@.elections[eid@],
                    final(self)@.elections[eid@],
                    aid@,
                    now_ms,
                    *old(rng),
                    post,
                ),
    {
        let ghost before = *self;
        let r = match self.elections.get_mut(eid) {
            Some(e) => {
                proof {
                    assert(before@.elections.dom().contains(eid@));
                }
                e.finalize(aid, now_ms, rng, Ghost(eid@))
            },
            None => {
                return Err(DemoError::not_found("election not found"));
            },
        };
        proof {
            lemma_replaced(before, *self, eid@, self.elections@[eid@]);
        }
        r
    }

    /// Proves the tally of an aggregator. A zero among the random blinding
    /// factors is refused.
    pub fn prove_aggregator(&mut self, eid: &str, aid: &str, now_ms: u64) -> (r: DemoResult<
        ProveResponse,
    >)
        requires
            old(self).wf(),
        ensures
            final(self).wf(),
            match either(
                no_election(old(self)@, eid@),
                prove_refusal(old(self)@.elections[eid@], aid@),
            ) {
                Some(e) => r matches Err(x) && x@ == e,
                None => match r {
                    Ok(x) => only_changed(old(self)@, final(self)@, eid@) && tally_proved(
                        old(self)@.elections[eid@],
                        final(self)@.elections[eid@],
                        aid@,
                        now_ms,
                        &x,
                    ),
                    Err(e) => unlucky(old(self)@.elections[eid@], aid@, e@),
                },
            },
            r is Err ==> final(self)@ == old(self)@,
    {
        let ghost before = *self;
        let r = match self.elections.get_mut(eid) {
            Some(e) => {
                proof {
                    assert(before@.elections.dom().contains(eid@));
                }
                e.prove_tally(aid, now_ms, Ghost(eid@))
            },
            None => {
                return Err(DemoError::not_found("election not found"));
            },
        };
        proof {
            lemma_replaced(before, *self, eid@, self.elections@[eid@]);
        }
        r
    }

    /// Verifies the tally of an aggregator.
    pub fn verify_aggregator(&mut self, eid: &str, aid: &str, now_ms: u64) -> (r: DemoResult<
        VerifyResponse,
    >)
        requires
            old(self).wf(),
        ensures
            final(self).wf(),
            refuses(
                r,
                either(
                    no_election(old(self)@, eid@),
                    verify_refusal(old(self)@.elections[eid@], aid@),
                ),
            ),
            r is Err ==> final(self)@ == old(self)@,
            r matches Ok(x) ==> only_changed(old(self)@, final(self)@, eid@) && exists|
                v: VerificationView,
            | #[trigger]
                verifies(
                    old(self)@.elections[eid@],
                    final(self)@.elections[eid@],
                    aid@,
                    now_ms,
                    v,
                ) && x.valid == v.valid && texts(x.errors@) == v.errors && x.verification_time_ms
                    == short_time(v.verification_time_ms),
    {
        let ghost before = *self;
        let r = match self.elections.get_mut(eid) {
            Some(e) => {
                proof {
                    assert(before@.elections.dom().contains(eid@));
                }
                e.verify_tally(aid, now_ms, Ghost(eid@))
            },
            None => {
                return Err(DemoError::not_found("election not found"));
            },
        };
        proof {
            lemma_replaced(before, *self, eid@, self.elections@[eid@]);
        }
        r
    }

    /// The tally and proof of an aggregator, as published.
    pub fn aggregator_proof_json(&self, eid: &str, aid: &str) -> (r: DemoResult<TallyPostArtifact>)
        requires
            self.wf(),
        ensures
            refuses(
                r,
                either(no_election(self@, eid@), proof_refusal(self@.elections[eid@], aid@)),
            ),
            r matches Ok(a) ==> tally_texts(
                &a,
                self@.elections[eid@].aggregators[aid@].tally_post->0,
            ),
    {
        let e = match self.elections.get(eid) {
            Some(e) => e,
            None => {
                return Err(DemoError::not_found("election not found"));
            },
        };
        proof {
            assert(self@.elections.dom().contains(eid@));
        }
        let a = match e.aggregators.get(aid) {
            Some(a) => a,
            None => {
                return Err(DemoError::not_found("aggregator not found"));
            },
        };
        match &a.tally_post {
            Some(post) => Ok(TallyPostArtifact::from_post(post)),
            None => Err(DemoError::not_found("no proof yet")),
        }
    }

    /// Verifies the registrations and tallies of all aggregators, and counts
    /// the votes of those that are valid.
    pub fn verify_all(&mut self, eid: &str, now_ms: u64) -> (r: DemoResult<VerifyAllResponse>)
        requires
            old(self).wf(),
        ensures
            final(self).wf(),
            refuses(
                r,
                either(
                    no_election(old(self)@, eid@),
                    counting_refusal(old(self)@.elections[eid@]),
                ),
            ),
            r is Err ==> final(self)@ == old(self)@,
            r matches Ok(x) ==> only_changed(old(self)@, final(self)@, eid@)
                && verified_everything(
                old(self)@.elections[eid@],
                final(self)@.elections[eid@],
                now_ms,
                &x,
            ),
    {
        let ghost before = *self;
        let r = match self.elections.get_mut(eid) {
            Some(e) => {
                proof {
                    assert(before@.elections.dom().contains(eid@));
                }
                e.verify_everything(now_ms, Ghost(eid@))
            },
            None => {
                return Err(DemoError::not_found("election not found"));
            },
        };
        proof {
            lemma_replaced(before, *self, eid@, self.elections@[eid@]);
        }
        r
    }

    /// The events of an election, in order.
    pub fn bulletin_board(&self, eid: &str) -> (r: DemoResult<&Vec<BulletinEvent>>)
        requires
            self.wf(),
        ensures
            refuses(r, no_election(self@, eid@)),
            r matches Ok(events) ==> event_views(events@) == self@.elections[eid@].bulletin,
    {
        match self.elections.get(eid) {
            Some(e) => {
                proof {
                    assert(self@.elections.dom().contains(eid@));
                }
                Ok(&e.bulletin)
            },
            None => Err(DemoError::not_found("election not found")),
        }
    }

    /// All that is public of an election.
    pub fn public_artifact(&self, eid: &str) -> (r: DemoResult<PublicElectionArtifact>)
        requires
            self.wf(),
        ensures
            refuses(
                r,
                either(no_election(self@, eid@), counting_refusal(self@.elections[eid@])),
            ),
            r matches Ok(a) ==> publishes(self@.elections[eid@], &a),
    {
        match self.elections.get(eid) {
            Some(e) => {
                proof {
                    assert(self@.elections.dom().contains(eid@));
                }
                e.artifact(Ghost(eid@))
            },
            None => Err(DemoError::not_found("election not found")),
        }
    }
}

impl Default for DemoState {
    fn default() -> (d: DemoState)
        ensures
            d.wf(),
            d@ == empty_demo(),
    {
        let d = DemoState {
            elections: StringMap::new(),
            election_order: Vec::new(),
            counter: 0,
        };
        proof {
            assert(texts(d.election_order@) =~= Seq::<Seq<char>>::empty());
            assert(viewed(d.elections@) =~= Map::<Seq<char>, ElectionStateView>::empty());
            assert(d@ =~= empty_demo());
            assert(demo_ok(d@));
        }
        d
    }
}

} // verus!
