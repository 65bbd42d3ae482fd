//! What can be done in one election of the demonstration.

use vstd::prelude::*;

use crate::artifacts::{
    g1_hex, g1_to_hex, g2_hex, g2_to_hex, registration_texts, short_time, tally_texts,
    VerificationArtifact,
};
use crate::bls::{delegation_hashable, delegation_log, try_delegation_message_hash};

use crate::demo_state::{
    aggregator_ok, election_ok, listed_voter, lemma_voter_name, option_ids, refuses, voter_name,
    voter_names, AggregatorState, AggregatorView, BulletinEvent, DemoError, DemoResult, DemoVoter,
    DemoVoterView, ElectionState, ElectionStateView, EventView, Payload,
};
use crate::demo_summary::{phase_str, phase_text};
use crate::election::{ElectionPhase, ElectionView};
use crate::error::error_text;

use crate::generator::{later, lemma_later, lemma_upcoming, upcoming};
use crate::modular::md;
use crate::registration::{
    accept_error, accept_registration, voter_views, RegistrationView, VoterKeys, VoterView,
};
use crate::string_map::lemma_viewed_insert;
use crate::tally::{TallyView, VerificationView};
use crate::text::{cat2, decimal_text, same_text, texts};

verus! {

// ---- the bulletin board -----------------------------------------------------

/// What an event is about.
pub enum Content {
    Created { election: ElectionView },
    Phase { phase: ElectionPhase },
    Registered { voter_id: Seq<char>, aggregator_id: Seq<char>, pk: int, pkv: int, sigma: int },
    Post { post: RegistrationView },
    Validated { aggregator_id: Seq<char>, valid: bool, errors: Seq<Seq<char>> },
    Tally { tally: TallyView },
    Verified { election_id: Seq<char>, v: VerificationView },
    Global { totals: Map<Seq<char>, usize>, errors: Seq<Seq<char>> },
}

/// The kind of an event.
pub open spec fn kind_of(c: Content) -> Seq<char> {
    match c {
        Content::Created { .. } => "election_created"@,
        Content::Phase { .. } => "phase_changed"@,
        Content::Registered { .. } => "voter_registered"@,
        Content::Post { .. } => "registration_post"@,
        Content::Validated { .. } => "registration_validated"@,
        Content::Tally { .. } => "tally_post"@,
        Content::Verified { .. } => "verification_result"@,
        Content::Global { .. } => "global_tally"@,
    }
}

/// The texts of a verification.
pub open spec fn verification_texts(
    a: &VerificationArtifact,
    election_id: Seq<char>,
    v: VerificationView,
) -> bool {
    &&& a.version == crate::election::ARTIFACT_VERSION
    &&& a.object_type@ == "aggios_verification_result"@
    &&& a.curve@ == crate::epa_adapter::EPA_BACKEND_ID@
    &&& a.election_id@ == election_id
    &&& a.aggregator_id@ == v.aggregator_id
    &&& a.valid == v.valid
    &&& texts(a.errors@) == v.errors
    &&& a.verification_time_ms == short_time(v.verification_time_ms)
}

/// The payload of an event holds its content.
pub open spec fn holds(p: Payload, c: Content) -> bool {
    match c {
        Content::Created { election } => p matches Payload::ElectionCreated { election: e } && e@
            == election,
        Content::Phase { phase } => p matches Payload::PhaseChanged { phase: t } && t@
            == phase_text(phase),
        Content::Registered { voter_id, aggregator_id, pk, pkv, sigma } => {
            p matches Payload::VoterRegistered {
                voter_id: v,
                aggregator_id: a,
                pk: x,
                pkv: y,
                delegation_signature: z,
            } && v@ == voter_id && a@ == aggregator_id && x@ == g2_hex(pk) && y@ == g2_hex(pkv)
                && z@ == g1_hex(sigma)
        },
        Content::Post { post } => p matches Payload::RegistrationPost { post: a }
            && registration_texts(&a, post),
        Content::Validated { aggregator_id, valid, errors } => {
            p matches Payload::RegistrationValidated { aggregator_id: a, valid: b, errors: list }
                && a@ == aggregator_id && b == valid && texts(list@) == errors
        },
        Content::Tally { tally } => p matches Payload::TallyPost { tally: a } && tally_texts(
            &a,
            tally,
        ),
        Content::Verified { election_id, v } => p matches Payload::VerificationResult { result }
            && verification_texts(&result, election_id, v),
        Content::Global { totals, errors } => p matches Payload::GlobalTally {
            verified_global_tally,
            duplicate_voter_errors,
        } && verified_global_tally.wf() && verified_global_tally@ == totals && texts(
            duplicate_voter_errors@,
        ) == errors,
    }
}

/// The event with a number.
pub open spec fn event_is(ev: EventView, seq: int, now: u64, c: Content) -> bool {
    ev.seq == seq && ev.timestamp_unix_ms == now && ev.kind == kind_of(c) && holds(ev.payload, c)
}

/// A board with some events more.
pub open spec fn extends(
    before: Seq<EventView>,
    after: Seq<EventView>,
    now: u64,
    items: Seq<Content>,
) -> bool {
    &&& after.len() == before.len() + items.len()
    &&& forall|i: int| 0 <= i < before.len() ==> #[trigger] after[i] == before[i]
    &&& forall|j: int|
        0 <= j < items.len() ==> event_is(
            #[trigger] after[before.len() + j],
            before.len() + j,
            now,
            items[j],
        )
}

/// The state but for its bulletin board.
pub open spec fn but_board(s: ElectionStateView, board: Seq<EventView>) -> ElectionStateView {
    ElectionStateView { bulletin: board, ..s }
}

/// Extending the board twice.
pub proof fn lemma_extends_push(
    a: Seq<EventView>,
    b: Seq<EventView>,
    c: Seq<EventView>,
    now: u64,
    items: Seq<Content>,
    item: Content,
)
    requires
        extends(a, b, now, items),
        extends(b, c, now, seq![item]),
    ensures
        extends(a, c, now, items.push(item)),
{
    let all = items.push(item);
    assert forall|i: int| 0 <= i < a.len() implies #[trigger] c[i] == a[i] by {
        assert(c[i] == b[i]);
        assert(b[i] == a[i]);
    }
    assert forall|j: int| 0 <= j < all.len() implies event_is(
        #[trigger] c[a.len() + j],
        a.len() + j,
        now,
        all[j],
    ) by {
        if j < items.len() {
            assert(c[a.len() + j] == b[a.len() + j]);
        } else {
            assert(c[b.len() as int + 0] == c[a.len() + j]);
            assert(seq![item][0] == item);
        }
    }
}

/// More events leave the state sound.
pub proof fn lemma_board_ok(eid: Seq<char>, s: ElectionStateView, board: Seq<EventView>)
    requires
        election_ok(eid, s),
        forall|i: int| 0 <= i < board.len() ==> (#[trigger] board[i]).seq == i,
    ensures
        election_ok(eid, but_board(s, board)),
{
    let t = but_board(s, board);
    assert forall|a: Seq<char>| #[trigger] t.aggregators.dom().contains(a) implies aggregator_ok(
        t,
        a,
    ) by {
        assert(aggregator_ok(s, a));
        assert forall|i: int| 0 <= i < t.aggregators[a].registered.len() implies listed_voter(
            t,
            a,
            #[trigger] t.aggregators[a].registered[i],
        ) by {
            assert(listed_voter(s, a, s.aggregators[a].registered[i]));
        }
    }
}

/// An extended board is numbered.
pub proof fn lemma_extends_numbered(
    before: Seq<EventView>,
    after: Seq<EventView>,
    now: u64,
    items: Seq<Content>,
)
    requires
        extends(before, after, now, items),
        forall|i: int| 0 <= i < before.len() ==> (#[trigger] before[i]).seq == i,
    ensures
        forall|i: int| 0 <= i < after.len() ==> (#[trigger] after[i]).seq == i,
{
    assert forall|i: int| 0 <= i < after.len() implies (#[trigger] after[i]).seq == i by {
        if i < before.len() {
            assert(after[i] == before[i]);
        } else {
            let j = i - before.len();
            assert(after[before.len() + j] == after[i]);
        }
    }
}

impl ElectionState {
    /// Puts an event on the bulletin board.
    pub(crate) fn post_bulletin(
        &mut self,
        now_ms: u64,
        kind: &str,
        payload: Payload,
        Ghost(content): Ghost<Content>,
    )
        requires
            old(self).maps_ok(),
            kind@ == kind_of(content),
            holds(payload, content),
        ensures
            final(self).maps_ok(),
            final(self)@ == but_board(old(self)@, final(self)@.bulletin),
            extends(old(self)@.bulletin, final(self)@.bulletin, now_ms, seq![content]),
    {
        let ghost before = self@;
        let seq = self.bulletin.len() as u64;
        self.bulletin.push(
            BulletinEvent {
                seq,
                timestamp_unix_ms: now_ms,
                kind: String::from_str(kind),
                payload,
            },
        );
        proof {
            let now = self@.bulletin;
            let old_board = before.bulletin;
            assert forall|i: int| 0 <= i < old_board.len() implies #[trigger] now[i]
                == old_board[i] by {}
            assert(now[old_board.len() as int + 0].payload == payload);
        }
    }
}

// ---- phases -----------------------------------------------------------------

/// The phase with a name.
pub open spec fn phase_named(name: Seq<char>) -> Option<ElectionPhase> {
    if name == "setup"@ {
        Some(ElectionPhase::Setup)
    } else if name == "registration"@ {
        Some(ElectionPhase::Registration)
    } else if name == "voting"@ {
        Some(ElectionPhase::Voting)
    } else if name == "tally"@ {
        Some(ElectionPhase::Tally)
    } else if name == "closed"@ {
        Some(ElectionPhase::Closed)
    } else {
        None
    }
}

/// The phase with a name.
pub fn parse_phase(name: &str) -> (r: Option<ElectionPhase>)
    ensures
        r == phase_named(name@),
{
    if same_text(name, "setup") {
        Some(ElectionPhase::Setup)
    } else if same_text(name, "registration") {
        Some(ElectionPhase::Registration)
    } else if same_text(name, "voting") {
        Some(ElectionPhase::Voting)
    } else if same_text(name, "tally") {
        Some(ElectionPhase::Tally)
    } else if same_text(name, "closed") {
        Some(ElectionPhase::Closed)
    } else {
        None
    }
}

/// The state in another phase.
pub open spec fn in_phase(s: ElectionStateView, phase: ElectionPhase) -> ElectionStateView {
    ElectionStateView { params: ElectionView { phase, ..s.params }, ..s }
}

proof fn lemma_phase_ok(eid: Seq<char>, s: ElectionStateView, phase: ElectionPhase)
    requires
        election_ok(eid, s),
    ensures
        election_ok(eid, in_phase(s, phase)),
{
    let t = in_phase(s, phase);
    assert(option_ids(t.params) =~= option_ids(s.params));
    assert forall|a: Seq<char>| #[trigger] t.aggregators.dom().contains(a) implies aggregator_ok(
        t,
        a,
    ) by {
        assert(aggregator_ok(s, a));
        assert forall|i: int| 0 <= i < t.aggregators[a].registered.len() implies listed_voter(
            t,
            a,
            #[trigger] t.aggregators[a].registered[i],
        ) by {
            assert(listed_voter(s, a, s.aggregators[a].registered[i]));
        }
    }
}

impl ElectionState {
    /// Goes to a phase.
    pub(crate) fn enter_phase(&mut self, phase: ElectionPhase, now_ms: u64, Ghost(eid): Ghost<Seq<char>>)
        requires
            old(self).maps_ok(),
            election_ok(eid, old(self)@),
        ensures
            final(self).maps_ok(),
            election_ok(eid, final(self)@),
            final(self)@ == but_board(in_phase(old(self)@, phase), final(self)@.bulletin),
            extends(
                old(self)@.bulletin,
                final(self)@.bulletin,
                now_ms,
                seq![Content::Phase { phase }],
            ),
    {
        let ghost before = self@;
        self.params.phase = phase;
        assert(self@ =~= in_phase(before, phase));
        self.post_bulletin(
            now_ms,
            "phase_changed",
            Payload::PhaseChanged { phase: String::from_str(phase_str(phase)) },
            Ghost(Content::Phase { phase }),
        );
        proof {
            lemma_phase_ok(eid, before, phase);
            lemma_extends_numbered(
                before.bulletin,
                self@.bulletin,
                now_ms,
                seq![Content::Phase { phase }],
            );
            lemma_board_ok(eid, in_phase(before, phase), self@.bulletin);
        }
    }
}

// ---- voters -----------------------------------------------------------------

/// A voter who has done nothing, with the keys that were drawn.
pub open spec fn new_voter(id: Seq<char>, keys: VoterKeys) -> DemoVoterView {
    DemoVoterView { voter_id: id, keys, registered_with: None, vote: None }
}

/// Keys made of the scalars that a generator gives from number `i` on.
pub open spec fn keys_drawn(keys: VoterKeys, rng: rand::rngs::StdRng, i: int) -> bool {
    &&& keys.matching()
    &&& keys.signing.sk@ == md(upcoming(rng, i))
    &&& keys.skv@ == md(upcoming(rng, i + 1))
}

/// The state after `count` more voters, with keys from a generator.
pub open spec fn adds_voters(
    s: ElectionStateView,
    t: ElectionStateView,
    count: int,
    rng: rand::rngs::StdRng,
) -> bool {
    let first = s.next_voter as int;
    &&& t == (ElectionStateView {
        voters: t.voters,
        voter_order: t.voter_order,
        next_voter: t.next_voter,
        ..s
    })
    &&& t.next_voter == first + count
    &&& t.voter_order == voter_names(first + count)
    &&& forall|k: Seq<char>| #[trigger]
        s.voters.dom().contains(k) ==> t.voters.dom().contains(k) && t.voters[k] == s.voters[k]
    &&& forall|i: int|
        first <= i < first + count ==> {
            let id = #[trigger] t.voter_order[i];
            t.voters.dom().contains(id) && t.voters[id] == new_voter(id, t.voters[id].keys)
                && keys_drawn(t.voters[id].keys, rng, 2 * (i - first))
        }
}

/// The names of voters, one more.
proof fn lemma_names_push(n: int)
    requires
        n >= 0,
    ensures
        voter_names(n + 1) == voter_names(n).push(voter_name(n + 1)),
        !voter_names(n).contains(voter_name(n + 1)),
{
    assert(voter_names(n + 1) =~= voter_names(n).push(voter_name(n + 1)));
    let s = voter_names(n);
    assert forall|i: int| 0 <= i < s.len() implies s[i] != voter_name(n + 1) by {
        if s[i] == voter_name(n + 1) {
            lemma_voter_name(i + 1, n + 1);
        }
    }
}

/// One more voter leaves the state sound.
proof fn lemma_voter_added(
    eid: Seq<char>,
    s: ElectionStateView,
    t: ElectionStateView,
    id: Seq<char>,
    v: DemoVoterView,
)
    requires
        election_ok(eid, s),
        s.next_voter < u64::MAX,
        id == voter_name(s.next_voter + 1),
        v == new_voter(id, v.keys),
        v.keys.matching(),
        t == (ElectionStateView {
            voters: s.voters.insert(id, v),
            voter_order: s.voter_order.push(id),
            next_voter: (s.next_voter + 1) as u64,
            ..s
        }),
    ensures
        election_ok(eid, t),
        !s.voters.dom().contains(id),
{
    lemma_names_push(s.next_voter as int);
    assert(t.voter_order == voter_names(t.next_voter as int));
    assert forall|k: Seq<char>| #[trigger] t.voters.dom().contains(k) <==> t.voter_order.contains(
        k,
    ) by {
        let (a, b) = (s.voter_order, t.voter_order);
        assert(b[a.len() as int] == id);
        if a.contains(k) {
            let i = choose|i: int| 0 <= i < a.len() && a[i] == k;
            assert(b[i] == k);
        }
        assert(s.voters.dom().contains(k) <==> a.contains(k));
    }
    assert forall|k: Seq<char>| #[trigger] t.voters.dom().contains(k) implies t.voters[k].voter_id
        == k && t.voters[k].keys.matching() by {
        if k != id {
            assert(s.voters.dom().contains(k));
        }
    }
    assert forall|k: Seq<char>| #[trigger] t.voters.dom().contains(k) implies (
    t.voters[k].vote matches Some(c) ==> option_ids(t.params).contains(c)) by {
        if k != id {
            assert(s.voters.dom().contains(k));
        }
    }
    assert forall|a: Seq<char>| #[trigger] t.aggregators.dom().contains(a) implies aggregator_ok(
        t,
        a,
    ) by {
        assert(aggregator_ok(s, a));
        assert forall|i: int| 0 <= i < t.aggregators[a].registered.len() implies listed_voter(
            t,
            a,
            #[trigger] t.aggregators[a].registered[i],
        ) by {
            let r = s.aggregators[a].registered[i];
            assert(listed_voter(s, a, r));
            assert(r.voter_id != id);
        }
    }
}

impl ElectionState {
    /// Creates voters with fresh keys, and gives their ids.
    pub(crate) fn add_voters(
        &mut self,
        count: usize,
        rng: &mut rand::rngs::StdRng,
        Ghost(eid): Ghost<Seq<char>>,
    ) -> (created: Vec<String>)
        requires
            old(self).maps_ok(),
            election_ok(eid, old(self)@),
            old(self).next_voter + count <= u64::MAX,
        ensures
            final(self).maps_ok(),
            election_ok(eid, final(self)@),
            adds_voters(old(self)@, final(self)@, count as int, *old(rng)),
            later(*old(rng), *final(rng), 2 * count),
            texts(created@) == voter_names(old(self).next_voter + count).skip(
                old(self).next_voter as int,
            ),
    {
        let ghost start = self@;
        let ghost first = self.next_voter as int;
        let mut created: Vec<String> = Vec::new();
        let mut i: usize = 0;
        proof {
            assert(texts(created@) =~= voter_names(first + 0).skip(first));
        }
        while i < count
            invariant
                i <= count,
                first + count <= u64::MAX,
                self.maps_ok(),
                election_ok(eid, start),
                election_ok(eid, self@),
                start.next_voter == first,
                adds_voters(start, self@, i as int, *old(rng)),
                later(*old(rng), *rng, 2 * i),
                texts(created@) == voter_names(first + i).skip(first),
            decreases count - i,
        {
            let ghost before = self@;
            let ghost order = self.voter_order@;
            self.next_voter = self.next_voter + 1;
            let voter_id = cat2("voter-", decimal_text(self.next_voter).as_str());
            let ghost fresh = *rng;
            let keys = VoterKeys::generate(rng);
            proof {
                lemma_upcoming(*old(rng), fresh, 2 * i, 0);
                lemma_upcoming(*old(rng), fresh, 2 * i, 1);
                lemma_later(*old(rng), fresh, *rng, 2 * i, 2);
            }
            let ghost id = voter_id@;
            let ghost made = texts(created@);
            created.push(voter_id.clone());
            self.voter_order.push(voter_id.clone());
            let voter = DemoVoter {
                voter_id: voter_id.clone(),
                keys,
                registered_with: None,
                vote: None,
            };
            proof {
                lemma_viewed_insert(self.voters@, id, voter);
                assert(texts(self.voter_order@) =~= texts(order).push(id));
            }
            self.voters.insert(voter_id, voter);
            proof {
                let v = voter@;
                lemma_voter_added(eid, before, self@, id, v);
                lemma_names_push(first + i);
                assert(texts(created@) =~= made.push(id));
                assert(voter_names(first + i + 1).skip(first) =~= voter_names(first + i).skip(
                    first,
                ).push(id));
                assert(adds_voters(start, self@, i + 1, *old(rng))) by {
                    let t = self@;
                    assert forall|j: int| first <= j < first + i + 1 implies {
                        let n = #[trigger] t.voter_order[j];
                        t.voters.dom().contains(n) && t.voters[n] == new_voter(n, t.voters[n].keys)
                            && keys_drawn(t.voters[n].keys, *old(rng), 2 * (j - first))
                    } by {
                        let n = t.voter_order[j];
                        if j < first + i {
                            assert(before.voter_order[j] == n);
                        }
                    }
                }
            }
            i += 1;
        }
        created
    }
}

// ---- registering -------------------------------------------------------------

/// The signature by which a voter delegates.
pub open spec fn delegation_of(eid: Seq<char>, aid: Seq<char>, keys: VoterKeys) -> int {
    md(delegation_log(eid, aid) * keys.signing.sk@)
}

/// Why a registration is refused.
pub open spec fn register_refusal(s: ElectionStateView, vid: Seq<char>, aid: Seq<char>) -> Option<
    (u16, Seq<char>),
> {
    let eid = s.params.election_id;
    let v = s.voters[vid];
    if s.params.phase != ElectionPhase::Registration {
        Some((400u16, "registration is not open"@))
    } else if !s.aggregators.dom().contains(aid) {
        Some((400u16, "unknown aggregator"@))
    } else if !s.voters.dom().contains(vid) {
        Some((404u16, "voter not found"@))
    } else if v.registered_with is Some {
        Some((400u16, "voter already registered with an aggregator (exactly one allowed)"@))
    } else if s.aggregators[aid].finalized is Some {
        Some((400u16, "aggregator registration already finalized"@))
    } else if !delegation_hashable(eid, aid) {
        Some((422u16, "delegation message cannot be hashed"@))
    } else {
        match accept_error(
            eid,
            aid,
            vid,
            v.keys.signing.pk@,
            v.keys.pkv@,
            delegation_of(eid, aid, v.keys),
            v.keys.skv@,
        ) {
            Some(e) => Some((422u16, error_text(e))),
            None => None,
        }
    }
}

/// What the aggregator keeps of a voter.
pub open spec fn accepted_record(s: ElectionStateView, vid: Seq<char>, aid: Seq<char>) -> VoterView {
    let keys = s.voters[vid].keys;
    VoterView {
        voter_id: vid,
        pk: keys.signing.pk@,
        pkv: keys.pkv@,
        sigma: delegation_of(s.params.election_id, aid, keys),
        skv: keys.skv@,
    }
}

/// The state after a registration.
pub open spec fn with_registration(s: ElectionStateView, vid: Seq<char>, aid: Seq<char>) -> ElectionStateView {
    let a = s.aggregators[aid];
    ElectionStateView {
        voters: s.voters.insert(
            vid,
            DemoVoterView { registered_with: Some(aid), ..s.voters[vid] },
        ),
        aggregators: s.aggregators.insert(
            aid,
            AggregatorView { registered: a.registered.push(accepted_record(s, vid, aid)), ..a },
        ),
        ..s
    }
}

proof fn lemma_registration_ok(eid: Seq<char>, s: ElectionStateView, vid: Seq<char>, aid: Seq<char>)
    requires
        election_ok(eid, s),
        register_refusal(s, vid, aid) is None,
    ensures
        election_ok(eid, with_registration(s, vid, aid)),
{
    let t = with_registration(s, vid, aid);
    let r = accepted_record(s, vid, aid);
    s.voters[vid].keys.skv.lemma_range();
    assert(aggregator_ok(s, aid));
    assert forall|k: Seq<char>| #[trigger] t.voters.dom().contains(k) <==> t.voter_order.contains(
        k,
    ) by {
        assert(s.voters.dom().contains(k) <==> s.voter_order.contains(k));
    }
    assert forall|k: Seq<char>| #[trigger] t.voters.dom().contains(k) implies t.voters[k].voter_id
        == k && t.voters[k].keys.matching() by {
        assert(s.voters.dom().contains(k));
    }
    assert forall|k: Seq<char>| #[trigger] t.voters.dom().contains(k) implies (
    t.voters[k].vote matches Some(c) ==> option_ids(t.params).contains(c)) by {
        assert(s.voters.dom().contains(k));
    }
    assert forall|a: Seq<char>| #[trigger]
        t.aggregators.dom().contains(a) <==> t.params.aggregators.contains(a) by {
        assert(s.aggregators.dom().contains(a) <==> s.params.aggregators.contains(a));
    }
    assert forall|a: Seq<char>| #[trigger] t.aggregators.dom().contains(a) implies aggregator_ok(
        t,
        a,
    ) by {
        assert(s.aggregators.dom().contains(a));
        assert(aggregator_ok(s, a));
        let (old_list, list) = (s.aggregators[a].registered, t.aggregators[a].registered);
        assert forall|i: int| 0 <= i < list.len() implies listed_voter(t, a, #[trigger] list[i]) by {
            if i < old_list.len() {
                assert(list[i] == old_list[i]);
                assert(listed_voter(s, a, old_list[i]));
                assert(old_list[i].voter_id != vid);
            } else {
                assert(list[i] == r);
            }
        }
        assert forall|i: int, j: int| 0 <= i < j < list.len() implies (#[trigger] list[i]).voter_id
            != (#[trigger] list[j]).voter_id by {
            if j < old_list.len() {
                assert(list[i] == old_list[i] && list[j] == old_list[j]);
            } else {
                assert(list[i] == old_list[i]);
                assert(listed_voter(s, a, old_list[i]));
            }
        }
    }
}

impl ElectionState {
    /// Registers a voter with an aggregator: the voter signs the delegation,
    /// and the aggregator accepts it.
    pub(crate) fn register(
        &mut self,
        voter_id: &str,
        aggregator_id: &str,
        now_ms: u64,
        Ghost(eid): Ghost<Seq<char>>,
    ) -> (r: DemoResult<()>)
        requires
            old(self).maps_ok(),
            election_ok(eid, old(self)@),
        ensures
            final(self).maps_ok(),
            election_ok(eid, final(self)@),
            refuses(r, register_refusal(old(self)@, voter_id@, aggregator_id@)),
            r is Err ==> final(self)@ == old(self)@,
            r is Ok ==> final(self)@ == but_board(
                with_registration(old(self)@, voter_id@, aggregator_id@),
                final(self)@.bulletin,
            ) && extends(
                old(self)@.bulletin,
                final(self)@.bulletin,
                now_ms,
                seq![registered_content(old(self)@, voter_id@, aggregator_id@)],
            ),
    {
        let ghost s = self@;
        if self.params.phase != ElectionPhase::Registration {
            return Err(DemoError::bad("registration is not open"));
        }
        let finalized = match self.aggregators.get(aggregator_id) {
            Some(a) => a.finalized.is_some(),
            None => {
                return Err(DemoError::bad("unknown aggregator"));
            },
        };
        let keys = match self.voters.get(voter_id) {
            Some(v) => {
                if v.registered_with.is_some() {
                    return Err(
                        DemoError::bad(
                            "voter already registered with an aggregator (exactly one allowed)",
                        ),
                    );
                }
                v.keys
            },
            None => {
                return Err(DemoError::not_found("voter not found"));
            },
        };
        if finalized {
            return Err(DemoError::bad("aggregator registration already finalized"));
        }
        let election_id = self.params.election_id.clone();
        if try_delegation_message_hash(election_id.as_str(), aggregator_id).is_none() {
            return Err(DemoError::unprocessable("delegation message cannot be hashed"));
        }
        let sigma = keys.sign_delegation(election_id.as_str(), aggregator_id);
        let pk = keys.signing.pk;
        let pkv = keys.pkv;
        let skv = keys.skv;
        let registered = match accept_registration(
            election_id.as_str(),
            aggregator_id,
            voter_id,
            &pk,
            &pkv,
            &sigma,
            &skv,
        ) {
            Ok(v) => v,
            Err(e) => {
                return Err(DemoError::from_error(e));
            },
        };
        let ghost r = registered@;
        if let Some(a) = self.aggregators.get_mut(aggregator_id) {
            let ghost list = voter_views(a.registered@);
            a.registered.push(registered);
            proof {
                assert(voter_views(a.registered@) =~= list.push(r));
                lemma_viewed_insert(old(self).aggregators@, aggregator_id@, *a);
            }
        }
        if let Some(v) = self.voters.get_mut(voter_id) {
            v.registered_with = Some(String::from_str(aggregator_id));
            proof {
                lemma_viewed_insert(old(self).voters@, voter_id@, *v);
            }
        }
        let ghost t = with_registration(s, voter_id@, aggregator_id@);
        proof {
            assert(self@ =~= t);
            lemma_registration_ok(eid, s, voter_id@, aggregator_id@);
        }
        let ghost content = registered_content(s, voter_id@, aggregator_id@);
        self.post_bulletin(
            now_ms,
            "voter_registered",
            Payload::VoterRegistered {
                voter_id: String::from_str(voter_id),
                aggregator_id: String::from_str(aggregator_id),
                pk: g2_to_hex(&pk),
                pkv: g2_to_hex(&pkv),
                delegation_signature: g1_to_hex(&sigma),
            },
            Ghost(content),
        );
        proof {
            lemma_extends_numbered(s.bulletin, self@.bulletin, now_ms, seq![content]);
            lemma_board_ok(eid, t, self@.bulletin);
        }
        Ok(())
    }
}

/// What is published of a registration: nothing secret.
pub open spec fn registered_content(s: ElectionStateView, vid: Seq<char>, aid: Seq<char>) -> Content {
    let r = accepted_record(s, vid, aid);
    Content::Registered {
        voter_id: vid,
        aggregator_id: aid,
        pk: r.pk,
        pkv: r.pkv,
        sigma: r.sigma,
    }
}

// ---- voting ------------------------------------------------------------------

/// Why a vote is refused.
pub open spec fn vote_refusal(s: ElectionStateView, vid: Seq<char>, cid: Seq<char>) -> Option<
    (u16, Seq<char>),
> {
    if s.params.phase != ElectionPhase::Voting {
        Some((400u16, "voting is not open"@))
    } else if !option_ids(s.params).contains(cid) {
        Some((400u16, "unknown candidate"@))
    } else if !s.voters.dom().contains(vid) {
        Some((404u16, "voter not found"@))
    } else if s.voters[vid].registered_with is None {
        Some((400u16, "voter is not registered with any aggregator"@))
    } else {
        None
    }
}

/// The state after a vote. A later vote takes the place of an earlier one.
pub open spec fn with_vote(s: ElectionStateView, vid: Seq<char>, cid: Seq<char>) -> ElectionStateView {
    ElectionStateView {
        voters: s.voters.insert(vid, DemoVoterView { vote: Some(cid), ..s.voters[vid] }),
        ..s
    }
}

proof fn lemma_vote_ok(eid: Seq<char>, s: ElectionStateView, vid: Seq<char>, cid: Seq<char>)
    requires
        election_ok(eid, s),
        vote_refusal(s, vid, cid) is None,
    ensures
        election_ok(eid, with_vote(s, vid, cid)),
{
    let t = with_vote(s, vid, cid);
    assert forall|k: Seq<char>| #[trigger] t.voters.dom().contains(k) <==> t.voter_order.contains(
        k,
    ) by {
        assert(s.voters.dom().contains(k) <==> s.voter_order.contains(k));
    }
    assert forall|k: Seq<char>| #[trigger] t.voters.dom().contains(k) implies t.voters[k].voter_id
        == k && t.voters[k].keys.matching() by {
        assert(s.voters.dom().contains(k));
    }
    assert forall|k: Seq<char>| #[trigger] t.voters.dom().contains(k) implies (
    t.voters[k].vote matches Some(c) ==> option_ids(t.params).contains(c)) by {
        assert(s.voters.dom().contains(k));
    }
    assert forall|a: Seq<char>| #[trigger] t.aggregators.dom().contains(a) implies aggregator_ok(
        t,
        a,
    ) by {
        assert(aggregator_ok(s, a));
        assert forall|i: int| 0 <= i < t.aggregators[a].registered.len() implies listed_voter(
            t,
            a,
            #[trigger] t.aggregators[a].registered[i],
        ) by {
            assert(listed_voter(s, a, s.aggregators[a].registered[i]));
        }
    }
}

impl ElectionState {
    /// Whether there is a candidate with an id.
    fn has_candidate(&self, id: &str) -> (found: bool)
        ensures
            found == option_ids(self@.params).contains(id@),
    {
        let wanted = String::from_str(id);
        let ghost ids = option_ids(self@.params);
        let mut i: usize = 0;
        while i < self.params.candidates.len()
            invariant
                i <= self.params.candidates.len(),
                wanted@ == id@,
                ids == option_ids(self@.params),
                forall|j: int| 0 <= j < i ==> #[trigger] ids[j] != id@,
            decreases self.params.candidates.len() - i,
        {
            assert(ids[i as int] == self.params.candidates@[i as int].id@);
            if self.params.candidates[i].id == wanted {
                return true;
            }
            i += 1;
        }
        false
    }

    /// Sends a vote to the voter's aggregator. It is not published.
    pub(crate) fn vote(&mut self, voter_id: &str, candidate_id: &str, Ghost(eid): Ghost<Seq<char>>) -> (r:
        DemoResult<()>)
        requires
            old(self).maps_ok(),
            election_ok(eid, old(self)@),
        ensures
            final(self).maps_ok(),
            election_ok(eid, final(self)@),
            refuses(r, vote_refusal(old(self)@, voter_id@, candidate_id@)),
            r is Err ==> final(self)@ == old(self)@,
            r is Ok ==> final(self)@ == with_vote(old(self)@, voter_id@, candidate_id@),
    {
        let ghost s = self@;
        if self.params.phase != ElectionPhase::Voting {
            return Err(DemoError::bad("voting is not open"));
        }
        if !self.has_candidate(candidate_id) {
            return Err(DemoError::bad("unknown candidate"));
        }
        match self.voters.get(voter_id) {
            Some(v) => {
                if v.registered_with.is_none() {
                    return Err(DemoError::bad("voter is not registered with any aggregator"));
                }
            },
            None => {
                return Err(DemoError::not_found("voter not found"));
            },
        }
        if let Some(v) = self.voters.get_mut(voter_id) {
            v.vote = Some(String::from_str(candidate_id));
            proof {
                lemma_viewed_insert(old(self).voters@, voter_id@, *v);
            }
        }
        proof {
            assert(self@ =~= with_vote(s, voter_id@, candidate_id@));
            lemma_vote_ok(eid, s, voter_id@, candidate_id@);
        }
        Ok(())
    }
}

} // verus!
