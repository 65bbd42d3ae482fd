//! Answering requests on elections.

use vstd::prelude::*;

use crate::artifacts::{short_time, tally_texts, PublicElectionArtifact, TallyPostArtifact};
use crate::demo::{
    changed, created, creation_refusal, either, lists, next_election_id, no_election,
    only_changed, phase_entered, phase_refusal, proof_refusal, receipt_refusal, registers,
    voters_refusal, CreateElectionRequest, DemoState, ElectionListing, ReceiptResponse,
    RECEIPT_REASON,
};
use crate::demo_election::{adds_voters, phase_named, register_refusal, vote_refusal, with_vote};
use crate::demo_state::{refuses, voter_names, DemoError, DemoResult, DemoView, ElectionStateView};
use crate::demo_summary::{summarizes, ElectionSummary};
use crate::demo_tally::{
    counting_refusal, finalize_refusal, finalizes, prove_refusal, publishes, tally_proved,
    unlucky, verified_everything, verifies, verify_refusal, FinalizeResponse, ProveResponse,
    VerifyAllResponse, VerifyResponse,
};
use crate::registration::RegistrationView;
use crate::routes::{one, Call, CallView};
use crate::tally::VerificationView;
use crate::text::{cat2, texts};

verus! {

/// What the body of a request holds, as far as it is there.
#[derive(Debug)]
pub struct RequestBody {
    pub phase: Option<String>,
    pub voter_id: Option<String>,
    pub aggregator_id: Option<String>,
    pub candidate_id: Option<String>,
    pub count: Option<usize>,
    /// The body as a new election, or why it is none.
    pub create: std::result::Result<CreateElectionRequest, String>,
}

/// The answer to a request on elections.
#[derive(Debug)]
pub enum Answer {
    Summary(ElectionSummary),
    Listing(Vec<ElectionListing>),
    Created(Vec<String>),
    Done,
    Receipt(ReceiptResponse),
    Finalized(FinalizeResponse),
    Proved(ProveResponse),
    Verified(VerifyResponse),
    Proof(TallyPostArtifact),
    AllVerified(VerifyAllResponse),
    /// The bulletin board of the election may be read.
    Board,
    Artifact(PublicElectionArtifact),
}

/// The call is one on benchmarks.
pub open spec fn on_benchmarks(c: CallView) -> bool {
    ||| c is CreateBenchmark
    ||| c is ListBenchmarks
    ||| c is GetBenchmark
    ||| c is BenchmarkEvents
    ||| c is BenchmarkJson
    ||| c is BenchmarkCsv
    ||| c is CancelBenchmark
    ||| c is NoBenchmarkRoute
}

/// The refusal where a field is missing.
pub open spec fn field_refusal(field: Option<String>, key: Seq<char>) -> Option<(u16, Seq<char>)> {
    match field {
        Some(_) => None,
        None => Some((400u16, "missing field "@ + key)),
    }
}

/// The number of voters to create.
pub open spec fn wanted(body: &RequestBody) -> usize {
    match body.count {
        Some(n) => n,
        None => 1,
    }
}

/// Why a request is refused.
pub open spec fn answer_refusal(v: DemoView, c: CallView, body: &RequestBody, now: u64) -> Option<
    (u16, Seq<char>),
> {
    match c {
        CallView::CreateElection => match body.create {
            Ok(req) => creation_refusal(v, &req, now),
            Err(e) => Some((400u16, "invalid request body: "@ + e@)),
        },
        CallView::ListElections => None,
        CallView::GetElection { eid } => either(
            no_election(v, eid),
            counting_refusal(v.elections[eid]),
        ),
        CallView::SetPhase { eid } => either(
            field_refusal(body.phase, "phase"@),
            phase_refusal(v, eid, body.phase->0@),
        ),
        CallView::CreateVoters { eid } => voters_refusal(v, eid, wanted(body)),
        CallView::Register { eid } => either(
            either(
                field_refusal(body.voter_id, "voter_id"@),
                field_refusal(body.aggregator_id, "aggregator_id"@),
            ),
            either(
                no_election(v, eid),
                register_refusal(v.elections[eid], body.voter_id->0@, body.aggregator_id->0@),
            ),
        ),
        CallView::Vote { eid } => either(
            either(
                field_refusal(body.voter_id, "voter_id"@),
                field_refusal(body.candidate_id, "candidate_id"@),
            ),
            either(
                no_election(v, eid),
                vote_refusal(v.elections[eid], body.voter_id->0@, body.candidate_id->0@),
            ),
        ),
        CallView::Receipt { eid, vid } => either(
            no_election(v, eid),
            receipt_refusal(v.elections[eid], vid),
        ),
        CallView::Finalize { eid, aid } => either(
            no_election(v, eid),
            finalize_refusal(v.elections[eid], aid),
        ),
        CallView::Prove { eid, aid } => either(
            no_election(v, eid),
            prove_refusal(v.elections[eid], aid),
        ),
        CallView::Verify { eid, aid } => either(
            no_election(v, eid),
            verify_refusal(v.elections[eid], aid),
        ),
        CallView::Proof { eid, aid } => either(
            no_election(v, eid),
            proof_refusal(v.elections[eid], aid),
        ),
        CallView::VerifyAll { eid } => either(
            no_election(v, eid),
            counting_refusal(v.elections[eid]),
        ),
        CallView::Board { eid } => no_election(v, eid),
        CallView::Artifact { eid } => either(
            no_election(v, eid),
            counting_refusal(v.elections[eid]),
        ),
        CallView::NoRoute { message } => Some((404u16, message)),
        _ => Some((404u16, "no such route"@)),
    }
}

/// An aggregator's tally was verified, and this is the answer.
pub open spec fn verify_answer(
    s: ElectionStateView,
    t: ElectionStateView,
    aid: Seq<char>,
    now: u64,
    x: &VerifyResponse,
) -> bool {
    exists|v: VerificationView| #[trigger]
        verifies(s, t, aid, now, v) && x.valid == v.valid && texts(x.errors@) == v.errors
            && x.verification_time_ms == short_time(v.verification_time_ms)
}

/// What a request that is not refused does, and its answer.
pub open spec fn answers(
    v: DemoView,
    w: DemoView,
    c: CallView,
    body: &RequestBody,
    now: u64,
    rng: rand::rngs::StdRng,
    a: &Answer,
) -> bool {
    match c {
        CallView::CreateElection => {
            &&& body.create is Ok
            &&& created(v, w, &body.create->Ok_0, now)
            &&& a matches Answer::Summary(x)
            &&& summarizes(w.elections[next_election_id(v, now)], x)
        },
        CallView::ListElections => {
            &&& w == v
            &&& a matches Answer::Listing(list)
            &&& list@.len() == v.election_order.len()
            &&& forall|i: int|
                0 <= i < list@.len() ==> lists(
                    v.elections[v.election_order[i]],
                    #[trigger] &list@[i],
                )
        },
        CallView::GetElection { eid } => {
            &&& w == v
            &&& a matches Answer::Summary(x)
            &&& summarizes(v.elections[eid], x)
        },
        CallView::SetPhase { eid } => {
            &&& only_changed(v, w, eid)
            &&& phase_entered(
                v.elections[eid],
                w.elections[eid],
                phase_named(body.phase->0@)->0,
                now,
            )
            &&& a matches Answer::Summary(x)
            &&& summarizes(w.elections[eid], x)
        },
        CallView::CreateVoters { eid } => {
            &&& only_changed(v, w, eid)
            &&& adds_voters(v.elections[eid], w.elections[eid], wanted(body) as int, rng)
            &&& a matches Answer::Created(ids)
            &&& texts(ids@) == voter_names(v.elections[eid].next_voter + wanted(body)).skip(
                v.elections[eid].next_voter as int,
            )
        },
        CallView::Register { eid } => {
            &&& only_changed(v, w, eid)
            &&& registers(
                v.elections[eid],
                w.elections[eid],
                body.voter_id->0@,
                body.aggregator_id->0@,
                now,
            )
            &&& a is Done
        },
        CallView::Vote { eid } => {
            &&& w == changed(
                v,
                eid,
                with_vote(v.elections[eid], body.voter_id->0@, body.candidate_id->0@),
            )
            &&& a is Done
        },
        CallView::Receipt { eid, vid } => {
            &&& w == v
            &&& a matches Answer::Receipt(x)
            &&& !x.available
            &&& x.reason@ == RECEIPT_REASON@
        },
        CallView::Finalize { eid, aid } => {
            &&& only_changed(v, w, eid)
            &&& a matches Answer::Finalized(x)
            &&& x.ok
            &&& x.errors@.len() == 0
            &&& exists|post: RegistrationView| #[trigger]
                finalizes(v.elections[eid], w.elections[eid], aid, now, rng, post)
        },
        CallView::Prove { eid, aid } => {
            &&& only_changed(v, w, eid)
            &&& a matches Answer::Proved(x)
            &&& tally_proved(v.elections[eid], w.elections[eid], aid, now, x)
        },
        CallView::Verify { eid, aid } => {
            &&& only_changed(v, w, eid)
            &&& a matches Answer::Verified(x)
            &&& verify_answer(v.elections[eid], w.elections[eid], aid, now, x)
        },
        CallView::Proof { eid, aid } => {
            &&& w == v
            &&& a matches Answer::Proof(x)
            &&& tally_texts(x, v.elections[eid].aggregators[aid].tally_post->0)
        },
        CallView::VerifyAll { eid } => {
            &&& only_changed(v, w, eid)
            &&& a matches Answer::AllVerified(x)
            &&& verified_everything(v.elections[eid], w.elections[eid], now, x)
        },
        CallView::Board { eid } => w == v && a is Board,
        CallView::Artifact { eid } => {
            &&& w == v
            &&& a matches Answer::Artifact(x)
            &&& publishes(v.elections[eid], x)
        },
        _ => false,
    }
}

/// One request was answered.
pub open spec fn answered(
    v: DemoView,
    w: DemoView,
    c: CallView,
    body: RequestBody,
    now: u64,
    rng: rand::rngs::StdRng,
    a: Answer,
) -> bool {
    answer_refusal(v, c, &body, now) is None && answers(v, w, c, &body, now, rng, &a)
}

/// One request was answered, or refused, which changes nothing.
pub open spec fn step(v: DemoView, w: DemoView) -> bool {
    w == v || exists|
        c: CallView,
        body: RequestBody,
        now: u64,
        rng: rand::rngs::StdRng,
        a: Answer,
    | #[trigger] answered(v, w, c, body, now, rng, a)
}

/// A field of the body, or the refusal where it is missing.
fn field<'a>(value: &'a Option<String>, key: &str) -> (r: DemoResult<&'a String>)
    ensures
        refuses(r, field_refusal(*value, key@)),
        r matches Ok(s) ==> *value == Some(*s),
{
    match value {
        Some(s) => Ok(s),
        None => {
            let message = cat2("missing field ", key);
            Err(DemoError::bad(message.as_str()))
        },
    }
}

/// Answers a request on elections. A refused request changes nothing.
pub fn answer(
    demo: &mut DemoState,
    call: &Call,
    body: RequestBody,
    now_ms: u64,
    rng: &mut rand::rngs::StdRng,
) -> (r: DemoResult<Answer>)
    requires
        old(demo).wf(),
        !on_benchmarks(call@),
    ensures
        final(demo).wf(),
        r is Err ==> final(demo)@ == old(demo)@,
        step(old(demo)@, final(demo)@),
        match answer_refusal(old(demo)@, call@, &body, now_ms) {
            Some(e) => r matches Err(x) && x@ == e,
            None => match r {
                Ok(a) => answers(old(demo)@, final(demo)@, call@, &body, now_ms, *old(rng), &a),
                Err(e) => call@ matches CallView::Prove { eid, aid } && unlucky(
                    old(demo)@.elections[eid],
                    aid,
                    e@,
                ),
            },
        },
{
    let ghost (v, whole, draws) = (demo@, body, *rng);
    let r = match call {
        Call::CreateElection => {
            match body.create {
                Ok(req) => match demo.create_election(req, now_ms) {
                    Ok(x) => Ok(Answer::Summary(x)),
                    Err(e) => Err(e),
                },
                Err(e) => {
                    let message = cat2("invalid request body: ", e.as_str());
                    Err(DemoError::bad(message.as_str()))
                },
            }
        },
        Call::ListElections => Ok(Answer::Listing(demo.list_elections())),
        Call::GetElection { eid } => {
            match demo.get_election(eid.as_str()) {
                Ok(x) => Ok(Answer::Summary(x)),
                Err(e) => Err(e),
            }
        },
        Call::SetPhase { eid } => {
            let phase = match field(&body.phase, "phase") {
                Ok(s) => s,
                Err(e) => {
                    return Err(e);
                },
            };
            match demo.set_phase(eid.as_str(), phase.as_str(), now_ms) {
                Ok(x) => Ok(Answer::Summary(x)),
                Err(e) => Err(e),
            }
        },
        Call::CreateVoters { eid } => {
            let count: usize = match body.count {
                Some(n) => n,
                None => one(),
            };
            match demo.demo_create_voters(eid.as_str(), count, rng) {
                Ok(ids) => Ok(Answer::Created(ids)),
                Err(e) => Err(e),
            }
        },
        Call::Register { eid } => {
            let voter_id = match field(&body.voter_id, "voter_id") {
                Ok(s) => s,
                Err(e) => {
                    return Err(e);
                },
            };
            let aggregator_id = match field(&body.aggregator_id, "aggregator_id") {
                Ok(s) => s,
                Err(e) => {
                    return Err(e);
                },
            };
            match demo.register_voter(
                eid.as_str(),
                voter_id.as_str(),
                aggregator_id.as_str(),
                now_ms,
            ) {
                Ok(_) => Ok(Answer::Done),
                Err(e) => Err(e),
            }
        },
        Call::Vote { eid } => {
            let voter_id = match field(&body.voter_id, "voter_id") {
                Ok(s) => s,
                Err(e) => {
                    return Err(e);
                },
            };
            let candidate_id = match field(&body.candidate_id, "candidate_id") {
                Ok(s) => s,
                Err(e) => {
                    return Err(e);
                },
            };
            match demo.cast_vote(eid.as_str(), voter_id.as_str(), candidate_id.as_str()) {
                Ok(_) => Ok(Answer::Done),
                Err(e) => Err(e),
            }
        },
        Call::Receipt { eid, vid } => {
            match demo.voter_receipt(eid.as_str(), vid.as_str()) {
                Ok(x) => Ok(Answer::Receipt(x)),
                Err(e) => Err(e),
            }
        },
        Call::Finalize { eid, aid } => {
            match demo.finalize_aggregator(eid.as_str(), aid.as_str(), now_ms, rng) {
                Ok(x) => Ok(Answer::Finalized(x)),
                Err(e) => Err(e),
            }
        },
        Call::Prove { eid, aid } => {
            match demo.prove_aggregator(eid.as_str(), aid.as_str(), now_ms) {
                Ok(x) => Ok(Answer::Proved(x)),
                Err(e) => Err(e),
            }
        },
        Call::Verify { eid, aid } => {
            match demo.verify_aggregator(eid.as_str(), aid.as_str(), now_ms) {
                Ok(x) => Ok(Answer::Verified(x)),
                Err(e) => Err(e),
            }
        },
        Call::Proof { eid, aid } => {
            match demo.aggregator_proof_json(eid.as_str(), aid.as_str()) {
                Ok(x) => Ok(Answer::Proof(x)),
                Err(e) => Err(e),
            }
        },
        Call::VerifyAll { eid } => {
            match demo.verify_all(eid.as_str(), now_ms) {
                Ok(x) => Ok(Answer::AllVerified(x)),
                Err(e) => Err(e),
            }
        },
        Call::Board { eid } => {
            match demo.bulletin_board(eid.as_str()) {
                Ok(_) => Ok(Answer::Board),
                Err(e) => Err(e),
            }
        },
        Call::Artifact { eid } => {
            match demo.public_artifact(eid.as_str()) {
                Ok(x) => Ok(Answer::Artifact(x)),
                Err(e) => Err(e),
            }
        },
        Call::NoRoute { message } => Err(DemoError::not_found(message.as_str())),
        _ => Err(DemoError::not_found("no such route")),
    };
    proof {
        if r is Ok {
            assert(answered(v, demo@, call@, whole, now_ms, draws, r->Ok_0));
        }
    }
    r
}

} // verus!
