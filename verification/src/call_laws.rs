//! What holds over any number of requests, one after another.

use vstd::prelude::*;

use crate::calls::{answer_refusal, answered, step, Answer, RequestBody};
use crate::demo::{empty_demo, new_election, next_election_id, requested_params};
use crate::demo_election::{register_refusal, with_registration};
use crate::demo_state::{DemoView, ElectionStateView};
use crate::demo_tally::{all_answer, tallied_ids, verifies_all, with_verifications};
use crate::election::ElectionPhase;
use crate::routes::CallView;
use crate::tally::VerificationView;

verus! {

/// Each state comes from the one before it by one request.
pub open spec fn history(states: Seq<DemoView>) -> bool {
    &&& states.len() > 0
    &&& forall|i: int| 0 <= i < states.len() - 1 ==> step(#[trigger] states[i], states[i + 1])
}

/// The voter is registered with the aggregator.
pub open spec fn registered(v: DemoView, eid: Seq<char>, vid: Seq<char>, aid: Seq<char>) -> bool {
    &&& v.elections.dom().contains(eid)
    &&& v.elections[eid].voters.dom().contains(vid)
    &&& v.elections[eid].voters[vid].registered_with == Some(aid)
}

/// The voters in the aggregators' lists are registered with them, each once.
spec fn lists_ok(s: ElectionStateView) -> bool {
    &&& forall|j: int|
        0 <= j < s.params.aggregators.len() ==> s.aggregators.dom().contains(
            #[trigger] s.params.aggregators[j],
        )
    &&& forall|a: Seq<char>, i: int|
        s.aggregators.dom().contains(a) && 0 <= i < s.aggregators[a].registered.len() ==> listed(
            s,
            a,
            #[trigger] s.aggregators[a].registered[i].voter_id,
        )
    &&& forall|a: Seq<char>, i: int, j: int|
        s.aggregators.dom().contains(a) && 0 <= i < j < s.aggregators[a].registered.len()
            ==> #[trigger] s.aggregators[a].registered[i].voter_id
            != #[trigger] s.aggregators[a].registered[j].voter_id
}

spec fn listed(s: ElectionStateView, a: Seq<char>, vid: Seq<char>) -> bool {
    s.voters.dom().contains(vid) && s.voters[vid].registered_with == Some(a)
}

/// No voter leaves, and no registration changes.
spec fn keeps_voters(s: ElectionStateView, t: ElectionStateView) -> bool {
    forall|k: Seq<char>| #[trigger]
        s.voters.dom().contains(k) ==> t.voters.dom().contains(k) && (
        s.voters[k].registered_with is Some ==> t.voters[k].registered_with
            == s.voters[k].registered_with)
}

/// The aggregators have the same lists.
spec fn same_lists(s: ElectionStateView, t: ElectionStateView) -> bool {
    &&& t.params.aggregators == s.params.aggregators
    &&& forall|a: Seq<char>| #[trigger]
        t.aggregators.dom().contains(a) <==> s.aggregators.dom().contains(a)
    &&& forall|a: Seq<char>| #[trigger]
        t.aggregators.dom().contains(a) ==> t.aggregators[a].registered
            == s.aggregators[a].registered
}

proof fn lemma_same_lists(s: ElectionStateView, t: ElectionStateView)
    requires
        lists_ok(s),
        same_lists(s, t),
        keeps_voters(s, t),
    ensures
        lists_ok(t),
{
    assert forall|a: Seq<char>, i: int|
        t.aggregators.dom().contains(a) && 0 <= i < t.aggregators[a].registered.len() implies listed(
        t,
        a,
        #[trigger] t.aggregators[a].registered[i].voter_id,
    ) by {
        assert(s.aggregators.dom().contains(a));
        assert(listed(s, a, s.aggregators[a].registered[i].voter_id));
    }
    assert forall|a: Seq<char>, i: int, j: int|
        t.aggregators.dom().contains(a) && 0 <= i < j < t.aggregators[a].registered.len() implies
        #[trigger] t.aggregators[a].registered[i].voter_id
        != #[trigger] t.aggregators[a].registered[j].voter_id by {
        assert(s.aggregators.dom().contains(a));
        assert(s.aggregators[a].registered[i].voter_id != s.aggregators[a].registered[j].voter_id);
    }
}

proof fn lemma_verifications(s: ElectionStateView, vs: Seq<VerificationView>, count: int)
    requires
        0 <= count <= vs.len(),
        forall|i: int|
            0 <= i < vs.len() ==> s.aggregators.dom().contains((#[trigger] vs[i]).aggregator_id),
    ensures
        same_lists(s, with_verifications(s, vs, count)),
    decreases count,
{
    if count > 0 {
        lemma_verifications(s, vs, count - 1);
        let m = with_verifications(s, vs, count - 1);
        let aid = vs[count - 1].aggregator_id;
        assert(s.aggregators.dom().contains(aid));
        assert(m.aggregators.dom().contains(aid));
        let t = with_verifications(s, vs, count);
        assert forall|a: Seq<char>| #[trigger] t.aggregators.dom().contains(a) <==> s.aggregators.dom().contains(
            a,
        ) by {
            assert(m.aggregators.dom().contains(a) <==> s.aggregators.dom().contains(a));
        }
        assert forall|a: Seq<char>| #[trigger] t.aggregators.dom().contains(a) implies t.aggregators[a].registered
            == s.aggregators[a].registered by {
            assert(m.aggregators.dom().contains(a));
        }
    }
}

proof fn lemma_verifications_voters(s: ElectionStateView, vs: Seq<VerificationView>, count: int)
    ensures
        with_verifications(s, vs, count).voters == s.voters,
    decreases count,
{
    if count > 0 {
        lemma_verifications_voters(s, vs, count - 1);
    }
}

proof fn lemma_tallied_ids(s: ElectionStateView, count: int)
    requires
        lists_ok(s),
        0 <= count <= s.params.aggregators.len(),
    ensures
        forall|i: int|
            0 <= i < tallied_ids(s, count).len() ==> s.aggregators.dom().contains(
                #[trigger] tallied_ids(s, count)[i],
            ),
    decreases count,
{
    if count > 0 {
        lemma_tallied_ids(s, count - 1);
        let before = tallied_ids(s, count - 1);
        assert(s.aggregators.dom().contains(s.params.aggregators[count - 1]));
        assert forall|i: int| 0 <= i < tallied_ids(s, count).len() implies s.aggregators.dom().contains(
            #[trigger] tallied_ids(s, count)[i],
        ) by {
            if i < before.len() {
                assert(s.aggregators.dom().contains(before[i]));
            }
        }
    }
}

/// A request keeps the voters of every election.
proof fn lemma_answer_keeps(
    v: DemoView,
    w: DemoView,
    c: CallView,
    body: RequestBody,
    now: u64,
    rng: rand::rngs::StdRng,
    a: Answer,
    e: Seq<char>,
)
    requires
        answered(v, w, c, body, now, rng, a),
        v.elections.dom().contains(e),
    ensures
        w.elections.dom().contains(e),
        keeps_voters(v.elections[e], w.elections[e]),
{
    match c {
        CallView::VerifyAll { eid } => {
            let (s, t) = (v.elections[eid], w.elections[eid]);
            let x = a->AllVerified_0;
            let vs = choose|vs: Seq<VerificationView>| #[trigger]
                verifies_all(s, t, now, vs, x.verified_global_tally@) && all_answer(s, vs, &x);
            lemma_verifications_voters(s, vs, vs.len() as int);
        },
        _ => {},
    }
}

/// A registration keeps the lists sound.
proof fn lemma_registration_lists(s: ElectionStateView, vid: Seq<char>, aid: Seq<char>)
    requires
        lists_ok(s),
        register_refusal(s, vid, aid) is None,
    ensures
        lists_ok(with_registration(s, vid, aid)),
{
    let t = with_registration(s, vid, aid);
    assert forall|a: Seq<char>, i: int|
        t.aggregators.dom().contains(a) && 0 <= i < t.aggregators[a].registered.len() implies listed(
        t,
        a,
        #[trigger] t.aggregators[a].registered[i].voter_id,
    ) by {
        assert(s.aggregators.dom().contains(a));
        if i < s.aggregators[a].registered.len() {
            assert(listed(s, a, s.aggregators[a].registered[i].voter_id));
        }
    }
    assert forall|a: Seq<char>, i: int, j: int|
        t.aggregators.dom().contains(a) && 0 <= i < j < t.aggregators[a].registered.len() implies
        #[trigger] t.aggregators[a].registered[i].voter_id
        != #[trigger] t.aggregators[a].registered[j].voter_id by {
        assert(s.aggregators.dom().contains(a));
        assert(listed(s, a, s.aggregators[a].registered[i].voter_id));
        if j < s.aggregators[a].registered.len() {
            assert(s.aggregators[a].registered[i].voter_id
                != s.aggregators[a].registered[j].voter_id);
        }
    }
}

/// All lists of all elections are sound.
spec fn all_lists_ok(v: DemoView) -> bool {
    forall|e: Seq<char>| #[trigger] v.elections.dom().contains(e) ==> lists_ok(v.elections[e])
}

/// All requests but a registration keep the lists of an election.
proof fn lemma_answer_same_lists(
    v: DemoView,
    w: DemoView,
    c: CallView,
    body: RequestBody,
    now: u64,
    rng: rand::rngs::StdRng,
    a: Answer,
    e: Seq<char>,
)
    requires
        answered(v, w, c, body, now, rng, a),
        v.elections.dom().contains(e),
        lists_ok(v.elections[e]),
        !(c is Register),
    ensures
        same_lists(v.elections[e], w.elections[e]),
{
    let (s, t) = (v.elections[e], w.elections[e]);
    match c {
        CallView::VerifyAll { eid } => {
            if eid == e {
                let x = a->AllVerified_0;
                let vs = choose|vs: Seq<VerificationView>| #[trigger]
                    verifies_all(s, t, now, vs, x.verified_global_tally@) && all_answer(s, vs, &x);
                let n = s.params.aggregators.len() as int;
                lemma_tallied_ids(s, n);
                assert forall|i: int| 0 <= i < vs.len() implies s.aggregators.dom().contains(
                    (#[trigger] vs[i]).aggregator_id,
                ) by {
                    assert(s.aggregators.dom().contains(tallied_ids(s, n)[i]));
                }
                lemma_verifications(s, vs, vs.len() as int);
            }
        },
        _ => {},
    }
}

/// A new election has empty lists.
proof fn lemma_answer_new(
    v: DemoView,
    w: DemoView,
    c: CallView,
    body: RequestBody,
    now: u64,
    rng: rand::rngs::StdRng,
    a: Answer,
    e: Seq<char>,
)
    requires
        answered(v, w, c, body, now, rng, a),
        !v.elections.dom().contains(e),
        w.elections.dom().contains(e),
    ensures
        lists_ok(w.elections[e]),
{
    let s = w.elections[e];
    assert(c is CreateElection);
    assert(e == next_election_id(v, now));
    let p = requested_params(&body.create->Ok_0, e);
    assert(s == new_election(p, s.bulletin));
    assert forall|j: int| 0 <= j < s.params.aggregators.len() implies s.aggregators.dom().contains(
        #[trigger] s.params.aggregators[j],
    ) by {
        assert(s.params.aggregators.contains(s.params.aggregators[j]));
    }
}

/// A request keeps the lists of an election sound.
proof fn lemma_answer_lists(
    v: DemoView,
    w: DemoView,
    c: CallView,
    body: RequestBody,
    now: u64,
    rng: rand::rngs::StdRng,
    a: Answer,
    e: Seq<char>,
)
    requires
        all_lists_ok(v),
        answered(v, w, c, body, now, rng, a),
        w.elections.dom().contains(e),
    ensures
        lists_ok(w.elections[e]),
{
    if v.elections.dom().contains(e) {
        let (s, t) = (v.elections[e], w.elections[e]);
        assert(lists_ok(s));
        lemma_answer_keeps(v, w, c, body, now, rng, a, e);
        if c is Register {
            let eid = c->Register_eid;
            if eid == e {
                let (vid, aid) = (body.voter_id->0@, body.aggregator_id->0@);
                lemma_registration_lists(s, vid, aid);
                lemma_same_lists(with_registration(s, vid, aid), t);
            }
        } else {
            lemma_answer_same_lists(v, w, c, body, now, rng, a, e);
            lemma_same_lists(s, t);
        }
    } else {
        lemma_answer_new(v, w, c, body, now, rng, a, e);
    }
}

proof fn lemma_step_keeps(v: DemoView, w: DemoView, eid: Seq<char>, vid: Seq<char>, aid: Seq<char>)
    requires
        step(v, w),
        registered(v, eid, vid, aid),
    ensures
        registered(w, eid, vid, aid),
{
    if w != v {
        let (c, body, now, rng, a) = choose|
            c: CallView,
            body: RequestBody,
            now: u64,
            rng: rand::rngs::StdRng,
            a: Answer,
        | #[trigger] answered(v, w, c, body, now, rng, a);
        lemma_answer_keeps(v, w, c, body, now, rng, a, eid);
        assert(v.elections[eid].voters.dom().contains(vid));
    }
}

/// A voter who is registered with an aggregator stays registered with it, over
/// any further requests, and every further request to register that voter is
/// refused with the status of a bad request: while registration is open and
/// the aggregator is known, for the registration that there is.
pub proof fn law_registered_stays(
    states: Seq<DemoView>,
    eid: Seq<char>,
    vid: Seq<char>,
    aid: Seq<char>,
)
    requires
        history(states),
        registered(states[0], eid, vid, aid),
    ensures
        registered(states.last(), eid, vid, aid),
        forall|body: RequestBody, now: u64|
            (body.voter_id matches Some(x) ==> x@ == vid) ==> (#[trigger] answer_refusal(
                states.last(),
                CallView::Register { eid },
                &body,
                now,
            ) matches Some(e) && e.0 == 400),
        forall|other: Seq<char>|
            ({
                let s = states.last().elections[eid];
                s.params.phase == ElectionPhase::Registration && s.aggregators.dom().contains(other)
            }) ==> #[trigger] register_refusal(states.last().elections[eid], vid, other) == Some(
                (400u16, "voter already registered with an aggregator (exactly one allowed)"@),
            ),
    decreases states.len(),
{
    if states.len() > 1 {
        let before = states.drop_last();
        let n = states.len() as int;
        assert forall|i: int| 0 <= i < before.len() - 1 implies step(
            #[trigger] before[i],
            before[i + 1],
        ) by {
            assert(step(states[i], states[i + 1]));
        }
        law_registered_stays(before, eid, vid, aid);
        assert(step(states[n - 2], states[n - 1]));
        assert(before.last() == states[n - 2]);
        lemma_step_keeps(states[n - 2], states[n - 1], eid, vid, aid);
    }
}

proof fn lemma_history_lists(states: Seq<DemoView>)
    requires
        history(states),
        states[0] == empty_demo(),
    ensures
        all_lists_ok(states.last()),
    decreases states.len(),
{
    if states.len() > 1 {
        let before = states.drop_last();
        let n = states.len() as int;
        assert forall|i: int| 0 <= i < before.len() - 1 implies step(
            #[trigger] before[i],
            before[i + 1],
        ) by {
            assert(step(states[i], states[i + 1]));
        }
        lemma_history_lists(before);
        let (v, w) = (states[n - 2], states[n - 1]);
        assert(step(v, w));
        assert(before.last() == v);
        if w != v {
            let (c, body, now, rng, a) = choose|
                c: CallView,
                body: RequestBody,
                now: u64,
                rng: rand::rngs::StdRng,
                a: Answer,
            | #[trigger] answered(v, w, c, body, now, rng, a);
            assert forall|e: Seq<char>| #[trigger] w.elections.dom().contains(e) implies lists_ok(
                w.elections[e],
            ) by {
                lemma_answer_lists(v, w, c, body, now, rng, a, e);
            }
        }
    }
}

/// In every state that requests lead to, each voter is in at most one
/// aggregator's list, and there at most once.
pub proof fn law_voter_listed_once(
    states: Seq<DemoView>,
    eid: Seq<char>,
    a: Seq<char>,
    i: int,
    b: Seq<char>,
    j: int,
)
    requires
        history(states),
        states[0] == empty_demo(),
        states.last().elections.dom().contains(eid),
        ({
            let s = states.last().elections[eid];
            &&& s.aggregators.dom().contains(a)
            &&& s.aggregators.dom().contains(b)
            &&& 0 <= i < s.aggregators[a].registered.len()
            &&& 0 <= j < s.aggregators[b].registered.len()
            &&& s.aggregators[a].registered[i].voter_id == s.aggregators[b].registered[j].voter_id
        }),
    ensures
        a == b,
        i == j,
{
    lemma_history_lists(states);
    let s = states.last().elections[eid];
    assert(lists_ok(s));
    assert(listed(s, a, s.aggregators[a].registered[i].voter_id));
    assert(listed(s, b, s.aggregators[b].registered[j].voter_id));
    if i < j {
        assert(s.aggregators[a].registered[i].voter_id != s.aggregators[a].registered[j].voter_id);
    } else if j < i {
        assert(s.aggregators[a].registered[j].voter_id != s.aggregators[a].registered[i].voter_id);
    }
}

} // verus!
