//! Elections of the demonstration, from creation to the verified tally.

use rand::rngs::StdRng;
use rand::SeedableRng;

use aggios_core::calls::{answer, Answer, RequestBody};
use aggios_core::demo::{CreateElectionRequest, DemoState};
use aggios_core::demo_state::{DemoError, DemoResult, Payload};
use aggios_core::election::{Candidate, ElectionTemplate};
use aggios_core::error::AggiosError;
use aggios_core::routes::{path_core, route, split_parts, Call};

fn request(template: ElectionTemplate, options: &[&str]) -> CreateElectionRequest {
    CreateElectionRequest {
        template,
        title: None,
        description: None,
        custom_options: options.iter().map(|s| s.to_string()).collect(),
        aggregators: vec![],
        max_voters: None,
    }
}

fn refused<T>(r: DemoResult<T>) -> (u16, String) {
    match r {
        Ok(_) => panic!("not refused"),
        Err(e) => (e.status, e.message),
    }
}

fn is(r: (u16, String), status: u16, message: &str) -> bool {
    r.0 == status && r.1 == message
}

fn started() -> (DemoState, String, StdRng) {
    let mut demo = DemoState::default();
    let mut rng = StdRng::seed_from_u64(8);
    let s = demo
        .create_election(request(ElectionTemplate::Representative, &[]), 12_345_678)
        .unwrap();
    let eid = s.election.election_id.clone();
    demo.demo_create_voters(&eid, 4, &mut rng).unwrap();
    (demo, eid, rng)
}

#[test]
fn new_elections_have_an_id_a_title_and_three_aggregators() {
    let mut demo = DemoState::default();
    let s = demo
        .create_election(request(ElectionTemplate::Representative, &[]), 12_345_678)
        .unwrap();
    assert_eq!(s.election.election_id, "elec-345678-0001");
    assert_eq!(s.election.aggregators, vec!["A1", "A2", "A3"]);
    assert_eq!(s.phase, "setup");
    assert_eq!(s.candidate_labels.len(), 3);
    assert_eq!(s.candidate_labels[0].len(), 64);
    assert!(s.verified_global_tally.is_none());

    let mut own = request(ElectionTemplate::Custom, &["Yes", "No"]);
    own.title = Some("Question".into());
    own.aggregators = vec!["X".into()];
    own.max_voters = Some(9);
    let s = demo.create_election(own, 5).unwrap();
    assert_eq!(s.election.election_id, "elec-5-0002");
    assert_eq!(s.election.title, "Question");
    assert_eq!(s.election.max_voters, 9);
    assert_eq!(s.election.aggregators, vec!["X"]);
    assert_eq!(
        s.election.candidates,
        vec![
            Candidate { id: "opt-0".into(), name: "Yes".into() },
            Candidate { id: "opt-1".into(), name: "No".into() },
        ]
    );
    let list = demo.list_elections();
    assert_eq!(list.len(), 2);
    assert_eq!(list[1].title, "Question");
    assert_eq!(list[1].candidates, 2);
    assert!(is(
        refused(demo.create_election(request(ElectionTemplate::Custom, &["one"]), 1)),
        400,
        "custom election needs at least 2 options"
    ));
}

#[test]
fn requests_in_the_wrong_phase_are_refused() {
    let (mut demo, eid, mut rng) = started();
    assert!(is(
        refused(demo.register_voter(&eid, "voter-1", "A1", 1)),
        400,
        "registration is not open"
    ));
    assert!(is(refused(demo.set_phase(&eid, "later", 1)), 400, "unknown phase later"));
    assert!(is(refused(demo.set_phase("none", "voting", 1)), 404, "election not found"));
    demo.set_phase(&eid, "registration", 1).unwrap();
    assert!(is(
        refused(demo.register_voter(&eid, "voter-1", "A9", 1)),
        400,
        "unknown aggregator"
    ));
    assert!(is(
        refused(demo.register_voter(&eid, "voter-9", "A1", 1)),
        404,
        "voter not found"
    ));
    demo.register_voter(&eid, "voter-1", "A1", 1).unwrap();
    assert!(is(
        refused(demo.register_voter(&eid, "voter-1", "A2", 1)),
        400,
        "voter already registered with an aggregator (exactly one allowed)"
    ));
    assert!(is(
        refused(demo.finalize_aggregator(&eid, "A1", 1, &mut rng)),
        400,
        "close registration before finalizing (set phase to voting)"
    ));
    assert!(is(
        refused(demo.cast_vote(&eid, "voter-1", "alice")),
        400,
        "voting is not open"
    ));
    demo.set_phase(&eid, "voting", 1).unwrap();
    assert!(is(
        refused(demo.cast_vote(&eid, "voter-1", "zoe")),
        400,
        "unknown candidate"
    ));
    assert!(is(
        refused(demo.cast_vote(&eid, "voter-2", "alice")),
        400,
        "voter is not registered with any aggregator"
    ));
    assert!(is(
        refused(demo.demo_create_voters(&eid, 501, &mut rng)),
        400,
        "count must be between 1 and 500 (demo)"
    ));
    assert!(is(
        refused(demo.prove_aggregator(&eid, "A1", 1)),
        400,
        "finalize registration first"
    ));
    assert!(is(
        refused(demo.verify_aggregator(&eid, "A1", 1)),
        400,
        "no finalized registration"
    ));
    assert!(is(
        refused(demo.aggregator_proof_json(&eid, "A1")),
        404,
        "no proof yet"
    ));
    assert!(is(
        refused(demo.aggregator_proof_json(&eid, "A9")),
        404,
        "aggregator not found"
    ));
    demo.finalize_aggregator(&eid, "A1", 1, &mut rng).unwrap();
    assert!(is(
        refused(demo.finalize_aggregator(&eid, "A1", 1, &mut rng)),
        400,
        "registration already finalized"
    ));
    assert!(is(
        refused(demo.verify_aggregator(&eid, "A1", 1)),
        400,
        "no proof to verify; run prove first"
    ));
    assert!(is(refused(demo.voter_receipt(&eid, "voter-9")), 404, "voter not found"));
    assert!(!demo.voter_receipt(&eid, "voter-1").unwrap().available);
}

#[test]
fn votes_are_counted_and_never_published() {
    let (mut demo, eid, mut rng) = started();
    demo.set_phase(&eid, "registration", 1).unwrap();
    for (v, a) in [("voter-1", "A1"), ("voter-2", "A1"), ("voter-3", "A2"), ("voter-4", "A3")] {
        demo.register_voter(&eid, v, a, 2).unwrap();
    }
    demo.set_phase(&eid, "voting", 3).unwrap();
    let before = demo.bulletin_board(&eid).unwrap().len();
    demo.cast_vote(&eid, "voter-1", "alice").unwrap();
    demo.cast_vote(&eid, "voter-1", "bob").unwrap();
    demo.cast_vote(&eid, "voter-3", "bob").unwrap();
    assert_eq!(demo.bulletin_board(&eid).unwrap().len(), before);
    for a in ["A1", "A2", "A3"] {
        assert!(demo.finalize_aggregator(&eid, a, 4, &mut rng).unwrap().ok);
        assert!(demo.prove_aggregator(&eid, a, 5).unwrap().ok);
    }
    let r = demo.verify_aggregator(&eid, "A1", 6).unwrap();
    assert!(r.valid && r.errors.is_empty());
    let all = demo.verify_all(&eid, 7).unwrap();
    assert!(all.duplicate_voter_errors.is_empty());
    assert!(all.verifications.iter().all(|v| v.valid));
    assert_eq!(*all.verified_global_tally.get("bob").unwrap(), 2);
    assert_eq!(*all.verified_global_tally.get("alice").unwrap(), 0);

    let s = demo.get_election(&eid).unwrap();
    assert_eq!(*s.verified_global_tally.unwrap().get("bob").unwrap(), 2);
    assert_eq!(s.aggregators[0].votes_received, 1);
    assert_eq!(s.aggregators[0].no_vote_count, Some(1));
    assert_eq!(s.aggregators[0].proof_status, "verified");
    assert_eq!(s.voters[0].registered_with.as_deref(), Some("A1"));
    assert!(s.voters[0].has_voted);

    let board = demo.bulletin_board(&eid).unwrap();
    for (i, e) in board.iter().enumerate() {
        assert_eq!(e.seq, i as u64);
    }
    assert!(matches!(board[0].payload, Payload::ElectionCreated { .. }));
    assert_eq!(board[0].kind, "election_created");
    assert!(matches!(board.last().unwrap().payload, Payload::GlobalTally { .. }));

    let proof = demo.aggregator_proof_json(&eid, "A1").unwrap();
    assert_eq!(proof.candidate_counts, vec![0, 1, 0]);
    let artifact = demo.public_artifact(&eid).unwrap();
    assert_eq!(artifact.object_type, "aggios_public_election_artifact");
    assert_eq!(artifact.registration_posts.len(), 3);
    assert_eq!(artifact.tally_posts.len(), 3);
    assert_eq!(*artifact.verified_global_tally.get("bob").unwrap(), 2);
}

#[test]
fn aggregators_that_did_not_finish_are_reported() {
    let (mut demo, eid, mut rng) = started();
    demo.set_phase(&eid, "registration", 1).unwrap();
    demo.register_voter(&eid, "voter-1", "A1", 2).unwrap();
    demo.set_phase(&eid, "voting", 3).unwrap();
    demo.cast_vote(&eid, "voter-1", "alice").unwrap();
    demo.finalize_aggregator(&eid, "A1", 4, &mut rng).unwrap();
    let all = demo.verify_all(&eid, 5).unwrap();
    assert_eq!(all.registration.len(), 3);
    assert!(all.registration[0].registration_valid);
    assert_eq!(all.registration[1].errors, vec!["registration not finalized"]);
    assert!(all.verifications.is_empty());
    assert_eq!(*all.verified_global_tally.get("alice").unwrap(), 0);
}

#[test]
fn errors_have_a_status() {
    assert_eq!(DemoError::bad("x").status, 400);
    assert_eq!(DemoError::not_found("x").status, 404);
    assert_eq!(DemoError::unprocessable("x").status, 422);
    let e = DemoError::from_error(AggiosError::Tally("x".into()));
    assert_eq!(e.status, 422);
    assert_eq!(e.message, "tally error: x");
}

#[test]
fn paths_are_taken_apart() {
    assert_eq!(path_core("/api/aggios/elections/e1/?x=1"), "elections/e1/");
    assert_eq!(path_core("elections/"), "elections");
    assert_eq!(split_parts("a//b"), vec!["a", "b"]);
    assert_eq!(split_parts(""), Vec::<String>::new());
    assert!(matches!(route("GET", "/api/aggios/elections"), Call::ListElections));
    match route("POST", "/api/aggios/elections/e1/aggregators/A1/prove") {
        Call::Prove { eid, aid } => assert_eq!((eid.as_str(), aid.as_str()), ("e1", "A1")),
        other => panic!("{:?}", other),
    }
    match route("GET", "/api/aggios/benchmarks/b/results.csv") {
        Call::BenchmarkCsv { bid } => assert_eq!(bid, "b"),
        other => panic!("{:?}", other),
    }
    assert!(matches!(route("PUT", "/api/aggios/benchmarks"), Call::NoBenchmarkRoute));
    match route("PUT", "/api/aggios/other") {
        Call::NoRoute { message } => assert_eq!(message, "no such route: PUT /other"),
        other => panic!("{:?}", other),
    }
}

fn body() -> RequestBody {
    RequestBody {
        phase: None,
        voter_id: None,
        aggregator_id: None,
        candidate_id: None,
        count: None,
        create: Err("no body".into()),
    }
}

#[test]
fn requests_are_answered() {
    let (mut demo, eid, mut rng) = started();
    let mut ask = |method: &str, path: &str, body: RequestBody| {
        let path = format!("/api/aggios/elections/{}{}", eid, path);
        answer(&mut demo, &route(method, &path), body, 1, &mut rng)
    };
    match ask("POST", "/voters/demo-create", body()).unwrap() {
        Answer::Created(ids) => assert_eq!(ids, vec!["voter-5"]),
        other => panic!("{:?}", other),
    }
    assert!(is(
        refused(ask("POST", "/phase", body())),
        400,
        "missing field phase"
    ));
    let mut b = body();
    b.phase = Some("registration".into());
    match ask("POST", "/phase", b).unwrap() {
        Answer::Summary(s) => assert_eq!(s.phase, "registration"),
        other => panic!("{:?}", other),
    }
    let mut b = body();
    b.voter_id = Some("voter-5".into());
    assert!(is(
        refused(ask("POST", "/register", b)),
        400,
        "missing field aggregator_id"
    ));
    let mut b = body();
    b.voter_id = Some("voter-5".into());
    b.aggregator_id = Some("A2".into());
    assert!(matches!(ask("POST", "/register", b).unwrap(), Answer::Done));
    assert!(matches!(ask("GET", "/bulletin-board", body()).unwrap(), Answer::Board));
    match ask("GET", "/voters/voter-5/receipt", body()).unwrap() {
        Answer::Receipt(r) => assert!(!r.available),
        other => panic!("{:?}", other),
    }
    let (status, message) = refused(ask("GET", "/nothing/here", body()));
    assert_eq!(status, 404);
    assert!(message.starts_with("no such route: GET /elections/"));

    let create = route("POST", "/api/aggios/elections");
    assert!(is(
        refused(answer(&mut demo, &create, body(), 1, &mut rng)),
        400,
        "invalid request body: no body"
    ));
    let mut b = body();
    b.create = Ok(request(ElectionTemplate::CrimeReform, &[]));
    match answer(&mut demo, &create, b, 1, &mut rng).unwrap() {
        Answer::Summary(s) => assert_eq!(s.election.candidates.len(), 4),
        other => panic!("{:?}", other),
    }
    match answer(&mut demo, &Call::ListElections, body(), 1, &mut rng).unwrap() {
        Answer::Listing(l) => assert_eq!(l.len(), 2),
        other => panic!("{:?}", other),
    }
}
