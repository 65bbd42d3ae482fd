//! Laws of the library on chosen values.

use rand::rngs::StdRng;
use rand::SeedableRng;

use aggios_core::bls::{
    aggregate_signatures, g2_generator, sign_delegation, verify_aggregate_delegation,
    SigningKeypair,
};
use aggios_core::calls::{answer, Answer, RequestBody};
use aggios_core::curve::{G1Affine, G2Affine};
use aggios_core::demo::{CreateElectionRequest, DemoState};
use aggios_core::election::ElectionTemplate;
use aggios_core::eqlog::{prove_with_nonce, verify, EqLogContext};
use aggios_core::field::Fr;
use aggios_core::hash::hash_to_g1;
use aggios_core::labels::derive_election_labels;
use aggios_core::routes::{route, Call};

fn fr(n: u64) -> Fr {
    Fr::from_u64(n)
}

#[test]
fn aggregate_signatures_are_for_one_aggregator_and_one_set_of_keys() {
    let keys: Vec<SigningKeypair> = (1..=3).map(|n| SigningKeypair::from_secret(fr(n))).collect();
    let signatures: Vec<G1Affine> =
        keys.iter().map(|k| sign_delegation(&k.sk, "e1", "A1")).collect();
    let all = aggregate_signatures(&signatures);
    let pks: Vec<G2Affine> = keys.iter().map(|k| k.pk).collect();
    assert!(verify_aggregate_delegation(&all, &pks, "e1", "A1"));
    let turned: Vec<G2Affine> = vec![pks[2], pks[0], pks[1]];
    assert!(verify_aggregate_delegation(&all, &turned, "e1", "A1"));
    assert!(!verify_aggregate_delegation(&all, &pks, "e1", "A2"));
    assert!(!verify_aggregate_delegation(&all, &pks, "e2", "A1"));
    let replaced: Vec<G2Affine> = vec![pks[0], g2_generator().mul(fr(9)), pks[2]];
    assert!(!verify_aggregate_delegation(&all, &replaced, "e1", "A1"));
    assert!(verify_aggregate_delegation(&G1Affine::zero(), &vec![], "e1", "A1"));
    assert!(!verify_aggregate_delegation(&all, &vec![], "e1", "A1"));
}

#[test]
fn proofs_of_equal_logarithms_are_for_one_statement() {
    let context = |voter: &str, index: usize| EqLogContext {
        election_id: "e1".into(),
        aggregator_id: "A1".into(),
        voter_id: voter.into(),
        local_index: index,
        domain_size: 8,
    };
    let base = hash_to_g1(b"base", &[b"of a token"]);
    let skv = fr(7);
    let (tau, pkv) = (base.mul(skv), g2_generator().mul(skv));
    let here = context("v1", 2);
    let p = prove_with_nonce(&base, &tau, &pkv, &skv, &here, &fr(11));
    assert!(verify(&base, &tau, &pkv, &p, &here));
    assert!(!verify(&base, &base.mul(fr(8)), &pkv, &p, &here));
    assert!(!verify(&base, &tau, &g2_generator().mul(fr(8)), &p, &here));
    assert!(!verify(&base, &tau, &pkv, &p, &context("v2", 2)));
    assert!(!verify(&base, &tau, &pkv, &p, &context("v1", 3)));
}

#[test]
fn labels_of_two_elections_differ_at_all_positions() {
    let pair = |id: &str| (id.to_string(), id.to_uppercase());
    let a = derive_election_labels("e1", &vec![pair("a"), pair("b")]).partition_labels();
    let b = derive_election_labels("e2", &vec![pair("a"), pair("b")]).partition_labels();
    assert_eq!(a.len(), 4);
    for x in &a {
        for y in &b {
            assert_ne!(x, y);
        }
    }
}

fn body() -> RequestBody {
    RequestBody {
        phase: None,
        voter_id: None,
        aggregator_id: None,
        candidate_id: None,
        count: None,
        create: Err("no body".into()),
    }
}

#[test]
fn registered_voters_stay_registered() {
    let mut demo = DemoState::default();
    let mut rng = StdRng::seed_from_u64(8);
    let mut b = body();
    b.create = Ok(CreateElectionRequest {
        template: ElectionTemplate::Representative,
        title: None,
        description: None,
        custom_options: vec![],
        aggregators: vec![],
        max_voters: None,
    });
    let eid = match answer(&mut demo, &Call::CreateElection, b, 1, &mut rng).unwrap() {
        Answer::Summary(s) => s.election.election_id,
        other => panic!("{:?}", other),
    };
    let mut ask = |path: &str, body: RequestBody| {
        let path = format!("/api/aggios/elections/{}{}", eid, path);
        answer(&mut demo, &route("POST", &path), body, 1, &mut rng)
    };
    let phase = |name: &str| RequestBody { phase: Some(name.into()), ..body() };
    let register = |aid: &str| RequestBody {
        voter_id: Some("voter-1".into()),
        aggregator_id: Some(aid.into()),
        ..body()
    };
    ask("/voters/demo-create", body()).unwrap();
    ask("/phase", phase("registration")).unwrap();
    ask("/register", register("A1")).unwrap();
    let again = "voter already registered with an aggregator (exactly one allowed)";
    for aid in ["A1", "A2"] {
        let e = ask("/register", register(aid)).unwrap_err();
        assert_eq!((e.status, e.message.as_str()), (400, again));
    }
    ask("/voters/demo-create", body()).unwrap();
    ask("/phase", phase("voting")).unwrap();
    let mut vote = register("A1");
    vote.candidate_id = Some("alice".into());
    ask("/vote", vote).unwrap();
    let e = ask("/register", register("A2")).unwrap_err();
    assert_eq!((e.status, e.message.as_str()), (400, "registration is not open"));
    ask("/aggregators/A1/finalize-registration", body()).unwrap();
    ask("/phase", phase("registration")).unwrap();
    let e = ask("/register", register("A2")).unwrap_err();
    assert_eq!((e.status, e.message.as_str()), (400, again));
    let s = demo.get_election(&eid).unwrap();
    let counts: Vec<usize> = s.aggregators.iter().map(|a| a.registered_voters).collect();
    assert_eq!(counts, vec![1, 0, 0]);
}
