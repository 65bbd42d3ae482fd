//! What is refused in the protocol, and with which messages.

use rand::rngs::StdRng;
use rand::SeedableRng;

use aggios_core::bls::SigningKeypair;
use aggios_core::curve::G1Affine;
use aggios_core::election::{
    default_aggregators, template_candidates, ElectionParams, ElectionTemplate,
};
use aggios_core::epa_adapter::{get_or_create_srs, prove, verify, EpaPublicInput, EpaWitness};
use aggios_core::eqlog;
use aggios_core::field::Fr;
use aggios_core::labels::{derive_election_labels, try_derive_election_labels};
use aggios_core::registration::{
    accept_registration, check_no_duplicate_voters, finalize_registration, required_domain_size,
    sum_tokens, validate_finalized_registration, FinalizedRegistration, RegisteredVoter,
    VoterKeys,
};
use aggios_core::string_map::StringMap;
use aggios_core::tally::{build_and_prove_tally, global_tally, verify_aggregator_tally, TallyPost};

fn election() -> ElectionParams {
    ElectionParams::new(
        "e1".into(),
        "t".into(),
        "d".into(),
        template_candidates(ElectionTemplate::Representative),
        default_aggregators(),
        10,
    )
}

fn registered(count: usize, rng: &mut StdRng) -> Vec<RegisteredVoter> {
    (0..count)
        .map(|i| {
            let keys = VoterKeys::generate(rng);
            let sigma = keys.sign_delegation("e1", "A1");
            accept_registration(
                "e1",
                "A1",
                &format!("v{}", i),
                &keys.signing.pk,
                &keys.pkv,
                &sigma,
                &keys.skv,
            )
            .unwrap()
        })
        .collect()
}

fn votes(list: &[(&str, &str)]) -> StringMap<String> {
    let mut m = StringMap::new();
    for (v, c) in list {
        m.insert(v.to_string(), c.to_string());
    }
    m
}

fn posted(count: usize) -> (ElectionParams, Vec<RegisteredVoter>, FinalizedRegistration) {
    let mut rng = StdRng::seed_from_u64(11);
    let e = election();
    let voters = registered(count, &mut rng);
    let (post, bundle) = finalize_registration(&e, "A1", &voters, 77, &mut rng).unwrap();
    assert_eq!(bundle.domain_size(), post.domain_size);
    (e, voters, post)
}

#[test]
fn domain_sizes_hold_all_voters_and_labels() {
    assert_eq!(required_domain_size(0, 5), 8);
    assert_eq!(required_domain_size(8, 5), 8);
    assert_eq!(required_domain_size(9, 5), 16);
    assert_eq!(required_domain_size(5, 7), 8);
    assert_eq!(required_domain_size(5, 8), 16);
}

#[test]
fn registration_errors_name_the_voter() {
    let mut rng = StdRng::seed_from_u64(5);
    let keys = VoterKeys::generate(&mut rng);
    let other = keys.sign_delegation("e1", "A2");
    let e = accept_registration("e1", "A1", "v", &keys.signing.pk, &keys.pkv, &other, &keys.skv)
        .err()
        .unwrap();
    assert_eq!(
        e.to_text(),
        "registration error: invalid delegation signature for voter v to aggregator A1"
    );
    let own = keys.sign_delegation("e1", "A1");
    let e = accept_registration(
        "e1",
        "A1",
        "v",
        &keys.signing.pk,
        &keys.pkv,
        &own,
        &keys.skv.add(Fr::one()),
    )
    .err()
    .unwrap();
    assert_eq!(
        e.to_text(),
        "registration error: voting key mismatch for voter v: skv does not match pkv"
    );
    // A signature that is the neutral element is never valid.
    let zero = SigningKeypair::from_secret(Fr::zero());
    assert!(accept_registration(
        "e1",
        "A1",
        "v",
        &zero.pk,
        &keys.pkv,
        &G1Affine::zero(),
        &keys.skv
    )
    .is_err());
}

#[test]
fn posts_commit_to_all_tokens() {
    let (_, voters, post) = posted(3);
    assert_eq!(post.domain_size, 8);
    assert_eq!(post.pad_count, 5);
    assert_eq!(post.timestamp_unix_ms, 77);
    assert_eq!(sum_tokens(&post.voters, &post.pad_tokens), post.c_commit);
    let bundle = get_or_create_srs(8).unwrap();
    let basis = bundle.lagrange_basis();
    for (i, v) in voters.iter().enumerate() {
        assert_eq!(post.voters[i].idx, i);
        assert_eq!(post.voters[i].tau, basis[i].mul(v.skv));
    }
    // A nonce gives one proof, and a zero nonce too.
    let context = eqlog::EqLogContext {
        election_id: "e1".into(),
        aggregator_id: "A1".into(),
        voter_id: "v0".into(),
        local_index: 0,
        domain_size: 8,
    };
    let (b, v) = (basis[0], &voters[0]);
    let p = eqlog::prove_with_nonce(
        &b,
        &post.voters[0].tau,
        &v.pkv,
        &v.skv,
        &context,
        &Fr::zero(),
    );
    assert!(p.a1.is_zero());
    assert!(eqlog::verify(&b, &post.voters[0].tau, &v.pkv, &p, &context));
}

#[test]
fn validators_find_what_is_wrong_with_a_post() {
    let (e, _, post) = posted(3);
    let find = |post: &FinalizedRegistration, aggregate: bool| {
        validate_finalized_registration(&e, post, aggregate).unwrap().errors
    };
    assert!(find(&post, false).is_empty());

    let (_, _, mut p) = posted(3);
    p.aggregator_id = "B".into();
    assert_eq!(find(&p, false), vec!["unknown aggregator B"]);

    let (_, _, mut p) = posted(3);
    p.domain_size = 16;
    assert_eq!(find(&p, false), vec!["domain size 16 does not match expected 8"]);

    let (_, _, mut p) = posted(3);
    p.pad_count = 4;
    assert_eq!(find(&p, false), vec!["inconsistent registration counts"]);

    let (_, _, mut p) = posted(3);
    p.voters[1].voter_id = "v0".into();
    let errors = find(&p, false);
    assert!(errors.contains(&"duplicate voter v0 in post".to_string()));

    let (_, _, mut p) = posted(3);
    p.voters[1].sigma = p.voters[0].sigma;
    let errors = find(&p, false);
    assert_eq!(
        errors,
        vec![
            "delegation signature invalid for voter v1",
            "aggregate signature does not match individual signatures",
        ]
    );
    let (_, _, mut p) = posted(3);
    p.aggregate_sigma = p.voters[0].sigma;
    assert_eq!(find(&p, true), vec!["aggregate delegation signature invalid"]);

    let (_, _, mut p) = posted(3);
    p.pad_tokens[0] = p.pad_tokens[1];
    assert_eq!(
        find(&p, false),
        vec![
            "padding token 0 does not match derivation",
            "C_commit does not equal the sum of registration tokens",
        ]
    );

    let (_, _, mut p) = posted(3);
    p.c_commit = p.c_commit.add(p.pad_tokens[0]);
    assert_eq!(
        find(&p, false),
        vec!["C_commit does not equal the sum of registration tokens"]
    );

    let (_, _, mut p) = posted(3);
    p.voters[2].eqlog.z = p.voters[2].eqlog.z.add(Fr::one());
    assert_eq!(find(&p, false), vec!["EqLog proof invalid for voter v2"]);
    let (_, _, mut p) = posted(3);
    p.voters[2].idx = 1;
    assert_eq!(
        find(&p, false),
        vec![
            "voter v2 has index 1 but position 2",
            "EqLog proof invalid for voter v2",
        ]
    );
    // An index outside the domain has no token to check a proof against.
    let (_, _, mut p) = posted(3);
    p.voters[2].idx = 99;
    assert_eq!(find(&p, false), vec!["voter v2 has index 99 but position 2"]);
}

#[test]
fn a_voter_in_two_posts_is_reported_once() {
    let (_, _, a) = posted(2);
    let (_, _, b) = posted(1);
    let errors = check_no_duplicate_voters(&vec![&a, &b]);
    assert_eq!(errors, vec!["voter v0 registered under more than one aggregator"]);
    assert!(check_no_duplicate_voters(&vec![&a]).is_empty());
}

fn tally(count: usize, cast: &[(&str, &str)]) -> (ElectionParams, FinalizedRegistration, TallyPost) {
    let (e, voters, post) = posted(count);
    let labels = derive_election_labels("e1", &e.candidate_pairs());
    let t = build_and_prove_tally(&e, &labels, &post, &voters, &votes(cast)).unwrap();
    (e, post, t)
}

#[test]
fn tallies_refuse_unknown_candidates_and_voters() {
    let (e, voters, post) = posted(2);
    let labels = derive_election_labels("e1", &e.candidate_pairs());
    assert_eq!(try_derive_election_labels("e1", &e.candidate_pairs()).unwrap(), labels);
    let err = build_and_prove_tally(&e, &labels, &post, &voters, &votes(&[("v0", "nobody")]))
        .err()
        .unwrap();
    assert_eq!(err.to_text(), "tally error: unknown candidate nobody");
    let err = build_and_prove_tally(&e, &labels, &post, &voters[..1].to_vec(), &votes(&[]))
        .err()
        .unwrap();
    assert_eq!(
        err.to_text(),
        "tally error: aggregator has no private skv for voter v1"
    );
}

#[test]
fn tallies_count_votes_no_votes_and_padding() {
    let (_, post, t) = tally(4, &[("v0", "bob"), ("v2", "bob"), ("v3", "alice")]);
    assert_eq!(t.candidate_counts, vec![1, 2, 0]);
    assert_eq!(t.no_vote_count, 1);
    assert_eq!(t.pad_count, 4);
    assert_eq!(t.sizes, vec![1, 2, 0, 1, 4]);
    assert_eq!(t.label_indices, vec![1, 2, 3, 4, 5]);
    assert_eq!(t.domain_size, post.domain_size);
    assert_eq!(t.proof_size_bytes, t.proof_bytes.len());
}

#[test]
fn changed_tallies_are_rejected_and_not_counted() {
    let (e, post, t) = tally(3, &[("v0", "alice"), ("v1", "alice"), ("v2", "bob")]);
    let labels = derive_election_labels("e1", &e.candidate_pairs());
    let v = verify_aggregator_tally(&e, &labels, &post, &t);
    assert!(v.valid);
    let totals = global_tally(&e, &vec![t.clone()], &vec![v.clone()]);
    assert_eq!(*totals.get("alice").unwrap(), 2);
    assert_eq!(*totals.get("bob").unwrap(), 1);
    assert_eq!(*totals.get("charlie").unwrap(), 0);

    let mut moved = t.clone();
    moved.candidate_counts = vec![3, 0, 0];
    moved.sizes = vec![3, 0, 0, 0, 5];
    let bad = verify_aggregator_tally(&e, &labels, &post, &moved);
    assert_eq!(bad.errors, vec!["EPA proof rejected"]);
    assert!(!bad.valid);
    let totals = global_tally(&e, &vec![moved], &vec![bad]);
    assert_eq!(*totals.get("alice").unwrap(), 0);

    let mut wrong = t.clone();
    wrong.candidate_counts = vec![1, 1, 1];
    let bad = verify_aggregator_tally(&e, &labels, &post, &wrong);
    assert_eq!(bad.errors, vec!["candidate tally does not match partition sizes"]);
    let mut wrong = t.clone();
    wrong.c_commit = G1Affine::zero();
    let bad = verify_aggregator_tally(&e, &labels, &post, &wrong);
    assert_eq!(bad.errors, vec!["posted C_commit does not match registration tokens"]);
    let mut wrong = t.clone();
    wrong.proof_bytes = vec![9];
    let bad = verify_aggregator_tally(&e, &labels, &post, &wrong);
    assert_eq!(
        bad.errors,
        vec!["verification failed: serialization error: unknown EPA proof format version"]
    );
    let mut wrong = t.clone();
    wrong.sizes.pop();
    let bad = verify_aggregator_tally(&e, &labels, &post, &wrong);
    assert!(bad.errors.contains(&"wrong number of partitions".to_string()));
}

fn input(sizes: Vec<usize>, label_indices: Vec<usize>) -> EpaPublicInput {
    EpaPublicInput {
        election_id: "e".into(),
        aggregator_id: "a".into(),
        domain_size: 4,
        commitment_c: G1Affine::zero(),
        labels: vec![Fr::one(); sizes.len()],
        label_indices,
        sizes,
        srs_ref: srs(),
    }
}

fn srs() -> String {
    aggios_core::epa_adapter::srs_ref_for(4)
}

#[test]
fn inputs_of_the_proof_are_checked() {
    let bundle = get_or_create_srs(4).unwrap();
    let witness = |values: usize, parts: Vec<Vec<usize>>| EpaWitness {
        values_by_index: vec![Fr::zero(); values],
        partition_indices: parts,
    };
    let ok = || witness(4, vec![vec![0, 1], vec![2, 3]]);
    let fails = |i: EpaPublicInput, w: EpaWitness| {
        prove(&bundle, &i, &w).err().unwrap().to_text()
    };
    let good = || input(vec![2, 2], vec![1, 2]);

    let mut i = good();
    i.domain_size = 8;
    assert_eq!(
        fails(i, ok()),
        "EPA adapter error: domain_size 8 does not match SRS domain 4"
    );
    let mut i = good();
    i.labels.pop();
    assert_eq!(
        fails(i, ok()),
        "EPA adapter error: labels, label_indices and sizes must have equal length"
    );
    assert_eq!(
        fails(input(vec![], vec![]), ok()),
        "EPA adapter error: at least one partition required"
    );
    assert_eq!(
        fails(input(vec![2, 1], vec![1, 2]), ok()),
        "EPA adapter error: partition sizes sum to 3 but domain size is 4"
    );
    assert_eq!(
        fails(input(vec![2, 2], vec![1, 4]), ok()),
        "EPA adapter error: label index 4 out of range 1..4"
    );
    assert_eq!(
        fails(input(vec![2, 2], vec![1, 1]), ok()),
        "EPA adapter error: duplicate label index 1"
    );
    assert_eq!(
        fails(good(), witness(3, vec![vec![0, 1], vec![2, 3]])),
        "EPA adapter error: witness has 3 values but domain size is 4"
    );
    assert_eq!(
        fails(good(), witness(4, vec![vec![0, 1, 2, 3]])),
        "EPA adapter error: witness partition count does not match public sizes"
    );
    assert_eq!(
        fails(good(), witness(4, vec![vec![0, 1], vec![2]])),
        "EPA adapter error: partition 1 has 1 indices but claimed size 2"
    );
    assert_eq!(
        fails(good(), witness(4, vec![vec![0, 1], vec![1, 3]])),
        "EPA adapter error: index 1 appears twice"
    );
    assert_eq!(
        fails(good(), witness(4, vec![vec![0, 1], vec![2, 9]])),
        "EPA adapter error: index 9 out of domain"
    );
    let mut other = ok();
    other.values_by_index[0] = Fr::one();
    assert_eq!(
        fails(good(), other),
        "EPA adapter error: commitment_c does not match the witness values"
    );

    let proof = prove(&bundle, &good(), &ok()).unwrap().proof;
    assert!(verify(&bundle, &good(), &proof).unwrap().valid);
    // A proof for another number of partitions is not valid.
    let three = input(vec![2, 1, 1], vec![1, 2, 3]);
    assert!(!verify(&bundle, &three, &proof).unwrap().valid);
    assert!(verify(&bundle, &input(vec![2, 1], vec![1, 2]), &proof).is_err());
    let copy = proof.clone();
    assert_eq!(copy.to_bytes().unwrap(), proof.to_bytes().unwrap());
}
