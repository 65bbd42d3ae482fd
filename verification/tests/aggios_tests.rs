//! The protocol from end to end.

use std::sync::atomic::AtomicBool;

use rand::rngs::StdRng;
use rand::{Rng, SeedableRng};
use rayon::prelude::{IntoParallelIterator, ParallelIterator};

use aggios_core::artifacts::{
    PublicElectionArtifact, RegistrationPostArtifact, TallyPostArtifact,
};
use aggios_core::benchmark::{
    assign_voter, choice_seed, AssignmentStrategy, BenchmarkConfig, BenchmarkResult,
    VoteDistributionKind,
};
use aggios_core::benchmark_engine::run_benchmark;
use aggios_core::bls;
use aggios_core::curve::G1Affine;
use aggios_core::election::{
    default_aggregators, template_candidates, ElectionParams, ElectionTemplate,
};
use aggios_core::epa_adapter::{
    self, get_or_create_srs, EpaProof, EpaPublicInput, EpaWitness, SrsBundle,
};
use aggios_core::error::AggiosError;
use aggios_core::eqlog::{self, EqLogContext};
use aggios_core::field::Fr;
use aggios_core::hash::hash_to_fr;
use aggios_core::labels::derive_election_labels;
use aggios_core::registration::{
    accept_registration, check_no_duplicate_voters, finalize_registration,
    validate_finalized_registration, FinalizedRegistration, RegisteredVoter, VoterKeys,
};
use aggios_core::string_map::StringMap;
use aggios_core::tally::{
    build_and_prove_tally, global_tally, verify_aggregator_tally, TallyPost,
};

fn rng() -> StdRng {
    StdRng::seed_from_u64(7)
}

fn test_election(id: &str, num_candidates: usize) -> ElectionParams {
    let candidates = template_candidates(ElectionTemplate::Representative)
        .into_iter()
        .take(num_candidates)
        .collect();
    ElectionParams::new(
        id.to_string(),
        "Test election".into(),
        "test".into(),
        candidates,
        default_aggregators(),
        1000,
    )
}

fn map_sum(map: &StringMap<usize>) -> usize {
    (0..map.len()).map(|i| *map.value_at(i)).sum()
}

// ---- delegation --------------------------------------------------------------

#[test]
fn bls_valid_signature_verifies_and_wrong_aggregator_fails() {
    let mut rng = rng();
    let keys = bls::SigningKeypair::generate(&mut rng);
    let sigma = bls::sign_delegation(&keys.sk, "e1", "A1");
    assert!(bls::verify_delegation(&sigma, &keys.pk, "e1", "A1"));
    assert!(!bls::verify_delegation(&sigma, &keys.pk, "e1", "A2"));
    assert!(!bls::verify_delegation(&sigma, &keys.pk, "e2", "A1"));
}

#[test]
fn bls_aggregate_signature_verifies_and_wrong_pk_fails() {
    let mut rng = rng();
    let keypairs: Vec<_> = (0..5)
        .map(|_| bls::SigningKeypair::generate(&mut rng))
        .collect();
    let sigmas: Vec<_> = keypairs
        .iter()
        .map(|k| bls::sign_delegation(&k.sk, "e1", "A1"))
        .collect();
    let pks: Vec<_> = keypairs.iter().map(|k| k.pk).collect();

    let agg_sigma = bls::aggregate_signatures(&sigmas);
    assert!(bls::verify_aggregate_delegation(&agg_sigma, &pks, "e1", "A1"));
    assert!(!bls::verify_aggregate_delegation(&agg_sigma, &pks, "e1", "A2"));

    // Swap one key for a fresh one: the aggregate must fail.
    let mut wrong_pks = pks.clone();
    wrong_pks[0] = bls::SigningKeypair::generate(&mut rng).pk;
    assert!(!bls::verify_aggregate_delegation(&agg_sigma, &wrong_pks, "e1", "A1"));
}

// ---- equal logarithms ----------------------------------------------------------

fn context(local_index: usize) -> EqLogContext {
    EqLogContext {
        election_id: "e1".into(),
        aggregator_id: "A1".into(),
        voter_id: "v1".into(),
        local_index,
        domain_size: 8,
    }
}

#[test]
fn eqlog_valid_proof_verifies_and_tampering_fails() {
    let mut rng = rng();
    let bundle = get_or_create_srs(8).unwrap();
    let basis = bundle.lagrange_basis();
    let b = basis[3];

    let skv = Fr::rand(&mut rng);
    let tau = b.mul(skv);
    let pkv = bls::g2_generator().mul(skv);

    let proof = eqlog::prove(&b, &tau, &pkv, &skv, &context(3), &mut rng);
    assert!(eqlog::verify(&b, &tau, &pkv, &proof, &context(3)));

    // A wrong token.
    let wrong_tau = b.mul(Fr::rand(&mut rng));
    assert!(!eqlog::verify(&b, &wrong_tau, &pkv, &proof, &context(3)));

    // A wrong voting key.
    let wrong_pkv = bls::g2_generator().mul(Fr::rand(&mut rng));
    assert!(!eqlog::verify(&b, &tau, &wrong_pkv, &proof, &context(3)));

    // A wrong context.
    assert!(!eqlog::verify(&b, &tau, &pkv, &proof, &context(4)));
}

// ---- the adapter -----------------------------------------------------------------

fn adapter_instance(sizes: Vec<usize>) -> (EpaPublicInput, EpaWitness, SrsBundle) {
    let mut rng = rng();
    let n: usize = sizes.iter().sum();
    assert!(n.is_power_of_two());
    let bundle = get_or_create_srs(n).unwrap();

    // Random token values, arbitrary hash labels.
    let values: Vec<Fr> = (0..n).map(|_| Fr::rand(&mut rng)).collect();
    let mut partitions: Vec<Vec<usize>> = Vec::new();
    let mut next = 0usize;
    for &s in &sizes {
        partitions.push((next..next + s).collect());
        next += s;
    }

    // The commitment is the sum of values times basis points.
    let basis = bundle.lagrange_basis();
    let mut acc = G1Affine::zero();
    for (i, v) in values.iter().enumerate() {
        acc = acc.add(basis[i].mul(*v));
    }

    let labels: Vec<Fr> = (0..sizes.len())
        .map(|j| hash_to_fr(b"TEST_LABEL", &[&(j as u64).to_le_bytes()]))
        .collect();

    let public_input = EpaPublicInput {
        election_id: "adapter-test".into(),
        aggregator_id: "A1".into(),
        domain_size: n,
        commitment_c: acc,
        labels,
        label_indices: EpaPublicInput::canonical_label_indices(sizes.len()),
        sizes,
        srs_ref: bundle.srs_ref.clone(),
    };
    let witness = EpaWitness {
        values_by_index: values,
        partition_indices: partitions,
    };
    (public_input, witness, bundle)
}

#[test]
fn adapter_prove_verify_and_tampering() {
    let (public_input, witness, bundle) = adapter_instance(vec![3, 2, 2, 1]);
    let result = epa_adapter::prove(&bundle, &public_input, &witness).unwrap();
    assert!(result.proof_size_bytes > 0);

    let verification = epa_adapter::verify(&bundle, &public_input, &result.proof).unwrap();
    assert!(verification.valid, "honest proof must verify");

    // Two partition sizes swapped.
    let mut tampered = public_input.clone();
    tampered.sizes = vec![2, 3, 2, 1];
    let v = epa_adapter::verify(&bundle, &tampered, &result.proof).unwrap();
    assert!(!v.valid, "tampered sizes must fail");

    // Another label index.
    let mut tampered = public_input.clone();
    tampered.label_indices = vec![1, 2, 3, 5];
    let v = epa_adapter::verify(&bundle, &tampered, &result.proof).unwrap();
    assert!(!v.valid, "tampered label must fail");

    // Another commitment.
    let mut tampered = public_input.clone();
    tampered.commitment_c = tampered.commitment_c.mul(Fr::from_u64(2));
    let v = epa_adapter::verify(&bundle, &tampered, &result.proof).unwrap();
    assert!(!v.valid, "tampered commitment must fail");
}

#[test]
fn adapter_supports_zero_size_partitions_via_filtering() {
    // A candidate without votes: the sizes contain a 0.
    let (public_input, witness, bundle) = adapter_instance(vec![5, 0, 2, 1]);
    let result = epa_adapter::prove(&bundle, &public_input, &witness).unwrap();
    let verification = epa_adapter::verify(&bundle, &public_input, &result.proof).unwrap();
    assert!(verification.valid);

    // Claiming a size of 1 for the empty partition must fail.
    let mut tampered = public_input.clone();
    tampered.sizes = vec![4, 1, 2, 1];
    let v = epa_adapter::verify(&bundle, &tampered, &result.proof).unwrap();
    assert!(!v.valid);
}

#[test]
fn adapter_single_nonempty_partition() {
    // Everyone in one partition.
    let (public_input, witness, bundle) = adapter_instance(vec![8, 0, 0]);
    match epa_adapter::prove(&bundle, &public_input, &witness) {
        Ok(result) => {
            let verification =
                epa_adapter::verify(&bundle, &public_input, &result.proof).unwrap();
            assert!(verification.valid, "single-partition proof should verify");
        }
        Err(e) => panic!("single nonempty partition unsupported: {}", e.to_text()),
    }
}

#[test]
fn adapter_proof_serialization_round_trip() {
    let (public_input, witness, bundle) = adapter_instance(vec![4, 2, 2]);
    let result = epa_adapter::prove(&bundle, &public_input, &witness).unwrap();

    let bytes = result.proof.to_bytes().unwrap();
    assert_eq!(bytes.len(), result.proof_size_bytes);
    let restored = EpaProof::from_bytes(&bytes).unwrap();
    let verification = epa_adapter::verify(&bundle, &public_input, &restored).unwrap();
    assert!(verification.valid, "deserialized proof must still verify");
}

#[test]
fn proofs_without_their_last_bytes_are_refused() {
    let (public_input, witness, bundle) = adapter_instance(vec![3, 4, 1]);
    let result = epa_adapter::prove(&bundle, &public_input, &witness).unwrap();
    let bytes = result.proof.to_bytes().unwrap();
    let mut lengths: Vec<usize> = (0..bytes.len()).step_by(61).collect();
    lengths.extend([1, 5, bytes.len() - 48, bytes.len() - 1]);
    for k in lengths {
        assert!(matches!(
            EpaProof::from_bytes(&bytes[..k]),
            Err(AggiosError::Serialization(_))
        ));
    }
}

// ---- registration ------------------------------------------------------------------

struct DemoVoter {
    voter_id: String,
    keys: VoterKeys,
}

fn make_voters(n: usize, rng: &mut StdRng) -> Vec<DemoVoter> {
    (0..n)
        .map(|i| DemoVoter {
            voter_id: format!("voter-{}", i),
            keys: VoterKeys::generate(rng),
        })
        .collect()
}

fn register_all(
    election: &ElectionParams,
    aggregator_id: &str,
    voters: &[DemoVoter],
) -> Vec<RegisteredVoter> {
    voters
        .iter()
        .map(|v| {
            let sigma = v.keys.sign_delegation(&election.election_id, aggregator_id);
            accept_registration(
                &election.election_id,
                aggregator_id,
                &v.voter_id,
                &v.keys.signing.pk,
                &v.keys.pkv,
                &sigma,
                &v.keys.skv,
            )
            .unwrap()
        })
        .collect()
}

#[test]
fn registration_valid_accepted_invalid_rejected() {
    let mut rng = rng();
    let election = test_election("reg-test", 3);
    let voters = make_voters(3, &mut rng);

    // Valid registrations are accepted.
    let registered = register_all(&election, "A1", &voters);
    assert_eq!(registered.len(), 3);

    // A delegation that was signed for A2 is rejected by A1.
    let bad_sigma = voters[0].keys.sign_delegation(&election.election_id, "A2");
    let res = accept_registration(
        &election.election_id,
        "A1",
        &voters[0].voter_id,
        &voters[0].keys.signing.pk,
        &voters[0].keys.pkv,
        &bad_sigma,
        &voters[0].keys.skv,
    );
    assert!(res.is_err());

    // A secret that does not match the voting key is rejected.
    let sigma = voters[0].keys.sign_delegation(&election.election_id, "A1");
    let res = accept_registration(
        &election.election_id,
        "A1",
        &voters[0].voter_id,
        &voters[0].keys.signing.pk,
        &voters[0].keys.pkv,
        &sigma,
        &Fr::rand(&mut rng),
    );
    assert!(res.is_err());
}

#[test]
fn registration_duplicate_across_aggregators_detected() {
    let mut rng = rng();
    let election = test_election("dup-test", 3);
    let voters = make_voters(2, &mut rng);

    let reg_a1 = register_all(&election, "A1", &voters);
    let reg_a2 = register_all(&election, "A2", &voters[..1]);

    let (post_a1, _) =
        finalize_registration(&election, "A1", &reg_a1, 0, &mut rng).unwrap();
    let (post_a2, _) =
        finalize_registration(&election, "A2", &reg_a2, 0, &mut rng).unwrap();

    let errors = check_no_duplicate_voters(&vec![&post_a1, &post_a2]);
    assert_eq!(errors.len(), 1);
    assert!(errors[0].contains("voter-0"));
}

#[test]
fn registration_post_validates_and_tampered_eqlog_rejected() {
    let mut rng = rng();
    let election = test_election("val-test", 3);
    let voters = make_voters(5, &mut rng);
    let registered = register_all(&election, "A1", &voters);
    let (mut post, _) =
        finalize_registration(&election, "A1", &registered, 0, &mut rng).unwrap();

    // Both ways of checking the signatures pass.
    assert!(validate_finalized_registration(&election, &post, false)
        .unwrap()
        .ok());
    assert!(validate_finalized_registration(&election, &post, true)
        .unwrap()
        .ok());

    // One response is changed.
    post.voters[2].eqlog.z = post.voters[2].eqlog.z.add(Fr::from_u64(1));
    let report = validate_finalized_registration(&election, &post, false).unwrap();
    assert!(!report.ok());
    assert!(report.errors.iter().any(|e| e.contains("EqLog")));
}

// ---- small elections ------------------------------------------------------------------

/// Runs one aggregator and returns both posts.
fn run_aggregator(
    election: &ElectionParams,
    aggregator_id: &str,
    voters: &[DemoVoter],
    votes: &StringMap<String>,
    rng: &mut StdRng,
) -> (FinalizedRegistration, TallyPost) {
    let registered = register_all(election, aggregator_id, voters);
    let (finalized, _) =
        finalize_registration(election, aggregator_id, &registered, 0, rng).unwrap();
    let report = validate_finalized_registration(election, &finalized, false).unwrap();
    assert!(report.ok(), "registration validation failed: {:?}", report.errors);

    let labels = derive_election_labels(&election.election_id, &election.candidate_pairs());
    let post = build_and_prove_tally(election, &labels, &finalized, &registered, votes).unwrap();
    (finalized, post)
}

fn votes_by(voters: &[DemoVoter], choose: impl Fn(usize) -> String) -> StringMap<String> {
    let mut votes = StringMap::new();
    for (i, v) in voters.iter().enumerate() {
        votes.insert(v.voter_id.clone(), choose(i));
    }
    votes
}

#[test]
fn small_election_9_voters_3_aggregators_3_candidates() {
    let mut rng = rng();
    let election = test_election("small-9", 3);
    let labels = derive_election_labels(&election.election_id, &election.candidate_pairs());
    let candidate_ids: Vec<String> =
        election.candidates.iter().map(|c| c.id.clone()).collect();

    // Voter i of aggregator j votes for candidate (i+j) % 3: one vote each per
    // aggregator, three in all.
    let mut posts = Vec::new();
    let mut verifications = Vec::new();
    for (j, aggregator_id) in ["A1", "A2", "A3"].iter().enumerate() {
        let voters: Vec<DemoVoter> = (0..3)
            .map(|i| DemoVoter {
                voter_id: format!("{}-v{}", aggregator_id, i),
                keys: VoterKeys::generate(&mut rng),
            })
            .collect();
        let votes = votes_by(&voters, |i| candidate_ids[(i + j) % 3].clone());
        let (finalized, post) = run_aggregator(&election, aggregator_id, &voters, &votes, &mut rng);

        let verification = verify_aggregator_tally(&election, &labels, &finalized, &post);
        assert!(verification.valid, "EPA verification failed: {:?}", verification.errors);
        posts.push(post);
        verifications.push(verification);
    }

    let totals = global_tally(&election, &posts, &verifications);
    for id in &candidate_ids {
        assert_eq!(
            *totals.get(id).unwrap(),
            3,
            "candidate {} should have exactly 3 votes",
            id
        );
    }
    // Only votes for candidates are counted: 9 in total.
    assert_eq!(map_sum(&totals), 9);
}

#[test]
fn padding_5_voters_domain_8_excludes_pad() {
    let mut rng = rng();
    let election = test_election("pad-test", 3);
    let labels = derive_election_labels(&election.election_id, &election.candidate_pairs());
    let voters = make_voters(5, &mut rng);
    let votes = votes_by(&voters, |_| election.candidates[0].id.clone());

    let (finalized, post) = run_aggregator(&election, "A1", &voters, &votes, &mut rng);
    assert_eq!(finalized.domain_size, 8, "5 partitions + 5 voters -> domain 8");
    assert_eq!(finalized.pad_count, 3);
    assert_eq!(post.pad_count, 3);

    let verification = verify_aggregator_tally(&election, &labels, &finalized, &post);
    assert!(verification.valid, "{:?}", verification.errors);

    // The final tally does not count padding.
    let totals = global_tally(&election, &vec![post.clone()], &vec![verification]);
    assert_eq!(map_sum(&totals), 5);
    assert_eq!(*totals.get(&election.candidates[0].id).unwrap(), 5);
}

#[test]
fn no_vote_registered_voter_goes_to_no_vote_partition() {
    let mut rng = rng();
    let election = test_election("novote-test", 3);
    let labels = derive_election_labels(&election.election_id, &election.candidate_pairs());
    let voters = make_voters(4, &mut rng);

    // The last voter registers but does not vote.
    let votes = votes_by(&voters[..3], |_| election.candidates[1].id.clone());

    let (finalized, post) = run_aggregator(&election, "A1", &voters, &votes, &mut rng);
    assert_eq!(post.no_vote_count, 1);

    let verification = verify_aggregator_tally(&election, &labels, &finalized, &post);
    assert!(verification.valid, "{:?}", verification.errors);

    let totals = global_tally(&election, &vec![post.clone()], &vec![verification]);
    // The final tally does not count those who did not vote.
    assert_eq!(map_sum(&totals), 3);
    assert_eq!(*totals.get(&election.candidates[1].id).unwrap(), 3);
}

// ---- artifacts ---------------------------------------------------------------------------

#[test]
fn serialization_round_trips_and_verification_still_succeeds() {
    let mut rng = rng();
    let election = test_election("ser-test", 3);
    let labels = derive_election_labels(&election.election_id, &election.candidate_pairs());

    let restored = election.clone();
    assert_eq!(election, restored);

    let voters = make_voters(4, &mut rng);
    let votes = votes_by(&voters, |i| election.candidates[i % 3].id.clone());
    let (finalized, post) = run_aggregator(&election, "A2", &voters, &votes, &mut rng);

    // The registration post, through its artifact.
    let artifact = RegistrationPostArtifact::from_post(&finalized);
    let artifact2 = artifact.clone();
    assert_eq!(artifact, artifact2);
    let finalized2 = artifact2.to_post().unwrap();
    assert!(validate_finalized_registration(&election, &finalized2, false)
        .unwrap()
        .ok());

    // The tally post with its proof, through its artifact; then verification
    // against the registration post that was read back.
    let tally_artifact = TallyPostArtifact::from_post(&post);
    let tally_artifact2 = tally_artifact.clone();
    assert_eq!(tally_artifact, tally_artifact2);
    let post2 = tally_artifact2.to_post().unwrap();

    let verification = verify_aggregator_tally(&election, &labels, &finalized2, &post2);
    assert!(verification.valid, "{:?}", verification.errors);
}

// ---- benchmarks ----------------------------------------------------------------------------

fn normalized(weights: Vec<f64>) -> Vec<f64> {
    let total: f64 = weights.iter().sum();
    weights.into_iter().map(|w| w / total).collect()
}

fn sample(weights: &[f64], x: f64) -> usize {
    let mut acc = 0.0;
    for (i, w) in weights.iter().enumerate() {
        acc += w;
        if x < acc {
            return i;
        }
    }
    weights.len() - 1
}

/// Two numbers from 0 to before 1, drawn from a generator with a seed.
fn drawn(seed: u64) -> (f64, f64) {
    let mut rng = StdRng::seed_from_u64(seed);
    (rng.gen(), rng.gen())
}

fn run(config: &BenchmarkConfig, candidates: usize) -> BenchmarkResult {
    let aggregators = normalized(match config.assignment {
        AssignmentStrategy::Skewed => vec![80.0, 15.0, 5.0],
        _ => vec![1.0; config.aggregators],
    });
    let votes = normalized(match config.vote_distribution {
        VoteDistributionKind::Skewed => {
            (0..candidates).map(|j| 1.0 / (1u64 << j) as f64).collect()
        }
        _ => vec![1.0; candidates],
    });
    // Every voter draws from a generator of their own, so the draws of all of
    // them can be made side by side.
    let choices: Vec<(usize, usize)> = (0..config.voters)
        .into_par_iter()
        .map(|i| {
            let (x, y) = drawn(choice_seed(config.seed, i));
            (sample(&aggregators, x), sample(&votes, y))
        })
        .collect();
    let assign = |i: usize| assign_voter(config, i, choices[i].0, choices[i].1);
    let cancel = AtomicBool::new(false);
    run_benchmark(
        config,
        &assign,
        &|_e| {},
        &cancel,
        &|a: &PublicElectionArtifact| a.tally_posts.len(),
        &|| None,
    )
}

#[test]
fn benchmark_n100_real_crypto_completes() {
    let config = BenchmarkConfig {
        voters: 100,
        aggregators: 3,
        template: ElectionTemplate::Representative,
        assignment: AssignmentStrategy::Uniform,
        vote_distribution: VoteDistributionKind::Uniform,
        seed: 42,
        real_crypto: true,
        ..Default::default()
    };
    let result = run(&config, 3);
    assert!(result.success, "benchmark failed: {:?}", result.error);
    assert!(result.tally_matches_expected);
    assert_eq!(result.voter_count, 100);
    assert_eq!(map_sum(&result.candidate_tally), 100, "all 100 votes counted");
    assert!(result.per_aggregator.iter().all(|a| a.verified));
    assert_eq!(result.public_artifact_size_bytes, 3);
}

#[test]
fn benchmark_1e6_simulation_streams_without_storing_voters() {
    // A simulation of 10^6 voters only counts.
    let config = BenchmarkConfig {
        voters: 1_000_000,
        aggregators: 3,
        template: ElectionTemplate::CrimeReform,
        assignment: AssignmentStrategy::Skewed,
        vote_distribution: VoteDistributionKind::Skewed,
        seed: 42,
        real_crypto: false,
        ..Default::default()
    };
    let result = run(&config, 4);
    assert!(result.success);
    assert!(result.mode.contains("NON-CRYPTOGRAPHIC"));
    assert_eq!(result.voters_per_aggregator.iter().sum::<usize>(), 1_000_000);
    // 80/15/5.
    assert!(result.voters_per_aggregator[0] > 750_000);
    assert_eq!(map_sum(&result.expected_tally), 1_000_000);
}
