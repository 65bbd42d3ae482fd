//! Scalars, points, pairings and hashes against their definitions.

use ark_ec::{AffineCurve, ProjectiveCurve};
use ark_ff::PrimeField;
use ark_serialize::{CanonicalDeserialize, CanonicalSerialize};
use rand::rngs::StdRng;
use rand::SeedableRng;
use sha2::{Digest, Sha512};

use aggios_core::bls::{
    aggregate_public_keys, delegation_message_hash, g2_generator, try_delegation_message_hash,
    SigningKeypair,
};
use aggios_core::curve::{pairing_product_is_one, pairings_equal, G1Affine, G2Affine};
use aggios_core::domain::{next_power_of_two, pad_scalar};
use aggios_core::epa::kzg_helpers::{
    g1_commit, g1_commit_sparse, g2_commit, g2_commit_sparse, setup_params,
};
use aggios_core::epa::structs::AggiosTranscript;
use aggios_core::epa_adapter::get_or_create_srs;
use aggios_core::eqlog::{self, EqLogContext};
use aggios_core::field::Fr;
use aggios_core::hash::{canonical_bytes, hash_to_fr, hash_to_g1, try_hash_to_g1};
use aggios_core::registration::VoterKeys;
use aggios_core::poly::{exact_log2, DensePolynomial, GeneralEvaluationDomain};

fn fr(n: u64) -> Fr {
    Fr::from_u64(n)
}

fn ark_fr(x: &Fr) -> ark_bls12_381::Fr {
    ark_bls12_381::Fr::deserialize(&x.to_bytes()[..]).unwrap()
}

fn ark_g1(p: &G1Affine) -> ark_bls12_381::G1Affine {
    ark_bls12_381::G1Affine::deserialize(&p.to_bytes()[..]).unwrap()
}

#[test]
fn scalars_add_multiply_and_invert() {
    assert_eq!(fr(2).add(fr(3)), fr(5));
    assert_eq!(fr(7).sub(fr(3)), fr(4));
    assert_eq!(fr(6).mul(fr(7)), fr(42));
    assert_eq!(fr(3).neg().add(fr(3)), Fr::zero());
    assert_eq!(fr(3).pow(5), fr(243));
    assert_eq!(fr(9).inverse().unwrap().mul(fr(9)), Fr::one());
    assert!(Fr::zero().inverse().is_none());
    assert!(Fr::zero().is_zero());
    assert!(!Fr::one().is_zero());
    assert_ne!(fr(1), fr(2));
}

#[test]
fn scalars_are_encoded_least_significant_byte_first() {
    let bytes = fr(0x0102).to_bytes();
    assert_eq!(bytes.len(), 32);
    assert_eq!(&bytes[..3], &[2, 1, 0]);
    assert_eq!(Fr::from_bytes(&bytes).unwrap(), fr(0x0102));
    assert!(Fr::from_bytes(&[0xff; 32]).is_err());
    assert!(Fr::from_bytes(&[1, 2]).is_err());
    // 2^256 = 65536 * 2^240, reduced.
    let mut long = [0u8; 33];
    long[32] = 1;
    let reduced = Fr::from_le_bytes_mod_order(&long);
    assert_eq!(
        ark_fr(&reduced),
        ark_bls12_381::Fr::from_le_bytes_mod_order(&long)
    );
}

#[test]
fn drawn_scalars_are_those_of_the_generator() {
    let mut a = StdRng::seed_from_u64(3);
    let mut b = StdRng::seed_from_u64(3);
    let x = Fr::rand(&mut a);
    let y = Fr::rand(&mut a);
    let expected: ark_bls12_381::Fr = ark_ff::UniformRand::rand(&mut b);
    assert_eq!(ark_fr(&x), expected);
    assert_ne!(x, y);
}

#[test]
fn keys_and_nonces_are_the_next_scalars() {
    let mut a = StdRng::seed_from_u64(9);
    let mut b = StdRng::seed_from_u64(9);
    let keys = VoterKeys::generate(&mut a);
    assert_eq!(keys.signing.sk, Fr::rand(&mut b));
    assert_eq!(keys.skv, Fr::rand(&mut b));
    let context = EqLogContext {
        election_id: "e".into(),
        aggregator_id: "a".into(),
        voter_id: "v".into(),
        local_index: 0,
        domain_size: 8,
    };
    let base = hash_to_g1(b"SEP", &[b"base"]);
    let tau = base.mul(keys.skv);
    let p = eqlog::prove(&base, &tau, &keys.pkv, &keys.skv, &context, &mut a);
    let nonce = Fr::rand(&mut b);
    let q = eqlog::prove_with_nonce(&base, &tau, &keys.pkv, &keys.skv, &context, &nonce);
    assert_eq!(p, q);
    assert_eq!(Fr::rand(&mut a), Fr::rand(&mut b));
}

#[test]
fn points_of_the_first_group_form_a_group() {
    let h = hash_to_g1(b"SEP", &[b"base"]);
    assert_eq!(h.add(h), h.mul(fr(2)));
    assert_eq!(h.mul(fr(5)).sub(h.mul(fr(3))), h.mul(fr(2)));
    assert_eq!(h.add(G1Affine::zero()), h);
    assert!(h.mul(Fr::zero()).is_zero());
    assert!(!h.is_zero());
    let expected = ark_g1(&h).mul(ark_fr(&fr(11))).into_affine();
    assert_eq!(ark_g1(&h.mul(fr(11))), expected);
    let bytes = h.to_bytes();
    assert_eq!(bytes.len(), 48);
    assert_eq!(G1Affine::from_bytes(&bytes).unwrap(), h);
    assert!(G1Affine::from_bytes(&bytes[..47]).is_err());
    assert_eq!(h.to_uncompressed().len(), 96);
}

#[test]
fn points_of_the_second_group_form_a_group() {
    let g = G2Affine::generator();
    assert_eq!(g, g2_generator());
    assert_eq!(g.add(g), g.mul(fr(2)));
    assert_eq!(g.add(G2Affine::zero()), g);
    assert!(g.mul(Fr::zero()).is_zero());
    assert!(!g.is_zero());
    let mut expected = Vec::new();
    ark_bls12_381::G2Affine::prime_subgroup_generator()
        .mul(ark_fr(&fr(4)))
        .into_affine()
        .serialize(&mut expected)
        .unwrap();
    assert_eq!(g.mul(fr(4)).to_bytes(), expected);
    assert_eq!(G2Affine::from_bytes(&expected).unwrap(), g.mul(fr(4)));
    assert!(G2Affine::from_bytes(&expected[..90]).is_err());
    assert_eq!(g.to_uncompressed().len(), 192);
}

#[test]
fn pairings_are_bilinear() {
    let h = hash_to_g1(b"SEP", &[b"pairing"]);
    let g = g2_generator();
    assert!(pairings_equal(&h.mul(fr(2)), &g.mul(fr(3)), &h.mul(fr(6)), &g));
    assert!(!pairings_equal(&h.mul(fr(2)), &g.mul(fr(3)), &h.mul(fr(5)), &g));
    let balanced = vec![
        (h.mul(fr(2)), g.mul(fr(3))),
        (h.mul(fr(6).neg()), g),
    ];
    assert!(pairing_product_is_one(&balanced));
    assert!(!pairing_product_is_one(&vec![(h, g)]));
    assert!(pairing_product_is_one(&vec![]));
}

fn framed(sep: &[u8], parts: &[&[u8]]) -> Sha512 {
    let mut hasher = Sha512::new();
    hasher.update((sep.len() as u64).to_le_bytes());
    hasher.update(sep);
    for part in parts {
        hasher.update((part.len() as u64).to_le_bytes());
        hasher.update(part);
    }
    hasher
}

#[test]
fn hash_to_fr_reduces_the_digest_of_the_framed_parts() {
    let digest = framed(b"SEP", &[b"ab", b""]).finalize();
    let expected = ark_bls12_381::Fr::from_le_bytes_mod_order(&digest);
    assert_eq!(ark_fr(&hash_to_fr(b"SEP", &[b"ab", b""])), expected);
    let pad = hash_to_fr(b"AGGIOS_PAD_TOKEN", &[b"e1", b"A1", &3u64.to_le_bytes()]);
    assert_eq!(pad_scalar("e1", "A1", 3), pad);
}

#[test]
fn hash_to_g1_takes_the_first_counter_that_gives_a_point() {
    let mut counter = 0u64;
    let expected = loop {
        let mut hasher = framed(b"SEP", &[b"message"]);
        hasher.update(b"AGGIOS_H2C_CTR");
        hasher.update(counter.to_le_bytes());
        let digest = hasher.finalize();
        if let Some(point) = ark_bls12_381::G1Affine::from_random_bytes(&digest[..48]) {
            break point.mul_by_cofactor();
        }
        counter += 1;
    };
    let p = hash_to_g1(b"SEP", &[b"message"]);
    assert_eq!(ark_g1(&p), expected);
    assert_eq!(try_hash_to_g1(b"SEP", &[b"message"]).unwrap(), p);
    let parts: [&[u8]; 2] = [b"e1", b"A1"];
    assert_eq!(
        delegation_message_hash("e1", "A1"),
        hash_to_g1(b"AGGIOS_DELEGATION", &parts)
    );
    assert_eq!(
        try_delegation_message_hash("e1", "A1").unwrap(),
        delegation_message_hash("e1", "A1")
    );
}

#[test]
fn canonical_bytes_are_the_compressed_encodings() {
    assert_eq!(canonical_bytes(&fr(1)).len(), 32);
    assert_eq!(canonical_bytes(&G1Affine::zero()).len(), 48);
    assert_eq!(canonical_bytes(&g2_generator()), g2_generator().to_bytes());
}

#[test]
fn keys_and_sums_of_keys() {
    let a = SigningKeypair::from_secret(fr(2));
    let b = SigningKeypair::from_secret(fr(3));
    assert_eq!(a.pk, g2_generator().mul(fr(2)));
    assert_eq!(aggregate_public_keys(&vec![a.pk, b.pk]), g2_generator().mul(fr(5)));
    assert!(aggregate_public_keys(&vec![]).is_zero());
}

#[test]
fn context_parts_are_texts_and_numbers() {
    let context = EqLogContext {
        election_id: "e".into(),
        aggregator_id: "a".into(),
        voter_id: "v".into(),
        local_index: 3,
        domain_size: 8,
    };
    let parts = context.parts();
    assert_eq!(parts.len(), 5);
    assert_eq!(parts[0], b"e".to_vec());
    assert_eq!(parts[2], b"v".to_vec());
    assert_eq!(parts[3], 3u64.to_le_bytes().to_vec());
    assert_eq!(parts[4], 8u64.to_le_bytes().to_vec());
}

#[test]
fn transcripts_give_the_challenges_of_merlin() {
    let mut ours = AggiosTranscript::new();
    ours.append_element(b"x", &fr(5));
    let c = ours.get_and_append_challenge(b"chi");
    let d = ours.get_and_append_challenge(b"chi");

    let mut theirs = merlin::Transcript::new(b"Init Aggios transcript");
    theirs.append_message(b"x", &fr(5).to_bytes());
    let mut bytes = [0u8; 64];
    theirs.challenge_bytes(b"chi", &mut bytes);
    let expected = ark_bls12_381::Fr::from_le_bytes_mod_order(&bytes);
    assert_eq!(ark_fr(&c), expected);
    theirs.append_message(b"append_challenge", &c.to_bytes());
    theirs.challenge_bytes(b"chi", &mut bytes);
    assert_eq!(ark_fr(&d), ark_bls12_381::Fr::from_le_bytes_mod_order(&bytes));
}

#[test]
fn powers_of_two() {
    assert_eq!(next_power_of_two(0), 1);
    assert_eq!(next_power_of_two(5), 8);
    assert_eq!(next_power_of_two(8), 8);
    assert_eq!(exact_log2(8), Some(3));
    assert_eq!(exact_log2(6), None);
    assert_eq!(exact_log2(0), None);
}

#[test]
fn domains_are_roots_of_unity() {
    assert!(GeneralEvaluationDomain::new(6).is_none());
    let domain = GeneralEvaluationDomain::new(8).unwrap();
    assert_eq!(domain.size(), 8);
    assert_eq!(domain.log_size(), 3);
    assert_eq!(domain.element(0), Fr::one());
    let w = domain.element(1);
    assert_eq!(w.pow(8), Fr::one());
    assert_eq!(w.pow(4), Fr::one().neg());
    assert_eq!(domain.element(3), w.pow(3));
}

#[test]
fn polynomials_add_multiply_and_interpolate() {
    let p = DensePolynomial::from_coefficients_vec(vec![fr(1), fr(2)]);
    let q = DensePolynomial::from_coefficients_vec(vec![fr(3), fr(4), Fr::zero()]);
    assert_eq!(q.degree(), 1);
    assert_eq!(p.add(&q).coeffs, vec![fr(4), fr(6)]);
    assert_eq!(q.sub(&p).coeffs, vec![fr(2), fr(2)]);
    assert_eq!(p.mul(&q).coeffs, vec![fr(3), fr(10), fr(8)]);
    assert_eq!(p.scale(fr(5)).coeffs, vec![fr(5), fr(10)]);
    assert!(DensePolynomial::zero().is_zero());
    assert_eq!(DensePolynomial::constant(fr(7)).coeffs, vec![fr(7)]);

    let domain = GeneralEvaluationDomain::new(4).unwrap();
    let vals = vec![fr(3), fr(1), fr(4), fr(1)];
    let r = DensePolynomial::interpolate(&vals, &domain);
    for i in 0..4 {
        let x = domain.element(i);
        let mut value = Fr::zero();
        for c in r.coeffs.iter().rev() {
            value = value.mul(x).add(*c);
        }
        assert_eq!(value, vals[i]);
    }
}

#[test]
fn commitments_are_sums_of_powers() {
    assert!(setup_params(0).is_err());
    let bundle = get_or_create_srs(4).unwrap();
    let powers = &bundle.pp.poly_ck.powers_of_g;
    assert_eq!(powers.len(), 5);
    let p = DensePolynomial::from_coefficients_vec(vec![fr(2), Fr::zero(), fr(3)]);
    let expected = powers[0].mul(fr(2)).add(powers[2].mul(fr(3)));
    assert_eq!(g1_commit(&bundle.pp.poly_ck, &p), expected);
    let sparse = vec![(0usize, fr(2)), (2usize, fr(3))];
    assert_eq!(g1_commit_sparse(&bundle.pp.poly_ck, &sparse), expected);
    let g2 = &bundle.pp.g2_powers;
    let expected = g2[0].mul(fr(2)).add(g2[2].mul(fr(3)));
    assert_eq!(g2_commit(g2, &p), expected);
    assert_eq!(g2_commit_sparse(g2, &sparse), expected);
    // The powers of both groups belong to one secret.
    assert!(pairings_equal(&powers[1], &g2[0], &powers[0], &g2[1]));
    assert!(!pairings_equal(&powers[2], &g2[0], &powers[0], &g2[1]));
}

#[test]
fn parameters_are_the_same_each_time() {
    let a = get_or_create_srs(8).unwrap();
    let b = get_or_create_srs(8).unwrap();
    assert_eq!(a.domain_size(), 8);
    assert_eq!(a.srs_ref, "epa-kzg10-bls12-381-arkworks-0.3;deterministic-test-rng;n=8");
    assert_eq!(a.pp.poly_ck.powers_of_g, b.pp.poly_ck.powers_of_g);
    assert_eq!(a.lagrange_basis(), b.lagrange_basis());
    let e = get_or_create_srs(6).err().unwrap();
    assert_eq!(
        e.to_text(),
        "domain error: EPA requires a power-of-two domain size, got 6"
    );
}
