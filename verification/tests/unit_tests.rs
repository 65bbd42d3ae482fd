//! Hashes, labels, and commitments to the Lagrange basis.

use ark_ec::AffineCurve;
use ark_serialize::CanonicalDeserialize;

use aggios_core::domain::{lagrange_basis_commitments, pad_scalar};
use aggios_core::epa::kzg_helpers::g1_commit;
use aggios_core::epa_adapter::get_or_create_srs;
use aggios_core::field::Fr;
use aggios_core::hash::{hash_to_fr, hash_to_g1};
use aggios_core::labels::derive_election_labels;
use aggios_core::poly::DensePolynomial;

#[test]
fn lagrange_commitments_match_direct_kzg_commitments() {
    let n = 8usize;
    let pp = get_or_create_srs(n).expect("srs");
    let basis = lagrange_basis_commitments(&pp.pp.poly_ck.powers_of_g, &pp.pp.domain);
    assert_eq!(basis.len(), n);

    for i in 0..n {
        // The interpolation of the i-th unit vector.
        let mut values = vec![Fr::zero(); n];
        values[i] = Fr::one();
        let l_i = DensePolynomial::interpolate(&values, &pp.pp.domain);
        let direct = g1_commit(&pp.pp.poly_ck, &l_i);
        assert_eq!(basis[i], direct, "Lagrange commitment mismatch at {}", i);
    }
}

#[test]
fn pad_scalars_are_deterministic_and_distinct() {
    let a = pad_scalar("e1", "A1", 0);
    let b = pad_scalar("e1", "A1", 0);
    let c = pad_scalar("e1", "A1", 1);
    let d = pad_scalar("e1", "A2", 0);
    assert_eq!(a, b);
    assert_ne!(a, c);
    assert_ne!(a, d);
}

#[test]
fn hash_to_fr_is_deterministic_and_domain_separated() {
    let a = hash_to_fr(b"SEP_A", &[b"data"]);
    let b = hash_to_fr(b"SEP_A", &[b"data"]);
    let c = hash_to_fr(b"SEP_B", &[b"data"]);
    assert_eq!(a, b);
    assert_ne!(a, c);
}

#[test]
fn length_prefixing_is_injective() {
    // ("ab", "c") must differ from ("a", "bc").
    let a = hash_to_fr(b"SEP", &[b"ab", b"c"]);
    let b = hash_to_fr(b"SEP", &[b"a", b"bc"]);
    assert_ne!(a, b);
}

#[test]
fn hash_to_g1_lands_in_subgroup() {
    let p = hash_to_g1(b"SEP", &[b"message"]);
    let bytes = p.to_uncompressed();
    let point = ark_bls12_381::G1Affine::deserialize_unchecked(&bytes[..]).unwrap();
    assert!(point.is_on_curve());
    assert!(point.is_in_correct_subgroup_assuming_on_curve());
    assert!(!p.is_zero());
    assert!(point != ark_bls12_381::G1Affine::prime_subgroup_generator());
    let q = hash_to_g1(b"SEP", &[b"other message"]);
    assert_ne!(p, q);
}

fn candidates() -> Vec<(String, String)> {
    vec![
        ("c0".into(), "Alice".into()),
        ("c1".into(), "Bob".into()),
        ("c2".into(), "Charlie".into()),
    ]
}

#[test]
fn labels_are_deterministic() {
    let a = derive_election_labels("election-1", &candidates());
    let b = derive_election_labels("election-1", &candidates());
    assert_eq!(a, b);
}

#[test]
fn labels_are_nonzero_and_distinct() {
    let labels = derive_election_labels("election-1", &candidates());
    let all = labels.partition_labels();
    for (i, w) in all.iter().enumerate() {
        assert!(!w.is_zero());
        for w2 in all.iter().skip(i + 1) {
            assert_ne!(w, w2);
        }
    }
}

#[test]
fn labels_depend_on_election_id() {
    let a = derive_election_labels("election-1", &candidates());
    let b = derive_election_labels("election-2", &candidates());
    assert_ne!(a.candidate_labels[0], b.candidate_labels[0]);
    assert_ne!(a.no_vote_label, b.no_vote_label);
    assert_ne!(a.pad_label, b.pad_label);
}
