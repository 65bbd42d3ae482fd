//! Texts, maps, errors and artifacts.

use aggios_core::artifacts::{
    fr_from_hex, fr_to_hex, g1_from_hex, g1_to_hex, g2_from_hex, g2_to_hex, EqLogProofArtifact,
    VerificationArtifact,
};
use aggios_core::bls::g2_generator;
use aggios_core::clock::{now_ms, stamp};
use aggios_core::election::{
    default_aggregators, template_candidates, template_title, Candidate, ElectionParams,
    ElectionPhase, ElectionTemplate,
};
use aggios_core::curve::{G1Affine, G2Affine};
use aggios_core::epa_adapter::{srs_ref_for, EpaProof};
use aggios_core::eqlog::EqLogProof;
use aggios_core::error::AggiosError;
use aggios_core::field::Fr;
use aggios_core::hash::hash_to_g1;
use aggios_core::proof_bytes::{read_one, read_vec, write_point, write_vec};
use aggios_core::sorting::{sorted_copy, sorted_range};
use aggios_core::string_map::StringMap;
use aggios_core::tally::AggregatorVerification;
use aggios_core::text::{
    cat2, cat4, clone_texts, contains_text, decimal_text, push_hexadecimal, same_text,
    wide_decimal_text,
};

#[test]
fn numbers_as_text() {
    assert_eq!(decimal_text(0), "0");
    assert_eq!(decimal_text(1_000_203), "1000203");
    assert_eq!(decimal_text(u64::MAX), "18446744073709551615");
    assert_eq!(wide_decimal_text(u128::MAX), u128::MAX.to_string());
    let mut s = String::new();
    push_hexadecimal(&mut s, 0xab, 4);
    assert_eq!(s, "00ab");
    let mut s = String::new();
    push_hexadecimal(&mut s, 0x12345, 4);
    assert_eq!(s, "12345");
    assert_eq!(cat2("a", "b"), "ab");
    assert_eq!(cat4("a", "b", "c", "d"), "abcd");
    assert!(same_text("x", "x"));
    assert!(!same_text("x", "y"));
    let list = vec!["a".to_string(), "b".to_string()];
    assert!(contains_text(&list, "b"));
    assert!(!contains_text(&list, "c"));
    assert_eq!(clone_texts(&list), list);
}

#[test]
fn maps_keep_the_order_of_their_keys() {
    let mut m: StringMap<usize> = StringMap::new();
    m.insert("b".into(), 1);
    m.insert("a".into(), 2);
    m.insert("b".into(), 3);
    assert_eq!(m.len(), 2);
    assert_eq!(m.key_at(0), "b");
    assert_eq!(*m.value_at(0), 3);
    assert_eq!(*m.get("a").unwrap(), 2);
    assert!(m.get("c").is_none());
    assert!(m.contains_key("a"));
    *m.get_mut("a").unwrap() = 7;
    assert_eq!(*m.get("a").unwrap(), 7);
    let copy = m.copy_counts();
    assert!(copy.same_counts(&m));
    m.insert("c".into(), 0);
    assert!(!copy.same_counts(&m));
}

#[test]
fn lists_are_sorted() {
    assert_eq!(sorted_copy(&vec![3, 1, 2, 1]), vec![1, 1, 2, 3]);
    assert_eq!(sorted_copy(&vec![]), Vec::<usize>::new());
    assert_eq!(sorted_range(&vec![9, 5, 4, 3, 0], 1, 4), vec![3, 4, 5]);
}

#[test]
fn errors_show_their_kind() {
    let m = || "m".to_string();
    assert_eq!(AggiosError::Domain(m()).to_text(), "domain error: m");
    assert_eq!(AggiosError::Epa(m()).to_text(), "EPA adapter error: m");
    assert_eq!(AggiosError::Registration(m()).to_text(), "registration error: m");
    assert_eq!(AggiosError::Tally(m()).to_text(), "tally error: m");
    assert_eq!(AggiosError::Verification(m()).to_text(), "verification error: m");
    assert_eq!(AggiosError::Serialization(m()).to_text(), "serialization error: m");
    assert_eq!(AggiosError::Benchmark(m()).to_text(), "benchmark error: m");
}

#[test]
fn values_are_read_back_from_hexadecimal_text() {
    let x = Fr::from_u64(0xab);
    assert_eq!(&fr_to_hex(&x)[..4], "ab00");
    assert_eq!(fr_from_hex(&fr_to_hex(&x)).unwrap(), x);
    let p = hash_to_g1(b"SEP", &[b"p"]);
    assert_eq!(g1_to_hex(&p).len(), 96);
    assert_eq!(g1_from_hex(&g1_to_hex(&p)).unwrap(), p);
    let q = g2_generator().mul(x);
    assert_eq!(g2_to_hex(&q).len(), 192);
    assert_eq!(g2_from_hex(&g2_to_hex(&q)).unwrap(), q);
    assert!(fr_from_hex("zz").is_err());
    assert!(fr_from_hex("abc").is_err());
    assert!(g1_from_hex("ab").is_err());
    let e = fr_from_hex("zz").err().unwrap();
    assert_eq!(
        e.to_text(),
        "serialization error: Invalid character 'z' at position 0"
    );

    let proof = EqLogProof { a1: p, a2: q, z: x };
    let artifact = EqLogProofArtifact::from_proof(&proof);
    assert_eq!(artifact.to_proof().unwrap(), proof);
    let broken = EqLogProofArtifact { a2: String::new(), ..artifact };
    assert!(broken.to_proof().is_err());
}

#[test]
fn proofs_with_another_version_are_refused() {
    let e = EpaProof::from_bytes(&[]).err().unwrap();
    assert_eq!(e.to_text(), "serialization error: unknown EPA proof format version");
    let e = EpaProof::from_bytes(&[2]).err().unwrap();
    assert_eq!(e.to_text(), "serialization error: unknown EPA proof format version");
    let e = EpaProof::from_bytes(&[1, 0, 0]).err().unwrap();
    assert_eq!(e.to_text(), "serialization error: truncated proof");
    let e = EpaProof::from_bytes(&[1, 0, 0, 0, 2]).err().unwrap();
    assert_eq!(e.to_text(), "serialization error: implausible vector length");
}

#[test]
fn verification_artifacts_hold_the_verdict() {
    let v = AggregatorVerification {
        aggregator_id: "A1".into(),
        valid: false,
        errors: vec!["wrong".into()],
        verification_time_ms: (1u128 << 64) + 5,
    };
    let a = VerificationArtifact::from_verification("e1", &v);
    assert_eq!(a.version, 1);
    assert_eq!(a.object_type, "aggios_verification_result");
    assert_eq!(a.curve, "epa-kzg10-bls12-381-arkworks-0.3");
    assert_eq!(a.election_id, "e1");
    assert_eq!(a.aggregator_id, "A1");
    assert!(!a.valid);
    assert_eq!(a.errors, vec!["wrong".to_string()]);
    assert_eq!(a.verification_time_ms, 5);
}

#[test]
fn elections_and_templates() {
    let e = ElectionParams::new(
        "id".into(),
        "title".into(),
        "text".into(),
        vec![Candidate { id: "a".into(), name: "Ann".into() }],
        default_aggregators(),
        12,
    );
    assert_eq!(e.version, 1);
    assert_eq!(e.object_type, "aggios_election_params");
    assert_eq!(e.curve, "epa-kzg10-bls12-381-arkworks-0.3");
    assert_eq!(e.aggregators, vec!["A1", "A2", "A3"]);
    assert_eq!(e.max_voters, 12);
    assert_eq!(
        e.srs_ref,
        "epa-kzg10-bls12-381;deterministic-test-rng;n=per-aggregator"
    );
    assert_eq!(e.phase, ElectionPhase::Setup);
    assert_eq!(e.num_partitions(), 3);
    assert_eq!(e.candidate_pairs(), vec![("a".to_string(), "Ann".to_string())]);
    assert_eq!(template_candidates(ElectionTemplate::CrimeReform).len(), 4);
    assert_eq!(template_candidates(ElectionTemplate::Representative)[2].id, "charlie");
    assert!(template_candidates(ElectionTemplate::Custom).is_empty());
    assert_eq!(template_title(ElectionTemplate::Custom), "Custom election");
    assert_eq!(
        srs_ref_for(16),
        "epa-kzg10-bls12-381-arkworks-0.3;deterministic-test-rng;n=16"
    );
}

#[test]
fn time_stamps_lose_what_exceeds_64_bits() {
    assert_eq!(stamp(None), 0);
    assert_eq!(stamp(Some(17)), 17);
    assert_eq!(stamp(Some((1u128 << 64) + 2)), 2);
    assert!(now_ms() > 1_600_000_000_000);
}

#[test]
fn lists_of_points_are_read_back() {
    let p = hash_to_g1(b"SEP", &[b"p"]);
    let q = g2_generator();
    let mut bytes = Vec::new();
    write_vec(&mut bytes, &vec![p, p.add(p)]);
    write_point(&mut bytes, &q);
    assert_eq!(&bytes[..4], &[2, 0, 0, 0]);
    assert_eq!(bytes.len(), 4 + 2 * 48 + 96);
    let (list, end): (Vec<G1Affine>, usize) = read_vec(&bytes, 0).unwrap();
    assert_eq!(list, vec![p, p.add(p)]);
    assert_eq!(end, 100);
    let (point, end): (G2Affine, usize) = read_one(&bytes, end).unwrap();
    assert_eq!(point, q);
    assert_eq!(end, bytes.len());
    assert!(read_one::<G2Affine>(&bytes, end).is_err());
}
