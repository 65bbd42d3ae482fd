//! The proof of partition by itself, and random votes.

use rand::rngs::StdRng;
use rand::SeedableRng;

use aggios_core::epa::fast_div::{div_rem, poly_div};
use aggios_core::epa::prover::{
    complete_blinders, create_vanishing_poly_opt, create_vanishing_poly_recursive, generate_proof,
};
use aggios_core::epa::random_votes::{
    cut_permutation, get_permutation, get_random_votes, next_count,
};
use aggios_core::epa::structs::{CommonInputs, Witness};
use aggios_core::epa::utils::{concat_to_static, get_challenges, saved_proof};
use aggios_core::epa::verify::verify_proof;
use aggios_core::epa::kzg_helpers::g1_commit;
use aggios_core::epa_adapter::get_or_create_srs;
use aggios_core::field::Fr;
use aggios_core::poly::{DensePolynomial, GeneralEvaluationDomain};

#[test]
fn labels_get_their_number() {
    assert_eq!(concat_to_static(b"chi", 12), b"chi12");
    assert_eq!(concat_to_static(b"", 0), b"0");
}

#[test]
fn permutations_hold_each_index_once() {
    let mut rng = StdRng::seed_from_u64(1);
    let p = get_permutation(20, &mut rng);
    let mut sorted = p.clone();
    sorted.sort();
    assert_eq!(sorted, (0..20).collect::<Vec<usize>>());
    assert_ne!(p, sorted);
    assert!(get_permutation(0, &mut rng).is_empty());
}

#[test]
fn permutations_are_cut_at_the_separators() {
    let order = vec![3, 1, 2, 0, 4];
    assert_eq!(
        cut_permutation(&order, &vec![4, 2, 2]),
        vec![vec![1, 3], vec![0, 2], vec![4]]
    );
    assert_eq!(cut_permutation(&order, &vec![]), vec![vec![0, 1, 2, 3, 4]]);
}

#[test]
fn random_votes_are_a_partition() {
    let subsets = get_random_votes(64, 5);
    assert!(subsets.len() <= 5);
    assert!(subsets.len() > 1);
    let mut all: Vec<usize> = subsets.iter().flatten().copied().collect();
    for s in &subsets {
        assert!(!s.is_empty());
        assert!(s.windows(2).all(|w| w[0] < w[1]));
    }
    all.sort();
    assert_eq!(all, (0..64).collect::<Vec<usize>>());
    assert_eq!(get_random_votes(64, 5), subsets);
}

#[test]
fn more_candidates_are_asked_for_where_some_are_missing() {
    assert_eq!(next_count(5, 5, 3), Some(7));
    assert_eq!(next_count(7, 5, 5), Some(7));
    assert_eq!(next_count(7, 5, 6), None);
    assert_eq!(next_count(usize::MAX, 5, 3), None);
}

fn fr(n: u64) -> Fr {
    Fr::from_u64(n)
}

#[test]
fn polynomials_divide() {
    // (x + 2)(x + 3) = 6 + 5x + x^2.
    let p = DensePolynomial::from_coefficients_vec(vec![fr(6), fr(5), fr(1)]);
    let d = DensePolynomial::from_coefficients_vec(vec![fr(2), fr(1)]);
    assert_eq!(poly_div(&p, &d).coeffs, vec![fr(3), fr(1)]);
}

#[test]
fn honest_proofs_are_accepted_and_others_are_not() {
    let mut rng = StdRng::seed_from_u64(4);
    let n = 16;
    let bundle = get_or_create_srs(n).unwrap();
    let c_values: Vec<Fr> = (0..n).map(|_| Fr::rand(&mut rng)).collect();
    let c_poly = DensePolynomial::interpolate(&c_values, &bundle.pp.domain);
    let subsets_indices = get_random_votes(n, 4);
    let k = subsets_indices.len();
    let common = CommonInputs {
        c_comm: g1_commit(&bundle.pp.poly_ck, &c_poly),
        vote_per_j: (1..=k).collect(),
        subsets_sizes: subsets_indices.iter().map(|s| s.len()).collect(),
    };
    let witness = Witness { subsets_indices, c_poly, c_values };
    let proof = generate_proof(&bundle.pp, &common, &witness, &mut rng).unwrap();
    assert!(verify_proof(&bundle.pp, &common, &proof));

    let challenges = get_challenges(&proof.round1proof, &common);
    assert_eq!(challenges.len(), k);
    assert_ne!(challenges[0], challenges[1]);

    let mut other = CommonInputs {
        c_comm: common.c_comm,
        vote_per_j: common.vote_per_j.clone(),
        subsets_sizes: common.subsets_sizes.clone(),
    };
    other.subsets_sizes[0] += 1;
    assert!(!verify_proof(&bundle.pp, &other, &proof));

    let bytes = saved_proof(&proof);
    let first = &proof.round1proof;
    assert_eq!(first.v_comm.len(), k);
    assert_eq!(first.z_nonzero_comm.len(), k - 1);
    let g1 = first.x_comm.len() + first.y_comm.len() + k + proof.p_nonzero_comm.len() + 1;
    assert_eq!(bytes.len(), 5 * 4 + 96 * g1 + 192 * k);
    assert_eq!(&bytes[..4], &(first.x_comm.len() as u32).to_be_bytes());
    assert_eq!(&bytes[4..100], &proof.round1proof.x_comm[0].to_uncompressed()[..]);
}

#[test]
fn division_leaves_a_remainder() {
    // x^2 + 5x + 7 = (x + 2)(x + 3) + 1.
    let p = DensePolynomial::from_coefficients_vec(vec![fr(7), fr(5), fr(1)]);
    let d = DensePolynomial::from_coefficients_vec(vec![fr(2), fr(1)]);
    let (q, r) = div_rem(&p, &d);
    assert_eq!(q.coeffs, vec![fr(3), fr(1)]);
    assert_eq!(r.coeffs, vec![fr(1)]);
    let (q, r) = div_rem(&d, &p);
    assert!(q.is_zero());
    assert_eq!(r.coeffs, d.coeffs);
}

#[test]
fn vanishing_polynomials_are_zero_at_their_positions() {
    let domain = GeneralEvaluationDomain::new(8).unwrap();
    let positions = [1usize, 4, 6, 7, 2];
    let p = create_vanishing_poly_recursive(&positions, &domain);
    assert_eq!(create_vanishing_poly_opt(&positions, &domain).coeffs, p.coeffs);
    assert_eq!(p.degree(), 5);
    for i in 0..8 {
        let x = domain.element(i);
        let mut value = Fr::zero();
        for c in p.coeffs.iter().rev() {
            value = value.mul(x).add(*c);
        }
        assert_eq!(value.is_zero(), positions.contains(&i));
    }
    let none = create_vanishing_poly_recursive(&[], &domain);
    assert_eq!(none.coeffs, vec![Fr::one()]);
}

#[test]
fn blinding_factors_multiply_to_one() {
    let b = complete_blinders(vec![fr(2), fr(3)]).unwrap();
    assert_eq!(b.len(), 3);
    assert_eq!(b[0].mul(b[1]).mul(b[2]), Fr::one());
    assert!(complete_blinders(vec![fr(2), Fr::zero()]).is_none());
    assert_eq!(complete_blinders(vec![]).unwrap(), vec![Fr::one()]);
}
