//! Commitments and the structured reference string they are made in.

use ark_ec::{msm::VariableBaseMSM, AffineCurve, ProjectiveCurve};
use ark_ff::PrimeField;
use ark_poly::UVPolynomial;
use ark_serialize::{CanonicalDeserialize, CanonicalSerialize};
use vstd::arithmetic::power::{lemma_pow0, pow};
use std::borrow::Cow;

use vstd::prelude::*;

use crate::curve::{g1_logs, g2_logs, G1Affine, G2Affine};
use crate::epa::structs::{structured_powers, Powers};
use crate::field::{values, Fr};
use crate::generator::{fixed_rng, fixed_words, scalar_draw, test_scalar, words};
use crate::fft_math::lemma_ev_sum;
use crate::modular::{
    eqm, lemma_eqm_add, lemma_eqm_mul, lemma_eqm_scale, lemma_md_eqm, lemma_md_range, md,
};
use crate::poly::DensePolynomial;
use crate::poly_math::ev;
use crate::sums::{lemma_sum_eqm, lemma_sum_ext, lemma_sum_scale, sum};

verus! {

/// What is used of a structured reference string: the powers in the first
/// group and the base in the second.
#[derive(Debug)]
pub struct UniversalParams {
    pub powers_of_g: Vec<G1Affine>,
    pub h: G2Affine,
}

/// The logarithms of the bases in the two groups that the setup draws from a
/// generator with these words, after its secret.
pub uninterp spec fn setup_bases(w: Map<int, u32>) -> (int, int);

/// The logarithm of the base in the first group, for the fixed seed.
pub open spec fn setup_base_g1() -> int {
    setup_bases(fixed_words()).0
}

/// The logarithm of the base in the second group, for the fixed seed.
pub open spec fn setup_base_g2() -> int {
    setup_bases(fixed_words()).1
}

/// `KZG10::setup` of `ark_poly_commit`: the secret is the first scalar that is
/// drawn from the generator, and the powers are its powers times a base.
/// Degree zero is refused.
#[verifier::external_body]
fn kzg_setup(max_degree: usize, mut rng: rand::rngs::StdRng) -> (r: Result<UniversalParams, String>)
    ensures
        r is Ok <==> max_degree >= 1,
        r matches Ok(srs) ==> srs.powers_of_g@.len() == max_degree + 1,
        r matches Ok(srs) ==> structured_powers(
            g1_logs(srs.powers_of_g@),
            setup_bases(words(rng)).0,
            scalar_draw(words(rng)).0,
        ),
        r matches Ok(srs) ==> srs.h@ == md(setup_bases(words(rng)).1),
{
    let srs = ark_poly_commit::kzg10::KZG10::<
        ark_bls12_381::Bls12_381,
        ark_poly::univariate::DensePolynomial<ark_bls12_381::Fr>,
    >::setup(max_degree, false, &mut rng).map_err(|e| format!("{:?}", e))?;
    let powers_of_g = srs.powers_of_g.iter().map(|p| {
        let mut repr = [0u8; 96];
        p.serialize_uncompressed(&mut repr[..]).unwrap();
        G1Affine { repr }
    }).collect();
    let mut repr = [0u8; 192];
    srs.h.serialize_uncompressed(&mut repr[..]).unwrap();
    Ok(UniversalParams { powers_of_g, h: G2Affine { repr } })
}

/// The first scalar of the generator with the fixed seed.
pub(crate) fn first_test_scalar() -> (x: Fr)
    ensures
        x@ == md(test_scalar(0)),
{
    let mut rng = fixed_rng();
    Fr::rand(&mut rng)
}

/// The sum of coefficients times powers: the logarithm of a commitment.
pub open spec fn commit_log(powers: Seq<int>, p: Seq<int>) -> int {
    sum(|i: int| p[i] * powers[i], p.len() as int)
}

/// `KZG10::commit` of `ark_poly_commit` without hiding: the sum of the
/// coefficients times the powers. It refuses more coefficients than powers.
#[verifier::external_body]
fn kzg_commit(powers: &Vec<G1Affine>, coeffs: &Vec<Fr>) -> (c: G1Affine)
    requires
        coeffs@.len() <= powers@.len(),
        powers@.len() > 0,
    ensures
        c@ == md(commit_log(g1_logs(powers@), values(coeffs@))),
{
    let p = powers.iter()
        .map(|p| ark_bls12_381::G1Affine::deserialize_unchecked(&p.repr[..]).unwrap()).collect();
    let powers_of_g = Cow::Owned(p);
    let powers_of_gamma_g = Cow::Owned(vec![]);
    let ck = ark_poly_commit::kzg10::Powers { powers_of_g, powers_of_gamma_g };
    let c = coeffs.iter().map(|x| ark_bls12_381::Fr::deserialize(&x.repr[..]).unwrap()).collect();
    let poly = ark_poly::univariate::DensePolynomial::from_coefficients_vec(c);
    let (com, _) = ark_poly_commit::kzg10::KZG10::<ark_bls12_381::Bls12_381, _>::commit(
        &ck, &poly, None, None).unwrap();
    let mut repr = [0u8; 96];
    com.0.serialize_uncompressed(&mut repr[..]).unwrap();
    G1Affine { repr }
}

/// `VariableBaseMSM::multi_scalar_mul` of `ark_ec` in the second group: the
/// sum of the scalars times the points. It stops at the shorter list.
#[verifier::external_body]
fn g2_msm(points: &Vec<G2Affine>, scalars: &Vec<Fr>) -> (c: G2Affine)
    requires
        scalars@.len() <= points@.len(),
    ensures
        c@ == md(commit_log(g2_logs(points@), values(scalars@))),
{
    let p: Vec<_> = points.iter()
        .map(|p| ark_bls12_381::G2Affine::deserialize_unchecked(&p.repr[..]).unwrap()).collect();
    let s: Vec<_> = scalars.iter()
        .map(|x| ark_bls12_381::Fr::deserialize(&x.repr[..]).unwrap().into_repr()).collect();
    let mut repr = [0u8; 192];
    VariableBaseMSM::multi_scalar_mul(&p, &s).into_affine()
        .serialize_uncompressed(&mut repr[..]).unwrap();
    G2Affine { repr }
}

/// The deterministic setup for polynomials up to `max_degree`.
pub fn setup_params(max_degree: usize) -> (r: Result<UniversalParams, String>)
    ensures
        r is Ok <==> max_degree >= 1,
        r matches Ok(srs) ==> srs.powers_of_g@.len() == max_degree + 1,
        r matches Ok(srs) ==> structured_powers(
            g1_logs(srs.powers_of_g@),
            setup_base_g1(),
            test_scalar(0),
        ),
        r matches Ok(srs) ==> srs.h@ == md(setup_base_g2()),
{
    kzg_setup(max_degree, fixed_rng())
}

/// The degree that is kept: one is raised to two.
pub open spec fn kept_degree(supported_degree: int) -> int {
    if supported_degree == 1 {
        2
    } else {
        supported_degree
    }
}

/// Reduces a reference string to the powers up to a degree.
fn trim(srs: &UniversalParams, supported_degree: usize) -> (r: Powers)
    requires
        kept_degree(supported_degree as int) < srs.powers_of_g@.len(),
    ensures
        r.powers_of_g@ == srs.powers_of_g@.take(kept_degree(supported_degree as int) + 1),
{
    let degree: usize = if supported_degree == 1 {
        2
    } else {
        supported_degree
    };
    let mut powers_of_g: Vec<G1Affine> = Vec::new();
    let mut i: usize = 0;
    while i <= degree
        invariant
            i <= degree + 1,
            degree < srs.powers_of_g.len(),
            powers_of_g@ == srs.powers_of_g@.take(i as int),
        decreases degree + 1 - i,
    {
        powers_of_g.push(srs.powers_of_g[i]);
        i += 1;
        proof {
            assert(powers_of_g@ =~= srs.powers_of_g@.take(i as int));
        }
    }
    Powers { powers_of_g }
}

/// The powers in both groups up to a degree. Those in the second group are
/// not part of the reference string; since its secret is the first scalar of
/// the fixed-seed generator, they are computed from that scalar drawn again.
pub fn get_powers(srs: &UniversalParams, max_degree: usize) -> (r: (Powers, Vec<G2Affine>))
    requires
        kept_degree(max_degree as int) < srs.powers_of_g@.len(),
    ensures
        r.0.powers_of_g@ == srs.powers_of_g@.take(kept_degree(max_degree as int) + 1),
        r.1@.len() == r.0.powers_of_g@.len(),
        structured_powers(g2_logs(r.1@), srs.h@, test_scalar(0)),
{
    let poly_ck = trim(srs, max_degree);
    let beta = first_test_scalar();
    let ghost tau = test_scalar(0);
    let mut g2_powers: Vec<G2Affine> = Vec::new();
    let mut temp = srs.h;
    let mut i: usize = 0;
    proof {
        lemma_pow0(tau);
        assert(srs.h@ * 1 == srs.h@);
    }
    while i < poly_ck.powers_of_g.len()
        invariant
            i <= poly_ck.powers_of_g.len(),
            g2_powers@.len() == i,
            beta@ == md(tau),
            eqm(temp@, srs.h@ * pow(tau, i as nat)),
            structured_powers(g2_logs(g2_powers@), srs.h@, tau),
        decreases poly_ck.powers_of_g.len() - i,
    {
        let ghost before = g2_powers@;
        g2_powers.push(temp);
        proof {
            let t = pow(tau, i as nat);
            assert forall|k: int| 0 <= k < g2_logs(g2_powers@).len() implies eqm(
                #[trigger] g2_logs(g2_powers@)[k],
                srs.h@ * pow(tau, k as nat),
            ) by {
                if k < i {
                    assert(g2_logs(before)[k] == g2_logs(g2_powers@)[k]);
                }
            }
            lemma_md_eqm(tau);
            lemma_eqm_mul(temp@, srs.h@ * t, md(tau), tau);
            lemma_md_eqm(temp@ * md(tau));
            reveal(pow);
            assert(pow(tau, (i + 1) as nat) == tau * t);
            assert((srs.h@ * t) * tau == srs.h@ * (tau * t)) by (nonlinear_arith);
        }
        temp = temp.mul(beta);
        i += 1;
    }
    (poly_ck, g2_powers)
}

/// The commitment to a polynomial in the first group.
pub fn g1_commit(powers: &Powers, poly: &DensePolynomial) -> (c: G1Affine)
    requires
        poly@.len() <= powers.powers_of_g@.len(),
        powers.powers_of_g@.len() > 0,
    ensures
        c@ == md(commit_log(g1_logs(powers.powers_of_g@), poly@)),
{
    kzg_commit(&powers.powers_of_g, &poly.coeffs)
}

/// The commitment to a polynomial in the second group.
pub fn g2_commit(g2_powers: &Vec<G2Affine>, poly: &DensePolynomial) -> (c: G2Affine)
    requires
        poly@.len() <= g2_powers@.len(),
    ensures
        c@ == md(commit_log(g2_logs(g2_powers@), poly@)),
{
    g2_msm(g2_powers, &poly.coeffs)
}

/// All exponents are below `n`.
pub open spec fn exponents_below(terms: Seq<(usize, Fr)>, n: int) -> bool {
    forall|i: int| 0 <= i < terms.len() ==> (#[trigger] terms[i]).0 < n
}

/// The logarithm of the commitment to a polynomial given by its terms.
pub open spec fn sparse_log(powers: Seq<int>, terms: Seq<(usize, Fr)>) -> int {
    sum(|i: int| powers[terms[i].0 as int] * terms[i].1@, terms.len() as int)
}

/// The commitment in the first group to a polynomial given by its terms.
pub fn g1_commit_sparse(powers: &Powers, poly_coeffs: &Vec<(usize, Fr)>) -> (c: G1Affine)
    requires
        exponents_below(poly_coeffs@, powers.powers_of_g@.len() as int),
    ensures
        c@ == md(sparse_log(g1_logs(powers.powers_of_g@), poly_coeffs@)),
{
    let ghost logs = g1_logs(powers.powers_of_g@);
    let ghost f = |i: int| logs[poly_coeffs@[i].0 as int] * poly_coeffs@[i].1@;
    let mut acc = G1Affine::zero();
    let mut i: usize = 0;
    proof {
        crate::modular::lemma_modulus();
        lemma_md_range(0);
    }
    while i < poly_coeffs.len()
        invariant
            i <= poly_coeffs.len(),
            exponents_below(poly_coeffs@, powers.powers_of_g@.len() as int),
            logs == g1_logs(powers.powers_of_g@),
            f == (|k: int| logs[poly_coeffs@[k].0 as int] * poly_coeffs@[k].1@),
            acc@ == md(sum(f, i as int)),
        decreases poly_coeffs.len() - i,
    {
        let term = poly_coeffs[i];
        assert(poly_coeffs@[i as int].0 < powers.powers_of_g@.len());
        let point = powers.powers_of_g[term.0].mul(term.1);
        proof {
            lemma_md_eqm(sum(f, i as int));
            lemma_md_eqm(f(i as int));
            lemma_eqm_add(md(sum(f, i as int)), sum(f, i as int), md(f(i as int)), f(i as int));
        }
        acc = acc.add(point);
        i += 1;
    }
    acc
}

/// The commitment in the second group to a polynomial given by its terms.
pub fn g2_commit_sparse(g2_powers: &Vec<G2Affine>, poly_coeffs: &Vec<(usize, Fr)>) -> (c: G2Affine)
    requires
        exponents_below(poly_coeffs@, g2_powers@.len() as int),
    ensures
        c@ == md(sparse_log(g2_logs(g2_powers@), poly_coeffs@)),
{
    let ghost logs = g2_logs(g2_powers@);
    let ghost f = |i: int| logs[poly_coeffs@[i].0 as int] * poly_coeffs@[i].1@;
    let mut acc = G2Affine::zero();
    let mut i: usize = 0;
    proof {
        crate::modular::lemma_modulus();
        lemma_md_range(0);
    }
    while i < poly_coeffs.len()
        invariant
            i <= poly_coeffs.len(),
            exponents_below(poly_coeffs@, g2_powers@.len() as int),
            logs == g2_logs(g2_powers@),
            f == (|k: int| logs[poly_coeffs@[k].0 as int] * poly_coeffs@[k].1@),
            acc@ == md(sum(f, i as int)),
        decreases poly_coeffs.len() - i,
    {
        let term = poly_coeffs[i];
        assert(poly_coeffs@[i as int].0 < g2_powers@.len());
        let point = g2_powers[term.0].mul(term.1);
        proof {
            lemma_md_eqm(sum(f, i as int));
            lemma_md_eqm(f(i as int));
            lemma_eqm_add(md(sum(f, i as int)), sum(f, i as int), md(f(i as int)), f(i as int));
        }
        acc = acc.add(point);
        i += 1;
    }
    acc
}

/// A commitment in structured powers is the value of the polynomial at the
/// secret, times the base.
pub proof fn law_commitment_is_value(powers: Seq<int>, p: Seq<int>, base: int, tau: int)
    requires
        structured_powers(powers, base, tau),
        p.len() <= powers.len(),
    ensures
        eqm(commit_log(powers, p), base * ev(p, tau)),
{
    let f = |i: int| p[i] * powers[i];
    let g = |i: int| p[i] * pow(tau, i as nat);
    let bg = |i: int| base * g(i);
    assert forall|i: int| 0 <= i < p.len() implies eqm(#[trigger] f(i), bg(i)) by {
        let t = pow(tau, i as nat);
        assert(eqm(powers[i], base * t));
        lemma_eqm_scale(p[i], powers[i], base * t);
        assert(p[i] * (base * t) == base * (p[i] * t)) by (nonlinear_arith);
    }
    lemma_sum_eqm(f, bg, p.len() as int);
    lemma_sum_scale(base, g, p.len() as int);
    lemma_ev_sum(p, tau);
    lemma_sum_ext(g, |l: int| p[l] * pow(tau, l as nat), p.len() as int);
}

} // verus!
