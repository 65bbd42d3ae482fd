//! The verifier.
//!
//! For each subset there is one pairing equation. All of them are checked at
//! once, combined with powers of a scalar.

use vstd::arithmetic::power::pow;
use vstd::prelude::*;

use crate::curve::{g1_logs, g2_logs, pairing_product_is_one, G1Affine, G2Affine};
use crate::epa::kzg_helpers::{
    first_test_scalar, g1_commit_sparse, g2_commit_sparse, sparse_log,
};
use crate::epa::structs::{CommonInputs, Proof, ProofView, PublicParameters};
use crate::epa::utils::{challenges, get_challenges};
use crate::generator::test_scalar;
use crate::field::{values, Fr};
use crate::modular::{
    eqm, lemma_eqm_add, lemma_eqm_mul, lemma_eqm_scale, lemma_md_eqm, lemma_md_range, lemma_modulus,
    md,
};
use crate::sums::{lemma_sum_eqm, lemma_sum_ext, sum};

verus! {

/// The commitments of a proof are as many as `k` subsets call for.
pub open spec fn shape_ok(view: ProofView, k: int) -> bool {
    &&& k >= 1
    &&& view.round1.x.len() == k
    &&& view.round1.v.len() == k
    &&& view.round1.z_nonzero.len() == k - 1
    &&& view.p_nonzero.len() == k - 1
    &&& view.round1.y.len() == if k >= 2 {
        k - 2
    } else {
        0
    }
}

/// The public inputs of one verification: the powers in both groups, the
/// largest degree, the domain's generator, and the claimed partition.
pub struct Statement {
    pub g1: Seq<int>,
    pub g2: Seq<int>,
    pub degree: int,
    pub generator: int,
    pub c_comm: int,
    pub votes: Seq<usize>,
    pub sizes: Seq<usize>,
}

/// The statement that parameters and inputs make.
pub open spec fn statement(pp: &PublicParameters, common: &CommonInputs) -> Statement {
    Statement {
        g1: g1_logs(pp.poly_ck.powers_of_g@),
        g2: g2_logs(pp.g2_powers@),
        degree: pp.max_degree as int,
        generator: pp.domain.gen(),
        c_comm: common.c_comm@,
        votes: common.vote_per_j@,
        sizes: common.subsets_sizes@,
    }
}

/// The commitment to `X^n - 1`.
pub open spec fn zh_log(st: Statement) -> int {
    st.g1[st.degree] - st.g1[0]
}

/// The running products with the first vanishing polynomial in front and
/// `X^n - 1` behind.
pub open spec fn full_y(st: Statement, view: ProofView) -> Seq<int> {
    seq![view.round1.z_0] + view.round1.y + seq![zh_log(st)]
}

/// The left point of the equation for subset `j`.
pub open spec fn check_a(st: Statement, view: ProofView, phi: int, j: int) -> int {
    if j == 0 {
        view.round1.z_0
    } else {
        view.p_nonzero[j - 1] + phi * st.g1[st.degree - st.sizes[j]] + (phi * phi) * full_y(
            st,
            view,
        )[j - 1]
    }
}

/// The right point of the equation for subset `j`.
pub open spec fn check_b(st: Statement, view: ProofView, phi: int, j: int) -> int {
    if j == 0 {
        view.p_0 + phi * st.g2[st.degree - st.sizes[0]]
    } else {
        view.round1.z_nonzero[j - 1]
    }
}

/// The point on the other side of the equation for subset `j`.
pub open spec fn check_c(st: Statement, view: ProofView, phi: int, chi: Seq<int>, j: int) -> int {
    zh_log(st) + chi[j] * (st.c_comm - pow(st.generator, st.votes[j] as nat) * view.round1.v[j])
        + phi * view.round1.x[j] + if j == 0 {
        0
    } else {
        (phi * phi) * full_y(st, view)[j]
    }
}

/// How far the equation for subset `j` is off: zero when it holds.
pub open spec fn check_gap(st: Statement, view: ProofView, phi: int, chi: Seq<int>, j: int) -> int {
    check_a(st, view, phi, j) * check_b(st, view, phi, j) - check_c(st, view, phi, chi, j)
        * st.g2[0]
}

/// The verifier accepts: the equations, combined with powers of the fixed
/// scalar, hold together.
pub open spec fn accepted(st: Statement, view: ProofView) -> bool {
    let phi = test_scalar(0);
    let chi = challenges(st.c_comm, view.round1, st.sizes.len());
    eqm(
        sum(
            |j: int| pow(phi, (j + 1) as nat) * check_gap(st, view, phi, chi, j),
            st.sizes.len() as int,
        ),
        0,
    )
}

/// The inputs of a verification fit together.
pub open spec fn verifiable(pp: &PublicParameters, common: &CommonInputs, view: ProofView) -> bool {
    &&& pp.wf()
    &&& common.vote_per_j@.len() == common.subsets_sizes@.len()
    &&& shape_ok(view, common.subsets_sizes@.len() as int)
    &&& forall|j: int|
        0 <= j < common.subsets_sizes@.len() ==> #[trigger] common.subsets_sizes@[j]
            <= pp.max_degree
}

/// Verifies a proof.
pub fn verify_proof(pp: &PublicParameters, common_inputs: &CommonInputs, proof_: &Proof) -> (valid:
    bool)
    requires
        verifiable(pp, common_inputs, proof_@),
    ensures
        valid == accepted(statement(pp, common_inputs), proof_@),
        valid == accepted(
            (Statement {
                g1: g1_logs(pp.poly_ck.powers_of_g@),
                g2: g2_logs(pp.g2_powers@),
                degree: pp.max_degree as int,
                generator: pp.domain.gen(),
                c_comm: common_inputs.c_comm@,
                votes: common_inputs.vote_per_j@,
                sizes: common_inputs.subsets_sizes@,
            }),
            proof_@,
        ),
{
    let challenge_list = get_challenges(&proof_.round1proof, common_inputs);
    assert(challenge_list@.len() == values(challenge_list@).len());
    let pairings = build_pairings_to_check(pp, common_inputs, proof_, &challenge_list);
    let valid = check_pairings(pp, &pairings);
    proof {
        let st = statement(pp, common_inputs);
        let view = proof_@;
        let phi = test_scalar(0);
        let chi = challenges(st.c_comm, view.round1, st.sizes.len());
        assert(values(challenge_list@) == chi);
        let n = st.sizes.len() as int;
        let f = |j: int| pow(phi, (j + 1) as nat) * check_gap(st, view, phi, chi, j);
        let g = |j: int|
            pow(phi, (j + 1) as nat) * (pairings@[j].0@ * pairings@[j].1@ - pairings@[j].2@
                * st.g2[0]);
        assert forall|j: int| 0 <= j < n implies eqm(#[trigger] g(j), f(j)) by {
            let t = pairings@[j];
            let (a, b, c) = (
                check_a(st, view, phi, j),
                check_b(st, view, phi, j),
                check_c(st, view, phi, chi, j),
            );
            assert(pairing_ok(st, view, phi, chi, t, j));
            lemma_eqm_mul(t.0@, a, t.1@, b);
            lemma_eqm_scale(st.g2[0], t.2@, c);
            lemma_eqm_add(t.0@ * t.1@, a * b, t.2@ * st.g2[0], c * st.g2[0]);
            lemma_eqm_scale(
                pow(phi, (j + 1) as nat),
                t.0@ * t.1@ - t.2@ * st.g2[0],
                a * b - c * st.g2[0],
            );
        }
        lemma_sum_eqm(g, f, n);
        lemma_sum_ext(
            g,
            |j: int|
                pow(phi, (j + 1) as nat) * (pairings@[j].0@ * pairings@[j].1@ - pairings@[j].2@
                    * st.g2[0]),
            n,
        );
        lemma_modulus();
        lemma_md_range(0);
    }
    valid
}

/// The points of the equation for subset `j`.
pub open spec fn pairing_ok(
    st: Statement,
    view: ProofView,
    phi: int,
    chi: Seq<int>,
    t: (G1Affine, G2Affine, G1Affine),
    j: int,
) -> bool {
    &&& eqm(t.0@, check_a(st, view, phi, j))
    &&& eqm(t.1@, check_b(st, view, phi, j))
    &&& eqm(t.2@, check_c(st, view, phi, chi, j))
}

/// A single term of a sparse polynomial is its power.
proof fn lemma_single_term(powers: Seq<int>, terms: Seq<(usize, Fr)>, e: int)
    requires
        terms.len() == 1,
        terms[0].0 == e,
        terms[0].1@ == 1,
    ensures
        sparse_log(powers, terms) == powers[e],
{
    let f = |i: int| powers[terms[i].0 as int] * terms[i].1@;
    assert(sum(f, 1) == sum(f, 0) + f(0));
    assert(powers[e] * 1 == powers[e]);
}

/// The equations to check, one for each subset: `e(a, b) == e(c, 1)`.
#[verifier::rlimit(40)]
fn build_pairings_to_check(
    pp: &PublicParameters,
    common: &CommonInputs,
    proof_: &Proof,
    challenge_list: &Vec<Fr>,
) -> (r: Vec<(G1Affine, G2Affine, G1Affine)>)
    requires
        verifiable(pp, common, proof_@),
        challenge_list@.len() == common.subsets_sizes@.len(),
    ensures
        r@.len() == common.subsets_sizes@.len(),
        forall|j: int|
            0 <= j < r@.len() ==> pairing_ok(
                statement(pp, common),
                proof_@,
                test_scalar(0),
                values(challenge_list@),
                #[trigger] r@[j],
                j,
            ),
{
    let ghost st = statement(pp, common);
    let ghost view = proof_@;
    let ghost chi = values(challenge_list@);
    let ghost phi_v = test_scalar(0);
    let k = common.subsets_sizes.len();
    let z_h_coeffs: Vec<(usize, Fr)> = vec![(0usize, Fr::one().neg()), (pp.max_degree, Fr::one())];
    let z_h = g1_commit_sparse(&pp.poly_ck, &z_h_coeffs);
    proof {
        let f = |i: int| st.g1[z_h_coeffs@[i].0 as int] * z_h_coeffs@[i].1@;
        assert(sum(f, 2) == sum(f, 1) + f(1));
        assert(sum(f, 1) == sum(f, 0) + f(0));
        lemma_md_eqm(-1);
        lemma_eqm_scale(st.g1[0], md(-1), -1);
        lemma_eqm_add(st.g1[0] * md(-1), st.g1[0] * -1, st.g1[st.degree], st.g1[st.degree]);
        assert(f(1) == st.g1[st.degree] * 1);
        let (low, high) = (st.g1[0], st.g1[st.degree]);
        assert(high * 1 == high && low * -1 == -low) by (nonlinear_arith);
        assert(f(0) == st.g1[0] * md(-1));
        assert(sum(f, 0) == 0);
        lemma_sum_ext(f, |i: int| st.g1[z_h_coeffs@[i].0 as int] * z_h_coeffs@[i].1@, 2);
        lemma_md_eqm(sparse_log(st.g1, z_h_coeffs@));
        assert(eqm(z_h@, zh_log(st)));
    }
    // The running products, with the first vanishing polynomial in front and
    // that of the domain behind.
    let mut y_full: Vec<G1Affine> = Vec::new();
    y_full.push(proof_.round1proof.z_0_comm);
    let mut i: usize = 0;
    while i < proof_.round1proof.y_comm.len()
        invariant
            i <= proof_.round1proof.y_comm.len(),
            y_full@.len() == i + 1,
            y_full@[0] == proof_.round1proof.z_0_comm,
            forall|z: int| 0 <= z < i ==> #[trigger] y_full@[z + 1] == proof_.round1proof.y_comm@[z],
        decreases proof_.round1proof.y_comm.len() - i,
    {
        y_full.push(proof_.round1proof.y_comm[i]);
        i += 1;
    }
    y_full.push(z_h);
    let ghost ys = full_y(st, view);
    proof {
        assert(view.round1.y.len() == proof_.round1proof.y_comm@.len());
        assert forall|z: int| 0 <= z < y_full@.len() implies eqm((#[trigger] y_full@[z])@, ys[z]) by {
            if 0 < z < y_full@.len() - 1 {
                assert(y_full@[(z - 1) + 1] == proof_.round1proof.y_comm@[z - 1]);
                assert(view.round1.y[z - 1] == proof_.round1proof.y_comm@[z - 1]@);
            }
        }
    }
    let phi = first_test_scalar();
    let phi2 = phi.mul(phi);
    proof {
        lemma_md_eqm(phi_v);
        lemma_eqm_mul(md(phi_v), phi_v, md(phi_v), phi_v);
        lemma_md_eqm(md(phi_v) * md(phi_v));
    }
    let mut r: Vec<(G1Affine, G2Affine, G1Affine)> = Vec::new();
    let mut j: usize = 0;
    while j < k
        invariant
            j <= k,
            k == common.subsets_sizes@.len(),
            verifiable(pp, common, proof_@),
            challenge_list@.len() == k,
            st == statement(pp, common),
            view == proof_@,
            chi == values(challenge_list@),
            eqm(phi@, phi_v),
            eqm(phi2@, phi_v * phi_v),
            eqm(z_h@, zh_log(st)),
            ys == full_y(st, view),
            y_full@.len() == ys.len(),
            forall|z: int| 0 <= z < y_full@.len() ==> eqm((#[trigger] y_full@[z])@, ys[z]),
            r@.len() == j,
            forall|i: int|
                0 <= i < j ==> pairing_ok(st, view, phi_v, chi, #[trigger] r@[i], i),
        decreases k - j,
    {
        let size = common.subsets_sizes[j];
        assert(common.subsets_sizes@[j as int] <= pp.max_degree);
        let degree: usize = pp.max_degree - size;
        let monomial: Vec<(usize, Fr)> = vec![(degree, Fr::one())];
        let ghost e = st.degree - st.sizes[j as int];
        assert(view.round1.v.len() == proof_.round1proof.v_comm@.len());
        assert(view.round1.x.len() == proof_.round1proof.x_comm@.len());
        assert(view.p_nonzero.len() == proof_.p_nonzero_comm@.len());
        assert(view.round1.z_nonzero.len() == proof_.round1proof.z_nonzero_comm@.len());
        let chi_j = challenge_list[j];
        // zh + chi * (c - v_j * V_j) + phi * x_j
        let element = pp.domain.element(common.vote_per_j[j]);
        let neg_v = proof_.round1proof.v_comm[j].mul(element.neg());
        let inner = common.c_comm.add(neg_v).mul(chi_j);
        let c_base = z_h.add(inner).add(proof_.round1proof.x_comm[j].mul(phi));
        proof {
            let l = pow(st.generator, st.votes[j as int] as nat);
            lemma_c_base(
                z_h@,
                zh_log(st),
                st.c_comm,
                view.round1.v[j as int],
                l,
                chi[j as int],
                view.round1.x[j as int],
                phi@,
                phi_v,
            );
        }
        if j == 0 {
            // e(z_0, p_0 + phi [X^(d - m_0)]) == e(c, 1)
            let mono = g2_commit_sparse(&pp.g2_powers, &monomial);
            let b = proof_.p_0_comm.add(mono.mul(phi));
            proof {
                lemma_single_term(st.g2, monomial@, e);
                lemma_md_eqm(st.g2[e]);
                lemma_scaled_add(view.p_0, mono@, st.g2[e], phi@, phi_v);
            }
            r.push((proof_.round1proof.z_0_comm, b, c_base));
        } else {
            // e(p_j + phi [X^(d - m_j)] + phi^2 y_(j-1), z_j) == e(c + phi^2 y_j, 1)
            let mono = g1_commit_sparse(&pp.poly_ck, &monomial);
            let a = proof_.p_nonzero_comm[j - 1].add(mono.mul(phi)).add(y_full[j - 1].mul(phi2));
            let c = c_base.add(y_full[j].mul(phi2));
            proof {
                lemma_single_term(st.g1, monomial@, e);
                lemma_md_eqm(st.g1[e]);
                let base = view.p_nonzero[j - 1];
                lemma_scaled_add(base, mono@, st.g1[e], phi@, phi_v);
                let first = md(base + md(mono@ * phi@));
                assert(eqm(y_full@[j - 1]@, ys[j - 1]));
                assert(eqm(y_full@[j as int]@, ys[j as int]));
                lemma_scaled_add(first, y_full@[j - 1]@, ys[j - 1], phi2@, phi_v * phi_v);
                lemma_eqm_add(
                    first,
                    base + phi_v * st.g1[e],
                    (phi_v * phi_v) * ys[j - 1],
                    (phi_v * phi_v) * ys[j - 1],
                );
                let cb = c_base@;
                lemma_scaled_add(cb, y_full@[j as int]@, ys[j as int], phi2@, phi_v * phi_v);
                let want = zh_log(st) + chi[j as int] * (st.c_comm - pow(
                    st.generator,
                    st.votes[j as int] as nat,
                ) * view.round1.v[j as int]) + phi_v * view.round1.x[j as int];
                lemma_eqm_add(
                    cb,
                    want,
                    (phi_v * phi_v) * ys[j as int],
                    (phi_v * phi_v) * ys[j as int],
                );
            }
            r.push((a, proof_.round1proof.z_nonzero_comm[j - 1], c));
        }
        j += 1;
    }
    r
}

/// Adding a scaled point: `base + k * x`.
proof fn lemma_scaled_add(base: int, x: int, x2: int, k: int, k2: int)
    requires
        eqm(x, x2),
        eqm(k, k2),
    ensures
        eqm(md(base + md(x * k)), base + k2 * x2),
{
    lemma_eqm_mul(x, x2, k, k2);
    lemma_md_eqm(x * k);
    lemma_eqm_add(base, base, md(x * k), x2 * k2);
    lemma_md_eqm(base + md(x * k));
    assert(x2 * k2 == k2 * x2) by (nonlinear_arith);
}

/// The common part of the right-hand sides.
proof fn lemma_c_base(
    zh: int,
    zh2: int,
    c: int,
    v: int,
    l: int,
    chi: int,
    x: int,
    phi: int,
    phi2: int,
)
    requires
        eqm(zh, zh2),
        eqm(phi, phi2),
    ensures
        eqm(
            md(md(zh + md(md(c + md(v * md(-md(l)))) * chi)) + md(x * phi)),
            zh2 + chi * (c - l * v) + phi2 * x,
        ),
{
    lemma_md_eqm(l);
    lemma_eqm_add(0, 0, md(l), l);
    lemma_md_eqm(-md(l));
    lemma_eqm_scale(v, md(-md(l)), -l);
    lemma_md_eqm(v * md(-md(l)));
    assert(v * (-l) == -(l * v)) by (nonlinear_arith);
    let nv = md(v * md(-md(l)));
    lemma_eqm_add(c, c, nv, -(l * v));
    lemma_md_eqm(c + nv);
    let inner = md(c + nv);
    lemma_eqm_scale(chi, inner, c - l * v);
    lemma_md_eqm(inner * chi);
    assert((c - l * v) * chi == chi * (c - l * v)) by (nonlinear_arith);
    lemma_eqm_add(zh, zh2, md(inner * chi), chi * (c - l * v));
    lemma_md_eqm(zh + md(inner * chi));
    let first = md(zh + md(inner * chi));
    lemma_scaled_add(first, x, x, phi, phi2);
    lemma_eqm_add(first, zh2 + chi * (c - l * v), phi2 * x, phi2 * x);
}

/// Checks all equations at once: with the powers of a scalar `z`, whether
/// `sum_j z^(j+1) (a_j * b_j - c_j)` is zero.
fn check_pairings(pp: &PublicParameters, checks: &Vec<(G1Affine, G2Affine, G1Affine)>) -> (valid:
    bool)
    requires
        pp.wf(),
    ensures
        valid == (md(
            sum(
                |j: int|
                    pow(test_scalar(0), (j + 1) as nat) * (checks@[j].0@ * checks@[j].1@
                        - checks@[j].2@ * g2_logs(pp.g2_powers@)[0]),
                checks@.len() as int,
            ),
        ) == 0),
{
    let ghost zv = test_scalar(0);
    let ghost one = g2_logs(pp.g2_powers@)[0];
    let ghost f = |j: int| pow(zv, (j + 1) as nat) * (checks@[j].0@ * checks@[j].1@);
    let ghost g = |j: int| pow(zv, (j + 1) as nat) * checks@[j].2@;
    let z = first_test_scalar();
    let mut r = z;
    let mut pairs: Vec<(G1Affine, G2Affine)> = Vec::new();
    let mut acc = G1Affine::zero();
    let mut j: usize = 0;
    proof {
        vstd::arithmetic::power::lemma_pow1(zv);
        lemma_md_eqm(zv);
        lemma_modulus();
        lemma_md_range(0);
    }
    while j < checks.len()
        invariant
            j <= checks.len(),
            eqm(z@, zv),
            eqm(r@, pow(zv, (j + 1) as nat)),
            f == (|i: int| pow(zv, (i + 1) as nat) * (checks@[i].0@ * checks@[i].1@)),
            g == (|i: int| pow(zv, (i + 1) as nat) * checks@[i].2@),
            pairs@.len() == j,
            forall|i: int|
                0 <= i < j ==> eqm((#[trigger] pairs@[i]).0@ * pairs@[i].1@, f(i)),
            eqm(acc@, -sum(g, j as int)),
        decreases checks.len() - j,
    {
        let (a, b, c) = checks[j];
        let ar = a.mul(r);
        pairs.push((ar, b));
        let minus = c.mul(r.neg());
        proof {
            let p = pow(zv, (j + 1) as nat);
            lemma_eqm_scale(a@, r@, p);
            lemma_md_eqm(a@ * r@);
            lemma_eqm_scale(b@, ar@, a@ * p);
            assert((a@ * p) * b@ == p * (a@ * b@)) by (nonlinear_arith);
            lemma_eqm_add(0, 0, r@, p);
            lemma_md_eqm(-r@);
            lemma_eqm_scale(c@, md(-r@), -p);
            lemma_md_eqm(c@ * md(-r@));
            assert(c@ * (-p) == -(p * c@)) by (nonlinear_arith);
            lemma_eqm_add(acc@, -sum(g, j as int), minus@, -(p * c@));
            lemma_md_eqm(acc@ + minus@);
            lemma_eqm_mul(r@, p, z@, zv);
            lemma_md_eqm(r@ * z@);
            reveal(pow);
            assert(pow(zv, (j + 2) as nat) == zv * p);
            assert(p * zv == zv * p) by (nonlinear_arith);
        }
        acc = acc.add(minus);
        r = r.mul(z);
        j += 1;
    }
    let one_terms: Vec<(usize, Fr)> = vec![(0usize, Fr::one())];
    let one_g2 = g2_commit_sparse(&pp.g2_powers, &one_terms);
    let ghost before = pairs@;
    pairs.push((acc, one_g2));
    proof {
        let n = checks@.len() as int;
        lemma_single_term(g2_logs(pp.g2_powers@), one_terms@, 0);
        lemma_md_eqm(one);
        let h = |i: int| pairs@[i].0@ * pairs@[i].1@;
        assert forall|i: int| 0 <= i < n implies eqm(#[trigger] h(i), f(i)) by {
            assert(pairs@[i] == before[i]);
        }
        lemma_sum_eqm(h, f, n);
        assert(sum(h, n + 1) == sum(h, n) + h(n));
        lemma_eqm_mul(acc@, -sum(g, n), one_g2@, one);
        lemma_eqm_add(sum(h, n), sum(f, n), h(n), (-sum(g, n)) * one);
        // put the two sums together
        let both = |i: int|
            pow(zv, (i + 1) as nat) * (checks@[i].0@ * checks@[i].1@ - checks@[i].2@ * one);
        assert forall|i: int| 0 <= i < n implies #[trigger] both(i) == f(i) - g(i) * one by {
            let (p, ab, c) = (
                pow(zv, (i + 1) as nat),
                checks@[i].0@ * checks@[i].1@,
                checks@[i].2@,
            );
            assert(p * (ab - c * one) == p * ab - (p * c) * one) by (nonlinear_arith);
        }
        lemma_combine(f, g, both, one, n);
        lemma_sum_ext(
            both,
            |i: int|
                pow(zv, (i + 1) as nat) * (checks@[i].0@ * checks@[i].1@ - checks@[i].2@
                    * g2_logs(pp.g2_powers@)[0]),
            n,
        );
        lemma_sum_ext(h, |i: int| pairs@[i].0@ * pairs@[i].1@, n + 1);
    }
    pairing_product_is_one(&pairs)
}

/// The two sums of the combined check, as one.
proof fn lemma_combine(
    f: spec_fn(int) -> int,
    g: spec_fn(int) -> int,
    both: spec_fn(int) -> int,
    one: int,
    n: int,
)
    requires
        forall|i: int| 0 <= i < n ==> #[trigger] both(i) == f(i) - g(i) * one,
    ensures
        sum(f, n) + (-sum(g, n)) * one == sum(both, n),
    decreases n,
{
    if n <= 0 {
        assert((-0int) * one == 0);
    } else {
        lemma_combine(f, g, both, one, n - 1);
        let (s, t) = (sum(g, n - 1), g(n - 1));
        assert((-(s + t)) * one == (-s) * one - t * one) by (nonlinear_arith);
    }
}

} // verus!
