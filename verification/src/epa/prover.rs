//! The prover.
//!
//! For subsets `I_j` of the domain with labels `v_j`, the prover commits to
//! the vanishing polynomials `Z_j` of the subsets, to polynomials `V_j` that
//! hold the committed vector on the subset, divided by the label, and to
//! running products of the `Z_j`, all blinded; then it answers a challenge
//! for each subset with a combination of two quotients.

use vstd::arithmetic::power::pow;
use vstd::arithmetic::power2::pow2;
use vstd::prelude::*;

use crate::curve::{g1_logs, g2_logs, G1Affine, G2Affine};
use crate::epa::fast_div::{no_remainder, poly_div};
use crate::epa::kzg_helpers::{commit_log, g1_commit, g2_commit};
use crate::epa::partition_math::{
    distinct_below, domain_vanish, lemma_divisible, lemma_domain_vanish_root, lemma_peq_refl,
    lemma_peq_sym, lemma_peq_trans, lemma_points_separated, lemma_product_unit, lemma_unit_pow,
    lemma_vanish_concat, lemma_vanish_monic, lemma_vanish_root, linear, points_at, poly_product,
    product, vanish,
};
use crate::epa::structs::{
    CommonInputs, Proof, ProofView, PublicParameters, Round1Proof, Round1View, Witness,
};
use crate::epa::utils::{challenges, get_challenges};
use crate::field::{values, Fr};
use crate::generator::{later, lemma_later, lemma_upcoming, upcoming};
use crate::modular::{
    eqm, lemma_eqm_add, lemma_eqm_scale, lemma_md_eqm, lemma_md_range, lemma_modulus, md,
};
use crate::poly::{
    interpolates, lemma_represents, reduced, represents, DensePolynomial, GeneralEvaluationDomain,
};
use crate::poly_math::{
    ceq, co, conv, ev, lemma_co_ops, lemma_co_pmul, lemma_conv_add, lemma_conv_comm, lemma_conv_low,
    lemma_conv_scale, lemma_ev_peq, lemma_ev_scale, lemma_pmul_peq, padd, peq, peq_low, pmul,
    pscale, pshift, psub, unit,
};
use crate::roots::{lemma_power_unit, primitive};

verus! {

/// A list of indices as integers.
pub open spec fn indices(s: Seq<usize>) -> Seq<int> {
    Seq::new(s.len(), |i: int| s[i] as int)
}

/// Lists of indices as integers.
pub open spec fn index_lists(s: Seq<Vec<usize>>) -> Seq<Seq<int>> {
    Seq::new(s.len(), |j: int| indices(s[j]@))
}

/// The coefficients of a list of polynomials.
pub open spec fn polys(s: Seq<DensePolynomial>) -> Seq<Seq<int>> {
    Seq::new(s.len(), |j: int| s[j]@)
}

/// All polynomials are without leading zeros.
pub open spec fn all_wf(s: Seq<DensePolynomial>) -> bool {
    forall|j: int| 0 <= j < s.len() ==> (#[trigger] s[j]).wf()
}

/// The values at the indices in `idx`, and zero elsewhere.
pub open spec fn mask(vals: Seq<int>, idx: Seq<int>) -> Seq<int> {
    Seq::new(
        vals.len(),
        |i: int| if idx.contains(i) {
            vals[i]
        } else {
            0
        },
    )
}

/// Zero at the indices in `idx`, and the values elsewhere.
pub open spec fn comask(vals: Seq<int>, idx: Seq<int>) -> Seq<int> {
    Seq::new(
        vals.len(),
        |i: int| if idx.contains(i) {
            0
        } else {
            vals[i]
        },
    )
}

/// `v` times the label takes the committed values on the subset and vanishes
/// on the rest of the domain.
pub open spec fn v_poly(v: Seq<int>, label: int, vals: Seq<int>, idx: Seq<int>, w: int) -> bool {
    v.len() <= vals.len() && interpolates(pscale(label, v), mask(vals, idx), w)
}

/// `p1` times the blinded vanishing polynomial is `X^n - 1`.
pub open spec fn p1_poly(p1: Seq<int>, zb: Seq<int>, n: nat) -> bool {
    p1.len() <= n + 1 && peq(pmul(zb, p1), domain_vanish(n))
}

/// `p2` times the blinded vanishing polynomial `zb` is `d - label * s * zb`,
/// where `d` takes the committed values outside the subset.
pub open spec fn p2_poly(
    p2: Seq<int>,
    zb: Seq<int>,
    label: int,
    s: int,
    vals: Seq<int>,
    idx: Seq<int>,
    w: int,
) -> bool {
    p2.len() <= vals.len() + 1 && exists|d: Seq<int>|
        d.len() <= vals.len() && interpolates(d, comask(vals, idx), w) && #[trigger] peq(
            pmul(zb, p2),
            psub(d, pscale(label * s, zb)),
        )
}

/// Reduced coefficients that are congruent to those of a monic polynomial of
/// degree `n` are `n + 1` in number.
proof fn lemma_monic_len(p: Seq<Fr>, q: Seq<int>, n: nat)
    requires
        crate::poly::trimmed(p),
        peq(values(p), q),
        co(q, n as int) == 1,
        forall|k: int| k > n ==> #[trigger] co(q, k) == 0,
    ensures
        p.len() == n + 1,
{
    lemma_modulus();
    lemma_md_range(0);
    lemma_md_range(1);
    if p.len() > n + 1 {
        let k = p.len() - 1;
        p[k].lemma_range();
        assert(eqm(co(values(p), k), co(q, k)));
    }
    if p.len() < n + 1 {
        assert(eqm(co(values(p), n as int), co(q, n as int)));
        assert(co(values(p), n as int) == 0);
    }
}

/// `X - x` for a domain element `x`.
fn linear_poly(domain: &GeneralEvaluationDomain, i: usize) -> (r: DensePolynomial)
    ensures
        r.wf(),
        peq(r@, linear(pow(domain.gen(), i as nat))),
        r@.len() == 2,
{
    let coeffs: Vec<Fr> = vec![domain.element(i).neg(), Fr::one()];
    let r = DensePolynomial::from_coefficients_vec(coeffs);
    proof {
        let x = pow(domain.gen(), i as nat);
        let l = linear(x);
        assert forall|k: int| eqm(#[trigger] co(r@, k), co(l, k)) by {
            assert(co(r@, k) == co(values(coeffs@), k));
            if k == 0 {
                lemma_md_eqm(x);
                lemma_eqm_add(0, 0, md(x), x);
                lemma_md_eqm(-md(x));
            }
        }
        lemma_monic_len(r.coeffs@, l, 1);
    }
    r
}

/// The vanishing polynomial of a list of positions, by halving the list.
pub fn create_vanishing_poly_recursive(
    positions: &[usize],
    domain: &GeneralEvaluationDomain,
) -> (r: DensePolynomial)
    ensures
        r.wf(),
        peq(r@, vanish(indices(positions@), domain.gen())),
        r@.len() == positions@.len() + 1,
    decreases positions@.len(),
{
    let ghost w = domain.gen();
    let ghost idx = indices(positions@);
    if positions.len() == 0 {
        let r = DensePolynomial::constant(Fr::one());
        proof {
            assert(r@.len() == 1) by {
                assert(co(r@, 0) == co(seq![1int], 0));
            }
            assert forall|k: int| eqm(#[trigger] co(r@, k), co(vanish(idx, w), k)) by {
                assert(co(r@, k) == co(seq![1int], k));
            }
        }
        return r;
    }
    if positions.len() == 1 {
        let r = linear_poly(domain, positions[0]);
        proof {
            assert(idx =~= Seq::<int>::empty() + idx);
            let l = linear(pow(w, idx[0] as nat));
            let e = seq![1int];
            assert(idx.drop_last() =~= Seq::<int>::empty());
            assert(vanish(idx.drop_last(), w) == e);
            assert forall|k: int| eqm(#[trigger] co(r@, k), co(vanish(idx, w), k)) by {
                lemma_co_pmul(e, l, k);
                crate::epa::partition_math::lemma_conv_linear(e, pow(w, idx[0] as nat), k);
                assert(co(vanish(idx, w), k) == co(l, k)) by {
                    let c = pow(w, idx[0] as nat);
                    assert(c * 1 == c && c * 0 == 0);
                }
                assert(eqm(co(r@, k), co(l, k)));
            }
        }
        return r;
    }
    let middle = positions.len() / 2;
    let (left, right) = positions.split_at(middle);
    let a = create_vanishing_poly_recursive(left, domain);
    let b = create_vanishing_poly_recursive(right, domain);
    let r = a.mul(&b);
    proof {
        let (ia, ib) = (indices(left@), indices(right@));
        assert(idx =~= ia + ib);
        lemma_represents(r.coeffs@, pmul(a@, b@));
        lemma_pmul_peq(a@, vanish(ia, w), b@, vanish(ib, w));
        lemma_vanish_concat(ia, ib, w);
        lemma_peq_sym(vanish(idx, w), pmul(vanish(ia, w), vanish(ib, w)));
        lemma_peq_trans(r@, pmul(a@, b@), pmul(vanish(ia, w), vanish(ib, w)));
        lemma_peq_trans(r@, pmul(vanish(ia, w), vanish(ib, w)), vanish(idx, w));
        lemma_vanish_monic(idx, w);
        lemma_monic_len(r.coeffs@, vanish(idx, w), idx.len());
    }
    r
}

/// Multiplying by the constant 1 changes nothing.
proof fn lemma_one_mul(p: Seq<int>)
    ensures
        peq(pmul(seq![1int], p), p),
{
    let e = seq![1int];
    assert forall|k: int| eqm(#[trigger] co(pmul(e, p), k), co(p, k)) by {
        lemma_co_pmul(e, p, k);
        if k < 0 {
            assert(crate::sums::sum(|i: int| co(e, i) * co(p, k - i), k + 1) == 0);
        } else {
            crate::poly_math::lemma_conv_first(e, p, k);
            let t = crate::poly_math::tail(e);
            assert(t =~= Seq::<int>::empty());
            crate::poly_math::lemma_conv_empty(t, p, k - 1);
            assert(1 * co(p, k) == co(p, k));
        }
    }
}

/// A product with two more factors, the two multiplied first.
proof fn lemma_product_pair(a: Seq<int>, b: Seq<int>, x: Seq<int>, y: Seq<int>, xy: Seq<int>)
    requires
        peq(a, b),
        peq(xy, pmul(x, y)),
    ensures
        peq(pmul(a, xy), pmul(pmul(b, x), y)),
{
    lemma_pmul_peq(a, b, xy, pmul(x, y));
    crate::epa::partition_math::lemma_pmul_assoc(b, x, y);
    lemma_peq_sym(pmul(pmul(b, x), y), pmul(b, pmul(x, y)));
    lemma_peq_trans(pmul(a, xy), pmul(b, pmul(x, y)), pmul(pmul(b, x), y));
}

/// The vanishing polynomial of a list of positions, by multiplying neighbours
/// until one polynomial is left.
pub fn create_vanishing_poly_opt(
    positions: &[usize],
    domain: &GeneralEvaluationDomain,
) -> (r: DensePolynomial)
    requires
        positions@.len() > 0,
    ensures
        r.wf(),
        peq(r@, vanish(indices(positions@), domain.gen())),
        r@.len() == positions@.len() + 1,
{
    let ghost w = domain.gen();
    let ghost idx = indices(positions@);
    let mut list: Vec<DensePolynomial> = Vec::new();
    let mut i: usize = 0;
    proof {
        assert(polys(list@) =~= Seq::<Seq<int>>::empty());
        assert(idx.take(0) =~= Seq::<int>::empty());
        lemma_peq_refl(seq![1int]);
    }
    while i < positions.len()
        invariant
            i <= positions.len(),
            w == domain.gen(),
            idx == indices(positions@),
            list@.len() == i,
            all_wf(list@),
            peq(poly_product(polys(list@)), vanish(idx.take(i as int), w)),
        decreases positions.len() - i,
    {
        let ghost before = polys(list@);
        let l = linear_poly(domain, positions[i]);
        list.push(l);
        proof {
            let now = polys(list@);
            assert(now.drop_last() =~= before);
            assert(now.last() == l@);
            assert(idx.take(i + 1).drop_last() =~= idx.take(i as int));
            assert(idx.take(i + 1).last() == positions@[i as int]);
            lemma_pmul_peq(
                poly_product(before),
                vanish(idx.take(i as int), w),
                l@,
                linear(pow(w, positions@[i as int] as nat)),
            );
        }
        i += 1;
    }
    proof {
        assert(idx.take(idx.len() as int) =~= idx);
    }
    while list.len() > 1
        invariant
            list@.len() > 0,
            all_wf(list@),
            peq(poly_product(polys(list@)), vanish(idx, w)),
        decreases list.len(),
    {
        let ghost old_polys = polys(list@);
        let mut new_list: Vec<DensePolynomial> = Vec::new();
        let mut k: usize = 0;
        proof {
            assert(polys(new_list@) =~= Seq::<Seq<int>>::empty());
            assert(old_polys.take(0) =~= Seq::<Seq<int>>::empty());
            lemma_peq_refl(seq![1int]);
        }
        while k < list.len() / 2
            invariant
                k <= list@.len() / 2,
                list@.len() > 1,
                all_wf(list@),
                all_wf(new_list@),
                old_polys == polys(list@),
                new_list@.len() == k,
                peq(poly_product(polys(new_list@)), poly_product(old_polys.take(2 * k))),
            decreases list@.len() / 2 - k,
        {
            let ghost before = polys(new_list@);
            let p = list[2 * k].mul(&list[2 * k + 1]);
            new_list.push(p);
            proof {
                let t = old_polys.take(2 * k);
                let t2 = old_polys.take(2 * k + 2);
                let (x, y) = (old_polys[2 * k], old_polys[2 * k + 1]);
                assert(t2.drop_last() =~= old_polys.take(2 * k + 1));
                assert(t2.drop_last().drop_last() =~= t);
                assert(t2.last() == y && t2.drop_last().last() == x);
                assert(poly_product(t2.drop_last()) == pmul(poly_product(t), x));
                assert(poly_product(t2) == pmul(pmul(poly_product(t), x), y));
                assert(polys(new_list@).drop_last() =~= before);
                lemma_represents(p.coeffs@, pmul(x, y));
                lemma_product_pair(poly_product(before), poly_product(t), x, y, p@);
            }
            k += 1;
        }
        if list.len() % 2 == 1 {
            let ghost before = polys(new_list@);
            let last = list[list.len() - 1].clone();
            new_list.push(last);
            proof {
                let n = old_polys.len() as int;
                assert(2 * k == n - 1);
                assert(old_polys.drop_last() =~= old_polys.take(2 * k));
                assert(polys(new_list@).drop_last() =~= before);
                assert(last@ == old_polys.last());
                lemma_peq_refl(last@);
                lemma_pmul_peq(
                    poly_product(before),
                    poly_product(old_polys.take(2 * k)),
                    last@,
                    last@,
                );
            }
        } else {
            proof {
                assert(old_polys.take(2 * k) =~= old_polys);
            }
        }
        proof {
            lemma_peq_trans(
                poly_product(polys(new_list@)),
                poly_product(old_polys),
                vanish(idx, w),
            );
        }
        list = new_list;
    }
    let r = list[0].clone();
    proof {
        let ps = polys(list@);
        assert(ps.drop_last() =~= Seq::<Seq<int>>::empty());
        assert(ps.last() == r@);
        assert(poly_product(ps.drop_last()) == seq![1int]);
        assert(poly_product(ps) == pmul(seq![1int], r@));
        lemma_one_mul(r@);
        lemma_peq_sym(pmul(seq![1int], r@), r@);
        lemma_peq_trans(r@, poly_product(ps), vanish(idx, w));
        lemma_vanish_monic(idx, w);
        lemma_monic_len(r.coeffs@, vanish(idx, w), idx.len());
    }
    r
}

/// The prover's inputs fit the parameters: the values cover the domain, there
/// is a label for each subset, and each subset holds distinct indices.
pub open spec fn witness_fits(pp: &PublicParameters, common: &CommonInputs, witness: &Witness) -> bool {
    &&& pp.wf()
    &&& witness.c_values@.len() == pp.domain.spec_size()
    &&& witness.subsets_indices@.len() >= 1
    &&& common.vote_per_j@.len() == witness.subsets_indices@.len()
    &&& forall|j: int|
        0 <= j < witness.subsets_indices@.len() ==> distinct_below(
            indices(#[trigger] witness.subsets_indices@[j]@),
            pp.domain.spec_size(),
        )
}

/// The label of a subset: a power of the domain's generator.
pub open spec fn label(pp: &PublicParameters, vote: usize) -> int {
    pow(pp.domain.gen(), vote as nat)
}

/// A domain element is invertible, so it is not zero.
proof fn lemma_element_nonzero(domain: &GeneralEvaluationDomain, x: int, i: nat)
    requires
        domain.wf(),
        x == md(pow(domain.gen(), i)),
    ensures
        x != 0,
        unit(pow(domain.gen(), i)),
{
    let w = domain.gen();
    vstd::arithmetic::power::lemma_pow1(w);
    vstd::arithmetic::power2::lemma_pow2_pos(domain.spec_log());
    lemma_power_unit(w, domain.spec_log(), 1);
    lemma_unit_pow(w, i);
    lemma_modulus();
    lemma_md_range(0);
    lemma_md_range(1);
    if x == 0 {
        let u = choose|u: int| eqm(#[trigger] (u * pow(w, i)), 1);
        lemma_eqm_scale(u, pow(w, i), 0);
        assert(u * 0 == 0);
    }
}

/// The committed values on one subset, and zero elsewhere.
fn masked_values(vals: &Vec<Fr>, subset: &Vec<usize>) -> (r: Vec<Fr>)
    requires
        distinct_below(indices(subset@), vals@.len() as int),
    ensures
        r@.len() == vals@.len(),
        values(r@) == mask(values(vals@), indices(subset@)),
{
    let n = vals.len();
    let mut r: Vec<Fr> = Vec::new();
    let zero = Fr::zero();
    let mut t: usize = 0;
    while t < n
        invariant
            t <= n,
            zero@ == 0,
            r@.len() == t,
            forall|i: int| 0 <= i < t ==> (#[trigger] r@[i])@ == 0,
        decreases n - t,
    {
        r.push(zero);
        t += 1;
    }
    let ghost idx = indices(subset@);
    let mut a: usize = 0;
    while a < subset.len()
        invariant
            a <= subset.len(),
            n == vals@.len(),
            r@.len() == n,
            idx == indices(subset@),
            distinct_below(idx, n as int),
            forall|i: int|
                0 <= i < n ==> (#[trigger] r@[i])@ == if idx.take(a as int).contains(i) {
                    vals@[i]@
                } else {
                    0
                },
        decreases subset.len() - a,
    {
        let i = subset[a];
        assert(idx[a as int] == i);
        r.set(i, vals[i]);
        proof {
            let (s, t) = (idx.take(a as int), idx.take(a + 1));
            assert forall|z: int| 0 <= z < n implies (#[trigger] r@[z])@ == if t.contains(z) {
                vals@[z]@
            } else {
                0
            } by {
                if z == i {
                    assert(t[a as int] == z);
                } else if s.contains(z) {
                    let q = choose|q: int| 0 <= q < s.len() && s[q] == z;
                    assert(t[q] == z);
                } else {
                    assert(!t.contains(z)) by {
                        if t.contains(z) {
                            let q = choose|q: int| 0 <= q < t.len() && t[q] == z;
                            if q < a {
                                assert(s[q] == z);
                            }
                        }
                    }
                }
            }
        }
        a += 1;
    }
    proof {
        assert(idx.take(idx.len() as int) =~= idx);
        assert(values(r@) =~= mask(values(vals@), idx));
    }
    r
}

/// Zero on one subset, and the committed values elsewhere.
fn comasked_values(vals: &Vec<Fr>, subset: &Vec<usize>) -> (r: Vec<Fr>)
    requires
        distinct_below(indices(subset@), vals@.len() as int),
    ensures
        r@.len() == vals@.len(),
        values(r@) == comask(values(vals@), indices(subset@)),
{
    let n = vals.len();
    let mut r: Vec<Fr> = crate::labels::clone_scalars(vals);
    let zero = Fr::zero();
    let ghost idx = indices(subset@);
    let mut a: usize = 0;
    while a < subset.len()
        invariant
            a <= subset.len(),
            n == vals@.len(),
            zero@ == 0,
            r@.len() == n,
            idx == indices(subset@),
            distinct_below(idx, n as int),
            forall|i: int|
                0 <= i < n ==> (#[trigger] r@[i])@ == if idx.take(a as int).contains(i) {
                    0
                } else {
                    vals@[i]@
                },
        decreases subset.len() - a,
    {
        let i = subset[a];
        assert(idx[a as int] == i);
        r.set(i, zero);
        proof {
            let (s, t) = (idx.take(a as int), idx.take(a + 1));
            assert forall|z: int| 0 <= z < n implies (#[trigger] r@[z])@ == if t.contains(z) {
                0
            } else {
                vals@[z]@
            } by {
                if z == i {
                    assert(t[a as int] == z);
                } else if s.contains(z) {
                    let q = choose|q: int| 0 <= q < s.len() && s[q] == z;
                    assert(t[q] == z);
                } else {
                    assert(!t.contains(z)) by {
                        if t.contains(z) {
                            let q = choose|q: int| 0 <= q < t.len() && t[q] == z;
                            if q < a {
                                assert(s[q] == z);
                            }
                        }
                    }
                }
            }
        }
        a += 1;
    }
    proof {
        assert(idx.take(idx.len() as int) =~= idx);
        assert(values(r@) =~= comask(values(vals@), idx));
    }
    r
}

/// The polynomials that hold the committed vector on each subset, divided by
/// the subset's label.
fn create_v_polys(pp: &PublicParameters, common: &CommonInputs, witness: &Witness) -> (r: Vec<
    DensePolynomial,
>)
    requires
        witness_fits(pp, common, witness),
    ensures
        r@.len() == witness.subsets_indices@.len(),
        all_wf(r@),
        forall|j: int|
            0 <= j < r@.len() ==> v_poly(
                (#[trigger] r@[j])@,
                label(pp, common.vote_per_j@[j]),
                values(witness.c_values@),
                indices(witness.subsets_indices@[j]@),
                pp.domain.gen(),
            ),
{
    let ghost vals = values(witness.c_values@);
    let ghost w = pp.domain.gen();
    let mut r: Vec<DensePolynomial> = Vec::new();
    let mut j: usize = 0;
    while j < witness.subsets_indices.len()
        invariant
            j <= witness.subsets_indices.len(),
            witness_fits(pp, common, witness),
            vals == values(witness.c_values@),
            w == pp.domain.gen(),
            r@.len() == j,
            all_wf(r@),
            forall|i: int|
                0 <= i < j ==> v_poly(
                    (#[trigger] r@[i])@,
                    label(pp, common.vote_per_j@[i]),
                    vals,
                    indices(witness.subsets_indices@[i]@),
                    w,
                ),
        decreases witness.subsets_indices.len() - j,
    {
        let subset = &witness.subsets_indices[j];
        assert(distinct_below(indices(witness.subsets_indices@[j as int]@), pp.domain.spec_size()));
        let v_values = masked_values(&witness.c_values, subset);
        let p = DensePolynomial::interpolate(&v_values, &pp.domain);
        let element = pp.domain.element(common.vote_per_j[j]);
        proof {
            lemma_element_nonzero(&pp.domain, element@, common.vote_per_j@[j as int] as nat);
        }
        let inv = element.inverse().unwrap();
        let v = p.scale(inv);
        proof {
            let l = label(pp, common.vote_per_j@[j as int]);
            let m = mask(vals, indices(subset@));
            lemma_represents(v.coeffs@, pscale(inv@, p@));
            assert forall|i: int| 0 <= i < m.len() implies eqm(
                ev(pscale(l, v@), pow(w, i as nat)),
                #[trigger] m[i],
            ) by {
                let x = pow(w, i as nat);
                assert(eqm(ev(p@, x), m[i]));
                lemma_ev_scale(l, v@, x);
                lemma_ev_peq(v@, pscale(inv@, p@), x);
                lemma_ev_scale(inv@, p@, x);
                lemma_eqm_scale(l, ev(v@, x), inv@ * ev(p@, x));
                lemma_modulus();
                lemma_md_range(1);
                lemma_md_eqm(l);
                lemma_eqm_scale(inv@, md(l), l);
                lemma_eqm_scale(ev(p@, x), inv@ * l, 1);
                let e = ev(p@, x);
                assert(l * (inv@ * e) == (inv@ * l) * e) by (nonlinear_arith);
                assert(1 * e == e);
            }
        }
        r.push(v);
        j += 1;
    }
    r
}

/// The vanishing polynomials of all subsets.
fn generate_vanishing_polys(pp: &PublicParameters, witness: &Witness) -> (r: Vec<DensePolynomial>)
    ensures
        r@.len() == witness.subsets_indices@.len(),
        all_wf(r@),
        forall|j: int|
            0 <= j < r@.len() ==> peq(
                (#[trigger] r@[j])@,
                vanish(indices(witness.subsets_indices@[j]@), pp.domain.gen()),
            ) && r@[j]@.len() == witness.subsets_indices@[j]@.len() + 1,
{
    let mut r: Vec<DensePolynomial> = Vec::new();
    let mut j: usize = 0;
    while j < witness.subsets_indices.len()
        invariant
            j <= witness.subsets_indices.len(),
            r@.len() == j,
            all_wf(r@),
            forall|i: int|
                0 <= i < j ==> peq(
                    (#[trigger] r@[i])@,
                    vanish(indices(witness.subsets_indices@[i]@), pp.domain.gen()),
                ) && r@[i]@.len() == witness.subsets_indices@[i]@.len() + 1,
        decreases witness.subsets_indices.len() - j,
    {
        let z = create_vanishing_poly_recursive(
            witness.subsets_indices[j].as_slice(),
            &pp.domain,
        );
        r.push(z);
        j += 1;
    }
    r
}

/// Completes drawn blinding factors by the inverse of their product, so that
/// the product of all is 1. There is none if the product is zero.
pub fn complete_blinders(drawn: Vec<Fr>) -> (r: Option<Vec<Fr>>)
    ensures
        r is Some <==> md(product(values(drawn@))) != 0,
        r matches Some(b) ==> b@.len() == drawn@.len() + 1 && b@.drop_last() == drawn@ && eqm(
            product(values(b@)),
            1,
        ),
{
    let mut acc = Fr::one();
    let ghost vals = values(drawn@);
    let mut i: usize = 0;
    proof {
        assert(vals.take(0) =~= Seq::<int>::empty());
        lemma_modulus();
        lemma_md_range(1);
    }
    while i < drawn.len()
        invariant
            i <= drawn.len(),
            vals == values(drawn@),
            acc@ == md(product(vals.take(i as int))),
        decreases drawn.len() - i,
    {
        proof {
            let p = product(vals.take(i as int));
            assert(vals.take(i + 1).drop_last() =~= vals.take(i as int));
            lemma_md_eqm(p);
            lemma_eqm_scale(vals[i as int], md(p), p);
        }
        acc = acc.mul(drawn[i]);
        i += 1;
    }
    proof {
        assert(vals.take(vals.len() as int) =~= vals);
    }
    match acc.inverse() {
        Some(inv) => {
            let mut b = drawn;
            b.push(inv);
            proof {
                let p = product(vals);
                assert(b@.drop_last() =~= drawn@);
                assert(values(b@).drop_last() =~= vals);
                lemma_md_eqm(p);
                lemma_eqm_scale(inv@, md(p), p);
                lemma_modulus();
                lemma_md_range(1);
                assert(p * inv@ == inv@ * p) by (nonlinear_arith);
            }
            Some(b)
        },
        None => None,
    }
}

/// The factors `s` for `count` subsets, as a generator gives them.
pub open spec fn drawn_s(rng: rand::rngs::StdRng, count: int) -> Seq<int> {
    Seq::new(count as nat, |j: int| md(upcoming(rng, 2 * j)))
}

/// The first `count` factors `r`, as a generator gives them.
pub open spec fn drawn_r(rng: rand::rngs::StdRng, count: int) -> Seq<int> {
    Seq::new(count as nat, |j: int| md(upcoming(rng, 2 * j + 1)))
}

/// Blinding factors for `count` subsets: scalars `r` whose product is 1, and
/// scalars `s`. There are none if a drawn product is zero.
fn generate_blinders(count: usize, rng: &mut rand::rngs::StdRng) -> (rs: Option<
    (Vec<Fr>, Vec<Fr>),
>)
    requires
        count >= 1,
    ensures
        rs is Some <==> md(product(drawn_r(*old(rng), count - 1))) != 0,
        rs matches Some((r, s)) ==> r@.len() == count && s@.len() == count && values(r@).drop_last() == drawn_r(
            *old(rng),
            count - 1,
        ) && eqm(product(values(r@)), 1) && values(s@) == drawn_s(*old(rng), count as int),
        later(*old(rng), *final(rng), 2 * count - 1),
{
    let mut r_blinders: Vec<Fr> = Vec::new();
    let mut s_blinders: Vec<Fr> = Vec::new();
    let mut i: usize = 0;
    while i + 1 < count
        invariant
            i + 1 <= count,
            values(r_blinders@) == drawn_r(*old(rng), i as int),
            values(s_blinders@) == drawn_s(*old(rng), i as int),
            later(*old(rng), *rng, 2 * i),
        decreases count - i,
    {
        let ghost (rs, ss) = (values(r_blinders@), values(s_blinders@));
        let ghost before = *rng;
        let s = Fr::rand(rng);
        let ghost between = *rng;
        let r = Fr::rand(rng);
        s_blinders.push(s);
        r_blinders.push(r);
        proof {
            lemma_upcoming(*old(rng), before, 2 * i, 0);
            lemma_later(*old(rng), before, between, 2 * i, 1);
            lemma_upcoming(*old(rng), between, 2 * i + 1, 0);
            lemma_later(*old(rng), between, *rng, 2 * i + 1, 1);
            assert(values(s_blinders@) =~= ss.push(s@));
            assert(values(r_blinders@) =~= rs.push(r@));
            assert(drawn_s(*old(rng), i + 1) =~= ss.push(s@));
            assert(drawn_r(*old(rng), i + 1) =~= rs.push(r@));
        }
        i += 1;
    }
    let ghost ss = values(s_blinders@);
    let ghost before = *rng;
    let s = Fr::rand(rng);
    s_blinders.push(s);
    proof {
        lemma_upcoming(*old(rng), before, 2 * i, 0);
        lemma_later(*old(rng), before, *rng, 2 * i, 1);
        assert(values(s_blinders@) =~= ss.push(s@));
        assert(drawn_s(*old(rng), count as int) =~= ss.push(s@));
    }
    let ghost drawn = r_blinders@;
    match complete_blinders(r_blinders) {
        Some(r) => {
            proof {
                assert(values(r@).drop_last() =~= values(drawn));
            }
            Some((r, s_blinders))
        },
        None => None,
    }
}

/// The blinded vanishing polynomials `r_j * Z_j`, and the `V_j` blinded by
/// `s_j` times those.
fn generate_blinded_z_v(
    z_polys: &Vec<DensePolynomial>,
    v_polys: &Vec<DensePolynomial>,
    r_blinders: &Vec<Fr>,
    s_blinders: &Vec<Fr>,
) -> (zv: (Vec<DensePolynomial>, Vec<DensePolynomial>))
    requires
        z_polys@.len() == v_polys@.len(),
        z_polys@.len() == r_blinders@.len(),
        z_polys@.len() == s_blinders@.len(),
    ensures
        zv.0@.len() == z_polys@.len(),
        zv.1@.len() == z_polys@.len(),
        all_wf(zv.0@),
        all_wf(zv.1@),
        forall|j: int|
            0 <= j < z_polys@.len() ==> represents(
                (#[trigger] zv.0@[j]).coeffs@,
                pscale(r_blinders@[j]@, z_polys@[j]@),
            ),
        forall|j: int|
            0 <= j < z_polys@.len() ==> peq(
                (#[trigger] zv.1@[j])@,
                padd(v_polys@[j]@, pscale(s_blinders@[j]@, zv.0@[j]@)),
            ) && (zv.1@[j]@.len() <= v_polys@[j]@.len() || zv.1@[j]@.len() <= zv.0@[j]@.len()),
{
    let mut blinded_z: Vec<DensePolynomial> = Vec::new();
    let mut blinded_v: Vec<DensePolynomial> = Vec::new();
    let mut j: usize = 0;
    while j < z_polys.len()
        invariant
            j <= z_polys.len(),
            z_polys@.len() == v_polys@.len(),
            z_polys@.len() == r_blinders@.len(),
            z_polys@.len() == s_blinders@.len(),
            blinded_z@.len() == j,
            blinded_v@.len() == j,
            all_wf(blinded_z@),
            all_wf(blinded_v@),
            forall|i: int|
                0 <= i < j ==> represents(
                    (#[trigger] blinded_z@[i]).coeffs@,
                    pscale(r_blinders@[i]@, z_polys@[i]@),
                ),
            forall|i: int|
                0 <= i < j ==> peq(
                    (#[trigger] blinded_v@[i])@,
                    padd(v_polys@[i]@, pscale(s_blinders@[i]@, blinded_z@[i]@)),
                ) && (blinded_v@[i]@.len() <= v_polys@[i]@.len() || blinded_v@[i]@.len()
                    <= blinded_z@[i]@.len()),
        decreases z_polys.len() - j,
    {
        let zb = z_polys[j].scale(r_blinders[j]);
        let sz = zb.scale(s_blinders[j]);
        let vb = v_polys[j].add(&sz);
        proof {
            lemma_represents(sz.coeffs@, pscale(s_blinders@[j as int]@, zb@));
            lemma_represents(vb.coeffs@, padd(v_polys@[j as int]@, sz@));
            let v = v_polys@[j as int]@;
            let ss = pscale(s_blinders@[j as int]@, zb@);
            assert forall|k: int| eqm(#[trigger] co(vb@, k), co(padd(v, ss), k)) by {
                lemma_co_ops(v, sz@, 0, 0, k);
                lemma_co_ops(v, ss, 0, 0, k);
                assert(eqm(co(vb@, k), co(padd(v, sz@), k)));
                assert(eqm(co(sz@, k), co(ss, k)));
                lemma_eqm_add(co(v, k), co(v, k), co(sz@, k), co(ss, k));
            }
        }
        blinded_z.push(zb);
        blinded_v.push(vb);
        j += 1;
    }
    (blinded_z, blinded_v)
}

/// `X^n - 1` for the domain.
fn domain_vanishing_poly(domain: &GeneralEvaluationDomain) -> (r: DensePolynomial)
    requires
        domain.wf(),
    ensures
        r.wf(),
        peq(r@, domain_vanish(domain.spec_size() as nat)),
        r@.len() == domain.spec_size() + 1,
{
    let n = domain.size();
    let mut coeffs: Vec<Fr> = Vec::new();
    coeffs.push(Fr::one().neg());
    let zero = Fr::zero();
    let mut i: usize = 1;
    while i < n
        invariant
            1 <= i <= n,
            zero@ == 0,
            coeffs@.len() == i,
            coeffs@[0]@ == md(-1),
            forall|k: int| 1 <= k < i ==> (#[trigger] coeffs@[k])@ == 0,
        decreases n - i,
    {
        coeffs.push(zero);
        i += 1;
    }
    coeffs.push(Fr::one());
    let r = DensePolynomial::from_coefficients_vec(coeffs);
    proof {
        let z = domain_vanish(n as nat);
        assert forall|k: int| eqm(#[trigger] co(r@, k), co(z, k)) by {
            assert(co(r@, k) == co(values(coeffs@), k));
            if k == 0 {
                lemma_md_eqm(-1);
            }
        }
        lemma_monic_len(r.coeffs@, z, n as nat);
    }
    r
}

/// The quotient of `a` by `z`, times the inverse of the blinder `r`, is a
/// quotient of `a` by the blinded `z`.
proof fn lemma_blinded_quotient(
    a: Seq<int>,
    z: Seq<int>,
    q: Seq<int>,
    p: Seq<int>,
    zb: Seq<int>,
    r: int,
    rinv: int,
)
    requires
        peq(a, pmul(z, q)),
        peq(p, pscale(rinv, q)),
        peq(zb, pscale(r, z)),
        eqm(rinv * r, 1),
    ensures
        peq(pmul(zb, p), a),
{
    assert forall|k: int| eqm(#[trigger] co(pmul(zb, p), k), co(a, k)) by {
        lemma_co_pmul(zb, p, k);
        lemma_co_pmul(z, q, k);
        let rq = pscale(rinv, q);
        let rz = pscale(r, z);
        assert(peq_low(zb, rz, k + 1));
        assert(peq_low(p, rq, k + 1));
        lemma_conv_low(zb, rz, p, rq, k + 1, k);
        lemma_conv_scale(r, z, rq, k);
        lemma_conv_comm(z, rq, k);
        lemma_conv_scale(rinv, q, z, k);
        lemma_conv_comm(q, z, k);
        let c = conv(z, q, k);
        assert(r * (rinv * c) == (rinv * r) * c) by (nonlinear_arith);
        lemma_eqm_scale(c, rinv * r, 1);
        assert(1 * c == c);
        assert(eqm(co(a, k), co(pmul(z, q), k)));
    }
}

/// Adding a constant to a factor adds that multiple of the other factor.
proof fn lemma_add_constant(zb: Seq<int>, p: Seq<int>, q: Seq<int>, c: int, d: Seq<int>, t: int)
    requires
        peq(p, padd(q, seq![c])),
        peq(pmul(zb, q), d),
        eqm(c, -t),
    ensures
        peq(pmul(zb, p), psub(d, pscale(t, zb))),
{
    assert forall|k: int| eqm(#[trigger] co(pmul(zb, p), k), co(psub(d, pscale(t, zb)), k)) by {
        let qc = padd(q, seq![c]);
        lemma_co_pmul(zb, p, k);
        lemma_co_pmul(zb, q, k);
        lemma_peq_refl(zb);
        assert(peq_low(zb, zb, k + 1));
        assert(peq_low(p, qc, k + 1));
        lemma_conv_low(zb, zb, p, qc, k + 1, k);
        lemma_conv_comm(zb, qc, k);
        lemma_conv_add(q, seq![c], zb, k);
        lemma_conv_comm(q, zb, k);
        // the constant factor
        if k < 0 {
            assert(crate::sums::sum(|i: int| co(seq![c], i) * co(zb, k - i), k + 1) == 0);
            assert(c * 0 == 0);
        } else {
            crate::poly_math::lemma_conv_first(seq![c], zb, k);
            let e = crate::poly_math::tail(seq![c]);
            assert(e =~= Seq::<int>::empty());
            crate::poly_math::lemma_conv_empty(e, zb, k - 1);
        }
        assert(conv(seq![c], zb, k) == c * co(zb, k));
        lemma_eqm_scale(co(zb, k), c, -t);
        lemma_co_ops(d, pscale(t, zb), 0, 0, k);
        lemma_co_ops(zb, zb, t, 0, k);
        assert(eqm(co(pmul(zb, q), k), co(d, k)));
        lemma_eqm_add(conv(zb, q, k), co(d, k), c * co(zb, k), (-t) * co(zb, k));
        assert((-t) * co(zb, k) == -(t * co(zb, k))) by (nonlinear_arith);
    }
}

/// The zeros of a subset's vanishing polynomial.
proof fn lemma_subset_roots(z: Seq<int>, idx: Seq<int>, w: int, i: int)
    requires
        peq(z, vanish(idx, w)),
        0 <= i < idx.len(),
    ensures
        eqm(ev(z, points_at(idx, w)[i]), 0),
{
    let x = points_at(idx, w)[i];
    lemma_ev_peq(z, vanish(idx, w), x);
    lemma_vanish_root(idx, w, i);
}

/// The vanishing polynomial of a subset divides `X^n - 1`.
proof fn lemma_divides_domain(zh: Seq<int>, z: Seq<int>, idx: Seq<int>, w: int, k: nat)
    requires
        primitive(w, k),
        peq(zh, domain_vanish(pow2(k))),
        peq(z, vanish(idx, w)),
        z.len() == idx.len() + 1,
        distinct_below(idx, pow2(k) as int),
    ensures
        no_remainder(zh, z),
{
    let xs = points_at(idx, w);
    lemma_points_separated(idx, w, k);
    assert forall|i: int| 0 <= i < xs.len() implies eqm(ev(zh, #[trigger] xs[i]), 0) by {
        lemma_ev_peq(zh, domain_vanish(pow2(k)), xs[i]);
        lemma_domain_vanish_root(w, k, idx[i] as nat);
    }
    assert forall|i: int| 0 <= i < xs.len() implies eqm(ev(z, #[trigger] xs[i]), 0) by {
        lemma_subset_roots(z, idx, w, i);
    }
    lemma_divisible(zh, z, xs);
}

/// A polynomial that vanishes on a subset is divisible by the subset's
/// vanishing polynomial.
proof fn lemma_divides_comasked(
    d: Seq<int>,
    z: Seq<int>,
    vals: Seq<int>,
    idx: Seq<int>,
    w: int,
    k: nat,
)
    requires
        primitive(w, k),
        vals.len() == pow2(k),
        interpolates(d, comask(vals, idx), w),
        peq(z, vanish(idx, w)),
        z.len() == idx.len() + 1,
        distinct_below(idx, pow2(k) as int),
    ensures
        no_remainder(d, z),
{
    let xs = points_at(idx, w);
    lemma_points_separated(idx, w, k);
    let c = comask(vals, idx);
    assert forall|i: int| 0 <= i < xs.len() implies eqm(ev(d, #[trigger] xs[i]), 0) by {
        let t = idx[i];
        assert(idx.contains(t));
        assert(eqm(ev(d, pow(w, t as nat)), c[t]));
    }
    assert forall|i: int| 0 <= i < xs.len() implies eqm(ev(z, #[trigger] xs[i]), 0) by {
        lemma_subset_roots(z, idx, w, i);
    }
    lemma_divisible(d, z, xs);
}

/// The two blinded quotients for one subset.
fn quotients_for_subset(
    pp: &PublicParameters,
    z_h: &DensePolynomial,
    z: &DensePolynomial,
    zb: &DensePolynomial,
    subset: &Vec<usize>,
    c_values: &Vec<Fr>,
    vote: usize,
    r_blinder: Fr,
    s_blinder: Fr,
) -> (p: (DensePolynomial, DensePolynomial))
    requires
        pp.wf(),
        z_h.wf(),
        peq(z_h@, domain_vanish(pp.domain.spec_size() as nat)),
        z_h@.len() == pp.domain.spec_size() + 1,
        z.wf(),
        peq(z@, vanish(indices(subset@), pp.domain.gen())),
        z@.len() == subset@.len() + 1,
        peq(zb@, pscale(r_blinder@, z@)),
        distinct_below(indices(subset@), pp.domain.spec_size()),
        c_values@.len() == pp.domain.spec_size(),
        unit(r_blinder@),
    ensures
        p.0.wf(),
        p.1.wf(),
        p1_poly(p.0@, zb@, pp.domain.spec_size() as nat),
        p2_poly(
            p.1@,
            zb@,
            label(pp, vote),
            s_blinder@,
            values(c_values@),
            indices(subset@),
            pp.domain.gen(),
        ),
{
    let ghost w = pp.domain.gen();
    let ghost k = pp.domain.spec_log();
    let ghost idx = indices(subset@);
    let ghost vals = values(c_values@);
    proof {
        lemma_divides_domain(z_h@, z@, idx, w, k);
        crate::bls::lemma_nonzero_unit(r_blinder@);
    }
    let r_inv = r_blinder.inverse().unwrap();
    proof {
        lemma_modulus();
        lemma_md_range(1);
    }
    // (X^n - 1) / Z_j, blinded
    let q1 = poly_div(z_h, z);
    let p1 = q1.scale(r_inv);
    proof {
        lemma_represents(p1.coeffs@, pscale(r_inv@, q1@));
        lemma_blinded_quotient(z_h@, z@, q1@, p1@, zb@, r_blinder@, r_inv@);
        lemma_peq_trans(
            pmul(zb@, p1@),
            z_h@,
            domain_vanish(pp.domain.spec_size() as nat),
        );
    }
    // C minus the label times V_j is the committed vector outside the subset
    // and zero on it, so it is interpolated from those values.
    let dividend_values = comasked_values(c_values, subset);
    let dividend = DensePolynomial::interpolate(&dividend_values, &pp.domain);
    proof {
        lemma_divides_comasked(dividend@, z@, vals, idx, w, k);
    }
    let q2 = poly_div(&dividend, z);
    let v = pp.domain.element(vote);
    let neg_vs = v.neg().mul(s_blinder);
    let scaled = q2.scale(r_inv);
    let constant = DensePolynomial::constant(neg_vs);
    let p2 = scaled.add(&constant);
    proof {
        let l = label(pp, vote);
        lemma_represents(scaled.coeffs@, pscale(r_inv@, q2@));
        lemma_represents(p2.coeffs@, padd(scaled@, constant@));
        lemma_blinded_quotient(dividend@, z@, q2@, scaled@, zb@, r_blinder@, r_inv@);
        let cc = seq![neg_vs@];
        assert(peq(p2@, padd(scaled@, cc))) by {
            assert forall|i: int| eqm(#[trigger] co(p2@, i), co(padd(scaled@, cc), i)) by {
                lemma_co_ops(scaled@, constant@, 0, 0, i);
                lemma_co_ops(scaled@, cc, 0, 0, i);
                assert(co(constant@, i) == co(cc, i));
                assert(eqm(co(p2@, i), co(padd(scaled@, constant@), i)));
            }
        }
        // the constant is congruent to -(label * s)
        let s = s_blinder@;
        lemma_md_eqm(l);
        lemma_eqm_add(0, 0, md(l), l);
        lemma_md_eqm(-md(l));
        lemma_eqm_scale(s, md(-md(l)), -l);
        lemma_md_eqm(md(-md(l)) * s);
        assert((-l) * s == -(l * s)) by (nonlinear_arith);
        lemma_add_constant(zb@, p2@, scaled@, neg_vs@, dividend@, l * s);
        assert(p2_poly(p2@, zb@, l, s, vals, idx, w)) by {
            assert(peq(pmul(zb@, p2@), psub(dividend@, pscale(l * s, zb@))));
        }
    }
    (p1, p2)
}

/// The blinded quotients for all subsets.
fn generate_quotient_polys(
    pp: &PublicParameters,
    common: &CommonInputs,
    witness: &Witness,
    z_polys: &Vec<DensePolynomial>,
    blinded_z: &Vec<DensePolynomial>,
    r_blinders: &Vec<Fr>,
    s_blinders: &Vec<Fr>,
) -> (p: (Vec<DensePolynomial>, Vec<DensePolynomial>))
    requires
        witness_fits(pp, common, witness),
        z_polys@.len() == witness.subsets_indices@.len(),
        blinded_z@.len() == z_polys@.len(),
        r_blinders@.len() == z_polys@.len(),
        s_blinders@.len() == z_polys@.len(),
        all_wf(z_polys@),
        forall|j: int|
            0 <= j < z_polys@.len() ==> peq(
                (#[trigger] z_polys@[j])@,
                vanish(indices(witness.subsets_indices@[j]@), pp.domain.gen()),
            ) && z_polys@[j]@.len() == witness.subsets_indices@[j]@.len() + 1,
        forall|j: int|
            0 <= j < z_polys@.len() ==> represents(
                (#[trigger] blinded_z@[j]).coeffs@,
                pscale(r_blinders@[j]@, z_polys@[j]@),
            ),
        eqm(product(values(r_blinders@)), 1),
    ensures
        p.0@.len() == z_polys@.len(),
        p.1@.len() == z_polys@.len(),
        all_wf(p.0@),
        all_wf(p.1@),
        forall|j: int|
            0 <= j < z_polys@.len() ==> p1_poly(
                (#[trigger] p.0@[j])@,
                blinded_z@[j]@,
                pp.domain.spec_size() as nat,
            ),
        forall|j: int|
            0 <= j < z_polys@.len() ==> p2_poly(
                (#[trigger] p.1@[j])@,
                blinded_z@[j]@,
                label(pp, common.vote_per_j@[j]),
                s_blinders@[j]@,
                values(witness.c_values@),
                indices(witness.subsets_indices@[j]@),
                pp.domain.gen(),
            ),
{
    let z_h = domain_vanishing_poly(&pp.domain);
    let mut p_1: Vec<DensePolynomial> = Vec::new();
    let mut p_2: Vec<DensePolynomial> = Vec::new();
    let mut j: usize = 0;
    while j < z_polys.len()
        invariant
            j <= z_polys.len(),
            witness_fits(pp, common, witness),
            z_h.wf(),
            peq(z_h@, domain_vanish(pp.domain.spec_size() as nat)),
            z_h@.len() == pp.domain.spec_size() + 1,
            z_polys@.len() == witness.subsets_indices@.len(),
            blinded_z@.len() == z_polys@.len(),
            r_blinders@.len() == z_polys@.len(),
            s_blinders@.len() == z_polys@.len(),
            all_wf(z_polys@),
            forall|i: int|
                0 <= i < z_polys@.len() ==> peq(
                    (#[trigger] z_polys@[i])@,
                    vanish(indices(witness.subsets_indices@[i]@), pp.domain.gen()),
                ) && z_polys@[i]@.len() == witness.subsets_indices@[i]@.len() + 1,
            forall|i: int|
                0 <= i < z_polys@.len() ==> represents(
                    (#[trigger] blinded_z@[i]).coeffs@,
                    pscale(r_blinders@[i]@, z_polys@[i]@),
                ),
            eqm(product(values(r_blinders@)), 1),
            p_1@.len() == j,
            p_2@.len() == j,
            all_wf(p_1@),
            all_wf(p_2@),
            forall|i: int|
                0 <= i < j ==> p1_poly(
                    (#[trigger] p_1@[i])@,
                    blinded_z@[i]@,
                    pp.domain.spec_size() as nat,
                ),
            forall|i: int|
                0 <= i < j ==> p2_poly(
                    (#[trigger] p_2@[i])@,
                    blinded_z@[i]@,
                    label(pp, common.vote_per_j@[i]),
                    s_blinders@[i]@,
                    values(witness.c_values@),
                    indices(witness.subsets_indices@[i]@),
                    pp.domain.gen(),
                ),
        decreases z_polys.len() - j,
    {
        proof {
            assert(z_polys@[j as int].wf());
            assert(represents(
                blinded_z@[j as int].coeffs@,
                pscale(r_blinders@[j as int]@, z_polys@[j as int]@),
            ));
            lemma_represents(
                blinded_z@[j as int].coeffs@,
                pscale(r_blinders@[j as int]@, z_polys@[j as int]@),
            );
            lemma_product_unit(values(r_blinders@), j as int);
            assert(distinct_below(
                indices(witness.subsets_indices@[j as int]@),
                pp.domain.spec_size(),
            ));
        }
        let (p1, p2) = quotients_for_subset(
            pp,
            &z_h,
            &z_polys[j],
            &blinded_z[j],
            &witness.subsets_indices[j],
            &witness.c_values,
            common.vote_per_j[j],
            r_blinders[j],
            s_blinders[j],
        );
        p_1.push(p1);
        p_2.push(p2);
        j += 1;
    }
    (p_1, p_2)
}

/// The number of indices in the first `count` subsets.
pub open spec fn prefix_len(s: Seq<Seq<int>>, count: int) -> int
    decreases count,
{
    if count <= 0 {
        0
    } else {
        prefix_len(s, count - 1) + s[count - 1].len()
    }
}

/// The running products of the blinded vanishing polynomials: of the first
/// two, of the first three, and so on, without the product of all.
fn generate_partial_accumulators(
    blinded_z: &Vec<DensePolynomial>,
    Ghost(sizes): Ghost<Seq<Seq<int>>>,
) -> (r: Vec<DensePolynomial>)
    requires
        blinded_z@.len() >= 1,
        sizes.len() == blinded_z@.len(),
        all_wf(blinded_z@),
        forall|j: int|
            0 <= j < blinded_z@.len() ==> (#[trigger] blinded_z@[j])@.len() <= sizes[j].len() + 1,
    ensures
        r@.len() == if blinded_z@.len() >= 2 {
            blinded_z@.len() - 2
        } else {
            0
        },
        all_wf(r@),
        forall|j: int|
            0 <= j < r@.len() ==> peq(
                (#[trigger] r@[j])@,
                poly_product(polys(blinded_z@).take(j + 2)),
            ) && r@[j]@.len() <= prefix_len(sizes, j + 2) + 1,
{
    let ghost zs = polys(blinded_z@);
    let mut r: Vec<DensePolynomial> = Vec::new();
    let mut acc = blinded_z[0].clone();
    let mut j: usize = 1;
    proof {
        let t = zs.take(1);
        assert(t.drop_last() =~= Seq::<Seq<int>>::empty());
        assert(poly_product(t.drop_last()) == seq![1int]);
        assert(t.last() == acc@);
        assert(poly_product(t) == pmul(seq![1int], acc@));
        lemma_one_mul(acc@);
        lemma_peq_sym(pmul(seq![1int], acc@), acc@);
        assert(prefix_len(sizes, 0) == 0);
        assert(prefix_len(sizes, 1) == sizes[0].len());
    }
    while j + 1 < blinded_z.len()
        invariant
            1 <= j,
            j + 1 <= blinded_z.len() || j == 1,
            blinded_z@.len() >= 1,
            sizes.len() == blinded_z@.len(),
            zs == polys(blinded_z@),
            forall|i: int|
                0 <= i < blinded_z@.len() ==> (#[trigger] blinded_z@[i])@.len() <= sizes[i].len()
                    + 1,
            acc.wf(),
            peq(acc@, poly_product(zs.take(j as int))),
            acc@.len() <= prefix_len(sizes, j as int) + 1,
            r@.len() == j - 1,
            all_wf(r@),
            forall|i: int|
                0 <= i < r@.len() ==> peq((#[trigger] r@[i])@, poly_product(zs.take(i + 2)))
                    && r@[i]@.len() <= prefix_len(sizes, i + 2) + 1,
        decreases blinded_z.len() - j,
    {
        let next = acc.mul(&blinded_z[j]);
        proof {
            let t = zs.take(j + 1);
            let z = zs[j as int];
            assert(t.drop_last() =~= zs.take(j as int));
            assert(t.last() == z);
            lemma_represents(next.coeffs@, pmul(acc@, z));
            lemma_peq_refl(z);
            lemma_pmul_peq(acc@, poly_product(zs.take(j as int)), z, z);
            lemma_peq_trans(next@, pmul(acc@, z), poly_product(t));
            lemma_product_len(next.coeffs@, acc@, z);
            assert(blinded_z@[j as int]@.len() <= sizes[j as int].len() + 1);
            assert(prefix_len(sizes, j + 1) == prefix_len(sizes, j as int) + sizes[j as int].len());
        }
        r.push(next.clone());
        acc = next;
        j += 1;
    }
    r
}

/// A product has at most one coefficient less than its factors together,
/// unless a factor is empty.
proof fn lemma_product_len(s: Seq<Fr>, p: Seq<int>, q: Seq<int>)
    requires
        represents(s, pmul(p, q)),
    ensures
        s.len() == 0 || s.len() + 1 <= p.len() + q.len(),
{
    lemma_represents(s, pmul(p, q));
    lemma_modulus();
    lemma_md_range(0);
    if s.len() > 0 && s.len() + 1 > p.len() + q.len() {
        let k = s.len() - 1;
        assert(co(values(s), k) == co(reduced(pmul(p, q)), k));
        lemma_co_pmul(p, q, k);
        crate::poly_math::lemma_conv_high(p, q, k);
        assert(values(s)[k] == s.last()@);
    }
}

/// The blinded vanishing polynomials, shifted up to the largest degree.
fn generate_x_polys(
    pp: &PublicParameters,
    subsets: &Vec<Vec<usize>>,
    blinded_z: &Vec<DensePolynomial>,
) -> (r: Vec<DensePolynomial>)
    requires
        subsets@.len() == blinded_z@.len(),
        forall|j: int|
            0 <= j < subsets@.len() ==> (#[trigger] subsets@[j])@.len() <= pp.max_degree,
        forall|j: int|
            0 <= j < subsets@.len() ==> (#[trigger] blinded_z@[j])@.len() <= subsets@[j]@.len() + 1,
    ensures
        r@.len() == blinded_z@.len(),
        all_wf(r@),
        forall|j: int|
            0 <= j < r@.len() ==> ceq(
                (#[trigger] r@[j])@,
                pshift(blinded_z@[j]@, (pp.max_degree - subsets@[j]@.len()) as nat),
            ) && r@[j]@.len() <= pp.max_degree + 1,
{
    let mut r: Vec<DensePolynomial> = Vec::new();
    let mut j: usize = 0;
    while j < subsets.len()
        invariant
            j <= subsets.len(),
            subsets@.len() == blinded_z@.len(),
            forall|i: int|
                0 <= i < subsets@.len() ==> (#[trigger] subsets@[i])@.len() <= pp.max_degree,
            forall|i: int|
                0 <= i < subsets@.len() ==> (#[trigger] blinded_z@[i])@.len() <= subsets@[i]@.len()
                    + 1,
            r@.len() == j,
            all_wf(r@),
            forall|i: int|
                0 <= i < j ==> ceq(
                    (#[trigger] r@[i])@,
                    pshift(blinded_z@[i]@, (pp.max_degree - subsets@[i]@.len()) as nat),
                ) && r@[i]@.len() <= pp.max_degree + 1,
        decreases subsets.len() - j,
    {
        assert(subsets@[j as int]@.len() <= pp.max_degree);
        assert(blinded_z@[j as int]@.len() <= subsets@[j as int]@.len() + 1);
        let shift: usize = pp.max_degree - subsets[j].len();
        let zero = Fr::zero();
        let mut coeffs: Vec<Fr> = Vec::new();
        let mut i: usize = 0;
        while i < shift
            invariant
                i <= shift,
                zero@ == 0,
                coeffs@.len() == i,
                forall|k: int| 0 <= k < i ==> (#[trigger] coeffs@[k])@ == 0,
            decreases shift - i,
        {
            coeffs.push(zero);
            i += 1;
        }
        let mut z_coeffs = crate::labels::clone_scalars(&blinded_z[j].coeffs);
        coeffs.append(&mut z_coeffs);
        proof {
            assert(values(coeffs@) =~= pshift(blinded_z@[j as int]@, shift as nat));
        }
        r.push(DensePolynomial::from_coefficients_vec(coeffs));
        j += 1;
    }
    r
}

/// The logarithms of the commitments to a list of polynomials.
pub open spec fn commits(powers: Seq<int>, ps: Seq<Seq<int>>) -> Seq<int> {
    Seq::new(ps.len(), |j: int| md(commit_log(powers, ps[j])))
}

/// All polynomials have at most `n` coefficients.
pub open spec fn all_short(s: Seq<DensePolynomial>, n: int) -> bool {
    forall|j: int| 0 <= j < s.len() ==> (#[trigger] s[j])@.len() <= n
}

/// Commits to a list of polynomials in the first group.
fn g1_commit_all(pp: &PublicParameters, ps: &Vec<DensePolynomial>) -> (r: Vec<G1Affine>)
    requires
        pp.wf(),
        all_short(ps@, pp.max_degree + 1),
    ensures
        g1_logs(r@) == commits(g1_logs(pp.poly_ck.powers_of_g@), polys(ps@)),
{
    let ghost want = commits(g1_logs(pp.poly_ck.powers_of_g@), polys(ps@));
    let mut r: Vec<G1Affine> = Vec::new();
    let mut j: usize = 0;
    while j < ps.len()
        invariant
            j <= ps.len(),
            pp.wf(),
            all_short(ps@, pp.max_degree + 1),
            want == commits(g1_logs(pp.poly_ck.powers_of_g@), polys(ps@)),
            r@.len() == j,
            forall|i: int| 0 <= i < j ==> (#[trigger] r@[i])@ == want[i],
        decreases ps.len() - j,
    {
        assert(ps@[j as int]@.len() <= pp.max_degree + 1);
        r.push(g1_commit(&pp.poly_ck, &ps[j]));
        j += 1;
    }
    proof {
        assert(g1_logs(r@) =~= want);
    }
    r
}

/// The logarithms of the commitments of the first round.
pub open spec fn round1_commits(
    pp: &PublicParameters,
    x: Seq<Seq<int>>,
    zb: Seq<Seq<int>>,
    vb: Seq<Seq<int>>,
    y: Seq<Seq<int>>,
) -> Round1View {
    let g1 = g1_logs(pp.poly_ck.powers_of_g@);
    let g2 = g2_logs(pp.g2_powers@);
    Round1View {
        x: commits(g1, x),
        z_0: md(commit_log(g1, zb[0])),
        z_nonzero: commits(g2, zb.skip(1)),
        v: commits(g1, vb),
        y: commits(g1, y),
    }
}

/// The commitments of the first round. The first vanishing polynomial is
/// committed in the first group, the others in the second.
fn generate_commitments(
    pp: &PublicParameters,
    x_polys: &Vec<DensePolynomial>,
    blinded_z: &Vec<DensePolynomial>,
    blinded_v: &Vec<DensePolynomial>,
    accumulators: &Vec<DensePolynomial>,
) -> (r: Round1Proof)
    requires
        pp.wf(),
        blinded_z@.len() >= 1,
        all_short(x_polys@, pp.max_degree + 1),
        all_short(blinded_z@, pp.max_degree + 1),
        all_short(blinded_v@, pp.max_degree + 1),
        all_short(accumulators@, pp.max_degree + 1),
    ensures
        r@ == round1_commits(
            pp,
            polys(x_polys@),
            polys(blinded_z@),
            polys(blinded_v@),
            polys(accumulators@),
        ),
{
    let x_comm = g1_commit_all(pp, x_polys);
    assert(blinded_z@[0]@.len() <= pp.max_degree + 1);
    let z_0_comm = g1_commit(&pp.poly_ck, &blinded_z[0]);
    let ghost want = commits(g2_logs(pp.g2_powers@), polys(blinded_z@).skip(1));
    let mut z_nonzero_comm: Vec<G2Affine> = Vec::new();
    let mut j: usize = 1;
    while j < blinded_z.len()
        invariant
            1 <= j <= blinded_z.len(),
            pp.wf(),
            all_short(blinded_z@, pp.max_degree + 1),
            want == commits(g2_logs(pp.g2_powers@), polys(blinded_z@).skip(1)),
            z_nonzero_comm@.len() == j - 1,
            forall|i: int| 0 <= i < j - 1 ==> (#[trigger] z_nonzero_comm@[i])@ == want[i],
        decreases blinded_z.len() - j,
    {
        assert(blinded_z@[j as int]@.len() <= pp.max_degree + 1);
        let c = g2_commit(&pp.g2_powers, &blinded_z[j]);
        assert(polys(blinded_z@).skip(1)[j - 1] == blinded_z@[j as int]@);
        z_nonzero_comm.push(c);
        j += 1;
    }
    let v_comm = g1_commit_all(pp, blinded_v);
    let y_comm = g1_commit_all(pp, accumulators);
    let r = Round1Proof { x_comm, z_0_comm, z_nonzero_comm, v_comm, y_comm };
    proof {
        assert(g2_logs(z_nonzero_comm@) =~= want);
        assert(r@ =~= round1_commits(
            pp,
            polys(x_polys@),
            polys(blinded_z@),
            polys(blinded_v@),
            polys(accumulators@),
        ));
    }
    r
}

/// The polynomials behind a proof.
pub struct ProverPolys {
    pub v: Seq<Seq<int>>,
    pub zb: Seq<Seq<int>>,
    pub vb: Seq<Seq<int>>,
    pub p1: Seq<Seq<int>>,
    pub p2: Seq<Seq<int>>,
    pub y: Seq<Seq<int>>,
    pub x: Seq<Seq<int>>,
    pub p: Seq<Seq<int>>,
}

/// What the polynomials for subset `j` are: the blinded vanishing polynomial,
/// the blinded values, the two quotients and their combination under the
/// challenge, and the shifted vanishing polynomial.
pub open spec fn subset_polys(
    pp: &PublicParameters,
    common: &CommonInputs,
    witness: &Witness,
    r: Seq<int>,
    s: Seq<int>,
    chi: Seq<int>,
    q: ProverPolys,
    j: int,
) -> bool {
    let idx = indices(witness.subsets_indices@[j]@);
    let vals = values(witness.c_values@);
    let l = label(pp, common.vote_per_j@[j]);
    let w = pp.domain.gen();
    &&& peq(q.zb[j], pscale(r[j], vanish(idx, w)))
    &&& q.zb[j].len() <= idx.len() + 1
    &&& v_poly(q.v[j], l, vals, idx, w)
    &&& peq(q.vb[j], padd(q.v[j], pscale(s[j], q.zb[j])))
    &&& q.vb[j].len() <= pp.max_degree + 1
    &&& p1_poly(q.p1[j], q.zb[j], pp.max_degree as nat)
    &&& p2_poly(q.p2[j], q.zb[j], l, s[j], vals, idx, w)
    &&& peq(q.p[j], padd(q.p1[j], pscale(chi[j], q.p2[j])))
    &&& q.p[j].len() <= pp.max_degree + 1
    &&& ceq(q.x[j], pshift(q.zb[j], (pp.max_degree - idx.len()) as nat))
    &&& q.x[j].len() <= pp.max_degree + 1
}

/// All polynomials of the prover for given blinding factors and challenges.
pub open spec fn prover_polys(
    pp: &PublicParameters,
    common: &CommonInputs,
    witness: &Witness,
    r: Seq<int>,
    s: Seq<int>,
    chi: Seq<int>,
    q: ProverPolys,
) -> bool {
    let k = witness.subsets_indices@.len();
    &&& q.v.len() == k && q.zb.len() == k && q.vb.len() == k && q.p1.len() == k && q.p2.len() == k
        && q.x.len() == k && q.p.len() == k
    &&& q.y.len() == if k >= 2 {
        k - 2
    } else {
        0
    }
    &&& forall|j: int|
        0 <= j < k ==> #[trigger] subset_polys(pp, common, witness, r, s, chi, q, j)
    &&& forall|j: int|
        0 <= j < q.y.len() ==> peq(#[trigger] q.y[j], poly_product(q.zb.take(j + 2)))
            && q.y[j].len() <= pp.max_degree + 1
}

/// The commitments to the prover's polynomials.
pub open spec fn committed(pp: &PublicParameters, q: ProverPolys) -> ProofView {
    let g1 = g1_logs(pp.poly_ck.powers_of_g@);
    let g2 = g2_logs(pp.g2_powers@);
    ProofView {
        round1: round1_commits(pp, q.x, q.zb, q.vb, q.y),
        p_0: md(commit_log(g2, q.p[0])),
        p_nonzero: commits(g1, q.p.skip(1)),
    }
}

/// The proof is what the prover makes with the blinding factors `r` and `s`:
/// the commitments to its polynomials, under the challenges that its first
/// round leads to.
pub open spec fn honest_proof(
    pp: &PublicParameters,
    common: &CommonInputs,
    witness: &Witness,
    r: Seq<int>,
    s: Seq<int>,
    view: ProofView,
) -> bool {
    exists|q: ProverPolys|
        view == #[trigger] committed(pp, q) && prover_polys(
            pp,
            common,
            witness,
            r,
            s,
            challenges(common.c_comm@, view.round1, common.subsets_sizes@.len()),
            q,
        )
}

/// What the prover needs beyond fitting inputs: a challenge for each subset,
/// and running products that can be committed to.
pub open spec fn provable(common: &CommonInputs, witness: &Witness, max_degree: int) -> bool {
    let k = witness.subsets_indices@.len() as int;
    &&& common.subsets_sizes@.len() >= k
    &&& forall|j: int|
        2 <= j < k ==> #[trigger] prefix_len(index_lists(witness.subsets_indices@), j)
            <= max_degree
}

/// Distinct indices below `n` are at most `n` in number.
pub proof fn lemma_distinct_len(s: Seq<int>, n: int)
    requires
        distinct_below(s, n),
        n >= 0,
    ensures
        s.len() <= n,
    decreases n,
{
    if n == 0 {
        if s.len() > 0 {
            let x = s[0];
            assert(0 <= x < n);
        }
    } else if s.contains(n - 1) {
        let p = choose|p: int| 0 <= p < s.len() && s[p] == n - 1;
        let t = s.remove(p);
        assert(distinct_below(t, n - 1)) by {
            assert forall|i: int| 0 <= i < t.len() implies 0 <= #[trigger] t[i] < n - 1 by {
                let q = if i < p {
                    i
                } else {
                    i + 1
                };
                assert(t[i] == s[q]);
                assert(0 <= s[q] < n);
                if q < p {
                    assert(s[q] != s[p]);
                } else {
                    assert(s[p] != s[q]);
                }
            }
            assert forall|i: int, j: int| 0 <= i < j < t.len() implies #[trigger] t[i]
                != #[trigger] t[j] by {
                let a = if i < p {
                    i
                } else {
                    i + 1
                };
                let b = if j < p {
                    j
                } else {
                    j + 1
                };
                assert(t[i] == s[a] && t[j] == s[b]);
                assert(s[a] != s[b]);
            }
        }
        lemma_distinct_len(t, n - 1);
    } else {
        assert(distinct_below(s, n - 1)) by {
            assert forall|i: int| 0 <= i < s.len() implies 0 <= #[trigger] s[i] < n - 1 by {
                assert(s.contains(s[i]));
            }
        }
        lemma_distinct_len(s, n - 1);
    }
}

/// The combination of the two quotients of one subset under its challenge.
fn combined_quotient(p1: &DensePolynomial, p2: &DensePolynomial, chi: Fr) -> (r: DensePolynomial)
    ensures
        r.wf(),
        peq(r@, padd(p1@, pscale(chi@, p2@))),
        r@.len() <= p1@.len() || r@.len() <= p2@.len(),
{
    let scaled = p2.scale(chi);
    let r = p1.add(&scaled);
    proof {
        let sc = pscale(chi@, p2@);
        lemma_represents(scaled.coeffs@, sc);
        lemma_represents(r.coeffs@, padd(p1@, scaled@));
        assert forall|k: int| eqm(#[trigger] co(r@, k), co(padd(p1@, sc), k)) by {
            lemma_co_ops(p1@, scaled@, 0, 0, k);
            lemma_co_ops(p1@, sc, 0, 0, k);
            assert(eqm(co(r@, k), co(padd(p1@, scaled@), k)));
            assert(eqm(co(scaled@, k), co(sc, k)));
            lemma_eqm_add(co(p1@, k), co(p1@, k), co(scaled@, k), co(sc, k));
        }
    }
    r
}

/// Makes a proof with given blinding factors.
#[verifier::rlimit(60)]
pub fn generate_proof_with_blinders(
    pp: &PublicParameters,
    common_inputs: &CommonInputs,
    witness: &Witness,
    r_blinders: &Vec<Fr>,
    s_blinders: &Vec<Fr>,
) -> (r: Proof)
    requires
        witness_fits(pp, common_inputs, witness),
        provable(common_inputs, witness, pp.max_degree as int),
        r_blinders@.len() == witness.subsets_indices@.len(),
        s_blinders@.len() == witness.subsets_indices@.len(),
        eqm(product(values(r_blinders@)), 1),
    ensures
        honest_proof(
            pp,
            common_inputs,
            witness,
            values(r_blinders@),
            values(s_blinders@),
            r@,
        ),
        r@.round1.x.len() == witness.subsets_indices@.len(),
{
    let k = witness.subsets_indices.len();
    let ghost lists = index_lists(witness.subsets_indices@);
    let v_polys = create_v_polys(pp, common_inputs, witness);
    let z_polys = generate_vanishing_polys(pp, witness);
    let (blinded_z, blinded_v) = generate_blinded_z_v(&z_polys, &v_polys, r_blinders, s_blinders);
    let (p_1, p_2) = generate_quotient_polys(
        pp,
        common_inputs,
        witness,
        &z_polys,
        &blinded_z,
        r_blinders,
        s_blinders,
    );
    proof {
        assert forall|j: int| 0 <= j < k implies {
            &&& (#[trigger] blinded_z@[j])@.len() <= lists[j].len() + 1
            &&& lists[j].len() <= pp.max_degree
            &&& peq(blinded_z@[j]@, pscale(r_blinders@[j]@, vanish(lists[j], pp.domain.gen())))
        } by {
            assert(represents(blinded_z@[j].coeffs@, pscale(r_blinders@[j]@, z_polys@[j]@)));
            lemma_represents(blinded_z@[j].coeffs@, pscale(r_blinders@[j]@, z_polys@[j]@));
            assert(distinct_below(
                indices(witness.subsets_indices@[j]@),
                pp.domain.spec_size(),
            ));
            lemma_distinct_len(lists[j], pp.domain.spec_size());
            assert(peq(z_polys@[j]@, vanish(lists[j], pp.domain.gen())));
            lemma_scale_peq(r_blinders@[j]@, z_polys@[j]@, vanish(lists[j], pp.domain.gen()));
            lemma_peq_trans(
                blinded_z@[j]@,
                pscale(r_blinders@[j]@, z_polys@[j]@),
                pscale(r_blinders@[j]@, vanish(lists[j], pp.domain.gen())),
            );
        }
        assert forall|j: int| 0 <= j < k implies (#[trigger] witness.subsets_indices@[j])@.len()
            <= pp.max_degree by {
            assert(blinded_z@[j]@.len() <= lists[j].len() + 1);
        }
    }
    let accumulators = generate_partial_accumulators(&blinded_z, Ghost(lists));
    let x_polys = generate_x_polys(pp, &witness.subsets_indices, &blinded_z);
    proof {
        assert(all_short(blinded_z@, pp.max_degree + 1));
        assert forall|j: int| 0 <= j < k implies (#[trigger] blinded_v@[j])@.len()
            <= pp.max_degree + 1 by {
            assert(v_poly(
                v_polys@[j]@,
                label(pp, common_inputs.vote_per_j@[j]),
                values(witness.c_values@),
                indices(witness.subsets_indices@[j]@),
                pp.domain.gen(),
            ));
            assert(blinded_z@[j]@.len() <= lists[j].len() + 1);
        }
        assert forall|j: int| 0 <= j < accumulators@.len() implies (#[trigger] accumulators@[j])@.len()
            <= pp.max_degree + 1 by {
            assert(prefix_len(lists, j + 2) <= pp.max_degree);
        }
    }
    let round1proof = generate_commitments(pp, &x_polys, &blinded_z, &blinded_v, &accumulators);
    let challenge_list = get_challenges(&round1proof, common_inputs);
    let ghost chi = values(challenge_list@);
    assert(chi.len() == common_inputs.subsets_sizes@.len());
    // Round 2: the combined quotients.
    let mut p_polys: Vec<DensePolynomial> = Vec::new();
    let mut j: usize = 0;
    while j < k
        invariant
            j <= k,
            k == p_1@.len(),
            k == p_2@.len(),
            k <= challenge_list@.len(),
            chi == values(challenge_list@),
            p_polys@.len() == j,
            forall|i: int|
                0 <= i < j ==> peq(
                    (#[trigger] p_polys@[i])@,
                    padd(p_1@[i]@, pscale(chi[i], p_2@[i]@)),
                ) && (p_polys@[i]@.len() <= p_1@[i]@.len() || p_polys@[i]@.len()
                    <= p_2@[i]@.len()),
        decreases k - j,
    {
        let p = combined_quotient(&p_1[j], &p_2[j], challenge_list[j]);
        p_polys.push(p);
        j += 1;
    }
    proof {
        assert forall|i: int| 0 <= i < k implies (#[trigger] p_polys@[i])@.len() <= pp.max_degree + 1 by {
            assert(p1_poly(p_1@[i]@, blinded_z@[i]@, pp.domain.spec_size() as nat));
            assert(p2_poly(
                p_2@[i]@,
                blinded_z@[i]@,
                label(pp, common_inputs.vote_per_j@[i]),
                s_blinders@[i]@,
                values(witness.c_values@),
                indices(witness.subsets_indices@[i]@),
                pp.domain.gen(),
            ));
        }
    }
    assert(p_polys@[0]@.len() <= pp.max_degree + 1);
    let p_0_comm = g2_commit(&pp.g2_powers, &p_polys[0]);
    let mut p_nonzero_comm: Vec<G1Affine> = Vec::new();
    let ghost g1 = g1_logs(pp.poly_ck.powers_of_g@);
    let ghost want = commits(g1, polys(p_polys@).skip(1));
    let mut i: usize = 1;
    while i < k
        invariant
            1 <= i <= k,
            pp.wf(),
            k == p_polys@.len(),
            all_short(p_polys@, pp.max_degree + 1),
            g1 == g1_logs(pp.poly_ck.powers_of_g@),
            want == commits(g1, polys(p_polys@).skip(1)),
            p_nonzero_comm@.len() == i - 1,
            forall|z: int| 0 <= z < i - 1 ==> (#[trigger] p_nonzero_comm@[z])@ == want[z],
        decreases k - i,
    {
        assert(p_polys@[i as int]@.len() <= pp.max_degree + 1);
        let c = g1_commit(&pp.poly_ck, &p_polys[i]);
        assert(polys(p_polys@).skip(1)[i - 1] == p_polys@[i as int]@);
        p_nonzero_comm.push(c);
        i += 1;
    }
    let r = Proof { round1proof, p_0_comm, p_nonzero_comm };
    proof {
        let q = ProverPolys {
            v: polys(v_polys@),
            zb: polys(blinded_z@),
            vb: polys(blinded_v@),
            p1: polys(p_1@),
            p2: polys(p_2@),
            y: polys(accumulators@),
            x: polys(x_polys@),
            p: polys(p_polys@),
        };
        assert(g1_logs(p_nonzero_comm@) =~= want);
        assert(r@ =~= committed(pp, q));
        let rv = values(r_blinders@);
        let sv = values(s_blinders@);
        assert forall|t: int| 0 <= t < k implies #[trigger] subset_polys(
            pp,
            common_inputs,
            witness,
            rv,
            sv,
            chi,
            q,
            t,
        ) by {
            assert(blinded_z@[t]@.len() <= lists[t].len() + 1);
            assert(lists[t] == indices(witness.subsets_indices@[t]@));
            assert(v_polys@[t]@ == q.v[t]);
            assert(blinded_v@[t]@ == q.vb[t]);
            assert(p_1@[t]@ == q.p1[t]);
            assert(p_2@[t]@ == q.p2[t]);
            assert(p_polys@[t]@ == q.p[t]);
            assert(x_polys@[t]@ == q.x[t]);
        }
        assert forall|t: int| 0 <= t < q.y.len() implies peq(
            #[trigger] q.y[t],
            poly_product(q.zb.take(t + 2)),
        ) && q.y[t].len() <= pp.max_degree + 1 by {
            assert(q.y[t] == accumulators@[t]@);
        }
        assert(prover_polys(pp, common_inputs, witness, rv, sv, chi, q));
    }
    r
}

proof fn lemma_scale_peq(c: int, p: Seq<int>, q: Seq<int>)
    requires
        peq(p, q),
    ensures
        peq(pscale(c, p), pscale(c, q)),
{
    assert forall|k: int| eqm(#[trigger] co(pscale(c, p), k), co(pscale(c, q), k)) by {
        lemma_co_ops(p, p, c, 0, k);
        lemma_co_ops(q, q, c, 0, k);
        assert(eqm(co(p, k), co(q, k)));
        lemma_eqm_scale(c, co(p, k), co(q, k));
    }
}

/// The proof was made with some blinding factors whose product is 1.
pub open spec fn proof_made(
    pp: &PublicParameters,
    common: &CommonInputs,
    witness: &Witness,
    view: ProofView,
) -> bool {
    exists|r: Seq<int>, s: Seq<int>|
        r.len() == witness.subsets_indices@.len() && eqm(product(r), 1) && #[trigger] honest_proof(
            pp,
            common,
            witness,
            r,
            s,
            view,
        )
}

/// The proof was made with blinding factors that a generator gave: `s`, and
/// all `r` but the last, which makes their product 1.
pub open spec fn proof_drawn(
    pp: &PublicParameters,
    common: &CommonInputs,
    witness: &Witness,
    rng: rand::rngs::StdRng,
    view: ProofView,
) -> bool {
    let count = witness.subsets_indices@.len() as int;
    exists|r: Seq<int>|
        r.len() == count && r.drop_last() == drawn_r(rng, count - 1) && eqm(product(r), 1)
            && #[trigger] honest_proof(pp, common, witness, r, drawn_s(rng, count), view)
}

/// Makes a proof with blinding factors drawn from `rng`. There is none if the
/// product of the factors `r` that were drawn is zero.
pub fn generate_proof(
    pp: &PublicParameters,
    common_inputs: &CommonInputs,
    witness: &Witness,
    rng: &mut rand::rngs::StdRng,
) -> (r: Option<Proof>)
    requires
        witness_fits(pp, common_inputs, witness),
        provable(common_inputs, witness, pp.max_degree as int),
    ensures
        r is Some <==> md(
            product(drawn_r(*old(rng), witness.subsets_indices@.len() as int - 1)),
        ) != 0,
        r matches Some(p) ==> proof_made(pp, common_inputs, witness, p@) && proof_drawn(
            pp,
            common_inputs,
            witness,
            *old(rng),
            p@,
        ),
        later(*old(rng), *final(rng), 2 * witness.subsets_indices@.len() - 1),
{
    match generate_blinders(witness.subsets_indices.len(), rng) {
        Some((r_blinders, s_blinders)) => {
            let p = generate_proof_with_blinders(
                pp,
                common_inputs,
                witness,
                &r_blinders,
                &s_blinders,
            );
            Some(p)
        },
        None => None,
    }
}

/// The blinding factors are scalars of the generator, in turn `s` and `r`, and
/// no scalar is used twice; the last `r` is the inverse of the others'
/// product.
pub proof fn law_blinders_are_draws(
    pp: &PublicParameters,
    common: &CommonInputs,
    witness: &Witness,
    rng: rand::rngs::StdRng,
    view: ProofView,
)
    requires
        witness.subsets_indices@.len() >= 1,
        proof_drawn(pp, common, witness, rng, view),
    ensures
        exists|r: Seq<int>, s: Seq<int>|
            {
                let k = witness.subsets_indices@.len() as int;
                &&& #[trigger] honest_proof(pp, common, witness, r, s, view)
                &&& r.len() == k
                &&& s.len() == k
                &&& eqm(product(r), 1)
                &&& forall|j: int| 0 <= j < k ==> #[trigger] s[j] == md(upcoming(rng, 2 * j))
                &&& forall|j: int|
                    0 <= j < k - 1 ==> #[trigger] r[j] == md(upcoming(rng, 2 * j + 1))
            },
{
    let k = witness.subsets_indices@.len() as int;
    let s = drawn_s(rng, k);
    let r = choose|r: Seq<int>|
        r.len() == k && r.drop_last() == drawn_r(rng, k - 1) && eqm(product(r), 1)
            && #[trigger] honest_proof(pp, common, witness, r, s, view);
    assert forall|j: int| 0 <= j < k - 1 implies #[trigger] r[j] == md(upcoming(rng, 2 * j + 1)) by {
        assert(r.drop_last()[j] == drawn_r(rng, k - 1)[j]);
    }
    assert(honest_proof(pp, common, witness, r, s, view));
}

} // verus!
