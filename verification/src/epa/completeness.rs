//! An honest proof is accepted.

use vstd::arithmetic::power::pow;
use vstd::arithmetic::power2::pow2;
use vstd::prelude::*;

use crate::epa::kzg_helpers::{commit_log, law_commitment_is_value};
use crate::generator::test_scalar;
use crate::epa::partition_math::{
    distinct_below, domain_vanish, lemma_domain_vanish_ev, lemma_full_vanish,
    lemma_interpolant_unique, lemma_peq_refl, lemma_peq_sym, lemma_peq_trans, lemma_vanish_concat,
    lemma_vanish_monic, lemma_vanish_root, poly_product, product, vanish,
};
use crate::epa::prover::{
    comask, committed, honest_proof, index_lists, indices, label, mask, prover_polys, subset_polys,
    witness_fits, ProverPolys,
};
use crate::epa::structs::{CommonInputs, ProofView, PublicParameters, Witness};
use crate::epa::utils::challenges;
use crate::epa::verify::{
    accepted, check_a, check_b, check_c, check_gap, full_y, statement, verifiable, zh_log,
};
use crate::field::values;
use crate::modular::{eqm, lemma_eqm_add, lemma_eqm_mul, lemma_eqm_scale, lemma_md_eqm, md};
use crate::poly::interpolates;
use crate::poly_math::{
    ev, lemma_ev_add, lemma_ev_ceq, lemma_ev_mul, lemma_ev_peq, lemma_ev_scale, lemma_ev_shift,
    lemma_ev_sub, lemma_pmul_peq, padd, peq, pmul, pscale, pshift, psub,
};
use crate::sums::{lemma_sum_eqm, lemma_sum_zero};

verus! {

/// The lists one after another.
pub open spec fn flat(lists: Seq<Seq<int>>) -> Seq<int>
    decreases lists.len(),
{
    if lists.len() == 0 {
        Seq::empty()
    } else {
        flat(lists.drop_last()) + lists.last()
    }
}

/// Together the lists hold each index below `n` exactly once.
pub open spec fn partition(lists: Seq<Seq<int>>, n: int) -> bool {
    &&& flat(lists).len() == n
    &&& distinct_below(flat(lists), n)
    &&& forall|i: int| 0 <= i < n ==> #[trigger] flat(lists).contains(i)
}

/// The claimed sizes are those of the subsets.
pub open spec fn sizes_match(common: &CommonInputs, witness: &Witness) -> bool {
    &&& common.subsets_sizes@.len() == witness.subsets_indices@.len()
    &&& forall|j: int|
        0 <= j < common.subsets_sizes@.len() ==> #[trigger] common.subsets_sizes@[j]
            == witness.subsets_indices@[j]@.len()
}

/// The values of polynomials at a point.
pub open spec fn evs(ps: Seq<Seq<int>>, x: int) -> Seq<int> {
    Seq::new(ps.len(), |j: int| ev(ps[j], x))
}

proof fn lemma_ev_product(ps: Seq<Seq<int>>, x: int)
    ensures
        ev(poly_product(ps), x) == product(evs(ps, x)),
    decreases ps.len(),
{
    if ps.len() == 0 {
        let one = seq![1int];
        assert(one.drop_first() =~= Seq::<int>::empty());
        assert(ev(one.drop_first(), x) == 0);
        assert(ev(one, x) == 1 + x * 0);
    } else {
        lemma_ev_product(ps.drop_last(), x);
        lemma_ev_mul(poly_product(ps.drop_last()), ps.last(), x);
        assert(evs(ps, x).drop_last() =~= evs(ps.drop_last(), x));
        assert(evs(ps, x).last() == ev(ps.last(), x));
    }
}

proof fn lemma_product_scaled(a: Seq<int>, r: Seq<int>, b: Seq<int>)
    requires
        a.len() == r.len(),
        a.len() == b.len(),
        forall|j: int| 0 <= j < a.len() ==> eqm(#[trigger] a[j], r[j] * b[j]),
    ensures
        eqm(product(a), product(r) * product(b)),
    decreases a.len(),
{
    if a.len() > 0 {
        let (a1, r1, b1) = (a.drop_last(), r.drop_last(), b.drop_last());
        assert forall|j: int| 0 <= j < a1.len() implies eqm(#[trigger] a1[j], r1[j] * b1[j]) by {
            assert(eqm(a[j], r[j] * b[j]));
        }
        lemma_product_scaled(a1, r1, b1);
        let l = a.len() - 1;
        assert(eqm(a[l], r[l] * b[l]));
        lemma_eqm_mul(product(a1), product(r1) * product(b1), a[l], r[l] * b[l]);
        let (p, q, x, y) = (product(r1), product(b1), r[l], b[l]);
        assert((p * q) * (x * y) == (p * x) * (q * y)) by (nonlinear_arith);
    }
}

/// The vanishing polynomials of some lists.
pub open spec fn vanishes(lists: Seq<Seq<int>>, w: int) -> Seq<Seq<int>> {
    Seq::new(lists.len(), |j: int| vanish(lists[j], w))
}

proof fn lemma_vanish_flat(lists: Seq<Seq<int>>, w: int)
    ensures
        peq(poly_product(vanishes(lists, w)), vanish(flat(lists), w)),
    decreases lists.len(),
{
    if lists.len() == 0 {
        lemma_peq_refl(seq![1int]);
    } else {
        let rest = lists.drop_last();
        lemma_vanish_flat(rest, w);
        assert(vanishes(lists, w).drop_last() =~= vanishes(rest, w));
        let (f, l) = (flat(rest), lists.last());
        lemma_vanish_concat(f, l, w);
        lemma_peq_refl(vanish(l, w));
        let p = poly_product(vanishes(rest, w));
        lemma_pmul_peq(p, vanish(f, w), vanish(l, w), vanish(l, w));
        lemma_peq_sym(vanish(f + l, w), pmul(vanish(f, w), vanish(l, w)));
        lemma_peq_trans(
            pmul(p, vanish(l, w)),
            pmul(vanish(f, w), vanish(l, w)),
            vanish(f + l, w),
        );
    }
}

/// The vanishing polynomials of a partition multiply to `X^n - 1`.
pub proof fn law_partition_vanishes(lists: Seq<Seq<int>>, w: int, k: nat)
    requires
        crate::roots::primitive(w, k),
        partition(lists, pow2(k) as int),
    ensures
        peq(poly_product(vanishes(lists, w)), domain_vanish(pow2(k))),
{
    let f = flat(lists);
    let n = pow2(k);
    lemma_vanish_flat(lists, w);
    let v = vanish(f, w);
    lemma_vanish_monic(f, w);
    assert forall|i: int| 0 <= i < n implies eqm(ev(v, #[trigger] pow(w, i as nat)), 0) by {
        assert(f.contains(i));
        let p = choose|p: int| 0 <= p < f.len() && f[p] == i;
        lemma_vanish_root(f, w, p);
    }
    lemma_full_vanish(v, w, k);
    lemma_peq_trans(poly_product(vanishes(lists, w)), v, domain_vanish(n));
}

/// A congruence as a difference that vanishes.
proof fn lemma_diff(a: int, b: int)
    requires
        eqm(a, b),
    ensures
        eqm(a - b, 0),
{
    lemma_eqm_add(a, b, b, b);
}

/// A vanishing value, scaled.
proof fn lemma_zero_scale(c: int, x: int)
    requires
        eqm(x, 0),
    ensures
        eqm(c * x, 0),
{
    lemma_eqm_scale(c, x, 0);
}

/// The equation behind the check for one subset, for the values of the
/// polynomials at a point.
proof fn lemma_subset_identity(
    zb: int,
    p1: int,
    p2: int,
    p: int,
    vb: int,
    v: int,
    d: int,
    c: int,
    z: int,
    x: int,
    t: int,
    y_before: int,
    y: int,
    chi: int,
    l: int,
    s: int,
    phi: int,
    phi2: int,
)
    requires
        eqm(zb * p1, z),
        eqm(zb * p2, d - (l * s) * zb),
        eqm(p, p1 + chi * p2),
        eqm(vb, v + s * zb),
        eqm(c, d + l * v),
        eqm(x, t * zb),
        eqm(phi2 * y, phi2 * (y_before * zb)),
    ensures
        eqm(
            zb * (p + phi * t + phi2 * y_before),
            z + chi * (c - l * vb) + phi * x + phi2 * y,
        ),
{
    let h1 = zb * p1 - z;
    let h2 = zb * p2 - (d - (l * s) * zb);
    let h3 = p - (p1 + chi * p2);
    let h4 = vb - (v + s * zb);
    let h5 = c - (d + l * v);
    let h6 = x - t * zb;
    let h7 = phi2 * y - phi2 * (y_before * zb);
    lemma_diff(zb * p1, z);
    lemma_diff(zb * p2, d - (l * s) * zb);
    lemma_diff(p, p1 + chi * p2);
    lemma_diff(vb, v + s * zb);
    lemma_diff(c, d + l * v);
    lemma_diff(x, t * zb);
    lemma_diff(phi2 * y, phi2 * (y_before * zb));
    lemma_zero_scale(zb, h3);
    lemma_zero_scale(chi, h2);
    lemma_zero_scale(l, h4);
    lemma_zero_scale(chi, l * h4);
    lemma_zero_scale(chi, h5);
    lemma_zero_scale(phi, h6);
    lemma_eqm_add(zb * h3, 0, h1, 0);
    lemma_eqm_add(zb * h3 + h1, 0, chi * h2, 0);
    lemma_eqm_add(zb * h3 + h1 + chi * h2, 0, chi * (l * h4), 0);
    lemma_eqm_add(zb * h3 + h1 + chi * h2 + chi * (l * h4), 0, chi * h5, 0);
    lemma_eqm_add(zb * h3 + h1 + chi * h2 + chi * (l * h4) - chi * h5, 0, phi * h6, 0);
    lemma_eqm_add(
        zb * h3 + h1 + chi * h2 + chi * (l * h4) - chi * h5 - phi * h6,
        0,
        h7,
        0,
    );
    let all = zb * h3 + h1 + chi * h2 + chi * (l * h4) - chi * h5 - phi * h6 - h7;
    let left = zb * (p + phi * t + phi2 * y_before);
    let right = z + chi * (c - l * vb) + phi * x + phi2 * y;
    assert(left == right + all) by {
        assert(zb * (p + phi * t + phi2 * y_before) == zb * p + zb * (phi * t) + zb * (phi2
            * y_before)) by (nonlinear_arith);
        assert(zb * h3 == zb * p - zb * p1 - chi * (zb * p2)) by (nonlinear_arith)
            requires
                h3 == p - (p1 + chi * p2),
        ;
        assert(chi * h2 == chi * (zb * p2) - chi * d + chi * ((l * s) * zb)) by (nonlinear_arith)
            requires
                h2 == zb * p2 - (d - (l * s) * zb),
        ;
        assert(l * (vb - (v + s * zb)) == l * vb - l * v - (l * s) * zb) by (nonlinear_arith);
        let (m1, m2, m3) = (l * vb, l * v, (l * s) * zb);
        assert(chi * (m1 - m2 - m3) == chi * m1 - chi * m2 - chi * m3) by (nonlinear_arith);
        assert(chi * h5 == chi * c - chi * d - chi * (l * v)) by (nonlinear_arith)
            requires
                h5 == c - (d + l * v),
        ;
        assert(phi * h6 == phi * x - zb * (phi * t)) by (nonlinear_arith)
            requires
                h6 == x - t * zb,
        ;
        assert(phi2 * (y_before * zb) == zb * (phi2 * y_before)) by (nonlinear_arith);
        assert(chi * (c - l * vb) == chi * c - chi * (l * vb)) by (nonlinear_arith);
    }
    lemma_eqm_add(right, right, all, 0);
}

/// The check for one subset holds where the equation behind it does.
proof fn lemma_gap_zero(
    a: int,
    b: int,
    c: int,
    one: int,
    g: int,
    h: int,
    x: int,
    y: int,
    z: int,
)
    requires
        eqm(a, g * x),
        eqm(b, h * y),
        eqm(c, g * z),
        eqm(one, h),
        eqm(x * y, z),
    ensures
        eqm(a * b - c * one, 0),
{
    lemma_eqm_mul(a, g * x, b, h * y);
    lemma_eqm_mul(c, g * z, one, h);
    lemma_eqm_add(a * b, (g * x) * (h * y), c * one, (g * z) * h);
    lemma_diff(x * y, z);
    lemma_zero_scale(g * h, x * y - z);
    assert((g * x) * (h * y) - (g * z) * h == (g * h) * (x * y - z)) by (nonlinear_arith);
}

/// A commitment in structured powers, for a polynomial that is congruent to
/// another.
proof fn lemma_committed_value(powers: Seq<int>, p: Seq<int>, base: int, tau: int)
    requires
        crate::epa::structs::structured_powers(powers, base, tau),
        p.len() <= powers.len(),
    ensures
        eqm(md(commit_log(powers, p)), base * ev(p, tau)),
{
    law_commitment_is_value(powers, p, base, tau);
    lemma_md_eqm(commit_log(powers, p));
}

/// The committed vector, put together from a subset and the rest.
proof fn lemma_split_values(
    c: Seq<int>,
    d: Seq<int>,
    v: Seq<int>,
    l: int,
    vals: Seq<int>,
    idx: Seq<int>,
    w: int,
    k: nat,
    tau: int,
)
    requires
        crate::roots::primitive(w, k),
        vals.len() == pow2(k),
        c.len() <= vals.len(),
        d.len() <= vals.len(),
        v.len() <= vals.len(),
        interpolates(c, vals, w),
        interpolates(d, comask(vals, idx), w),
        interpolates(pscale(l, v), mask(vals, idx), w),
    ensures
        eqm(ev(c, tau), ev(d, tau) + l * ev(v, tau)),
{
    let sum_poly = padd(d, pscale(l, v));
    assert forall|i: int| 0 <= i < vals.len() implies eqm(
        ev(sum_poly, pow(w, i as nat)),
        #[trigger] vals[i],
    ) by {
        let x = pow(w, i as nat);
        lemma_ev_add(d, pscale(l, v), x);
        let (m, n) = (mask(vals, idx), comask(vals, idx));
        assert(eqm(ev(d, x), n[i]));
        assert(eqm(ev(pscale(l, v), x), m[i]));
        lemma_eqm_add(ev(d, x), n[i], ev(pscale(l, v), x), m[i]);
    }
    lemma_interpolant_unique(c, sum_poly, vals, w, k);
    lemma_ev_peq(c, sum_poly, tau);
    lemma_ev_add(d, pscale(l, v), tau);
    lemma_ev_scale(l, v, tau);
}

/// The running products at the secret: entry `j` is the product of the first
/// `j + 1` blinded vanishing polynomials.
proof fn lemma_running_step(zb: Seq<Seq<int>>, j: int, x: int)
    requires
        0 <= j < zb.len(),
    ensures
        ev(poly_product(zb.take(j + 1)), x) == ev(poly_product(zb.take(j)), x) * ev(zb[j], x),
{
    assert(zb.take(j + 1).drop_last() =~= zb.take(j));
    assert(zb.take(j + 1).last() == zb[j]);
    lemma_ev_mul(poly_product(zb.take(j)), zb[j], x);
}

/// The running products of the proof are those of the polynomials.
proof fn lemma_full_y(
    pp: &PublicParameters,
    common: &CommonInputs,
    witness: &Witness,
    r: Seq<int>,
    s: Seq<int>,
    chi: Seq<int>,
    q: ProverPolys,
    g: int,
    h: int,
    tau: int,
    j: int,
)
    requires
        witness_fits(pp, common, witness),
        pp.structured(g, h, tau),
        r.len() == witness.subsets_indices@.len(),
        eqm(product(r), 1),
        partition(index_lists(witness.subsets_indices@), pp.domain.spec_size()),
        prover_polys(pp, common, witness, r, s, chi, q),
        witness.subsets_indices@.len() >= 2,
        0 <= j < q.zb.len(),
    ensures
        eqm(
            full_y(statement(pp, common), committed(pp, q))[j],
            g * ev(poly_product(q.zb.take(j + 1)), tau),
        ),
{
    let st = statement(pp, common);
    let view = committed(pp, q);
    let k = q.zb.len() as int;
    let ys = full_y(st, view);
    assert(subset_polys(pp, common, witness, r, s, chi, q, 0));
    crate::epa::prover::lemma_distinct_len(
        indices(witness.subsets_indices@[0]@),
        pp.domain.spec_size(),
    );
    if j == 0 {
        lemma_committed_value(st.g1, q.zb[0], g, tau);
        lemma_running_step(q.zb, 0, tau);
        assert(q.zb.take(0) =~= Seq::<Seq<int>>::empty());
        lemma_ev_product(q.zb.take(0), tau);
        assert(evs(q.zb.take(0), tau) =~= Seq::<int>::empty());
        assert(product(evs(q.zb.take(0), tau)) == 1);
        assert(1 * ev(q.zb[0], tau) == ev(q.zb[0], tau));
        assert(ys[0] == view.round1.z_0);
    } else if j < k - 1 {
        let y = q.y[j - 1];
        assert(peq(y, poly_product(q.zb.take(j - 1 + 2))));
        lemma_committed_value(st.g1, y, g, tau);
        lemma_ev_peq(y, poly_product(q.zb.take(j + 1)), tau);
        lemma_eqm_scale(g, ev(y, tau), ev(poly_product(q.zb.take(j + 1)), tau));
        assert(ys[j] == view.round1.y[j - 1]);
    } else {
        assert(q.zb.take(k) =~= q.zb);
        assert(ys[j] == zh_log(st));
        lemma_zh(pp, common, g, h, tau);
        lemma_whole_product(pp, common, witness, r, s, chi, q, tau);
        let n = pp.max_degree as nat;
        lemma_eqm_scale(g, ev(poly_product(q.zb), tau), pow(tau, n) - 1);
    }
}

/// The commitment to `X^n - 1`.
proof fn lemma_zh(pp: &PublicParameters, common: &CommonInputs, g: int, h: int, tau: int)
    requires
        pp.wf(),
        pp.structured(g, h, tau),
    ensures
        eqm(zh_log(statement(pp, common)), g * (pow(tau, pp.max_degree as nat) - 1)),
{
    let st = statement(pp, common);
    let n = pp.max_degree as nat;
    reveal(pow);
    assert(pow(tau, 0) == 1);
    assert(eqm(st.g1[0], g * pow(tau, 0)));
    assert(eqm(st.g1[st.degree], g * pow(tau, n)));
    lemma_eqm_add(st.g1[st.degree], g * pow(tau, n), st.g1[0], g * 1);
    let t = pow(tau, n);
    assert(g * t - g * 1 == g * (t - 1)) by (nonlinear_arith);
}

/// The blinded vanishing polynomials multiply to `X^n - 1`.
proof fn lemma_whole_product(
    pp: &PublicParameters,
    common: &CommonInputs,
    witness: &Witness,
    r: Seq<int>,
    s: Seq<int>,
    chi: Seq<int>,
    q: ProverPolys,
    tau: int,
)
    requires
        witness_fits(pp, common, witness),
        r.len() == witness.subsets_indices@.len(),
        eqm(product(r), 1),
        partition(index_lists(witness.subsets_indices@), pp.domain.spec_size()),
        prover_polys(pp, common, witness, r, s, chi, q),
    ensures
        eqm(ev(poly_product(q.zb), tau), pow(tau, pp.max_degree as nat) - 1),
{
    let w = pp.domain.gen();
    let k = pp.domain.spec_log();
    let n = pp.max_degree as nat;
    let lists = index_lists(witness.subsets_indices@);
    let vs = vanishes(lists, w);
    lemma_ev_product(q.zb, tau);
    lemma_ev_product(vs, tau);
    let (a, b) = (evs(q.zb, tau), evs(vs, tau));
    assert forall|j: int| 0 <= j < a.len() implies eqm(#[trigger] a[j], r[j] * b[j]) by {
        assert(subset_polys(pp, common, witness, r, s, chi, q, j));
        let v = vanish(lists[j], w);
        lemma_ev_peq(q.zb[j], pscale(r[j], v), tau);
        lemma_ev_scale(r[j], v, tau);
    }
    lemma_product_scaled(a, r, b);
    lemma_eqm_scale(product(b), product(r), 1);
    law_partition_vanishes(lists, w, k);
    lemma_ev_peq(poly_product(vs), domain_vanish(n), tau);
    lemma_domain_vanish_ev(n, tau);
    assert(1 * product(b) == product(b));
}

/// The check of each subset holds for an honest proof.
#[verifier::rlimit(60)]
proof fn lemma_honest_gap(
    pp: &PublicParameters,
    common: &CommonInputs,
    witness: &Witness,
    r: Seq<int>,
    s: Seq<int>,
    q: ProverPolys,
    c: Seq<int>,
    g: int,
    h: int,
    tau: int,
    phi: int,
    j: int,
)
    requires
        witness_fits(pp, common, witness),
        pp.structured(g, h, tau),
        sizes_match(common, witness),
        r.len() == witness.subsets_indices@.len(),
        eqm(product(r), 1),
        partition(index_lists(witness.subsets_indices@), pp.domain.spec_size()),
        c.len() <= pp.domain.spec_size(),
        interpolates(c, values(witness.c_values@), pp.domain.gen()),
        eqm(common.c_comm@, g * ev(c, tau)),
        prover_polys(
            pp,
            common,
            witness,
            r,
            s,
            challenges(common.c_comm@, committed(pp, q).round1, common.subsets_sizes@.len()),
            q,
        ),
        0 <= j < witness.subsets_indices@.len(),
    ensures
        eqm(
            check_gap(
                statement(pp, common),
                committed(pp, q),
                phi,
                challenges(common.c_comm@, committed(pp, q).round1, common.subsets_sizes@.len()),
                j,
            ),
            0,
        ),
{
    let st = statement(pp, common);
    let view = committed(pp, q);
    let chi = challenges(common.c_comm@, view.round1, common.subsets_sizes@.len());
    let idx = indices(witness.subsets_indices@[j]@);
    let vals = values(witness.c_values@);
    let w = pp.domain.gen();
    let l = label(pp, common.vote_per_j@[j]);
    let n = pp.max_degree as nat;
    let m = idx.len();
    assert(subset_polys(pp, common, witness, r, s, chi, q, j));
    assert(distinct_below(indices(witness.subsets_indices@[j]@), pp.domain.spec_size()));
    crate::epa::prover::lemma_distinct_len(idx, pp.domain.spec_size());
    assert(st.sizes[j] == m);
    // values at the secret
    let (zb, p1, p2, p, vb, v, x) = (
        ev(q.zb[j], tau),
        ev(q.p1[j], tau),
        ev(q.p2[j], tau),
        ev(q.p[j], tau),
        ev(q.vb[j], tau),
        ev(q.v[j], tau),
        ev(q.x[j], tau),
    );
    let z = pow(tau, n) - 1;
    let t = pow(tau, (n - m) as nat);
    let d = choose|d: Seq<int>|
        d.len() <= vals.len() && interpolates(d, comask(vals, idx), w) && #[trigger] peq(
            pmul(q.zb[j], q.p2[j]),
            psub(d, pscale(l * s[j], q.zb[j])),
        );
    let dv = ev(d, tau);
    let cv = ev(c, tau);
    assert(eqm(zb * p1, z)) by {
        lemma_ev_mul(q.zb[j], q.p1[j], tau);
        lemma_ev_peq(pmul(q.zb[j], q.p1[j]), domain_vanish(n), tau);
        lemma_domain_vanish_ev(n, tau);
    }
    assert(eqm(zb * p2, dv - (l * s[j]) * zb)) by {
        lemma_ev_mul(q.zb[j], q.p2[j], tau);
        lemma_ev_peq(
            pmul(q.zb[j], q.p2[j]),
            psub(d, pscale(l * s[j], q.zb[j])),
            tau,
        );
        lemma_ev_sub(d, pscale(l * s[j], q.zb[j]), tau);
        lemma_ev_scale(l * s[j], q.zb[j], tau);
    }
    assert(eqm(p, p1 + chi[j] * p2)) by {
        lemma_ev_peq(q.p[j], padd(q.p1[j], pscale(chi[j], q.p2[j])), tau);
        lemma_ev_add(q.p1[j], pscale(chi[j], q.p2[j]), tau);
        lemma_ev_scale(chi[j], q.p2[j], tau);
    }
    assert(eqm(vb, v + s[j] * zb)) by {
        lemma_ev_peq(q.vb[j], padd(q.v[j], pscale(s[j], q.zb[j])), tau);
        lemma_ev_add(q.v[j], pscale(s[j], q.zb[j]), tau);
        lemma_ev_scale(s[j], q.zb[j], tau);
    }
    assert(eqm(cv, dv + l * v)) by {
        lemma_split_values(c, d, q.v[j], l, vals, idx, w, pp.domain.spec_log(), tau);
    }
    assert(x == t * zb) by {
        lemma_ev_ceq(q.x[j], pshift(q.zb[j], (n - m) as nat), tau);
        lemma_ev_shift(q.zb[j], (n - m) as nat, tau);
    }
    // the commitments
    lemma_committed_value(st.g1, q.x[j], g, tau);
    lemma_committed_value(st.g1, q.vb[j], g, tau);
    assert(eqm(view.round1.x[j], g * x));
    assert(eqm(view.round1.v[j], g * vb));
    lemma_zh(pp, common, g, h, tau);
    reveal(pow);
    assert(pow(tau, 0) == 1);
    assert(eqm(st.g2[0], h * pow(tau, 0)));
    assert(h * 1 == h);
    let e = n - m;
    if j == 0 {
        lemma_subset_identity(
            zb,
            p1,
            p2,
            p,
            vb,
            v,
            dv,
            cv,
            z,
            x,
            t,
            0,
            0,
            chi[0],
            l,
            s[0],
            phi,
            0,
        );
        let left = p + phi * t;
        let right = z + chi[0] * (cv - l * vb) + phi * x;
        assert(0int * 0 == 0);
        lemma_committed_value(st.g1, q.zb[0], g, tau);
        lemma_committed_value(st.g2, q.p[0], h, tau);
        assert(eqm(check_b(st, view, phi, 0), h * left)) by {
            assert(eqm(st.g2[e], h * pow(tau, e as nat)));
            lemma_eqm_scale(phi, st.g2[e], h * t);
            lemma_eqm_add(view.p_0, h * p, phi * st.g2[e], phi * (h * t));
            assert(h * p + phi * (h * t) == h * (p + phi * t)) by (nonlinear_arith);
        }
        lemma_right_side(
            zh_log(st),
            common.c_comm@,
            view.round1.v[0],
            view.round1.x[0],
            0,
            z,
            cv,
            vb,
            x,
            0,
            l,
            chi[0],
            phi,
            0,
            g,
        );
        assert(0 * full_y(st, view)[0] == 0);
        assert(eqm(zb * left, right));
        lemma_gap_zero(
            check_a(st, view, phi, 0),
            check_b(st, view, phi, 0),
            check_c(st, view, phi, chi, 0),
            st.g2[0],
            g,
            h,
            zb,
            left,
            right,
        );
    } else {
        let phi2 = phi * phi;
        let ys = full_y(st, view);
        lemma_full_y(pp, common, witness, r, s, chi, q, g, h, tau, j - 1);
        lemma_full_y(pp, common, witness, r, s, chi, q, g, h, tau, j);
        let yb = ev(poly_product(q.zb.take(j)), tau);
        let y = ev(poly_product(q.zb.take(j + 1)), tau);
        lemma_running_step(q.zb, j, tau);
        lemma_subset_identity(
            zb,
            p1,
            p2,
            p,
            vb,
            v,
            dv,
            cv,
            z,
            x,
            t,
            yb,
            y,
            chi[j],
            l,
            s[j],
            phi,
            phi2,
        );
        let left = p + phi * t + phi2 * yb;
        let right = z + chi[j] * (cv - l * vb) + phi * x + phi2 * y;
        assert(q.p.skip(1)[j - 1] == q.p[j]);
        assert(q.zb.skip(1)[j - 1] == q.zb[j]);
        lemma_committed_value(st.g2, q.zb[j], h, tau);
        lemma_committed_value(st.g1, q.p[j], g, tau);
        assert(eqm(view.p_nonzero[j - 1], g * p));
        assert(eqm(view.round1.z_nonzero[j - 1], h * zb));
        assert(eqm(check_a(st, view, phi, j), g * left)) by {
            assert(eqm(st.g1[e], g * pow(tau, e as nat)));
            lemma_eqm_scale(phi, st.g1[e], g * t);
            lemma_eqm_add(view.p_nonzero[j - 1], g * p, phi * st.g1[e], phi * (g * t));
            lemma_eqm_scale(phi2, ys[j - 1], g * yb);
            lemma_eqm_add(
                view.p_nonzero[j - 1] + phi * st.g1[e],
                g * p + phi * (g * t),
                phi2 * ys[j - 1],
                phi2 * (g * yb),
            );
            assert(phi * (g * t) == g * (phi * t)) by (nonlinear_arith);
            assert(phi2 * (g * yb) == g * (phi2 * yb)) by (nonlinear_arith);
            let (a1, a2) = (phi * t, phi2 * yb);
            assert(g * p + g * a1 + g * a2 == g * (p + a1 + a2)) by (nonlinear_arith);
        }
        lemma_eqm_scale(phi2, ys[j], g * y);
        lemma_right_side(
            zh_log(st),
            common.c_comm@,
            view.round1.v[j],
            view.round1.x[j],
            ys[j],
            z,
            cv,
            vb,
            x,
            y,
            l,
            chi[j],
            phi,
            phi2,
            g,
        );
        assert(left * zb == zb * left) by (nonlinear_arith);
        lemma_gap_zero(
            check_a(st, view, phi, j),
            check_b(st, view, phi, j),
            check_c(st, view, phi, chi, j),
            st.g2[0],
            g,
            h,
            left,
            zb,
            right,
        );
    }
}

/// The right-hand side of a check, as a multiple of the base.
proof fn lemma_right_side(
    zh: int,
    c_comm: int,
    v_comm: int,
    x_comm: int,
    y_comm: int,
    z: int,
    c: int,
    v: int,
    x: int,
    y: int,
    l: int,
    chi: int,
    phi: int,
    phi2: int,
    g: int,
)
    requires
        eqm(zh, g * z),
        eqm(c_comm, g * c),
        eqm(v_comm, g * v),
        eqm(x_comm, g * x),
        eqm(phi2 * y_comm, phi2 * (g * y)),
    ensures
        eqm(
            zh + chi * (c_comm - l * v_comm) + phi * x_comm + phi2 * y_comm,
            g * (z + chi * (c - l * v) + phi * x + phi2 * y),
        ),
{
    lemma_eqm_scale(l, v_comm, g * v);
    lemma_eqm_add(c_comm, g * c, l * v_comm, l * (g * v));
    lemma_eqm_scale(chi, c_comm - l * v_comm, g * c - l * (g * v));
    lemma_eqm_add(
        zh,
        g * z,
        chi * (c_comm - l * v_comm),
        chi * (g * c - l * (g * v)),
    );
    lemma_eqm_scale(phi, x_comm, g * x);
    lemma_eqm_add(
        zh + chi * (c_comm - l * v_comm),
        g * z + chi * (g * c - l * (g * v)),
        phi * x_comm,
        phi * (g * x),
    );
    lemma_eqm_add(
        zh + chi * (c_comm - l * v_comm) + phi * x_comm,
        g * z + chi * (g * c - l * (g * v)) + phi * (g * x),
        phi2 * y_comm,
        phi2 * (g * y),
    );
    let lv = l * v;
    assert(l * (g * v) == g * (l * v)) by (nonlinear_arith);
    assert(g * c - g * lv == g * (c - lv)) by (nonlinear_arith);
    let cl = c - lv;
    assert(chi * (g * cl) == g * (chi * cl)) by (nonlinear_arith);
    assert(phi * (g * x) == g * (phi * x)) by (nonlinear_arith);
    assert(phi2 * (g * y) == g * (phi2 * y)) by (nonlinear_arith);
    let (a, b, e) = (chi * cl, phi * x, phi2 * y);
    assert(g * z + g * a + g * b + g * e == g * (z + a + b + e)) by (nonlinear_arith);
}

/// Completeness: a proof that the prover makes for a partition of the domain
/// is accepted, if the committed vector is the one that the prover knows and
/// the parameters are well structured.
pub proof fn law_honest_proof_accepted(
    pp: &PublicParameters,
    common: &CommonInputs,
    witness: &Witness,
    r: Seq<int>,
    s: Seq<int>,
    view: ProofView,
    c: Seq<int>,
    g: int,
    h: int,
    tau: int,
)
    requires
        witness_fits(pp, common, witness),
        pp.structured(g, h, tau),
        sizes_match(common, witness),
        partition(index_lists(witness.subsets_indices@), pp.domain.spec_size()),
        c.len() <= pp.domain.spec_size(),
        interpolates(c, values(witness.c_values@), pp.domain.gen()),
        eqm(common.c_comm@, g * ev(c, tau)),
        r.len() == witness.subsets_indices@.len(),
        eqm(product(r), 1),
        honest_proof(pp, common, witness, r, s, view),
    ensures
        verifiable(pp, common, view),
        accepted(statement(pp, common), view),
{
    let st = statement(pp, common);
    let phi = test_scalar(0);
    let chi = challenges(st.c_comm, view.round1, st.sizes.len());
    let q = choose|q: ProverPolys|
        view == #[trigger] committed(pp, q) && prover_polys(pp, common, witness, r, s, chi, q);
    let n = st.sizes.len() as int;
    let f = |j: int| pow(phi, (j + 1) as nat) * check_gap(st, view, phi, chi, j);
    let zero = |j: int| 0int;
    assert forall|j: int| 0 <= j < n implies eqm(#[trigger] f(j), zero(j)) by {
        lemma_honest_gap(pp, common, witness, r, s, q, c, g, h, tau, phi, j);
        lemma_zero_scale(pow(phi, (j + 1) as nat), check_gap(st, view, phi, chi, j));
    }
    lemma_sum_eqm(f, zero, n);
    lemma_sum_zero(zero, n);
    assert forall|j: int| 0 <= j < n implies #[trigger] common.subsets_sizes@[j]
        <= pp.max_degree by {
        let idx = indices(witness.subsets_indices@[j]@);
        crate::epa::prover::lemma_distinct_len(idx, pp.domain.spec_size());
    }
}

/// The same lists up to the order within each are the same partition.
pub proof fn lemma_partition_reordered(a: Seq<Seq<int>>, b: Seq<Seq<int>>, n: int)
    requires
        a.len() == b.len(),
        forall|j: int| 0 <= j < a.len() ==> (#[trigger] a[j]).to_multiset() == b[j].to_multiset(),
        partition(a, n),
    ensures
        partition(b, n),
{
    broadcast use vstd::seq_lib::group_to_multiset_ensures;

    lemma_flat_reordered(a, b);
    let (f, g) = (flat(a), flat(b));
    assert(f.no_duplicates());
    f.lemma_multiset_has_no_duplicates();
    g.lemma_multiset_has_no_duplicates_conv();
    assert(f.to_multiset().len() == g.to_multiset().len());
    assert forall|i: int| 0 <= i < g.len() implies 0 <= #[trigger] g[i] < n by {
        assert(g.contains(g[i]));
        assert(g.to_multiset().count(g[i]) > 0);
        assert(f.contains(g[i]));
    }
    assert forall|i: int| 0 <= i < n implies #[trigger] g.contains(i) by {
        assert(f.contains(i));
        assert(f.to_multiset().count(i) > 0);
    }
}

proof fn lemma_flat_reordered(a: Seq<Seq<int>>, b: Seq<Seq<int>>)
    requires
        a.len() == b.len(),
        forall|j: int| 0 <= j < a.len() ==> (#[trigger] a[j]).to_multiset() == b[j].to_multiset(),
    ensures
        flat(a).to_multiset() == flat(b).to_multiset(),
    decreases a.len(),
{
    if a.len() > 0 {
        let (a1, b1) = (a.drop_last(), b.drop_last());
        assert forall|j: int| 0 <= j < a1.len() implies (#[trigger] a1[j]).to_multiset()
            == b1[j].to_multiset() by {
            assert(a[j].to_multiset() == b[j].to_multiset());
        }
        lemma_flat_reordered(a1, b1);
        assert(a[a.len() - 1].to_multiset() == b[a.len() - 1].to_multiset());
        vstd::seq_lib::lemma_multiset_commutative(flat(a1), a.last());
        vstd::seq_lib::lemma_multiset_commutative(flat(b1), b.last());
    }
}

/// Lists of a partition hold distinct indices.
pub proof fn lemma_partition_lists(lists: Seq<Seq<int>>, n: int, j: int)
    requires
        distinct_below(flat(lists), n),
        0 <= j < lists.len(),
    ensures
        distinct_below(lists[j], n),
    decreases lists.len(),
{
    let rest = lists.drop_last();
    let f = flat(lists);
    let (g, l) = (flat(rest), lists.last());
    if j == lists.len() - 1 {
        assert forall|i: int| 0 <= i < l.len() implies 0 <= #[trigger] l[i] < n by {
            assert(f[g.len() + i] == l[i]);
        }
        assert forall|a: int, b: int| 0 <= a < b < l.len() implies #[trigger] l[a] != #[trigger] l[b] by {
            assert(f[g.len() + a] == l[a] && f[g.len() + b] == l[b]);
        }
    } else {
        assert(distinct_below(g, n)) by {
            assert forall|i: int| 0 <= i < g.len() implies 0 <= #[trigger] g[i] < n by {
                assert(f[i] == g[i]);
            }
            assert forall|a: int, b: int| 0 <= a < b < g.len() implies #[trigger] g[a]
                != #[trigger] g[b] by {
                assert(f[a] == g[a] && f[b] == g[b]);
            }
        }
        lemma_partition_lists(rest, n, j);
    }
}

/// The first lists of a partition hold at most `n` indices together.
pub proof fn lemma_prefix_len(lists: Seq<Seq<int>>, count: int)
    requires
        0 <= count <= lists.len(),
    ensures
        crate::epa::prover::prefix_len(lists, count) == flat(lists.take(count)).len(),
        flat(lists.take(count)).len() <= flat(lists).len(),
    decreases lists.len(), count,
{
    if count < lists.len() {
        lemma_prefix_len(lists.drop_last(), count);
        assert(lists.drop_last().take(count) =~= lists.take(count));
        lemma_prefix_same(lists, lists.drop_last(), count);
    } else if count > 0 {
        assert(lists.take(count) =~= lists);
        lemma_prefix_len(lists, count - 1);
        assert(lists.take(count - 1) =~= lists.drop_last());
    } else {
        assert(lists.take(0) =~= Seq::<Seq<int>>::empty());
    }
}

proof fn lemma_prefix_same(a: Seq<Seq<int>>, b: Seq<Seq<int>>, count: int)
    requires
        0 <= count <= b.len() <= a.len(),
        forall|j: int| 0 <= j < b.len() ==> a[j] == b[j],
    ensures
        crate::epa::prover::prefix_len(a, count) == crate::epa::prover::prefix_len(b, count),
    decreases count,
{
    if count > 0 {
        lemma_prefix_same(a, b, count - 1);
    }
}

} // verus!
