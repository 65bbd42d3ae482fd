//! Vanishing polynomials of subsets of the domain.

use vstd::arithmetic::power::pow;
use vstd::arithmetic::power2::pow2;
use vstd::prelude::*;

use crate::epa::fast_div::no_remainder;
use crate::modular::{eqm, lemma_eqm_add, lemma_eqm_scale};
use crate::poly::interpolates;
use crate::poly_math::{
    ceq, co, conv, ev, lemma_co_ops, lemma_co_pmul, lemma_conv_assoc, lemma_conv_comm,
    lemma_conv_first, lemma_ev_add, lemma_ev_mul, lemma_ev_peq, lemma_ev_sub, lemma_pmul_peq,
    lemma_roots, padd, peq, pmul, psub, pzero, separated, tail, unit,
};
use crate::roots::{
    lemma_powers_separated, lemma_primitive_order, lemma_unit_mul, powers, primitive,
};
use crate::sums::sum;

verus! {

/// `X - c`.
pub open spec fn linear(c: int) -> Seq<int> {
    seq![-c, 1]
}

/// The polynomial with the roots `w^i` for the indices `i` in `s`.
pub open spec fn vanish(s: Seq<int>, w: int) -> Seq<int>
    decreases s.len(),
{
    if s.len() == 0 {
        seq![1int]
    } else {
        pmul(vanish(s.drop_last(), w), linear(pow(w, s.last() as nat)))
    }
}

/// Multiplying by `X - c` shifts and subtracts.
pub proof fn lemma_conv_linear(p: Seq<int>, c: int, k: int)
    ensures
        conv(p, linear(c), k) == co(p, k - 1) - c * co(p, k),
{
    lemma_conv_comm(p, linear(c), k);
    if k < 0 {
        assert(sum(|i: int| co(p, i) * co(linear(c), k - i), k + 1) == 0);
        assert(c * 0 == 0);
    } else {
        lemma_conv_first(linear(c), p, k);
        let t = tail(linear(c));
        assert(t =~= seq![1int]);
        if k == 0 {
            assert(sum(|i: int| co(t, i) * co(p, -1 - i), 0) == 0);
            assert(conv(t, p, -1) == 0);
        } else {
            lemma_conv_first(t, p, k - 1);
            let e = tail(t);
            assert(e =~= Seq::<int>::empty());
            crate::poly_math::lemma_conv_empty(e, p, k - 2);
        }
        assert(-c * co(p, k) == -(c * co(p, k))) by (nonlinear_arith);
        assert(1 * co(p, k - 1) == co(p, k - 1));
    }
}

/// A vanishing polynomial is monic of the degree of its number of roots.
pub proof fn lemma_vanish_monic(s: Seq<int>, w: int)
    ensures
        co(vanish(s, w), s.len() as int) == 1,
        forall|k: int| k > s.len() ==> #[trigger] co(vanish(s, w), k) == 0,
    decreases s.len(),
{
    if s.len() > 0 {
        let p = vanish(s.drop_last(), w);
        let c = pow(w, s.last() as nat);
        lemma_vanish_monic(s.drop_last(), w);
        let n = s.len() as int;
        lemma_co_pmul(p, linear(c), n);
        lemma_conv_linear(p, c, n);
        assert(co(p, n) == 0);
        assert(c * 0 == 0);
        assert forall|k: int| k > n implies #[trigger] co(vanish(s, w), k) == 0 by {
            lemma_co_pmul(p, linear(c), k);
            lemma_conv_linear(p, c, k);
            assert(co(p, k) == 0 && co(p, k - 1) == 0);
        }
    }
}

/// A vanishing polynomial vanishes at its roots.
pub proof fn lemma_vanish_root(s: Seq<int>, w: int, i: int)
    requires
        0 <= i < s.len(),
    ensures
        ev(vanish(s, w), pow(w, s[i] as nat)) == 0,
    decreases s.len(),
{
    let x = pow(w, s[i] as nat);
    let p = vanish(s.drop_last(), w);
    let c = pow(w, s.last() as nat);
    lemma_ev_mul(p, linear(c), x);
    let l = linear(c);
    assert(l.drop_first() =~= seq![1int]);
    assert(l.drop_first().drop_first() =~= Seq::<int>::empty());
    assert(ev(l.drop_first().drop_first(), x) == 0);
    assert(ev(l.drop_first(), x) == 1);
    assert(ev(l, x) == -c + x * 1);
    if i < s.len() - 1 {
        lemma_vanish_root(s.drop_last(), w, i);
        assert(s.drop_last()[i] == s[i]);
        assert(0 * (x - c) == 0);
    } else {
        assert(ev(p, x) * 0 == 0);
    }
}

/// Associativity, up to congruence.
pub proof fn lemma_pmul_assoc(a: Seq<int>, b: Seq<int>, c: Seq<int>)
    ensures
        peq(pmul(pmul(a, b), c), pmul(a, pmul(b, c))),
{
    assert forall|k: int| eqm(
        #[trigger] co(pmul(pmul(a, b), c), k),
        co(pmul(a, pmul(b, c)), k),
    ) by {
        lemma_co_pmul(pmul(a, b), c, k);
        lemma_co_pmul(a, pmul(b, c), k);
        lemma_conv_assoc(a, b, c, k);
    }
}

pub proof fn lemma_peq_trans(a: Seq<int>, b: Seq<int>, c: Seq<int>)
    requires
        peq(a, b),
        peq(b, c),
    ensures
        peq(a, c),
{
    assert forall|k: int| eqm(#[trigger] co(a, k), co(c, k)) by {
        assert(eqm(co(a, k), co(b, k)));
        assert(eqm(co(b, k), co(c, k)));
    }
}

pub proof fn lemma_peq_sym(a: Seq<int>, b: Seq<int>)
    requires
        peq(a, b),
    ensures
        peq(b, a),
{
    assert forall|k: int| eqm(#[trigger] co(b, k), co(a, k)) by {
        assert(eqm(co(a, k), co(b, k)));
    }
}

pub proof fn lemma_peq_refl(a: Seq<int>)
    ensures
        peq(a, a),
{
}

/// The vanishing polynomial of two lists of roots is a product.
pub proof fn lemma_vanish_concat(a: Seq<int>, b: Seq<int>, w: int)
    ensures
        peq(vanish(a + b, w), pmul(vanish(a, w), vanish(b, w))),
    decreases b.len(),
{
    let va = vanish(a, w);
    if b.len() == 0 {
        assert(a + b =~= a);
        let p1 = seq![1int];
        assert forall|k: int| eqm(#[trigger] co(va, k), co(pmul(va, p1), k)) by {
            lemma_co_pmul(va, p1, k);
            lemma_conv_comm(va, p1, k);
            if k >= 0 {
                lemma_conv_first(p1, va, k);
                assert(tail(p1) =~= Seq::<int>::empty());
                crate::poly_math::lemma_conv_empty(tail(p1), va, k - 1);
                assert(1 * co(va, k) == co(va, k));
            } else {
                assert(sum(|i: int| co(p1, i) * co(va, k - i), k + 1) == 0);
            }
        }
    } else {
        let l = linear(pow(w, b.last() as nat));
        let vb = vanish(b.drop_last(), w);
        assert((a + b).drop_last() =~= a + b.drop_last());
        lemma_vanish_concat(a, b.drop_last(), w);
        lemma_peq_refl(l);
        lemma_pmul_peq(vanish(a + b.drop_last(), w), pmul(va, vb), l, l);
        lemma_pmul_assoc(va, vb, l);
        lemma_peq_trans(vanish(a + b, w), pmul(pmul(va, vb), l), pmul(va, pmul(vb, l)));
    }
}

/// The indices are distinct and below `n`.
pub open spec fn distinct_below(s: Seq<int>, n: int) -> bool {
    &&& forall|i: int| 0 <= i < s.len() ==> 0 <= #[trigger] s[i] < n
    &&& forall|i: int, j: int| 0 <= i < j < s.len() ==> #[trigger] s[i] != #[trigger] s[j]
}

/// The points `w^i` for the indices in `s`.
pub open spec fn points_at(s: Seq<int>, w: int) -> Seq<int> {
    Seq::new(s.len(), |i: int| pow(w, s[i] as nat))
}

/// Distinct domain elements are separated.
pub proof fn lemma_points_separated(s: Seq<int>, w: int, k: nat)
    requires
        primitive(w, k),
        distinct_below(s, pow2(k) as int),
    ensures
        separated(points_at(s, w)),
{
    lemma_powers_separated(w, k);
    let all = powers(w, pow2(k));
    let xs = points_at(s, w);
    assert forall|i: int, j: int| 0 <= i < j < xs.len() implies unit(
        #[trigger] xs[i] - #[trigger] xs[j],
    ) by {
        let (a, b) = (s[i], s[j]);
        assert(all[a] == xs[i] && all[b] == xs[j]);
        if a < b {
            assert(unit(all[a] - all[b]));
        } else {
            assert(unit(all[b] - all[a]));
            let u = choose|u: int| eqm(#[trigger] (u * (all[b] - all[a])), 1);
            let v = -u;
            assert(v * (all[a] - all[b]) == u * (all[b] - all[a])) by (nonlinear_arith)
                requires
                    v == -u,
            ;
            assert(eqm(v * (xs[i] - xs[j]), 1));
        }
    }
}

/// A polynomial that vanishes wherever `z` does is divisible by `z`, if the
/// roots of `z` are separated and as many as its degree.
pub proof fn lemma_divisible(a: Seq<int>, z: Seq<int>, xs: Seq<int>)
    requires
        separated(xs),
        z.len() == xs.len() + 1,
        forall|i: int| 0 <= i < xs.len() ==> eqm(ev(a, #[trigger] xs[i]), 0),
        forall|i: int| 0 <= i < xs.len() ==> eqm(ev(z, #[trigger] xs[i]), 0),
    ensures
        no_remainder(a, z),
{
    assert forall|q: Seq<int>, r: Seq<int>| #[trigger]
        peq(a, padd(pmul(z, q), r)) && r.len() < z.len() implies pzero(r) by {
        assert forall|i: int| 0 <= i < xs.len() implies eqm(ev(r, #[trigger] xs[i]), 0) by {
            let x = xs[i];
            lemma_ev_peq(a, padd(pmul(z, q), r), x);
            lemma_ev_add(pmul(z, q), r, x);
            lemma_ev_mul(z, q, x);
            lemma_eqm_scale(ev(q, x), ev(z, x), 0);
            assert(0 * ev(q, x) == 0);
            // r(x) == a(x) - z(x) * q(x)
            lemma_eqm_add(ev(a, x), 0, ev(z, x) * ev(q, x), 0);
            lemma_eqm_add(
                ev(z, x) * ev(q, x) + ev(r, x),
                ev(a, x),
                ev(z, x) * ev(q, x),
                ev(z, x) * ev(q, x),
            );
        }
        lemma_roots(r, xs);
    }
}

/// Two polynomials with at most `n` coefficients that agree on a domain of
/// `n` elements are congruent.
pub proof fn lemma_interpolant_unique(p: Seq<int>, q: Seq<int>, vals: Seq<int>, w: int, k: nat)
    requires
        primitive(w, k),
        vals.len() == pow2(k),
        p.len() <= pow2(k),
        q.len() <= pow2(k),
        interpolates(p, vals, w),
        interpolates(q, vals, w),
    ensures
        peq(p, q),
{
    let d = psub(p, q);
    let xs = powers(w, pow2(k));
    lemma_powers_separated(w, k);
    assert forall|i: int| 0 <= i < xs.len() implies eqm(ev(d, #[trigger] xs[i]), 0) by {
        let x = xs[i];
        lemma_ev_sub(p, q, x);
        assert(eqm(ev(p, pow(w, i as nat)), vals[i]));
        assert(eqm(ev(q, pow(w, i as nat)), vals[i]));
        lemma_eqm_add(ev(p, x), vals[i], ev(q, x), vals[i]);
    }
    lemma_roots(d, xs);
    assert forall|j: int| eqm(#[trigger] co(p, j), co(q, j)) by {
        lemma_co_ops(p, q, 0, 0, j);
        assert(eqm(co(d, j), 0));
        lemma_eqm_add(co(p, j) - co(q, j), 0, co(q, j), co(q, j));
    }
}

/// `X^n - 1`.
pub open spec fn domain_vanish(n: nat) -> Seq<int> {
    Seq::new(
        n + 1,
        |k: int| if k == 0 && n == 0 {
            0
        } else if k == 0 {
            -1int
        } else if k == n {
            1
        } else {
            0
        },
    )
}

/// The value of `X^n - 1`.
pub proof fn lemma_domain_vanish_ev(n: nat, x: int)
    requires
        n >= 1,
    ensures
        ev(domain_vanish(n), x) == pow(x, n) - 1,
{
    let p = domain_vanish(n);
    let m = padd(crate::poly_math::pshift(seq![1int], n), seq![-1int]);
    assert(ceq(p, m)) by {
        assert forall|k: int| #[trigger] co(p, k) == co(m, k) by {
            lemma_co_ops(crate::poly_math::pshift(seq![1int], n), seq![-1int], 0, 0, k);
            lemma_co_ops(seq![1int], seq![1int], 0, n, k);
        }
    }
    crate::poly_math::lemma_ev_ceq(p, m, x);
    lemma_ev_add(crate::poly_math::pshift(seq![1int], n), seq![-1int], x);
    crate::poly_math::lemma_ev_shift(seq![1int], n, x);
    assert(seq![1int].drop_first() =~= Seq::<int>::empty());
    assert(seq![-1int].drop_first() =~= Seq::<int>::empty());
    assert(ev(seq![1int].drop_first(), x) == 0);
    assert(ev(seq![-1int].drop_first(), x) == 0);
    assert(ev(seq![1int], x) == 1);
    assert(ev(seq![-1int], x) == -1);
    assert(pow(x, n) * 1 == pow(x, n));
}

/// `X^n - 1` vanishes on the domain.
pub proof fn lemma_domain_vanish_root(w: int, k: nat, i: nat)
    requires
        primitive(w, k),
    ensures
        eqm(ev(domain_vanish(pow2(k)), pow(w, i)), 0),
{
    let n = pow2(k);
    vstd::arithmetic::power2::lemma_pow2_pos(k);
    lemma_domain_vanish_ev(n, pow(w, i));
    vstd::arithmetic::power::lemma_pow_multiplies(w, i, n);
    vstd::arithmetic::power::lemma_pow_multiplies(w, n, i);
    assert(i * n == n * i) by (nonlinear_arith);
    lemma_primitive_order(w, k);
    crate::modular::lemma_eqm_pow(pow(w, n), 1, i);
    vstd::arithmetic::power::lemma1_pow(i);
    lemma_eqm_add(pow(pow(w, i), n), 1, 1, 1);
}

/// Any monic polynomial of degree `n` that vanishes on the whole domain is
/// `X^n - 1`.
pub proof fn lemma_full_vanish(p: Seq<int>, w: int, k: nat)
    requires
        primitive(w, k),
        eqm(co(p, pow2(k) as int), 1),
        forall|j: int| j > pow2(k) ==> eqm(#[trigger] co(p, j), 0),
        forall|i: int| 0 <= i < pow2(k) ==> eqm(ev(p, #[trigger] pow(w, i as nat)), 0),
    ensures
        peq(p, domain_vanish(pow2(k))),
{
    let n = pow2(k);
    vstd::arithmetic::power2::lemma_pow2_pos(k);
    let z = domain_vanish(n);
    let full = psub(p, z);
    let d = Seq::new(n, |j: int| co(full, j));
    let xs = powers(w, n);
    lemma_powers_separated(w, k);
    assert(peq(d, full)) by {
        assert forall|j: int| eqm(#[trigger] co(d, j), co(full, j)) by {
            lemma_co_ops(p, z, 0, 0, j);
            if j == n {
                lemma_eqm_add(co(p, j), 1, co(z, j), 1);
            } else if j > n {
                assert(eqm(co(p, j), 0));
            }
        }
    }
    assert forall|i: int| 0 <= i < xs.len() implies eqm(ev(d, #[trigger] xs[i]), 0) by {
        let x = xs[i];
        assert(x == pow(w, i as nat));
        lemma_ev_peq(d, full, x);
        lemma_ev_sub(p, z, x);
        lemma_domain_vanish_root(w, k, i as nat);
        assert(eqm(ev(p, pow(w, i as nat)), 0));
        lemma_eqm_add(ev(p, x), 0, ev(z, x), 0);
    }
    lemma_roots(d, xs);
    assert forall|j: int| eqm(#[trigger] co(p, j), co(z, j)) by {
        lemma_co_ops(p, z, 0, 0, j);
        assert(eqm(co(d, j), 0));
        assert(eqm(co(d, j), co(full, j)));
        lemma_eqm_add(co(p, j) - co(z, j), 0, co(z, j), co(z, j));
    }
}

/// Every power of an invertible value is invertible.
pub proof fn lemma_unit_pow(w: int, i: nat)
    requires
        unit(w),
    ensures
        unit(pow(w, i)),
    decreases i,
{
    reveal(pow);
    if i == 0 {
        let u: int = 1;
        assert(u * pow(w, 0) == 1);
        assert(eqm(u * pow(w, 0), 1));
    } else {
        lemma_unit_pow(w, (i - 1) as nat);
        lemma_unit_mul(w, pow(w, (i - 1) as nat));
    }
}

/// The product of all values.
pub open spec fn product(s: Seq<int>) -> int
    decreases s.len(),
{
    if s.len() == 0 {
        1
    } else {
        product(s.drop_last()) * s.last()
    }
}

/// The product of all polynomials.
pub open spec fn poly_product(s: Seq<Seq<int>>) -> Seq<int>
    decreases s.len(),
{
    if s.len() == 0 {
        seq![1int]
    } else {
        pmul(poly_product(s.drop_last()), s.last())
    }
}

/// Each factor of a product that is congruent to 1 is invertible.
pub proof fn lemma_product_unit(s: Seq<int>, j: int)
    requires
        eqm(product(s), 1),
        0 <= j < s.len(),
    ensures
        unit(s[j]),
{
    lemma_product_factor(s, j);
    let c = choose|c: int| product(s) == #[trigger] (c * s[j]);
    assert(eqm(c * s[j], 1));
}

proof fn lemma_product_factor(s: Seq<int>, j: int)
    requires
        0 <= j < s.len(),
    ensures
        exists|c: int| product(s) == #[trigger] (c * s[j]),
    decreases s.len(),
{
    let p = product(s.drop_last());
    if j == s.len() - 1 {
        assert(product(s) == p * s[j]);
    } else {
        lemma_product_factor(s.drop_last(), j);
        assert(s.drop_last()[j] == s[j]);
        let c = choose|c: int| p == #[trigger] (c * s[j]);
        let l = s.last();
        let d = c * l;
        assert((c * s[j]) * l == (c * l) * s[j]) by (nonlinear_arith);
        assert(product(s) == d * s[j]);
    }
}

} // verus!
