//! Polynomials with integer coefficients, read modulo the field order.
//!
//! A polynomial is the sequence of its coefficients, lowest degree first.
//! Coefficients past the end are zero, so sequences that differ in trailing
//! zeros stand for the same polynomial.

use vstd::prelude::*;
use vstd::arithmetic::power::pow;

use crate::modular::{eqm, lemma_eqm_add, lemma_eqm_cancel, lemma_eqm_mul, lemma_eqm_scale};
use crate::sums::{
    lemma_sum_add, lemma_sum_eqm, lemma_sum_ext, lemma_sum_first, lemma_sum_rev, lemma_sum_scale,
    lemma_sum_zero, sum,
};

verus! {

/// The coefficient of `X^k`.
pub open spec fn co(p: Seq<int>, k: int) -> int {
    if 0 <= k < p.len() {
        p[k]
    } else {
        0
    }
}

/// `p` and `q` have congruent coefficients.
pub open spec fn peq(p: Seq<int>, q: Seq<int>) -> bool {
    forall|k: int| eqm(#[trigger] co(p, k), co(q, k))
}

/// `p` and `q` have congruent coefficients below `X^n`.
pub open spec fn peq_low(p: Seq<int>, q: Seq<int>, n: int) -> bool {
    forall|k: int| k < n ==> eqm(#[trigger] co(p, k), co(q, k))
}

/// `p` and `q` have equal coefficients.
pub open spec fn ceq(p: Seq<int>, q: Seq<int>) -> bool {
    forall|k: int| #[trigger] co(p, k) == co(q, k)
}

/// The value of `p` at `x`.
pub open spec fn ev(p: Seq<int>, x: int) -> int
    decreases p.len(),
{
    if p.len() == 0 {
        0
    } else {
        p[0] + x * ev(p.drop_first(), x)
    }
}

pub open spec fn padd(p: Seq<int>, q: Seq<int>) -> Seq<int> {
    Seq::new(
        if p.len() >= q.len() {
            p.len()
        } else {
            q.len()
        },
        |k: int| co(p, k) + co(q, k),
    )
}

pub open spec fn psub(p: Seq<int>, q: Seq<int>) -> Seq<int> {
    padd(p, pscale(-1, q))
}

pub open spec fn pscale(c: int, p: Seq<int>) -> Seq<int> {
    Seq::new(p.len(), |k: int| c * p[k])
}

/// `p` times `X^n`.
pub open spec fn pshift(p: Seq<int>, n: nat) -> Seq<int> {
    Seq::new(n, |k: int| 0) + p
}

/// The coefficient of `X^k` in the product of `p` and `q`.
pub open spec fn conv(p: Seq<int>, q: Seq<int>, k: int) -> int {
    sum(|i: int| co(p, i) * co(q, k - i), k + 1)
}

pub open spec fn pmul(p: Seq<int>, q: Seq<int>) -> Seq<int> {
    Seq::new(p.len() + q.len(), |k: int| conv(p, q, k))
}

/// `p` without its constant coefficient, divided by `X`.
pub open spec fn tail(p: Seq<int>) -> Seq<int> {
    if p.len() == 0 {
        p
    } else {
        p.drop_first()
    }
}

/// The coefficients below `X^n`.
pub open spec fn low(p: Seq<int>, n: int) -> Seq<int> {
    if p.len() <= n {
        p
    } else {
        p.take(n)
    }
}

/// All coefficients are congruent to zero.
pub open spec fn pzero(p: Seq<int>) -> bool {
    forall|k: int| eqm(#[trigger] co(p, k), 0)
}

pub proof fn lemma_co_tail(p: Seq<int>, k: int)
    requires
        k >= 0,
    ensures
        co(tail(p), k) == co(p, k + 1),
{
}

pub proof fn lemma_co_ops(p: Seq<int>, q: Seq<int>, c: int, n: nat, k: int)
    ensures
        co(padd(p, q), k) == co(p, k) + co(q, k),
        co(pscale(c, p), k) == c * co(p, k),
        co(psub(p, q), k) == co(p, k) - co(q, k),
        co(pshift(p, n), k) == co(p, k - n),
        k < n ==> co(low(p, n as int), k) == co(p, k),
        k >= n ==> co(low(p, n as int), k) == 0,
{
    assert(c * 0 == 0);
    assert(-1 * co(q, k) == -co(q, k));
}

/// The product's coefficient, with the constant coefficient of `p` split off.
pub proof fn lemma_conv_first(p: Seq<int>, q: Seq<int>, k: int)
    requires
        k >= 0,
    ensures
        conv(p, q, k) == co(p, 0) * co(q, k) + conv(tail(p), q, k - 1),
{
    let f = |i: int| co(p, i) * co(q, k - i);
    lemma_sum_first(f, k + 1);
    let g = |i: int| co(tail(p), i) * co(q, k - 1 - i);
    assert forall|i: int| 0 <= i < k implies #[trigger] g(i) == f(i + 1) by {
        lemma_co_tail(p, i);
    }
    lemma_sum_ext(g, |i: int| f(i + 1), k);
}

pub proof fn lemma_conv_empty(p: Seq<int>, q: Seq<int>, k: int)
    requires
        p.len() == 0 || q.len() == 0,
    ensures
        conv(p, q, k) == 0,
{
    let f = |i: int| co(p, i) * co(q, k - i);
    assert forall|i: int| 0 <= i < k + 1 implies #[trigger] f(i) == 0 by {
        assert(co(p, i) == 0 || co(q, k - i) == 0);
        assert(co(p, i) * co(q, k - i) == 0) by (nonlinear_arith)
            requires
                co(p, i) == 0 || co(q, k - i) == 0,
        ;
    }
    lemma_sum_zero(f, k + 1);
}

/// Past the sum of the degrees the product's coefficients are zero.
pub proof fn lemma_conv_high(p: Seq<int>, q: Seq<int>, k: int)
    requires
        k + 1 >= p.len() + q.len(),
    ensures
        conv(p, q, k) == 0,
{
    let f = |i: int| co(p, i) * co(q, k - i);
    assert forall|i: int| 0 <= i < k + 1 implies #[trigger] f(i) == 0 by {
        assert(co(p, i) == 0 || co(q, k - i) == 0);
        assert(co(p, i) * co(q, k - i) == 0) by (nonlinear_arith)
            requires
                co(p, i) == 0 || co(q, k - i) == 0,
        ;
    }
    lemma_sum_zero(f, k + 1);
}

/// The coefficients of the product, at any index.
pub proof fn lemma_co_pmul(p: Seq<int>, q: Seq<int>, k: int)
    ensures
        co(pmul(p, q), k) == conv(p, q, k),
{
    if k < 0 {
        assert(sum(|i: int| co(p, i) * co(q, k - i), k + 1) == 0);
    } else if k >= p.len() + q.len() {
        lemma_conv_high(p, q, k);
    }
}

pub proof fn lemma_conv_comm(p: Seq<int>, q: Seq<int>, k: int)
    ensures
        conv(p, q, k) == conv(q, p, k),
{
    let f = |i: int| co(p, i) * co(q, k - i);
    let g = |i: int| co(q, i) * co(p, k - i);
    lemma_sum_rev(f, k + 1);
    assert forall|i: int| 0 <= i < k + 1 implies #[trigger] g(i) == f(k + 1 - 1 - i) by {
        assert(co(q, i) * co(p, k - i) == co(p, k - i) * co(q, i)) by (nonlinear_arith);
        assert(k - (k - i) == i);
    }
    lemma_sum_ext(g, |i: int| f(k + 1 - 1 - i), k + 1);
}

pub proof fn lemma_conv_add(p: Seq<int>, p2: Seq<int>, q: Seq<int>, k: int)
    ensures
        conv(padd(p, p2), q, k) == conv(p, q, k) + conv(p2, q, k),
{
    let f = |i: int| co(p, i) * co(q, k - i);
    let g = |i: int| co(p2, i) * co(q, k - i);
    let h = |i: int| co(padd(p, p2), i) * co(q, k - i);
    assert forall|i: int| 0 <= i < k + 1 implies #[trigger] h(i) == f(i) + g(i) by {
        lemma_co_ops(p, p2, 0, 0, i);
        assert((co(p, i) + co(p2, i)) * co(q, k - i) == co(p, i) * co(q, k - i) + co(p2, i) * co(
            q,
            k - i,
        )) by (nonlinear_arith);
    }
    lemma_sum_ext(h, |i: int| f(i) + g(i), k + 1);
    lemma_sum_add(f, g, k + 1);
}

pub proof fn lemma_conv_scale(c: int, p: Seq<int>, q: Seq<int>, k: int)
    ensures
        conv(pscale(c, p), q, k) == c * conv(p, q, k),
{
    let f = |i: int| co(p, i) * co(q, k - i);
    let h = |i: int| co(pscale(c, p), i) * co(q, k - i);
    assert forall|i: int| 0 <= i < k + 1 implies #[trigger] h(i) == c * f(i) by {
        lemma_co_ops(p, q, c, 0, i);
        assert((c * co(p, i)) * co(q, k - i) == c * (co(p, i) * co(q, k - i)))
            by (nonlinear_arith);
    }
    lemma_sum_ext(h, |i: int| c * f(i), k + 1);
    lemma_sum_scale(c, f, k + 1);
}

/// Products of congruent polynomials are congruent, coefficient by coefficient.
pub proof fn lemma_conv_low(
    p: Seq<int>,
    p2: Seq<int>,
    q: Seq<int>,
    q2: Seq<int>,
    n: int,
    k: int,
)
    requires
        peq_low(p, p2, n),
        peq_low(q, q2, n),
        k < n,
    ensures
        eqm(conv(p, q, k), conv(p2, q2, k)),
{
    let f = |i: int| co(p, i) * co(q, k - i);
    let g = |i: int| co(p2, i) * co(q2, k - i);
    assert forall|i: int| 0 <= i < k + 1 implies eqm(#[trigger] f(i), g(i)) by {
        lemma_eqm_mul(co(p, i), co(p2, i), co(q, k - i), co(q2, k - i));
    }
    lemma_sum_eqm(f, g, k + 1);
}

pub proof fn lemma_pmul_peq(p: Seq<int>, p2: Seq<int>, q: Seq<int>, q2: Seq<int>)
    requires
        peq(p, p2),
        peq(q, q2),
    ensures
        peq(pmul(p, q), pmul(p2, q2)),
{
    assert forall|k: int| eqm(#[trigger] co(pmul(p, q), k), co(pmul(p2, q2), k)) by {
        lemma_co_pmul(p, q, k);
        lemma_co_pmul(p2, q2, k);
        lemma_conv_low(p, p2, q, q2, k + 1, k);
    }
}

/// Equal coefficients give equal products.
pub proof fn lemma_conv_ceq(p: Seq<int>, p2: Seq<int>, q: Seq<int>, k: int)
    requires
        ceq(p, p2),
    ensures
        conv(p, q, k) == conv(p2, q, k),
{
    let f = |i: int| co(p, i) * co(q, k - i);
    let g = |i: int| co(p2, i) * co(q, k - i);
    assert forall|i: int| 0 <= i < k + 1 implies #[trigger] f(i) == g(i) by {
        assert(co(p, i) == co(p2, i));
    }
    lemma_sum_ext(f, g, k + 1);
}

/// Multiplication is associative, coefficient by coefficient.
pub proof fn lemma_conv_assoc(a: Seq<int>, b: Seq<int>, c: Seq<int>, k: int)
    ensures
        conv(pmul(a, b), c, k) == conv(a, pmul(b, c), k),
    decreases a.len(), k,
{
    if k < 0 {
        assert(sum(|i: int| co(pmul(a, b), i) * co(c, k - i), k + 1) == 0);
        assert(sum(|i: int| co(a, i) * co(pmul(b, c), k - i), k + 1) == 0);
    } else if a.len() == 0 {
        lemma_conv_empty(a, pmul(b, c), k);
        let z = Seq::<int>::empty();
        assert(ceq(pmul(a, b), z)) by {
            assert forall|j: int| #[trigger] co(pmul(a, b), j) == co(z, j) by {
                lemma_co_pmul(a, b, j);
                lemma_conv_empty(a, b, j);
            }
        }
        lemma_conv_ceq(pmul(a, b), z, c, k);
        lemma_conv_empty(z, c, k);
    } else {
        let t = tail(a);
        let ab2 = padd(pscale(a[0], b), pshift(pmul(t, b), 1));
        assert(ceq(pmul(a, b), ab2)) by {
            assert forall|j: int| #[trigger] co(pmul(a, b), j) == co(ab2, j) by {
                lemma_co_pmul(a, b, j);
                lemma_co_ops(pscale(a[0], b), pshift(pmul(t, b), 1), 0, 0, j);
                lemma_co_ops(b, b, a[0], 0, j);
                lemma_co_ops(pmul(t, b), b, 0, 1, j);
                lemma_co_pmul(t, b, j - 1);
                if j >= 0 {
                    lemma_conv_first(a, b, j);
                } else {
                    assert(sum(|i: int| co(a, i) * co(b, j - i), j + 1) == 0);
                    assert(a[0] * 0 == 0);
                }
            }
        }
        lemma_conv_ceq(pmul(a, b), ab2, c, k);
        lemma_conv_add(pscale(a[0], b), pshift(pmul(t, b), 1), c, k);
        lemma_conv_scale(a[0], b, c, k);
        // the shifted part
        let sh = pshift(pmul(t, b), 1);
        lemma_conv_first(sh, c, k);
        assert(tail(sh) =~= pmul(t, b));
        assert(co(sh, 0) == 0);
        assert(0 * co(c, k) == 0);
        lemma_conv_assoc(t, b, c, k - 1);
        lemma_conv_first(a, pmul(b, c), k);
        lemma_co_pmul(b, c, k);
    }
}

// ---- evaluation -----------------------------------------------------------

pub proof fn lemma_ev_ceq(p: Seq<int>, q: Seq<int>, x: int)
    requires
        ceq(p, q),
    ensures
        ev(p, x) == ev(q, x),
    decreases p.len() + q.len(),
{
    if p.len() == 0 && q.len() == 0 {
    } else {
        assert(co(p, 0) == co(q, 0));
        assert(ceq(tail(p), tail(q))) by {
            assert forall|k: int| #[trigger] co(tail(p), k) == co(tail(q), k) by {
                if k >= 0 {
                    lemma_co_tail(p, k);
                    lemma_co_tail(q, k);
                    assert(co(p, k + 1) == co(q, k + 1));
                }
            }
        }
        lemma_ev_ceq(tail(p), tail(q), x);
        lemma_ev_tail(p, x);
        lemma_ev_tail(q, x);
    }
}

pub proof fn lemma_ev_tail(p: Seq<int>, x: int)
    ensures
        ev(p, x) == co(p, 0) + x * ev(tail(p), x),
{
    if p.len() == 0 {
        assert(x * 0 == 0);
    }
}

/// Congruent polynomials have congruent values.
pub proof fn lemma_ev_peq(p: Seq<int>, q: Seq<int>, x: int)
    requires
        peq(p, q),
    ensures
        eqm(ev(p, x), ev(q, x)),
    decreases p.len() + q.len(),
{
    if p.len() == 0 && q.len() == 0 {
    } else {
        assert(eqm(co(p, 0), co(q, 0)));
        assert(peq(tail(p), tail(q))) by {
            assert forall|k: int| eqm(#[trigger] co(tail(p), k), co(tail(q), k)) by {
                if k >= 0 {
                    lemma_co_tail(p, k);
                    lemma_co_tail(q, k);
                    assert(eqm(co(p, k + 1), co(q, k + 1)));
                }
            }
        }
        lemma_ev_peq(tail(p), tail(q), x);
        lemma_ev_tail(p, x);
        lemma_ev_tail(q, x);
        lemma_eqm_scale(x, ev(tail(p), x), ev(tail(q), x));
        lemma_eqm_add(co(p, 0), co(q, 0), x * ev(tail(p), x), x * ev(tail(q), x));
    }
}

pub proof fn lemma_ev_add(p: Seq<int>, q: Seq<int>, x: int)
    ensures
        ev(padd(p, q), x) == ev(p, x) + ev(q, x),
    decreases p.len() + q.len(),
{
    if p.len() == 0 && q.len() == 0 {
        assert(padd(p, q).len() == 0);
    } else {
        lemma_ev_tail(p, x);
        lemma_ev_tail(q, x);
        lemma_ev_tail(padd(p, q), x);
        assert(tail(padd(p, q)) =~= padd(tail(p), tail(q)));
        lemma_ev_add(tail(p), tail(q), x);
        assert(x * (ev(tail(p), x) + ev(tail(q), x)) == x * ev(tail(p), x) + x * ev(tail(q), x))
            by (nonlinear_arith);
    }
}

pub proof fn lemma_ev_scale(c: int, p: Seq<int>, x: int)
    ensures
        ev(pscale(c, p), x) == c * ev(p, x),
    decreases p.len(),
{
    if p.len() == 0 {
        assert(c * 0 == 0);
    } else {
        lemma_ev_scale(c, tail(p), x);
        assert(tail(pscale(c, p)) =~= pscale(c, tail(p)));
        let t = ev(tail(p), x);
        assert(c * (p[0] + x * t) == c * p[0] + x * (c * t)) by (nonlinear_arith);
    }
}

pub proof fn lemma_ev_sub(p: Seq<int>, q: Seq<int>, x: int)
    ensures
        ev(psub(p, q), x) == ev(p, x) - ev(q, x),
{
    lemma_ev_add(p, pscale(-1, q), x);
    lemma_ev_scale(-1, q, x);
}

pub proof fn lemma_ev_shift(p: Seq<int>, n: nat, x: int)
    ensures
        ev(pshift(p, n), x) == pow(x, n) * ev(p, x),
    decreases n,
{
    reveal(pow);
    if n == 0 {
        assert(pshift(p, 0) =~= p);
    } else {
        lemma_ev_shift(p, (n - 1) as nat, x);
        assert(tail(pshift(p, n)) =~= pshift(p, (n - 1) as nat));
        let t = pow(x, (n - 1) as nat);
        assert(x * (t * ev(p, x)) == (x * t) * ev(p, x)) by (nonlinear_arith);
    }
}

/// The value of a product is the product of the values.
pub proof fn lemma_ev_mul(p: Seq<int>, q: Seq<int>, x: int)
    ensures
        ev(pmul(p, q), x) == ev(p, x) * ev(q, x),
    decreases p.len(),
{
    if p.len() == 0 {
        assert(ceq(pmul(p, q), Seq::<int>::empty())) by {
            assert forall|k: int| #[trigger] co(pmul(p, q), k) == co(Seq::<int>::empty(), k) by {
                lemma_co_pmul(p, q, k);
                lemma_conv_empty(p, q, k);
            }
        }
        lemma_ev_ceq(pmul(p, q), Seq::<int>::empty(), x);
    } else {
        let t = tail(p);
        let r = padd(pscale(p[0], q), pshift(pmul(t, q), 1));
        assert(ceq(pmul(p, q), r)) by {
            assert forall|k: int| #[trigger] co(pmul(p, q), k) == co(r, k) by {
                lemma_co_pmul(p, q, k);
                lemma_co_ops(pscale(p[0], q), pshift(pmul(t, q), 1), 0, 0, k);
                lemma_co_ops(q, q, p[0], 0, k);
                lemma_co_ops(pmul(t, q), q, 0, 1, k);
                lemma_co_pmul(t, q, k - 1);
                if k >= 0 {
                    lemma_conv_first(p, q, k);
                } else {
                    assert(sum(|i: int| co(p, i) * co(q, k - i), k + 1) == 0);
                    assert(p[0] * 0 == 0);
                }
            }
        }
        lemma_ev_ceq(pmul(p, q), r, x);
        lemma_ev_add(pscale(p[0], q), pshift(pmul(t, q), 1), x);
        lemma_ev_scale(p[0], q, x);
        lemma_ev_shift(pmul(t, q), 1, x);
        lemma_ev_mul(t, q, x);
        vstd::arithmetic::power::lemma_pow1(x);
        let (a, b) = (ev(t, x), ev(q, x));
        assert(p[0] * b + x * (a * b) == (p[0] + x * a) * b) by (nonlinear_arith);
    }
}

// ---- roots ----------------------------------------------------------------

/// The quotient of `p` by `X - c`.
pub open spec fn sdiv(p: Seq<int>, c: int) -> Seq<int>
    decreases p.len(),
{
    if p.len() <= 1 {
        Seq::empty()
    } else {
        seq![ev(p.drop_first(), c)] + sdiv(p.drop_first(), c)
    }
}

/// `p == (X - c) * sdiv(p, c) + p(c)`, in values.
pub proof fn lemma_sdiv_ev(p: Seq<int>, c: int, x: int)
    requires
        p.len() > 0,
    ensures
        sdiv(p, c).len() == p.len() - 1,
        ev(p, x) == (x - c) * ev(sdiv(p, c), x) + ev(p, c),
    decreases p.len(),
{
    if p.len() == 1 {
        assert(ev(p.drop_first(), x) == 0 && ev(p.drop_first(), c) == 0);
        assert(ev(sdiv(p, c), x) == 0);
    } else {
        let t = p.drop_first();
        lemma_sdiv_ev(t, c, x);
        let s = sdiv(p, c);
        assert(s.drop_first() =~= sdiv(t, c));
        let (w, v) = (ev(sdiv(t, c), x), ev(t, c));
        assert(p[0] + x * ((x - c) * w + v) == (x - c) * (v + x * w) + (p[0] + c * v))
            by (nonlinear_arith);
    }
}

/// A polynomial whose quotient by `X - c` and whose value at `c` vanish is zero.
pub proof fn lemma_sdiv_zero(p: Seq<int>, c: int)
    requires
        pzero(sdiv(p, c)),
        eqm(ev(p, c), 0),
    ensures
        pzero(p),
    decreases p.len(),
{
    if p.len() == 0 {
    } else if p.len() == 1 {
        assert(ev(p.drop_first(), c) == 0);
        assert(ev(p, c) == p[0]);
    } else {
        let t = p.drop_first();
        let s = sdiv(p, c);
        assert(eqm(co(s, 0), 0));
        assert(pzero(sdiv(t, c))) by {
            assert forall|k: int| eqm(#[trigger] co(sdiv(t, c), k), 0) by {
                if k >= 0 {
                    assert(co(sdiv(t, c), k) == co(s, k + 1));
                }
            }
        }
        lemma_sdiv_zero(t, c);
        lemma_eqm_scale(c, ev(t, c), 0);
        lemma_eqm_add(ev(p, c), 0, c * ev(t, c), c * 0);
        assert forall|k: int| eqm(#[trigger] co(p, k), 0) by {
            if k >= 1 {
                assert(co(p, k) == co(t, k - 1));
            }
        }
    }
}

/// `x` has an inverse modulo the field order.
pub open spec fn unit(x: int) -> bool {
    exists|u: int| eqm(#[trigger] (u * x), 1)
}

/// All differences of two of the points are invertible.
pub open spec fn separated(xs: Seq<int>) -> bool {
    forall|i: int, j: int| 0 <= i < j < xs.len() ==> unit(#[trigger] xs[i] - #[trigger] xs[j])
}

/// A polynomial with more roots than its degree is zero.
pub proof fn lemma_roots(p: Seq<int>, xs: Seq<int>)
    requires
        separated(xs),
        p.len() <= xs.len(),
        forall|i: int| 0 <= i < xs.len() ==> eqm(ev(p, #[trigger] xs[i]), 0),
    ensures
        pzero(p),
    decreases p.len(),
{
    if p.len() > 0 {
        let c = xs.last();
        let rest = xs.drop_last();
        let s = sdiv(p, c);
        assert forall|i: int| 0 <= i < rest.len() implies eqm(ev(s, #[trigger] rest[i]), 0) by {
            let x = xs[i];
            assert(rest[i] == x);
            lemma_sdiv_ev(p, c, x);
            lemma_eqm_add(ev(p, x), 0, ev(p, c), 0);
            assert((x - c) * 0 == 0);
            assert(unit(xs[i] - xs[xs.len() - 1]));
            let u = choose|u: int| eqm(#[trigger] (u * (x - c)), 1);
            lemma_eqm_cancel(u, x - c, ev(s, x), 0);
        }
        lemma_sdiv_ev(p, c, 0);
        assert(separated(rest)) by {
            assert forall|i: int, j: int| 0 <= i < j < rest.len() implies unit(
                #[trigger] rest[i] - #[trigger] rest[j],
            ) by {
                assert(unit(xs[i] - xs[j]));
            }
        }
        lemma_roots(s, rest);
        lemma_sdiv_zero(p, c);
    }
}

} // verus!
