//! Division of polynomials in quasi-linear time, given multiplication in
//! quasi-linear time.
//!
//! The quotient of two polynomials, with the order of its coefficients
//! reversed, is the power series quotient of the reversed polynomials. The
//! inverse power series is found by Hensel lifting.

use vstd::prelude::*;

use crate::field::{values, Fr};
use crate::modular::{eqm, lemma_eqm_add, lemma_md_eqm, lemma_md_range};
use crate::poly::{lemma_represents, reduced, DensePolynomial};
use crate::poly_math::{
    ceq, co, conv, lemma_co_ops, lemma_co_pmul, lemma_conv_add, lemma_conv_assoc, lemma_conv_ceq,
    lemma_conv_comm, lemma_conv_high, lemma_conv_low, lemma_conv_scale, padd, peq, peq_low, pmul,
    pscale, pshift, psub, pzero,
};
use crate::sums::{
    lemma_sum_ext, lemma_sum_rev, lemma_sum_single, lemma_sum_split, lemma_sum_zero, sum,
};

verus! {

/// The constant polynomial 1.
pub open spec fn one() -> Seq<int> {
    seq![1int]
}

/// `inv` is an inverse of `p` up to `X^n`.
pub open spec fn inverse_to(p: Seq<int>, inv: Seq<int>, n: int) -> bool {
    peq_low(pmul(p, inv), one(), n)
}

/// The coefficients of `p` from `lo` up to `hi`.
fn coefficients(p: &DensePolynomial, lo: usize, hi: usize) -> (r: DensePolynomial)
    requires
        lo <= hi,
    ensures
        r.wf(),
        r@.len() <= hi - lo,
        forall|k: int| 0 <= k < hi - lo ==> #[trigger] co(r@, k) == co(p@, lo + k),
{
    let end = if hi <= p.coeffs.len() {
        hi
    } else {
        p.coeffs.len()
    };
    let mut c: Vec<Fr> = Vec::new();
    let mut i: usize = lo;
    while i < end
        invariant
            lo <= i,
            i <= end || i == lo,
            end <= p.coeffs@.len(),
            c@.len() == i - lo,
            forall|k: int| 0 <= k < i - lo ==> (#[trigger] c@[k])@ == p@[lo + k],
        decreases end - i,
    {
        c.push(p.coeffs[i]);
        i += 1;
    }
    let r = DensePolynomial::from_coefficients_vec(c);
    proof {
        assert forall|k: int| 0 <= k < hi - lo implies #[trigger] co(r@, k) == co(p@, lo + k) by {
            assert(co(r@, k) == co(values(c@), k));
        }
    }
    r
}

/// `p` with its coefficients in the order from the highest to the lowest, as
/// a polynomial with `size` coefficients.
fn rev(a: &DensePolynomial, size: usize) -> (r: DensePolynomial)
    requires
        a@.len() <= size,
    ensures
        r.wf(),
        r@.len() <= size,
        forall|k: int| #[trigger] co(r@, k) == co(a@, size - 1 - k),
{
    let mut c: Vec<Fr> = Vec::new();
    let mut i: usize = 0;
    while i < size
        invariant
            i <= size,
            a@.len() <= size,
            c@.len() == i,
            forall|k: int| 0 <= k < i ==> (#[trigger] c@[k])@ == co(a@, size - 1 - k),
        decreases size - i,
    {
        let j = size - 1 - i;
        let x = if j < a.coeffs.len() {
            a.coeffs[j]
        } else {
            Fr::zero()
        };
        c.push(x);
        i += 1;
    }
    let r = DensePolynomial::from_coefficients_vec(c);
    proof {
        assert forall|k: int| #[trigger] co(r@, k) == co(a@, size - 1 - k) by {
            assert(co(r@, k) == co(values(c@), k));
        }
    }
    r
}

/// One step of Hensel lifting: `c` holds the coefficients of the product of
/// `p` and its inverse from `X^deg` on, and `d` those of the inverse times
/// `c`. Subtracting `X^deg * d` makes the inverse exact up to `X^target`.
proof fn lemma_hensel(
    p: Seq<int>,
    inv: Seq<int>,
    c: Seq<int>,
    d: Seq<int>,
    new: Seq<int>,
    deg: nat,
    target: int,
)
    requires
        1 <= deg <= target <= 2 * deg,
        inverse_to(p, inv, deg as int),
        inv.len() <= deg,
        forall|j: int| 0 <= j < target - deg ==> eqm(#[trigger] co(c, j), conv(p, inv, deg + j)),
        forall|j: int| 0 <= j < target - deg ==> eqm(#[trigger] co(d, j), conv(inv, c, j)),
        forall|k: int|
            0 <= k < target ==> eqm(
                #[trigger] co(new, k),
                if k < deg {
                    co(inv, k)
                } else {
                    -co(d, k - deg)
                },
            ),
    ensures
        inverse_to(p, new, target),
{
    assert forall|k: int| k < target implies eqm(#[trigger] co(pmul(p, new), k), co(one(), k)) by {
        lemma_co_pmul(p, new, k);
        lemma_co_pmul(p, inv, k);
        if k < 0 {
            assert(sum(|i: int| co(p, i) * co(new, k - i), k + 1) == 0);
        } else if k < deg {
            assert(peq_low(new, inv, deg as int)) by {
                assert forall|i: int| i < deg implies eqm(#[trigger] co(new, i), co(inv, i)) by {}
            }
            assert(peq_low(p, p, deg as int));
            lemma_conv_low(p, p, new, inv, deg as int, k);
            assert(eqm(co(pmul(p, inv), k), co(one(), k)));
        } else {
            let j = k - deg;
            let sd = pshift(d, deg);
            let nd = pscale(-1, sd);
            let full = padd(inv, nd);
            // new agrees with inv - X^deg * d
            assert(peq_low(new, full, target)) by {
                assert forall|i: int| i < target implies eqm(#[trigger] co(new, i), co(full, i)) by {
                    lemma_co_ops(inv, nd, 0, 0, i);
                    lemma_co_ops(sd, sd, -1, 0, i);
                    lemma_co_ops(d, d, 0, deg, i);
                    if 0 <= i < deg {
                    } else if i >= deg {
                    }
                }
            }
            assert(peq_low(p, p, target));
            lemma_conv_low(p, p, new, full, target, k);
            lemma_conv_comm(p, full, k);
            lemma_conv_add(inv, nd, p, k);
            lemma_conv_comm(inv, p, k);
            lemma_conv_scale(-1, sd, p, k);
            lemma_conv_shift(d, deg, p, k);
            lemma_conv_comm(d, p, j);
            // conv(p, d, j) is congruent to conv(p, inv * c, j) == conv(p * inv, c, j)
            let ic = pmul(inv, c);
            assert(peq_low(d, ic, j + 1)) by {
                assert forall|i: int| i < j + 1 implies eqm(#[trigger] co(d, i), co(ic, i)) by {
                    lemma_co_pmul(inv, c, i);
                    if i < 0 {
                        assert(sum(|z: int| co(inv, z) * co(c, i - z), i + 1) == 0);
                    }
                }
            }
            assert(peq_low(p, p, j + 1));
            lemma_conv_low(p, p, d, ic, j + 1, j);
            lemma_conv_assoc(p, inv, c, j);
            assert(peq_low(pmul(p, inv), one(), j + 1));
            assert(peq_low(c, c, j + 1));
            lemma_conv_low(pmul(p, inv), one(), c, c, j + 1, j);
            lemma_conv_one(c, j);
            // the two parts cancel
            assert(eqm(conv(p, d, j), conv(p, inv, k)));
            lemma_eqm_add(conv(p, inv, k), conv(p, inv, k), conv(p, d, j), conv(p, inv, k));
            assert(-1 * conv(d, p, j) == -conv(d, p, j));
        }
    }
}

/// A product with a shifted polynomial is shifted.
proof fn lemma_conv_shift(d: Seq<int>, n: nat, q: Seq<int>, k: int)
    ensures
        conv(pshift(d, n), q, k) == conv(d, q, k - n),
{
    let f = |i: int| co(pshift(d, n), i) * co(q, k - i);
    let g = |i: int| co(d, i) * co(q, k - n - i);
    if k < n {
        assert(sum(g, k - n + 1) == 0);
        assert forall|i: int| 0 <= i < k + 1 implies #[trigger] f(i) == 0 by {
            lemma_co_ops(d, d, 0, n, i);
            assert(0 * co(q, k - i) == 0);
        }
        lemma_sum_zero(f, k + 1);
    } else {
        lemma_sum_split(f, n as int, k - n + 1);
        assert forall|i: int| 0 <= i < n implies #[trigger] f(i) == 0 by {
            lemma_co_ops(d, d, 0, n, i);
            assert(0 * co(q, k - i) == 0);
        }
        lemma_sum_zero(f, n as int);
        assert forall|i: int| 0 <= i < k - n + 1 implies #[trigger] g(i) == f(n + i) by {
            lemma_co_ops(d, d, 0, n, n + i);
        }
        lemma_sum_ext(g, |i: int| f(n + i), k - n + 1);
    }
}

/// Multiplying by 1 changes nothing.
proof fn lemma_conv_one(c: Seq<int>, k: int)
    ensures
        conv(one(), c, k) == co(c, k),
{
    let f = |i: int| co(one(), i) * co(c, k - i);
    if k < 0 {
        assert(sum(f, k + 1) == 0);
    } else {
        assert forall|i: int| 0 <= i < k + 1 && i != 0 implies #[trigger] f(i) == 0 by {
            assert(0 * co(c, k - i) == 0);
        }
        lemma_sum_single(f, k + 1, 0);
        assert(1 * co(c, k) == co(c, k));
    }
}

/// Given an inverse of `poly` up to `X^deg`, an inverse up to `X^target`.
fn hensel_lift(
    poly: &DensePolynomial,
    inverse: &DensePolynomial,
    deg: usize,
    target: usize,
) -> (r: DensePolynomial)
    requires
        1 <= deg <= target <= 2 * deg,
        inverse.wf(),
        inverse@.len() <= deg,
        inverse_to(poly@, inverse@, deg as int),
    ensures
        r.wf(),
        r@.len() <= target,
        inverse_to(poly@, r@, target as int),
{
    let step: usize = target - deg;
    // Higher coefficients of the polynomial do not matter.
    let poly_low = coefficients(poly, 0, target);
    let one_plus_c = poly_low.mul(inverse);
    let ghost p = poly@;
    let ghost inv = inverse@;
    proof {
        assert(peq_low(poly_low@, p, target as int)) by {
            assert forall|i: int| i < target implies eqm(#[trigger] co(poly_low@, i), co(p, i)) by {
                if i >= 0 {
                    assert(co(poly_low@, i) == co(p, 0 + i));
                }
            }
        }
        assert(peq_low(inv, inv, target as int));
        lemma_represents(one_plus_c.coeffs@, pmul(poly_low@, inv));
        assert forall|k: int| k < target implies eqm(
            #[trigger] co(one_plus_c@, k),
            conv(p, inv, k),
        ) by {
            lemma_co_pmul(poly_low@, inv, k);
            lemma_conv_low(poly_low@, p, inv, inv, target as int, k);
        }
    }
    if one_plus_c.coeffs.len() <= deg {
        // The inverse is exact already.
        proof {
            assert forall|k: int| k < target implies eqm(
                #[trigger] co(pmul(p, inv), k),
                co(one(), k),
            ) by {
                lemma_co_pmul(p, inv, k);
                if k >= deg {
                    assert(co(one_plus_c@, k) == 0);
                }
            }
        }
        return inverse.clone();
    }
    let c = coefficients(&one_plus_c, deg, target);
    let product = inverse.mul(&c);
    let d = coefficients(&product, 0, step);
    let mut coeffs: Vec<Fr> = Vec::new();
    let mut i: usize = 0;
    let ghost dv = d@;
    while i < target
        invariant
            i <= target,
            deg <= target,
            inv == inverse@,
            dv == d@,
            coeffs@.len() == i,
            forall|k: int|
                0 <= k < i ==> eqm(
                    (#[trigger] coeffs@[k])@,
                    if k < deg {
                        co(inv, k)
                    } else {
                        -co(dv, k - deg)
                    },
                ),
        decreases target - i,
    {
        let x = if i < deg {
            if i < inverse.coeffs.len() {
                inverse.coeffs[i]
            } else {
                Fr::zero()
            }
        } else if i - deg < d.coeffs.len() {
            d.coeffs[i - deg].neg()
        } else {
            Fr::zero()
        };
        proof {
            if i >= deg {
                lemma_md_eqm(-co(dv, i - deg));
            }
        }
        coeffs.push(x);
        i += 1;
    }
    let r = DensePolynomial::from_coefficients_vec(coeffs);
    proof {
        lemma_represents(product.coeffs@, pmul(inv, c@));
        assert forall|j: int| 0 <= j < target - deg implies eqm(
            #[trigger] co(c@, j),
            conv(p, inv, deg + j),
        ) by {
            assert(co(c@, j) == co(one_plus_c@, deg + j));
        }
        assert forall|j: int| 0 <= j < target - deg implies eqm(
            #[trigger] co(dv, j),
            conv(inv, c@, j),
        ) by {
            assert(co(dv, j) == co(product@, 0 + j));
            lemma_co_pmul(inv, c@, j);
        }
        assert forall|k: int| 0 <= k < target implies eqm(
            #[trigger] co(r@, k),
            if k < deg {
                co(inv, k)
            } else {
                -co(dv, k - deg)
            },
        ) by {
            assert(co(r@, k) == co(values(coeffs@), k));
            assert(coeffs@[k]@ == values(coeffs@)[k]);
        }
        lemma_hensel(p, inv, c@, dv, r@, deg as nat, target as int);
    }
    r
}

/// The inverse of `poly` up to `X^n`: starts with the inverse of the constant
/// coefficient and lifts until it is exact enough.
fn inverse_mod(poly: &DensePolynomial, n: usize) -> (r: DensePolynomial)
    requires
        n >= 1,
        poly@.len() > 0,
        poly@[0] != 0,
    ensures
        r.wf(),
        r@.len() <= n,
        inverse_to(poly@, r@, n as int),
{
    let first = poly.coeffs[0].inverse().unwrap();
    let mut current = DensePolynomial::constant(first);
    let mut l: usize = 1;
    proof {
        let p = poly@;
        assert(inverse_to(p, current@, 1)) by {
            assert forall|k: int| k < 1 implies eqm(
                #[trigger] co(pmul(p, current@), k),
                co(one(), k),
            ) by {
                lemma_co_pmul(p, current@, k);
                let f = |i: int| co(p, i) * co(current@, k - i);
                if k == 0 {
                    assert(sum(f, 1) == sum(f, 0) + f(0));
                    assert(co(current@, 0) == co(seq![first@], 0));
                    assert(f(0) == p[0] * first@);
                    assert(p[0] * first@ == first@ * p[0]) by (nonlinear_arith);
                    crate::modular::lemma_modulus();
                    lemma_md_range(1);
                } else {
                    assert(sum(f, k + 1) == 0);
                }
            }
        }
    }
    while l < n
        invariant
            1 <= l <= n,
            current.wf(),
            current@.len() <= l,
            inverse_to(poly@, current@, l as int),
        decreases n - l,
    {
        let target: usize = if l <= n - l {
            l + l
        } else {
            n
        };
        current = hensel_lift(poly, &current, l, target);
        l = target;
    }
    current
}

/// The coefficient of a product as a sum over all coefficients of `p`.
proof fn lemma_conv_full(p: Seq<int>, q: Seq<int>, k: int)
    requires
        k >= 0,
    ensures
        conv(p, q, k) == sum(|i: int| co(p, i) * co(q, k - i), p.len() as int),
{
    let f = |i: int| co(p, i) * co(q, k - i);
    let n = p.len() as int;
    if n <= k + 1 {
        lemma_sum_split(f, n, k + 1 - n);
        let g = |i: int| f(n + i);
        assert forall|i: int| 0 <= i < k + 1 - n implies #[trigger] g(i) == 0 by {
            assert(0 * co(q, k - (n + i)) == 0);
        }
        lemma_sum_zero(g, k + 1 - n);
    } else {
        lemma_sum_split(f, k + 1, n - (k + 1));
        let g = |i: int| f(k + 1 + i);
        assert forall|i: int| 0 <= i < n - (k + 1) implies #[trigger] g(i) == 0 by {
            assert(co(p, k + 1 + i) * 0 == 0);
        }
        lemma_sum_zero(g, n - (k + 1));
    }
}

/// Reversing both factors reverses the product.
proof fn lemma_conv_rev(
    b: Seq<int>,
    q: Seq<int>,
    rb: Seq<int>,
    rq: Seq<int>,
    lb: int,
    m: int,
    k: int,
)
    requires
        lb >= 1,
        b.len() <= lb,
        rb.len() <= lb,
        0 <= k <= lb + m - 2,
        forall|i: int| #[trigger] co(rb, i) == co(b, lb - 1 - i),
        forall|i: int| #[trigger] co(rq, i) == co(q, m - 1 - i),
    ensures
        conv(b, q, k) == conv(rb, rq, lb + m - 2 - k),
{
    let t = lb + m - 2 - k;
    let pb = Seq::new(lb as nat, |i: int| co(b, i));
    let prb = Seq::new(lb as nat, |i: int| co(rb, i));
    assert(ceq(b, pb));
    assert(ceq(rb, prb));
    lemma_conv_ceq(b, pb, q, k);
    lemma_conv_ceq(rb, prb, rq, t);
    lemma_conv_full(pb, q, k);
    lemma_conv_full(prb, rq, t);
    let f = |i: int| co(pb, i) * co(q, k - i);
    let g = |i: int| co(prb, i) * co(rq, t - i);
    lemma_sum_rev(g, lb);
    assert forall|i: int| 0 <= i < lb implies #[trigger] f(i) == g(lb - 1 - i) by {
        let z = lb - 1 - i;
        assert(co(prb, z) == co(rb, z));
        assert(co(rb, z) == co(b, lb - 1 - z));
        assert(co(rq, t - z) == co(q, m - 1 - (t - z)));
    }
    lemma_sum_ext(f, |i: int| g(lb - 1 - i), lb);
}

/// Quotient and remainder: `a == b * q + r` with `r` of smaller degree than
/// `b`.
pub fn div_rem(a: &DensePolynomial, b: &DensePolynomial) -> (qr: (DensePolynomial, DensePolynomial))
    requires
        a.wf(),
        b.wf(),
        b@.len() > 0,
    ensures
        qr.0.wf(),
        qr.1.wf(),
        peq(a@, padd(pmul(b@, qr.0@), qr.1@)),
        qr.1@.len() < b@.len(),
        qr.0@.len() <= if a@.len() >= b@.len() {
            a@.len() - b@.len() + 1
        } else {
            0
        },
{
    if b.coeffs.len() > a.coeffs.len() {
        let q = DensePolynomial::zero();
        let r = a.clone();
        proof {
            assert forall|k: int| eqm(
                #[trigger] co(a@, k),
                co(padd(pmul(b@, q@), r@), k),
            ) by {
                lemma_co_ops(pmul(b@, q@), r@, 0, 0, k);
                lemma_co_pmul(b@, q@, k);
                crate::poly_math::lemma_conv_empty(b@, q@, k);
            }
        }
        return (q, r);
    }
    let la = a.coeffs.len();
    let lb = b.coeffs.len();
    let rev_a = rev(a, la);
    let rev_b = rev(b, lb);
    let m: usize = la - lb + 1;
    proof {
        assert(co(rev_b@, 0) == co(b@, lb - 1));
        assert(b@[lb - 1] == b.coeffs@.last()@);
    }
    let rev_b_inv = inverse_mod(&rev_b, m);
    let product = rev_b_inv.mul(&rev_a);
    let rev_q = coefficients(&product, 0, m);
    let q = rev(&rev_q, m);
    let bq = b.mul(&q);
    let r = a.sub(&bq);
    proof {
        let (av, bv, qv) = (a@, b@, q@);
        lemma_represents(bq.coeffs@, pmul(bv, qv));
        lemma_represents(r.coeffs@, psub(av, bq@));
        lemma_represents(product.coeffs@, pmul(rev_b_inv@, rev_a@));
        // a == b * q + r
        assert forall|k: int| eqm(#[trigger] co(av, k), co(padd(pmul(bv, qv), r@), k)) by {
            lemma_co_ops(pmul(bv, qv), r@, 0, 0, k);
            lemma_co_ops(av, bq@, 0, 0, k);
            assert(eqm(co(r@, k), co(psub(av, bq@), k)));
            assert(eqm(co(bq@, k), co(pmul(bv, qv), k)));
            lemma_eqm_add(co(pmul(bv, qv), k), co(bq@, k), co(r@, k), co(av, k) - co(bq@, k));
        }
        // the coefficients of r from that of the leading term of b on vanish
        assert forall|k: int| k >= lb - 1 implies #[trigger] co(r@, k) == 0 by {
            lemma_co_ops(av, bq@, 0, 0, k);
            assert(co(r@, k) == co(reduced(psub(av, bq@)), k));
            assert(eqm(co(bq@, k), co(pmul(bv, qv), k)));
            lemma_co_pmul(bv, qv, k);
            if k >= la {
                lemma_conv_high(bv, qv, k);
                crate::modular::lemma_modulus();
                lemma_md_range(0);
            } else {
                lemma_quotient_coefficient(
                    av,
                    bv,
                    qv,
                    rev_a@,
                    rev_b@,
                    rev_b_inv@,
                    rev_q@,
                    product@,
                    la as int,
                    lb as int,
                    k,
                );
            }
            lemma_eqm_add(co(av, k), co(av, k), co(bq@, k), co(av, k));
            crate::modular::lemma_modulus();
            lemma_md_range(0);
        }
        if r@.len() >= lb {
            let k = r@.len() - 1;
            assert(co(r@, k) == 0);
            assert(r.coeffs@.last()@ == r@[k]);
        }
    }
    (q, r)
}

/// A high coefficient of `b * q` is that of `a`.
proof fn lemma_quotient_coefficient(
    a: Seq<int>,
    b: Seq<int>,
    q: Seq<int>,
    ra: Seq<int>,
    rb: Seq<int>,
    inv: Seq<int>,
    rq: Seq<int>,
    product: Seq<int>,
    la: int,
    lb: int,
    k: int,
)
    requires
        1 <= lb <= la,
        b.len() == lb,
        rb.len() <= lb,
        lb - 1 <= k < la,
        forall|i: int| #[trigger] co(ra, i) == co(a, la - 1 - i),
        forall|i: int| #[trigger] co(rb, i) == co(b, lb - 1 - i),
        forall|i: int| #[trigger] co(q, i) == co(rq, la - lb - i),
        inverse_to(rb, inv, la - lb + 1),
        peq(product, pmul(inv, ra)),
        forall|i: int| 0 <= i < la - lb + 1 ==> #[trigger] co(rq, i) == co(product, 0 + i),
    ensures
        eqm(conv(b, q, k), co(a, k)),
{
    let m = la - lb + 1;
    let t = la - 1 - k;
    assert forall|i: int| #[trigger] co(rq, i) == co(q, m - 1 - i) by {
        assert(co(q, m - 1 - i) == co(rq, la - lb - (m - 1 - i)));
    }
    lemma_conv_rev(b, q, rb, rq, lb, m, k);
    let full = pmul(inv, ra);
    assert(peq_low(rq, full, m)) by {
        assert forall|i: int| i < m implies eqm(#[trigger] co(rq, i), co(full, i)) by {
            if i >= 0 {
                assert(eqm(co(product, i), co(full, i)));
            }
        }
    }
    assert(peq_low(rb, rb, m));
    lemma_conv_low(rb, rb, rq, full, m, t);
    lemma_conv_assoc(rb, inv, ra, t);
    assert(peq_low(ra, ra, m));
    lemma_conv_low(pmul(rb, inv), one(), ra, ra, m, t);
    lemma_conv_one(ra, t);
    assert(co(ra, t) == co(a, la - 1 - t));
}

/// Dividing `a` by `b` leaves no remainder.
pub open spec fn no_remainder(a: Seq<int>, b: Seq<int>) -> bool {
    forall|q: Seq<int>, r: Seq<int>| #[trigger]
        peq(a, padd(pmul(b, q), r)) && r.len() < b.len() ==> pzero(r)
}

/// The quotient of a division without remainder.
pub fn poly_div(a: &DensePolynomial, b: &DensePolynomial) -> (q: DensePolynomial)
    requires
        a.wf(),
        b.wf(),
        b@.len() > 0,
        no_remainder(a@, b@),
    ensures
        q.wf(),
        peq(a@, pmul(b@, q@)),
        q@.len() <= if a@.len() >= b@.len() {
            a@.len() - b@.len() + 1
        } else {
            0
        },
{
    let (q, r) = div_rem(a, b);
    proof {
        assert(pzero(r@));
        assert forall|k: int| eqm(#[trigger] co(a@, k), co(pmul(b@, q@), k)) by {
            lemma_co_ops(pmul(b@, q@), r@, 0, 0, k);
            assert(eqm(co(a@, k), co(padd(pmul(b@, q@), r@), k)));
            assert(eqm(co(r@, k), 0));
            lemma_eqm_add(co(pmul(b@, q@), k), co(pmul(b@, q@), k), co(r@, k), 0);
        }
    }
    q
}

} // verus!
