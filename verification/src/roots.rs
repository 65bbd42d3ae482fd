//! Roots of unity modulo the field order.

use vstd::prelude::*;
use vstd::arithmetic::power::{lemma_pow0, lemma_pow1, lemma_pow_adds, lemma_pow_multiplies, pow};
use vstd::arithmetic::power2::pow2;

use crate::modular::{
    eqm, lemma_eqm_add, lemma_eqm_cancel, lemma_eqm_from_witness, lemma_eqm_mul, lemma_eqm_pow,
    lemma_eqm_scale, lemma_modulus, modulus,
};
use crate::poly_math::{separated, unit};
use crate::sums::sum;

verus! {

/// `w` is a primitive root of unity of order `2^k`: its `2^(k-1)`-th power is -1.
pub open spec fn primitive(w: int, k: nat) -> bool {
    if k == 0 {
        eqm(w, 1)
    } else {
        eqm(pow(w, pow2((k - 1) as nat)), -1)
    }
}

/// The points `1, w, w^2, ..., w^(n-1)`.
pub open spec fn powers(w: int, n: nat) -> Seq<int> {
    Seq::new(n, |i: int| pow(w, i as nat))
}

pub proof fn lemma_pow2_step(k: nat)
    requires
        k > 0,
    ensures
        pow2(k) == 2 * pow2((k - 1) as nat),
        pow2((k - 1) as nat) > 0,
{
    vstd::arithmetic::power2::lemma_pow2_unfold(k);
    vstd::arithmetic::power2::lemma_pow2_pos((k - 1) as nat);
}

/// `2` is invertible.
pub proof fn lemma_two_unit() -> (u: int)
    ensures
        eqm(u * 2, 1),
{
    lemma_modulus();
    let u = (modulus() + 1) / 2;
    assert(u * 2 == 1 + 1 * modulus());
    lemma_eqm_from_witness(u * 2, 1, 1);
    u
}

pub proof fn lemma_primitive_order(w: int, k: nat)
    requires
        primitive(w, k),
    ensures
        eqm(pow(w, pow2(k)), 1),
{
    if k == 0 {
        vstd::arithmetic::power2::lemma2_to64();
        lemma_pow1(w);
    } else {
        lemma_pow2_step(k);
        let h = pow2((k - 1) as nat);
        lemma_pow_adds(w, h, h);
        lemma_eqm_mul(pow(w, h), -1, pow(w, h), -1);
    }
}

/// Odd powers of -1.
pub proof fn lemma_neg_one_odd(d: nat)
    ensures
        d % 2 == 1 ==> pow(-1, d) == -1,
        d % 2 == 0 ==> pow(-1, d) == 1,
    decreases d,
{
    reveal(pow);
    if d > 0 {
        lemma_neg_one_odd((d - 1) as nat);
    }
}

/// The geometric sum: `(x - 1) * (1 + x + ... + x^(n-1)) == x^n - 1`.
pub proof fn lemma_geometric(x: int, n: nat)
    ensures
        (x - 1) * sum(|i: int| pow(x, i as nat), n as int) == pow(x, n) - 1,
    decreases n,
{
    reveal(pow);
    let f = |i: int| pow(x, i as nat);
    if n == 0 {
        assert(sum(f, 0) == 0);
        assert((x - 1) * 0 == 0);
    } else {
        lemma_geometric(x, (n - 1) as nat);
        let s = sum(f, n - 1);
        let p = pow(x, (n - 1) as nat);
        assert(sum(f, n as int) == s + p);
        assert((x - 1) * (s + p) == (x - 1) * s + x * p - p) by (nonlinear_arith);
    }
}

/// No smaller power of a primitive root is 1, and the difference is invertible.
pub proof fn lemma_root_unit(w: int, k: nat, d: nat)
    requires
        primitive(w, k),
        0 < d < pow2(k),
    ensures
        unit(pow(w, d) - 1),
    decreases k,
{
    if k == 0 {
        vstd::arithmetic::power2::lemma2_to64();
    } else {
        lemma_pow2_step(k);
        let h = pow2((k - 1) as nat);
        if d % 2 == 1 {
            let x = pow(w, d);
            lemma_geometric(x, h);
            let s = sum(|i: int| pow(x, i as nat), h as int);
            lemma_pow_multiplies(w, d, h);
            lemma_pow_multiplies(w, h, d);
            assert(d * h == h * d) by (nonlinear_arith);
            lemma_eqm_pow(pow(w, h), -1, d);
            lemma_neg_one_odd(d);
            // (x - 1) * s == x^h - 1, congruent to -2
            lemma_eqm_add(pow(x, h), -1, 1, 1);
            let u = lemma_two_unit();
            lemma_eqm_scale(-u, (x - 1) * s, -2);
            assert((-u) * ((x - 1) * s) == ((-u) * s) * (x - 1)) by (nonlinear_arith);
            assert((-u) * (-2) == u * 2) by (nonlinear_arith);
            let v = (-u) * s;
            assert(eqm(v * (x - 1), 1));
        } else {
            // d is even, so k >= 2 and w^2 is a primitive root of half the order
            assert(d >= 2);
            if k == 1 {
                vstd::arithmetic::power2::lemma2_to64();
            }
            let k1 = (k - 1) as nat;
            lemma_pow2_step(k1);
            let w2 = pow(w, 2);
            let h1 = pow2((k1 - 1) as nat);
            lemma_pow_multiplies(w, 2, h1);
            let d1 = d / 2;
            lemma_pow_multiplies(w, 2, d1);
            assert(2 * d1 == d);
            lemma_root_unit(w2, k1, d1);
        }
    }
}

pub proof fn lemma_unit_mul(a: int, b: int)
    requires
        unit(a),
        unit(b),
    ensures
        unit(a * b),
{
    let u = choose|u: int| eqm(#[trigger] (u * a), 1);
    let v = choose|v: int| eqm(#[trigger] (v * b), 1);
    lemma_eqm_mul(u * a, 1, v * b, 1);
    assert((u * a) * (v * b) == (u * v) * (a * b)) by (nonlinear_arith);
    let w = u * v;
    assert(eqm(w * (a * b), 1));
}

/// Powers of a root of unity are invertible.
pub proof fn lemma_power_unit(w: int, k: nat, i: nat)
    requires
        primitive(w, k),
        i <= pow2(k),
    ensures
        unit(pow(w, i)),
{
    let n = pow2(k);
    lemma_primitive_order(w, k);
    let u = pow(w, (n - i) as nat);
    lemma_pow_adds(w, (n - i) as nat, i);
    assert(eqm(u * pow(w, i), 1));
}

/// The powers of a primitive root are separated.
pub proof fn lemma_powers_separated(w: int, k: nat)
    requires
        primitive(w, k),
    ensures
        separated(powers(w, pow2(k))),
{
    let n = pow2(k);
    let xs = powers(w, n);
    assert forall|i: int, j: int| 0 <= i < j < xs.len() implies unit(
        #[trigger] xs[i] - #[trigger] xs[j],
    ) by {
        let d = (j - i) as nat;
        lemma_pow_adds(w, i as nat, d);
        lemma_root_unit(w, k, d);
        lemma_power_unit(w, k, i as nat);
        lemma_unit_mul(pow(w, i as nat), pow(w, d) - 1);
        let a = pow(w, i as nat);
        let b = pow(w, d);
        let u = choose|u: int| eqm(#[trigger] (u * (a * (b - 1))), 1);
        let v = -u;
        assert(v * (a - a * b) == u * (a * (b - 1))) by (nonlinear_arith)
            requires
                v == -u,
        ;
        assert(eqm(v * (xs[i] - xs[j]), 1));
    }
}

/// The powers of `w^d` sum to zero unless `d` is zero.
pub proof fn lemma_orthogonal(w: int, k: nat, d: nat)
    requires
        primitive(w, k),
        d < pow2(k),
    ensures
        d == 0 ==> sum(|i: int| pow(pow(w, d), i as nat), pow2(k) as int) == pow2(k),
        d > 0 ==> eqm(sum(|i: int| pow(pow(w, d), i as nat), pow2(k) as int), 0),
{
    let n = pow2(k);
    let x = pow(w, d);
    let f = |i: int| pow(x, i as nat);
    if d == 0 {
        lemma_pow0(w);
        lemma_sum_ones(f, n as int);
    } else {
        lemma_geometric(x, n);
        lemma_pow_multiplies(w, d, n);
        lemma_pow_multiplies(w, n, d);
        assert(d * n == n * d) by (nonlinear_arith);
        lemma_primitive_order(w, k);
        lemma_eqm_pow(pow(w, n), 1, d);
        vstd::arithmetic::power::lemma1_pow(d);
        lemma_eqm_add(pow(x, n), 1, 1, 1);
        lemma_root_unit(w, k, d);
        let u = choose|u: int| eqm(#[trigger] (u * (x - 1)), 1);
        assert((x - 1) * 0 == 0);
        lemma_eqm_cancel(u, x - 1, sum(f, n as int), 0);
    }
}

proof fn lemma_sum_ones(f: spec_fn(int) -> int, n: int)
    requires
        n >= 0,
        forall|i: int| #[trigger] f(i) == pow(1, i as nat),
    ensures
        sum(f, n) == n,
    decreases n,
{
    if n > 0 {
        vstd::arithmetic::power::lemma1_pow((n - 1) as nat);
        lemma_sum_ones(f, n - 1);
    }
}

} // verus!
