//! Arithmetic modulo the order of the BLS12-381 scalar field.
//!
//! Scalars are modelled by their integer value and group elements by their
//! discrete logarithm, so every statement about them is a statement about
//! integers modulo [`modulus`].

use vstd::prelude::*;
use vstd::arithmetic::power::pow;

verus! {

/// The order of the scalar field, which is also the order of the groups.
#[verifier::opaque]
pub open spec fn modulus() -> int {
    0x73eda753299d7d483339d80809a1d80553bda402fffe5bfeffffffff00000001int
}

/// The representative of `x` in `0..modulus()`.
#[verifier::opaque]
pub open spec fn md(x: int) -> int {
    x % modulus()
}

/// `a` and `b` are congruent modulo the field order.
pub open spec fn eqm(a: int, b: int) -> bool {
    md(a) == md(b)
}

pub proof fn lemma_modulus()
    ensures
        modulus() > 0x1_0000_0000_0000_0000int,
        modulus() % 2 == 1,
{
    reveal(modulus);
}

pub proof fn lemma_md_range(x: int)
    ensures
        0 <= md(x) < modulus(),
        md(md(x)) == md(x),
        0 <= x < modulus() ==> md(x) == x,
{
    reveal(md);
    lemma_modulus();
    vstd::arithmetic::div_mod::lemma_mod_bound(x, modulus());
    vstd::arithmetic::div_mod::lemma_mod_twice(x, modulus());
    if 0 <= x < modulus() {
        vstd::arithmetic::div_mod::lemma_small_mod(x as nat, modulus() as nat);
    }
}

/// Congruence means that the difference is a multiple of the modulus.
pub proof fn lemma_eqm_witness(a: int, b: int) -> (k: int)
    requires
        eqm(a, b),
    ensures
        a == b + k * modulus(),
{
    reveal(md);
    lemma_modulus();
    let m = modulus();
    vstd::arithmetic::div_mod::lemma_fundamental_div_mod(a, m);
    vstd::arithmetic::div_mod::lemma_fundamental_div_mod(b, m);
    let k = a / m - b / m;
    assert(a == b + k * m) by (nonlinear_arith)
        requires
            a == m * (a / m) + a % m,
            b == m * (b / m) + b % m,
            a % m == b % m,
            k == a / m - b / m,
    ;
    k
}

pub proof fn lemma_eqm_from_witness(a: int, b: int, k: int)
    requires
        a == b + k * modulus(),
    ensures
        eqm(a, b),
{
    reveal(md);
    lemma_modulus();
    vstd::arithmetic::div_mod::lemma_mod_multiples_vanish(k, b, modulus());
    assert(k * modulus() == modulus() * k) by (nonlinear_arith);
}

pub proof fn lemma_md_eqm(a: int)
    ensures
        eqm(md(a), a),
{
    lemma_md_range(a);
}

pub proof fn lemma_eqm_add(a: int, b: int, c: int, d: int)
    requires
        eqm(a, b),
        eqm(c, d),
    ensures
        eqm(a + c, b + d),
        eqm(a - c, b - d),
{
    let k = lemma_eqm_witness(a, b);
    let l = lemma_eqm_witness(c, d);
    let m = modulus();
    assert(a + c == b + d + (k + l) * m && a - c == b - d + (k - l) * m) by (nonlinear_arith)
        requires
            a == b + k * m,
            c == d + l * m,
    ;
    lemma_eqm_from_witness(a + c, b + d, k + l);
    lemma_eqm_from_witness(a - c, b - d, k - l);
}

pub proof fn lemma_eqm_mul(a: int, b: int, c: int, d: int)
    requires
        eqm(a, b),
        eqm(c, d),
    ensures
        eqm(a * c, b * d),
{
    let k = lemma_eqm_witness(a, b);
    let l = lemma_eqm_witness(c, d);
    let m = modulus();
    let w = k * c + b * l;
    assert(a * c == b * c + k * c * m) by (nonlinear_arith)
        requires
            a == b + k * m,
    ;
    assert(b * c == b * d + b * l * m) by (nonlinear_arith)
        requires
            c == d + l * m,
    ;
    assert(w * m == k * c * m + b * l * m) by (nonlinear_arith)
        requires
            w == k * c + b * l,
    ;
    lemma_eqm_from_witness(a * c, b * d, w);
}

/// A factor may be replaced by a congruent one.
pub proof fn lemma_eqm_scale(k: int, a: int, b: int)
    requires
        eqm(a, b),
    ensures
        eqm(k * a, k * b),
        eqm(a * k, b * k),
{
    lemma_eqm_mul(k, k, a, b);
    lemma_eqm_mul(a, b, k, k);
}

pub proof fn lemma_eqm_pow(a: int, b: int, e: nat)
    requires
        eqm(a, b),
    ensures
        eqm(pow(a, e), pow(b, e)),
    decreases e,
{
    reveal(pow);
    if e > 0 {
        lemma_eqm_pow(a, b, (e - 1) as nat);
        lemma_eqm_mul(a, b, pow(a, (e - 1) as nat), pow(b, (e - 1) as nat));
    }
}

/// An invertible factor may be cancelled.
pub proof fn lemma_eqm_cancel(u: int, x: int, a: int, b: int)
    requires
        eqm(u * x, 1),
        eqm(x * a, x * b),
    ensures
        eqm(a, b),
{
    lemma_eqm_scale(u, x * a, x * b);
    lemma_eqm_scale(a, u * x, 1);
    lemma_eqm_scale(b, u * x, 1);
    assert(u * (x * a) == (u * x) * a && u * (x * b) == (u * x) * b) by (nonlinear_arith);
    assert(1 * a == a && 1 * b == b);
}

} // verus!
