//! The discrete Fourier transform and its radix-2 decomposition.

use vstd::arithmetic::power::{lemma1_pow, lemma_pow0, lemma_pow_adds, lemma_pow_multiplies, pow};
use vstd::arithmetic::power2::{lemma_pow2_adds, lemma_pow2_pos, pow2};
use vstd::prelude::*;

use crate::modular::{eqm, lemma_eqm_add, lemma_eqm_mul, lemma_eqm_pow, lemma_eqm_scale};
use crate::poly_math::{co, ev, unit};
use crate::roots::{
    lemma_orthogonal, lemma_pow2_step, lemma_primitive_order, lemma_two_unit, lemma_unit_mul,
    primitive,
};
use crate::sums::{
    lemma_sum_eqm, lemma_sum_even_odd, lemma_sum_ext, lemma_sum_first, lemma_sum_scale,
    lemma_sum_single, lemma_sum_swap, sum,
};

verus! {

/// Entry `k` of the transform of `a` with the root of unity `w`.
pub open spec fn dft(a: Seq<int>, w: int, k: int) -> int {
    sum(|j: int| a[j] * pow(w, (j * k) as nat), a.len() as int)
}

/// `x` with its lowest `bits` binary digits in reverse order.
pub open spec fn brev(x: int, bits: nat) -> int
    decreases bits,
{
    if bits == 0 {
        0
    } else {
        (x % 2) * pow2((bits - 1) as nat) + brev(x / 2, (bits - 1) as nat)
    }
}

pub proof fn lemma_brev_bound(x: int, bits: nat)
    ensures
        0 <= brev(x, bits) < pow2(bits),
    decreases bits,
{
    if bits == 0 {
        lemma_pow2_pos(0);
    } else {
        lemma_brev_bound(x / 2, (bits - 1) as nat);
        lemma_pow2_step(bits);
        let p = pow2((bits - 1) as nat) as int;
        assert(0 <= (x % 2) * p <= p) by (nonlinear_arith)
            requires
                0 <= x % 2 <= 1,
                p > 0,
        ;
    }
}

/// Entry `k` of the transform of every `2^m`-th element of `a`, of which
/// there are `2^s`, starting at the bit reversal of `b`.
pub open spec fn block(a: Seq<int>, w: int, m: nat, s: nat, b: int, k: int) -> int {
    sum(
        |j: int| a[brev(b, m) + j * pow2(m)] * pow(pow(w, pow2(m)), (j * k) as nat),
        pow2(s) as int,
    )
}

/// After `s` rounds, consecutive runs of `2^s` points hold the transforms of
/// the interleaved subsequences.
pub open spec fn stage_done(p: Seq<int>, a: Seq<int>, w: int, m: nat, s: nat) -> bool {
    forall|b: int, k: int|
        0 <= b < pow2(m) && 0 <= k < pow2(s) ==> eqm(
            p[b * pow2(s) + k],
            #[trigger] block(a, w, m, s, b, k),
        )
}

/// Before the first round each point is the transform of one element.
pub proof fn lemma_stage_start(p: Seq<int>, a: Seq<int>, w: int, m: nat)
    requires
        a.len() == pow2(m),
        forall|b: int| 0 <= b < pow2(m) ==> #[trigger] p[b] == a[brev(b, m)],
    ensures
        stage_done(p, a, w, m, 0),
{
    vstd::arithmetic::power2::lemma2_to64();
    assert forall|b: int, k: int| 0 <= b < pow2(m) && 0 <= k < pow2(0) implies eqm(
        p[b * pow2(0) + k],
        #[trigger] block(a, w, m, 0, b, k),
    ) by {
        let f = |j: int| a[brev(b, m) + j * pow2(m)] * pow(pow(w, pow2(m)), (j * k) as nat);
        assert(sum(f, 1) == sum(f, 0) + f(0));
        assert(0 * pow2(m) == 0);
        assert(0 * k == 0);
        lemma_pow0(pow(w, pow2(m)));
        assert(f(0) == a[brev(b, m)]);
        assert(b * 1 + k == b);
        assert(p[b] == a[brev(b, m)]);
    }
}

/// After the last round the points hold the transform.
pub proof fn lemma_stage_end(p: Seq<int>, a: Seq<int>, w: int, s: nat, k: int)
    requires
        a.len() == pow2(s),
        stage_done(p, a, w, 0, s),
        0 <= k < pow2(s),
    ensures
        eqm(p[k], dft(a, w, k)),
{
    vstd::arithmetic::power2::lemma2_to64();
    let f = |j: int| a[brev(0, 0) + j * pow2(0)] * pow(pow(w, pow2(0)), (j * k) as nat);
    let g = |j: int| a[j] * pow(w, (j * k) as nat);
    vstd::arithmetic::power::lemma_pow1(w);
    lemma_sum_ext(f, g, pow2(s) as int);
    assert(eqm(p[0 * pow2(s) + k], block(a, w, 0, s, 0, k)));
}

/// The two halves of a run and the merged run, `k` in the first half.
pub proof fn lemma_block_low(a: Seq<int>, w: int, m: nat, s: nat, b: int, k: int)
    requires
        m > 0,
        0 <= b,
        0 <= k,
    ensures
        block(a, w, (m - 1) as nat, s + 1, b, k) == block(a, w, m, s, 2 * b, k) + pow(
            pow(w, pow2((m - 1) as nat)),
            k as nat,
        ) * block(a, w, m, s, 2 * b + 1, k),
{
    lemma_pow2_step(m);
    lemma_pow2_step(s + 1);
    let m1 = (m - 1) as nat;
    let st = pow2(m1) as int;
    let x = pow(w, pow2(m1));
    let c = brev(b, m1);
    assert((2 * b) % 2 == 0 && (2 * b) / 2 == b);
    assert((2 * b + 1) % 2 == 1 && (2 * b + 1) / 2 == b);
    assert(0 * st == 0 && 1 * st == st);
    assert(brev(2 * b, m) == c);
    assert(brev(2 * b + 1, m) == st + c);
    let f = |j: int| a[c + j * st] * pow(x, (j * k) as nat);
    let e = |j: int| a[brev(2 * b, m) + j * pow2(m)] * pow(pow(w, pow2(m)), (j * k) as nat);
    let o = |j: int| a[brev(2 * b + 1, m) + j * pow2(m)] * pow(pow(w, pow2(m)), (j * k) as nat);
    let half = pow2(s) as int;
    lemma_sum_even_odd(f, half);
    // x^2 == w^(2^m)
    lemma_pow_multiplies(w, pow2(m1), 2);
    assert(pow2(m1) * 2 == pow2(m));
    let x2 = pow(w, pow2(m));
    assert(x2 == pow(x, 2));
    assert forall|j: int| 0 <= j < half implies #[trigger] e(j) == f(2 * j) by {
        assert(c + (2 * j) * st == c + j * (2 * st)) by (nonlinear_arith);
        assert(0 <= j * k) by (nonlinear_arith)
            requires
                0 <= j,
                0 <= k,
        ;
        lemma_pow_multiplies(x, 2, (j * k) as nat);
        assert(2 * (j * k) == (2 * j) * k) by (nonlinear_arith);
    }
    lemma_sum_ext(e, |j: int| f(2 * j), half);
    let t = pow(x, k as nat);
    assert forall|j: int| 0 <= j < half implies #[trigger] o(j) * t == f(2 * j + 1) by {
        assert(c + (2 * j + 1) * st == st + c + j * (2 * st)) by (nonlinear_arith);
        assert(0 <= j * k) by (nonlinear_arith)
            requires
                0 <= j,
                0 <= k,
        ;
        lemma_pow_multiplies(x, 2, (j * k) as nat);
        lemma_pow_adds(x, (2 * (j * k)) as nat, k as nat);
        assert(2 * (j * k) + k == (2 * j + 1) * k) by (nonlinear_arith);
        let y = a[st + c + j * (2 * st)];
        let z = pow(x2, (j * k) as nat);
        assert((y * z) * t == y * (z * t)) by (nonlinear_arith);
    }
    let to = |j: int| t * o(j);
    assert forall|j: int| 0 <= j < half implies #[trigger] to(j) == f(2 * j + 1) by {
        assert(t * o(j) == o(j) * t) by (nonlinear_arith);
    }
    lemma_sum_ext(to, |j: int| f(2 * j + 1), half);
    lemma_sum_scale(t, o, half);
}

/// Half a period later a run repeats.
pub proof fn lemma_block_periodic(a: Seq<int>, w: int, m: nat, s: nat, b: int, k: int)
    requires
        0 <= k,
        primitive(w, m + s),
    ensures
        eqm(block(a, w, m, s, b, k + pow2(s)), block(a, w, m, s, b, k)),
{
    let n = pow2(s) as int;
    let x = pow(w, pow2(m));
    let f = |j: int| a[brev(b, m) + j * pow2(m)] * pow(x, (j * (k + n)) as nat);
    let g = |j: int| a[brev(b, m) + j * pow2(m)] * pow(x, (j * k) as nat);
    lemma_pow2_adds(m, s);
    lemma_pow_multiplies(w, pow2(m), pow2(s));
    lemma_primitive_order(w, m + s);
    assert(eqm(pow(x, n as nat), 1));
    assert forall|j: int| 0 <= j < n implies eqm(#[trigger] f(j), g(j)) by {
        assert(j * (k + n) == j * k + n * j) by (nonlinear_arith);
        assert(0 <= j * k && 0 <= n * j) by (nonlinear_arith)
            requires
                0 <= j,
                0 <= k,
                0 <= n,
        ;
        lemma_pow_adds(x, (j * k) as nat, (n * j) as nat);
        lemma_pow_multiplies(x, n as nat, j as nat);
        lemma_eqm_pow(pow(x, n as nat), 1, j as nat);
        lemma1_pow(j as nat);
        let u = pow(x, (j * k) as nat);
        lemma_eqm_scale(u, pow(x, (n * j) as nat), 1);
        lemma_eqm_scale(a[brev(b, m) + j * pow2(m)], u * pow(x, (n * j) as nat), u * 1);
    }
    lemma_sum_eqm(f, g, n);
}

/// The two halves of a run and the merged run, `k` in the second half.
pub proof fn lemma_block_high(a: Seq<int>, w: int, m: nat, s: nat, b: int, k: int)
    requires
        m > 0,
        0 <= b,
        0 <= k,
        primitive(w, m + s),
    ensures
        eqm(
            block(a, w, (m - 1) as nat, s + 1, b, k + pow2(s)),
            block(a, w, m, s, 2 * b, k) - pow(pow(w, pow2((m - 1) as nat)), k as nat) * block(
                a,
                w,
                m,
                s,
                2 * b + 1,
                k,
            ),
        ),
{
    let n = pow2(s) as int;
    let m1 = (m - 1) as nat;
    let x = pow(w, pow2(m1));
    lemma_block_low(a, w, m, s, b, k + n);
    lemma_block_periodic(a, w, m, s, 2 * b, k);
    lemma_block_periodic(a, w, m, s, 2 * b + 1, k);
    // x^n is -1
    lemma_pow2_adds(m1, s);
    lemma_pow_multiplies(w, pow2(m1), pow2(s));
    assert(m1 + s == m + s - 1);
    assert(eqm(pow(x, n as nat), -1));
    lemma_pow_adds(x, k as nat, n as nat);
    let t = pow(x, k as nat);
    lemma_eqm_scale(t, pow(x, n as nat), -1);
    let (e, o) = (block(a, w, m, s, 2 * b, k), block(a, w, m, s, 2 * b + 1, k));
    let (e2, o2) = (block(a, w, m, s, 2 * b, k + n), block(a, w, m, s, 2 * b + 1, k + n));
    lemma_eqm_mul(t * pow(x, n as nat), t * -1, o2, o);
    lemma_eqm_add(e2, e, (t * pow(x, n as nat)) * o2, (t * -1) * o);
    assert((t * -1) * o == -(t * o)) by (nonlinear_arith);
}

/// A value is the sum of its coefficients times powers.
pub proof fn lemma_ev_sum(p: Seq<int>, x: int)
    ensures
        ev(p, x) == sum(|l: int| p[l] * pow(x, l as nat), p.len() as int),
    decreases p.len(),
{
    let f = |l: int| p[l] * pow(x, l as nat);
    if p.len() > 0 {
        let t = p.drop_first();
        lemma_ev_sum(t, x);
        lemma_sum_first(f, p.len() as int);
        lemma_pow0(x);
        let g = |l: int| t[l] * pow(x, l as nat);
        let h = |l: int| x * g(l);
        assert forall|l: int| 0 <= l < p.len() - 1 implies #[trigger] h(l) == f(l + 1) by {
            reveal(pow);
            assert(pow(x, (l + 1) as nat) == x * pow(x, l as nat));
            let y = pow(x, l as nat);
            assert(x * (t[l] * y) == p[l + 1] * (x * y)) by (nonlinear_arith)
                requires
                    t[l] == p[l + 1],
            ;
        }
        lemma_sum_ext(h, |l: int| f(l + 1), p.len() - 1);
        lemma_sum_scale(x, g, p.len() - 1);
    }
}

/// A power of two is invertible.
pub proof fn lemma_pow2_unit(k: nat)
    ensures
        unit(pow2(k) as int),
    decreases k,
{
    if k == 0 {
        vstd::arithmetic::power2::lemma2_to64();
        let u: int = 1;
        assert(u * (pow2(0) as int) == 1);
        assert(eqm(u * (pow2(0) as int), 1));
    } else {
        lemma_pow2_step(k);
        lemma_pow2_unit((k - 1) as nat);
        let u = lemma_two_unit();
        assert(unit(2)) by {
            assert(eqm(u * 2, 1));
        }
        lemma_unit_mul(2, pow2((k - 1) as nat) as int);
    }
}

/// The inverse transform recovers coefficients: for values of a polynomial at
/// the powers of `w`, entry `k` of their transform with the inverse root is
/// `n` times coefficient `k`.
pub proof fn lemma_inverse_dft(p: Seq<int>, vals: Seq<int>, w: int, k: nat, i: int)
    requires
        primitive(w, k),
        vals.len() == pow2(k),
        p.len() <= pow2(k),
        forall|j: int| 0 <= j < vals.len() ==> eqm(ev(p, pow(w, j as nat)), #[trigger] vals[j]),
        0 <= i < pow2(k),
    ensures
        eqm(dft(vals, pow(w, (pow2(k) - 1) as nat), i), pow2(k) * co(p, i)),
{
    let n = pow2(k) as int;
    let wi = pow(w, (n - 1) as nat);
    let q = Seq::new(n as nat, |l: int| co(p, l));
    // values as double sums
    let f = |j: int, l: int| q[l] * pow(pow(w, j as nat), l as nat) * pow(wi, (j * i) as nat);
    let lhs = |j: int| vals[j] * pow(wi, (j * i) as nat);
    let rows = |j: int| sum(|l: int| f(j, l), n);
    assert forall|j: int| 0 <= j < n implies eqm(#[trigger] lhs(j), rows(j)) by {
        let x = pow(w, j as nat);
        let c = pow(wi, (j * i) as nat);
        assert(crate::poly_math::ceq(p, q));
        crate::poly_math::lemma_ev_ceq(p, q, x);
        lemma_ev_sum(q, x);
        let g = |l: int| q[l] * pow(x, l as nat);
        lemma_sum_scale(c, g, n);
        let cg = |l: int| c * g(l);
        let fj = |l: int| f(j, l);
        assert forall|l: int| 0 <= l < n implies #[trigger] fj(l) == cg(l) by {
            assert(g(l) * c == c * g(l)) by (nonlinear_arith);
        }
        lemma_sum_ext(fj, cg, n);
        lemma_eqm_scale(c, vals[j], ev(p, x));
        assert(vals[j] * c == c * vals[j]) by (nonlinear_arith);
    }
    lemma_sum_eqm(lhs, rows, n);
    lemma_sum_swap(f, n, n);
    let cols = |l: int| sum(|j: int| f(j, l), n);
    lemma_sum_ext(rows, |j: int| sum(|l: int| f(j, l), n), n);
    lemma_sum_ext(cols, |l: int| sum(|j: int| f(j, l), n), n);
    // each column is a geometric sum
    let want = |l: int| if l == i {
        n * q[i]
    } else {
        0
    };
    assert forall|l: int| 0 <= l < n implies eqm(#[trigger] cols(l), want(l)) by {
        lemma_column(q[l], w, k, l, i);
        let fl = |j: int| f(j, l);
        let gl = |j: int| q[l] * pow(pow(w, j as nat), l as nat) * pow(wi, (j * i) as nat);
        lemma_sum_ext(fl, gl, n);
    }
    lemma_sum_eqm(cols, want, n);
    lemma_sum_single(want, n, i);
}

/// One column of the double sum: `q` times the sum of the `j`-th powers of
/// `w^(l - i)`.
proof fn lemma_column(q: int, w: int, k: nat, l: int, i: int)
    requires
        primitive(w, k),
        0 <= l < pow2(k),
        0 <= i < pow2(k),
    ensures
        eqm(
            sum(
                |j: int|
                    q * pow(pow(w, j as nat), l as nat) * pow(
                        pow(w, (pow2(k) - 1) as nat),
                        (j * i) as nat,
                    ),
                pow2(k) as int,
            ),
            if l == i {
                pow2(k) * q
            } else {
                0
            },
        ),
{
    let n = pow2(k) as int;
    let wi = pow(w, (n - 1) as nat);
    // the exponent of w in the j-th term is j * (l + (n - 1) * i), congruent to j * d
    let d = if l >= i {
        l - i
    } else {
        l - i + n
    };
    let y = pow(w, d as nat);
    let f = |j: int| q * pow(pow(w, j as nat), l as nat) * pow(wi, (j * i) as nat);
    let g = |j: int| q * pow(y, j as nat);
    lemma_primitive_order(w, k);
    assert forall|j: int| 0 <= j < n implies eqm(#[trigger] f(j), g(j)) by {
        lemma_pow_multiplies(w, j as nat, l as nat);
        assert(0 <= j * i && 0 <= (n - 1) * (j * i) && 0 <= j * l && 0 <= j * d)
            by (nonlinear_arith)
            requires
                0 <= j,
                0 <= i,
                0 <= l,
                0 <= d,
                n >= 1,
        ;
        lemma_pow_multiplies(w, (n - 1) as nat, (j * i) as nat);
        lemma_pow_adds(w, (j * l) as nat, ((n - 1) * (j * i)) as nat);
        let e = j * l + (n - 1) * (j * i);
        // e == j * d + n * t
        let t = if l >= i {
            j * i
        } else {
            j * i - j
        };
        assert(e == j * d + n * t) by (nonlinear_arith)
            requires
                e == j * l + (n - 1) * (j * i),
                l >= i ==> d == l - i && t == j * i,
                l < i ==> d == l - i + n && t == j * i - j,
        ;
        assert(0 <= t) by (nonlinear_arith)
            requires
                0 <= j,
                0 <= i,
                0 <= l,
                l >= i ==> t == j * i,
                l < i ==> t == j * i - j,
        ;
        assert(0 <= n * t) by (nonlinear_arith)
            requires
                0 <= n,
                0 <= t,
        ;
        lemma_pow_adds(w, (j * d) as nat, (n * t) as nat);
        lemma_pow_multiplies(w, n as nat, t as nat);
        lemma_eqm_pow(pow(w, n as nat), 1, t as nat);
        lemma1_pow(t as nat);
        lemma_eqm_scale(pow(w, (j * d) as nat), pow(w, (n * t) as nat), 1);
        lemma_pow_multiplies(w, d as nat, j as nat);
        assert(j * d == d * j) by (nonlinear_arith);
        assert(eqm(pow(w, e as nat), pow(y, j as nat)));
        lemma_eqm_scale(q, pow(w, e as nat), pow(y, j as nat));
        let (u, v) = (pow(pow(w, j as nat), l as nat), pow(wi, (j * i) as nat));
        assert((q * u) * v == q * (u * v)) by (nonlinear_arith);
    }
    lemma_sum_eqm(f, g, n);
    let h = |j: int| pow(y, j as nat);
    lemma_sum_scale(q, h, n);
    lemma_sum_ext(g, |j: int| q * h(j), n);
    lemma_orthogonal(w, k, d as nat);
    if l != i {
        lemma_eqm_scale(q, sum(h, n), 0);
    } else {
        assert(q * n == n * q) by (nonlinear_arith);
    }
}

} // verus!
