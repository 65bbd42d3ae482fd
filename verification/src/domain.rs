//! Lagrange basis commitments and padding scalars.
//!
//! For the evaluation domain with generator `w` and `n` elements, and the
//! points `[tau^k]` of a structured reference string, the commitment to the
//! `i`-th Lagrange basis polynomial is `(1/n) * sum_k w^(-ik) [tau^k]`. All
//! of them together are the inverse transform of the points, and are computed
//! at once by a radix-2 transform over the group.

use vstd::arithmetic::power::{lemma_pow0, pow};
use vstd::arithmetic::power2::{lemma_pow2_pos, lemma_pow2_unfold, pow2};
use vstd::bytes::{spec_u64_to_le_bytes, u64_to_le_bytes};
use vstd::prelude::*;
use vstd::utf8::encode_utf8;

use crate::curve::{g1_logs, G1Affine};
use crate::fft_math::{
    block, brev, dft, lemma_block_high, lemma_block_low, lemma_brev_bound, lemma_inverse_dft,
    lemma_pow2_unit, lemma_stage_end, lemma_stage_start, stage_done,
};
use crate::field::Fr;
use crate::hash::{fr_hash, hash_to_fr, slices};
use crate::modular::{
    eqm, lemma_eqm_add, lemma_eqm_cancel, lemma_eqm_mul, lemma_eqm_pow, lemma_eqm_scale,
    lemma_md_eqm, lemma_md_range, md,
};
use crate::poly::{power_of_two, GeneralEvaluationDomain};
use crate::poly_math::{co, unit};
use crate::roots::{lemma_pow2_step, lemma_primitive_order, primitive};
use crate::sums::{lemma_sum_eqm, lemma_sum_ext, lemma_sum_scale, lemma_sum_swap, sum};

verus! {

pub const PAD_TOKEN_SEP: &'static str = "AGGIOS_PAD_TOKEN";

/// The least power of two that is at least `n`.
pub open spec fn least_power_of_two(r: int, n: int) -> bool {
    power_of_two(r) && r >= n && forall|k: nat| #[trigger] pow2(k) >= n ==> pow2(k) >= r
}

/// The least power of two that is at least `n`; 1 for 0.
pub fn next_power_of_two(n: usize) -> (r: usize)
    requires
        n <= usize::MAX / 2 + 1,
    ensures
        least_power_of_two(r as int, n as int),
        r >= 1,
{
    let mut r: usize = 1;
    let ghost mut k: nat = 0;
    proof {
        vstd::arithmetic::power2::lemma2_to64();
        assert forall|j: nat| #[trigger] pow2(j) >= n implies pow2(j) >= 1 by {
            lemma_pow2_pos(j);
        }
    }
    while r < n
        invariant
            r >= 1,
            r == pow2(k),
            n <= usize::MAX / 2 + 1,
            forall|j: nat| #[trigger] pow2(j) >= n ==> pow2(j) >= r,
        decreases
            if r < n {
                n - r
            } else {
                0
            },
    {
        proof {
            lemma_half_bound(k, n as int);
            assert forall|j: nat| #[trigger] pow2(j) >= n implies pow2(j) >= 2 * r by {
                if j <= k {
                    if j < k {
                        vstd::arithmetic::power2::lemma_pow2_strictly_increases(j, k);
                    }
                } else {
                    lemma_pow2_unfold(k + 1);
                    if j > k + 1 {
                        vstd::arithmetic::power2::lemma_pow2_strictly_increases(k + 1, j);
                    }
                }
            }
            lemma_pow2_unfold(k + 1);
            k = k + 1;
        }
        r = r * 2;
    }
    proof {
        assert(r == pow2(k));
    }
    r
}

/// Below `usize::MAX / 2 + 1`, itself a power of two, doubling does not overflow.
proof fn lemma_half_bound(k: nat, n: int)
    requires
        pow2(k) < n <= usize::MAX / 2 + 1,
    ensures
        2 * pow2(k) <= usize::MAX,
{
    vstd::arithmetic::power2::lemma2_to64();
    vstd::arithmetic::power2::lemma2_to64_rest();
}

/// The value of the public padding scalar with index `p`.
pub open spec fn pad_value(election_id: Seq<char>, aggregator_id: Seq<char>, p: int) -> int {
    fr_hash(
        encode_utf8(PAD_TOKEN_SEP@),
        seq![
            encode_utf8(election_id),
            encode_utf8(aggregator_id),
            spec_u64_to_le_bytes(p as u64),
        ],
    )
}

/// The public padding scalar with an index, hashed from the election, the
/// aggregator and the index.
pub fn pad_scalar(election_id: &str, aggregator_id: &str, pad_index: usize) -> (x: Fr)
    ensures
        x@ == pad_value(election_id@, aggregator_id@, pad_index as int),
{
    let index = u64_to_le_bytes(pad_index as u64);
    let parts: Vec<&[u8]> = vec![
        election_id.as_bytes(),
        aggregator_id.as_bytes(),
        index.as_slice(),
    ];
    proof {
        assert(slices(parts@) =~= seq![
            encode_utf8(election_id@),
            encode_utf8(aggregator_id@),
            spec_u64_to_le_bytes(pad_index as u64),
        ]);
    }
    hash_to_fr(PAD_TOKEN_SEP.as_bytes(), parts.as_slice())
}

/// `value` with its lowest `bits` binary digits in reverse order.
fn bit_reverse(value: usize, bits: u32) -> (result: usize)
    requires
        pow2(bits as nat) <= usize::MAX,
    ensures
        result == brev(value as int, bits as nat),
        result < pow2(bits as nat),
{
    let mut result: usize = 0;
    let mut rest: usize = value;
    let mut done: u32 = 0;
    proof {
        lemma_brev_bound(value as int, bits as nat);
        assert(0 * pow2(bits as nat) == 0);
    }
    while done < bits
        invariant
            done <= bits,
            pow2(bits as nat) <= usize::MAX,
            0 <= brev(value as int, bits as nat) < pow2(bits as nat),
            result * pow2((bits - done) as nat) + brev(rest as int, (bits - done) as nat) == brev(
                value as int,
                bits as nat,
            ),
        decreases bits - done,
    {
        proof {
            let left = (bits - done) as nat;
            lemma_pow2_step(left);
            let p = pow2((left - 1) as nat) as int;
            let b = rest as int % 2;
            lemma_brev_bound(rest as int / 2, (left - 1) as nat);
            assert(result * (2 * p) + b * p == (result * 2 + b) * p) by (nonlinear_arith);
            assert(result * 2 + b <= (result * 2 + b) * p) by (nonlinear_arith)
                requires
                    p >= 1,
                    result >= 0,
                    b >= 0,
            ;
        }
        result = result * 2 + rest % 2;
        rest = rest / 2;
        done = done + 1;
    }
    proof {
        vstd::arithmetic::power2::lemma2_to64();
        assert(result * pow2(0) == result);
    }
    result
}

/// One butterfly was applied to positions `lo` and `lo + half`.
pub open spec fn butterfly(q: Seq<int>, p: Seq<int>, lo: int, half: int, t: int) -> bool {
    &&& eqm(p[lo], q[lo] + t * q[lo + half])
    &&& eqm(p[lo + half], q[lo] - t * q[lo + half])
}

/// Applying a butterfly at every position of every run completes a round.
proof fn lemma_round(q: Seq<int>, p: Seq<int>, a: Seq<int>, w: int, m: nat, s: nat)
    requires
        m > 0,
        primitive(w, m + s),
        stage_done(q, a, w, m, s),
        forall|b: int, k: int|
            0 <= b < pow2((m - 1) as nat) && 0 <= k < pow2(s) ==> #[trigger] butterfly(
                q,
                p,
                b * pow2(s + 1) + k,
                pow2(s) as int,
                pow(pow(w, pow2((m - 1) as nat)), k as nat),
            ),
    ensures
        stage_done(p, a, w, (m - 1) as nat, s + 1),
{
    let m1 = (m - 1) as nat;
    let h = pow2(s) as int;
    lemma_pow2_step(m);
    lemma_pow2_step(s + 1);
    let x = pow(w, pow2(m1));
    assert forall|b: int, k2: int| 0 <= b < pow2(m1) && 0 <= k2 < pow2(s + 1) implies eqm(
        p[b * pow2(s + 1) + k2],
        #[trigger] block(a, w, m1, s + 1, b, k2),
    ) by {
        let k = if k2 < h {
            k2
        } else {
            k2 - h
        };
        let lo = b * pow2(s + 1) + k;
        let t = pow(x, k as nat);
        assert(butterfly(q, p, b * pow2(s + 1) + k, pow2(s) as int, t));
        assert((2 * b) * h + k == lo && (2 * b + 1) * h + k == lo + h) by (nonlinear_arith)
            requires
                lo == b * (2 * h) + k,
        ;
        let (e, o) = (block(a, w, m, s, 2 * b, k), block(a, w, m, s, 2 * b + 1, k));
        assert(eqm(q[(2 * b) * h + k], e));
        assert(eqm(q[(2 * b + 1) * h + k], o));
        lemma_eqm_scale(t, q[lo + h], o);
        lemma_eqm_add(q[lo], e, t * q[lo + h], t * o);
        if k2 < h {
            lemma_block_low(a, w, m, s, b, k);
        } else {
            lemma_block_high(a, w, m, s, b, k);
            assert(b * pow2(s + 1) + k2 == lo + h);
        }
    }
}

/// The radix-2 transform of a list of points with the root of unity `omega`:
/// entry `k` of the result is the sum over `j` of `omega^(jk)` times point `j`.
fn group_fft(points: &Vec<G1Affine>, omega: Fr, log_n: u32) -> (r: Vec<G1Affine>)
    requires
        points@.len() == pow2(log_n as nat),
        primitive(omega@, log_n as nat),
    ensures
        r@.len() == points@.len(),
        forall|k: int|
            0 <= k < r@.len() ==> eqm((#[trigger] r@[k])@, dft(g1_logs(points@), omega@, k)),
{
    let n = points.len();
    let ghost a = g1_logs(points@);
    let ghost w = omega@;
    // The points in bit-reversed order.
    let mut p: Vec<G1Affine> = Vec::new();
    let mut i: usize = 0;
    while i < n
        invariant
            i <= n,
            n == points@.len(),
            n == pow2(log_n as nat),
            p@.len() == i,
            forall|b: int| 0 <= b < i ==> #[trigger] p@[b] == points@[brev(b, log_n as nat)],
        decreases n - i,
    {
        let j = bit_reverse(i, log_n);
        p.push(points[j]);
        i += 1;
    }
    let mut half: usize = 1;
    let mut blocks: usize = n;
    let ghost mut s: nat = 0;
    let ghost mut m: nat = log_n as nat;
    proof {
        vstd::arithmetic::power2::lemma2_to64();
        assert forall|b: int| 0 <= b < pow2(m) implies #[trigger] g1_logs(p@)[b] == a[brev(b, m)] by {
            lemma_brev_bound(b, m);
            assert(p@[b] == points@[brev(b, m)]);
        }
        lemma_stage_start(g1_logs(p@), a, w, m);
    }
    while half < n
        invariant
            n == pow2(log_n as nat),
            half == pow2(s),
            blocks == pow2(m),
            m + s == log_n,
            p@.len() == n,
            w == omega@,
            primitive(w, log_n as nat),
            stage_done(g1_logs(p@), a, w, m, s),
        decreases m,
    {
        let ghost q = g1_logs(p@);
        proof {
            if m == 0 {
                assert(s == log_n);
            }
            lemma_pow2_step(m);
            lemma_pow2_step(s + 1);
            vstd::arithmetic::power2::lemma_pow2_adds(m, s);
            vstd::arithmetic::power2::lemma_pow2_adds((m - 1) as nat, s + 1);
            let (c, l) = (pow2((m - 1) as nat) as int, pow2(s + 1) as int);
            assert(l <= c * l) by (nonlinear_arith)
                requires
                    c >= 1,
                    l >= 0,
            ;
        }
        let ghost m1 = (m - 1) as nat;
        let len = half * 2;
        blocks = blocks / 2;
        let w_len = omega.pow(blocks as u64);
        let ghost x = pow(w, pow2(m1));
        let mut block_index: usize = 0;
        let mut start: usize = 0;
        while block_index < blocks
            invariant
                n == pow2(log_n as nat),
                half == pow2(s),
                len == pow2(s + 1),
                len == 2 * half,
                blocks == pow2(m1),
                blocks * len == n,
                block_index <= blocks,
                start == block_index * len,
                p@.len() == n,
                q.len() == n,
                w_len@ == md(x),
                forall|b: int, k: int|
                    0 <= b < block_index && 0 <= k < half ==> #[trigger] butterfly(
                        q,
                        g1_logs(p@),
                        b * pow2(s + 1) + k,
                        pow2(s) as int,
                        pow(x, k as nat),
                    ),
                forall|z: int| start <= z < n ==> (#[trigger] p@[z])@ == q[z],
            decreases blocks - block_index,
        {
            proof {
                assert(start + len <= n) by (nonlinear_arith)
                    requires
                        start == block_index * len,
                        blocks * len == n,
                        block_index + 1 <= blocks,
                ;
            }
            let mut power = Fr::one();
            let mut j: usize = 0;
            proof {
                lemma_pow0(x);
                lemma_md_range(1);
                crate::modular::lemma_modulus();
            }
            while j < half
                invariant
                    n == pow2(log_n as nat),
                    half == pow2(s),
                    len == pow2(s + 1),
                    len == 2 * half,
                    j <= half,
                    block_index < blocks,
                    start == block_index * len,
                    start + len <= n,
                    p@.len() == n,
                    q.len() == n,
                    w_len@ == md(x),
                    power@ == md(pow(x, j as nat)),
                    forall|b: int, k: int|
                        0 <= b < block_index && 0 <= k < half ==> #[trigger] butterfly(
                            q,
                            g1_logs(p@),
                            b * pow2(s + 1) + k,
                            pow2(s) as int,
                            pow(x, k as nat),
                        ),
                    forall|k: int|
                        0 <= k < j ==> #[trigger] butterfly(
                            q,
                            g1_logs(p@),
                            start + k,
                            half as int,
                            pow(x, k as nat),
                        ),
                    forall|z: int|
                        start + j <= z < start + half ==> (#[trigger] p@[z])@ == q[z],
                    forall|z: int| start + half + j <= z < n ==> (#[trigger] p@[z])@ == q[z],
                decreases half - j,
            {
                let ghost before = p@;
                // (u, v) -> (u + power * v, u - power * v)
                let t = p[start + j + half].mul(power);
                let u = p[start + j];
                p.set(start + j, u.add(t));
                p.set(start + j + half, u.sub(t));
                proof {
                    let lo = start + j;
                    let h = half as int;
                    let tw = pow(x, j as nat);
                    let v = q[lo + h];
                    assert(before[lo + h]@ == v && before[lo as int]@ == q[lo as int]);
                    lemma_md_eqm(tw);
                    lemma_eqm_scale(v, md(tw), tw);
                    lemma_md_eqm(v * md(tw));
                    assert(v * tw == tw * v) by (nonlinear_arith);
                    assert(eqm(t@, tw * v));
                    lemma_eqm_add(q[lo as int], q[lo as int], t@, tw * v);
                    lemma_md_eqm(q[lo as int] + t@);
                    lemma_md_eqm(q[lo as int] - t@);
                    assert(butterfly(q, g1_logs(p@), start + j, half as int, tw));
                    assert forall|b: int, k: int|
                        0 <= b < block_index && 0 <= k < half implies #[trigger] butterfly(
                        q,
                        g1_logs(p@),
                        b * pow2(s + 1) + k,
                        pow2(s) as int,
                        pow(x, k as nat),
                    ) by {
                        let z = b * pow2(s + 1) + k;
                        assert(z + half < start) by (nonlinear_arith)
                            requires
                                z == b * len + k,
                                start == block_index * len,
                                b + 1 <= block_index,
                                k < half,
                                len == 2 * half,
                                len > 0,
                        ;
                        assert(0 <= z) by (nonlinear_arith)
                            requires
                                z == b * len + k,
                                b >= 0,
                                k >= 0,
                                len >= 0,
                        ;
                        assert(butterfly(q, g1_logs(before), z, pow2(s) as int, pow(x, k as nat)));
                        assert(p@[z] == before[z] && p@[z + half] == before[z + half]);
                    }
                    assert forall|k: int| 0 <= k < j + 1 implies #[trigger] butterfly(
                        q,
                        g1_logs(p@),
                        start + k,
                        half as int,
                        pow(x, k as nat),
                    ) by {
                        if k < j {
                            assert(butterfly(
                                q,
                                g1_logs(before),
                                start + k,
                                half as int,
                                pow(x, k as nat),
                            ));
                            assert(p@[start + k] == before[start + k]);
                            assert(p@[start + k + half] == before[start + k + half]);
                        }
                    }
                    // the next power
                    lemma_md_eqm(x);
                    lemma_eqm_mul(md(tw), tw, md(x), x);
                    reveal(pow);
                    assert(pow(x, (j + 1) as nat) == x * tw);
                    assert(tw * x == x * tw) by (nonlinear_arith);
                }
                power = power.mul(w_len);
                j += 1;
            }
            proof {
                assert forall|b: int, k: int|
                    0 <= b < block_index + 1 && 0 <= k < half implies #[trigger] butterfly(
                    q,
                    g1_logs(p@),
                    b * pow2(s + 1) + k,
                    pow2(s) as int,
                    pow(x, k as nat),
                ) by {
                    if b == block_index {
                        assert(b * pow2(s + 1) + k == start + k);
                        assert(butterfly(q, g1_logs(p@), start + k, half as int, pow(x, k as nat)));
                    }
                }
                assert((block_index + 1) * len == start + len) by (nonlinear_arith)
                    requires
                        start == block_index * len,
                ;
            }
            start = start + len;
            block_index += 1;
        }
        proof {
            lemma_round(q, g1_logs(p@), a, w, m, s);
            m = m1;
            s = s + 1;
        }
        half = len;
    }
    proof {
        if m > 0 {
            lemma_pow2_step(m);
            vstd::arithmetic::power2::lemma_pow2_strictly_increases(s, log_n as nat);
        }
        assert forall|k: int| 0 <= k < p@.len() implies eqm((#[trigger] p@[k])@, dft(a, w, k)) by {
            lemma_stage_end(g1_logs(p@), a, w, log_n as nat, k);
        }
    }
    p
}

/// `basis` holds the Lagrange basis commitments for the points `powers` over
/// the domain of size `n` with generator `generator`: each is `1/n` times an
/// entry of the transform of the points with the inverse generator.
pub open spec fn lagrange_basis(basis: Seq<int>, powers: Seq<int>, generator: int, n: int) -> bool {
    &&& basis.len() == n
    &&& forall|i: int|
        0 <= i < n ==> eqm(
            n * #[trigger] basis[i],
            dft(powers.take(n), pow(generator, (n - 1) as nat), i),
        )
}

/// All Lagrange basis commitments of a domain, from the points of the
/// structured reference string.
pub fn lagrange_basis_commitments(
    powers_of_g: &Vec<G1Affine>,
    domain: &GeneralEvaluationDomain,
) -> (basis: Vec<G1Affine>)
    requires
        domain.wf(),
        powers_of_g@.len() >= domain.spec_size(),
    ensures
        lagrange_basis(
            g1_logs(basis@),
            g1_logs(powers_of_g@),
            domain.gen(),
            domain.spec_size(),
        ),
{
    let n = domain.size();
    let mut points: Vec<G1Affine> = Vec::new();
    let mut i: usize = 0;
    while i < n
        invariant
            i <= n,
            n <= powers_of_g@.len(),
            points@ == powers_of_g@.take(i as int),
        decreases n - i,
    {
        points.push(powers_of_g[i]);
        i += 1;
        proof {
            assert(points@ =~= powers_of_g@.take(i as int));
        }
    }
    let ghost a = g1_logs(points@);
    let ghost w = domain.gen();
    let ghost k = domain.spec_log();
    let ghost wi = pow(w, (n - 1) as nat);
    let w1 = domain.element(1);
    proof {
        vstd::arithmetic::power::lemma_pow1(w);
        lemma_md_eqm(w);
        crate::roots::lemma_power_unit(w, k, 1);
        lemma_unit_nonzero(w1@, w);
    }
    // The transform with the inverse generator, then scaled by 1/n.
    let omega_inv = w1.inverse().unwrap();
    proof {
        lemma_inverse_is_power(omega_inv@, w1@, w, k);
        lemma_inverse_primitive(omega_inv@, w, k);
    }
    let transformed = group_fft(&points, omega_inv, domain.log_size());
    let size = Fr::from_u64(n as u64);
    proof {
        lemma_pow2_unit(k);
        lemma_unit_nonzero(size@, n as int);
    }
    let n_inv = size.inverse().unwrap();
    let mut basis: Vec<G1Affine> = Vec::new();
    let mut j: usize = 0;
    while j < n
        invariant
            j <= n,
            n == transformed@.len(),
            basis@.len() == j,
            forall|z: int|
                0 <= z < j ==> (#[trigger] basis@[z])@ == md(transformed@[z]@ * n_inv@),
        decreases n - j,
    {
        basis.push(transformed[j].mul(n_inv));
        j += 1;
    }
    proof {
        assert(g1_logs(powers_of_g@).take(n as int) =~= a);
        assert forall|z: int| 0 <= z < n implies eqm(
            n * #[trigger] g1_logs(basis@)[z],
            dft(a, wi, z),
        ) by {
            let t = transformed@[z]@;
            assert(basis@[z]@ == md(t * n_inv@));
            lemma_md_eqm(t * n_inv@);
            lemma_eqm_scale(n as int, md(t * n_inv@), t * n_inv@);
            assert(n * (t * n_inv@) == t * (n_inv@ * n)) by (nonlinear_arith);
            lemma_md_range(1);
            crate::modular::lemma_modulus();
            lemma_eqm_scale(t, n_inv@ * n, 1);
            lemma_dft_root(a, omega_inv@, wi, z);
        }
    }
    basis
}

/// A value congruent to an invertible one is not zero.
proof fn lemma_unit_nonzero(x: int, y: int)
    requires
        eqm(x, y),
        unit(y),
    ensures
        x != 0,
{
    crate::modular::lemma_modulus();
    lemma_md_range(0);
    lemma_md_range(1);
    if x == 0 {
        let u = choose|u: int| eqm(#[trigger] (u * y), 1);
        lemma_eqm_scale(u, y, 0);
        assert(u * 0 == 0);
    }
}

/// The inverse of the generator is its power with exponent `n - 1`.
proof fn lemma_inverse_is_power(v: int, w1: int, w: int, k: nat)
    requires
        primitive(w, k),
        eqm(w1, w),
        md(v * w1) == 1,
    ensures
        eqm(v, pow(w, (pow2(k) - 1) as nat)),
{
    let n = pow2(k);
    lemma_pow2_pos(k);
    crate::modular::lemma_modulus();
    lemma_md_range(1);
    lemma_primitive_order(w, k);
    let z = pow(w, (n - 1) as nat);
    reveal(pow);
    assert(pow(w, n) == w * z);
    lemma_eqm_scale(v, w1, w);
    // v * w and w * z are both congruent to 1
    assert(w * v == v * w) by (nonlinear_arith);
    assert(z * w == w * z) by (nonlinear_arith);
    lemma_eqm_cancel(z, w, v, z);
}

/// The inverse of a primitive root is one too.
proof fn lemma_inverse_primitive(v: int, w: int, k: nat)
    requires
        primitive(w, k),
        eqm(v, pow(w, (pow2(k) - 1) as nat)),
    ensures
        primitive(v, k),
{
    let n = pow2(k);
    lemma_pow2_pos(k);
    if k == 0 {
        vstd::arithmetic::power2::lemma2_to64();
        lemma_pow0(w);
    } else {
        lemma_pow2_step(k);
        let h = pow2((k - 1) as nat);
        lemma_eqm_pow(v, pow(w, (n - 1) as nat), h);
        vstd::arithmetic::power::lemma_pow_multiplies(w, (n - 1) as nat, h);
        vstd::arithmetic::power::lemma_pow_multiplies(w, h, (n - 1) as nat);
        assert((n - 1) * h == h * (n - 1)) by (nonlinear_arith);
        lemma_eqm_pow(pow(w, h), -1, (n - 1) as nat);
        crate::roots::lemma_neg_one_odd((n - 1) as nat);
    }
}

/// Congruent roots give congruent transforms.
proof fn lemma_dft_root(a: Seq<int>, v: int, w: int, k: int)
    requires
        eqm(v, w),
        k >= 0,
    ensures
        eqm(dft(a, v, k), dft(a, w, k)),
{
    let f = |j: int| a[j] * pow(v, (j * k) as nat);
    let g = |j: int| a[j] * pow(w, (j * k) as nat);
    assert forall|j: int| 0 <= j < a.len() implies eqm(#[trigger] f(j), g(j)) by {
        lemma_eqm_pow(v, w, (j * k) as nat);
        lemma_eqm_scale(a[j], pow(v, (j * k) as nat), pow(w, (j * k) as nat));
    }
    lemma_sum_eqm(f, g, a.len() as int);
}

/// Weighting the Lagrange basis commitments by values gives the commitment to
/// the polynomial that takes those values on the domain: the sum of its
/// coefficients times the points.
pub proof fn law_lagrange_commitment(
    basis: Seq<int>,
    powers: Seq<int>,
    p: Seq<int>,
    vals: Seq<int>,
    w: int,
    k: nat,
)
    requires
        primitive(w, k),
        powers.len() >= pow2(k),
        lagrange_basis(basis, powers, w, pow2(k) as int),
        vals.len() == pow2(k),
        p.len() <= pow2(k),
        crate::poly::interpolates(p, vals, w),
    ensures
        eqm(
            sum(|i: int| vals[i] * basis[i], pow2(k) as int),
            sum(|l: int| co(p, l) * powers[l], pow2(k) as int),
        ),
{
    let n = pow2(k) as int;
    let a = powers.take(n);
    let wi = pow(w, (n - 1) as nat);
    let weighted = |i: int| vals[i] * basis[i];
    let f = |i: int, l: int| vals[i] * (a[l] * pow(wi, (l * i) as nat));
    let rows = |i: int| sum(|l: int| f(i, l), n);
    // n times each weighted commitment is a row
    let nw = |i: int| n * weighted(i);
    assert forall|i: int| 0 <= i < n implies eqm(#[trigger] nw(i), rows(i)) by {
        let d = |l: int| a[l] * pow(wi, (l * i) as nat);
        lemma_eqm_scale(vals[i], n * basis[i], dft(a, wi, i));
        assert(n * (vals[i] * basis[i]) == vals[i] * (n * basis[i])) by (nonlinear_arith);
        lemma_sum_scale(vals[i], d, n);
        lemma_sum_ext(|l: int| f(i, l), |l: int| vals[i] * d(l), n);
        lemma_sum_ext(d, |j: int| a[j] * pow(wi, (j * i) as nat), n);
    }
    lemma_sum_eqm(nw, rows, n);
    lemma_sum_scale(n, weighted, n);
    lemma_sum_swap(f, n, n);
    let cols = |l: int| sum(|i: int| f(i, l), n);
    lemma_sum_ext(rows, |i: int| sum(|l: int| f(i, l), n), n);
    lemma_sum_ext(cols, |l: int| sum(|i: int| f(i, l), n), n);
    // each column is n times a term of the commitment
    let term = |l: int| co(p, l) * powers[l];
    let nt = |l: int| n * term(l);
    assert forall|l: int| 0 <= l < n implies eqm(#[trigger] cols(l), nt(l)) by {
        lemma_inverse_dft(p, vals, w, k, l);
        let g = |i: int| vals[i] * pow(wi, (i * l) as nat);
        let ag = |i: int| a[l] * g(i);
        let fl = |i: int| f(i, l);
        assert forall|i: int| 0 <= i < n implies #[trigger] fl(i) == ag(i) by {
            let y = pow(wi, (l * i) as nat);
            assert(l * i == i * l) by (nonlinear_arith);
            assert(vals[i] * (a[l] * y) == a[l] * (vals[i] * y)) by (nonlinear_arith);
        }
        lemma_sum_ext(fl, ag, n);
        lemma_sum_scale(a[l], g, n);
        lemma_eqm_scale(a[l], dft(vals, wi, l), n * co(p, l));
        let c = co(p, l);
        assert(a[l] * (n * c) == n * (c * a[l])) by (nonlinear_arith);
    }
    lemma_sum_eqm(cols, nt, n);
    lemma_sum_scale(n, term, n);
    lemma_pow2_unit(k);
    let u = choose|u: int| eqm(#[trigger] (u * (pow2(k) as int)), 1);
    lemma_eqm_cancel(u, n, sum(weighted, n), sum(term, n));
    lemma_sum_ext(weighted, |i: int| vals[i] * basis[i], n);
    lemma_sum_ext(term, |l: int| co(p, l) * powers[l], n);
}

/// Padding scalars of another index, aggregator or election differ, unless the
/// bytes that are hashed for them collide.
pub proof fn law_pad_values_differ(
    eid: Seq<char>,
    aid: Seq<char>,
    p: int,
    other_eid: Seq<char>,
    other_aid: Seq<char>,
    q: int,
)
    requires
        0 <= p <= u64::MAX,
        0 <= q <= u64::MAX,
        encode_utf8(eid).len() <= u64::MAX,
        encode_utf8(aid).len() <= u64::MAX,
        encode_utf8(other_eid).len() <= u64::MAX,
        encode_utf8(other_aid).len() <= u64::MAX,
        eid != other_eid || aid != other_aid || p != q,
        pad_value(eid, aid, p) == pad_value(other_eid, other_aid, q),
    ensures
        crate::hash::fr_collision(
            crate::hash::transcript(
                encode_utf8(PAD_TOKEN_SEP@),
                seq![encode_utf8(eid), encode_utf8(aid), spec_u64_to_le_bytes(p as u64)],
            ),
            crate::hash::transcript(
                encode_utf8(PAD_TOKEN_SEP@),
                seq![
                    encode_utf8(other_eid),
                    encode_utf8(other_aid),
                    spec_u64_to_le_bytes(q as u64),
                ],
            ),
        ),
{
    let sep = encode_utf8(PAD_TOKEN_SEP@);
    let a = seq![encode_utf8(eid), encode_utf8(aid), spec_u64_to_le_bytes(p as u64)];
    let b = seq![encode_utf8(other_eid), encode_utf8(other_aid), spec_u64_to_le_bytes(q as u64)];
    reveal_strlit("AGGIOS_PAD_TOKEN");
    vstd::utf8::is_ascii_chars_encode_utf8(PAD_TOKEN_SEP@);
    vstd::bytes::lemma_auto_spec_u64_to_from_le_bytes();
    if a == b {
        assert(a[0] == b[0] && a[1] == b[1] && a[2] == b[2]);
        crate::hash::lemma_text_bytes(eid, other_eid);
        crate::hash::lemma_text_bytes(aid, other_aid);
        assert(vstd::bytes::spec_u64_from_le_bytes(a[2]) == p as u64);
        assert(vstd::bytes::spec_u64_from_le_bytes(b[2]) == q as u64);
        assert(false);
    }
    crate::hash::law_hash_bound(sep, a, sep, b);
}

} // verus!
