//! Proof that a registration token and a voting public key use the same
//! scalar (Chaum-Pedersen across the two groups, made non-interactive).
//!
//! For `tau = skv * b` in the first group and `pkv = skv * g2` in the second,
//! the prover draws `r`, sends `a1 = r * b` and `a2 = r * g2`, hashes
//! everything to a challenge `c` and answers `z = r + c * skv`. The verifier
//! checks `z * b == a1 + c * tau` and `z * g2 == a2 + c * pkv`.

use vstd::bytes::{
    lemma_auto_spec_u64_to_from_le_bytes, spec_u64_from_le_bytes, spec_u64_to_le_bytes, u64_to_le_bytes,
};
use vstd::prelude::*;
use vstd::string::*;
use vstd::utf8::encode_utf8;

use crate::bls::g2_generator;
use crate::curve::{g1_encoding, g2_encoding, G1Affine, G2Affine};
use crate::field::Fr;
use crate::generator::{later, upcoming};
use crate::hash::{
    canonical_bytes, fr_collision, fr_hash, front_fits, hash_to_fr, law_hash_bound, lemma_text_bytes,
    lemma_transcript_front, representable, slices, transcript, CanonicalBytes,
};
use crate::modular::{
    eqm, lemma_eqm_add, lemma_eqm_cancel, lemma_eqm_scale, lemma_md_eqm, lemma_md_range, md,
    modulus,
};
use crate::poly_math::unit;

verus! {

pub const EQLOG_DOMAIN_SEP: &'static str = "AGGIOS_EQLOG";

/// What binds a proof to one voter's slot in one aggregator's domain.
#[derive(Debug, PartialEq, Eq)]
pub struct EqLogContext {
    pub election_id: String,
    pub aggregator_id: String,
    pub voter_id: String,
    pub local_index: usize,
    pub domain_size: usize,
}

pub struct EqLogContextView {
    pub election_id: Seq<char>,
    pub aggregator_id: Seq<char>,
    pub voter_id: Seq<char>,
    pub local_index: int,
    pub domain_size: int,
}

impl View for EqLogContext {
    type V = EqLogContextView;

    open spec fn view(&self) -> EqLogContextView {
        EqLogContextView {
            election_id: self.election_id@,
            aggregator_id: self.aggregator_id@,
            voter_id: self.voter_id@,
            local_index: self.local_index as int,
            domain_size: self.domain_size as int,
        }
    }
}

impl EqLogContextView {
    /// The hashed parts of the context.
    pub open spec fn parts(self) -> Seq<Seq<u8>> {
        seq![
            encode_utf8(self.election_id),
            encode_utf8(self.aggregator_id),
            encode_utf8(self.voter_id),
            spec_u64_to_le_bytes(self.local_index as u64),
            spec_u64_to_le_bytes(self.domain_size as u64),
        ]
    }
}

impl Clone for EqLogContext {
    fn clone(&self) -> (r: EqLogContext)
        ensures
            r == *self,
    {
        EqLogContext {
            election_id: self.election_id.clone(),
            aggregator_id: self.aggregator_id.clone(),
            voter_id: self.voter_id.clone(),
            local_index: self.local_index,
            domain_size: self.domain_size,
        }
    }
}

/// The contents of a list of byte vectors.
pub open spec fn byte_lists(parts: Seq<Vec<u8>>) -> Seq<Seq<u8>> {
    Seq::new(parts.len(), |i: int| parts[i]@)
}

impl EqLogContext {
    /// The hashed parts of the context.
    pub fn parts(&self) -> (parts: Vec<Vec<u8>>)
        ensures
            byte_lists(parts@) == self@.parts(),
    {
        let parts: Vec<Vec<u8>> = vec![
            self.election_id.as_str().as_bytes_vec(),
            self.aggregator_id.as_str().as_bytes_vec(),
            self.voter_id.as_str().as_bytes_vec(),
            u64_to_le_bytes(self.local_index as u64),
            u64_to_le_bytes(self.domain_size as u64),
        ];
        proof {
            assert(byte_lists(parts@) =~= self@.parts());
        }
        parts
    }
}

/// A proof of equal logarithms.
#[derive(Clone, Copy, Debug, PartialEq, Eq)]
pub struct EqLogProof {
    pub a1: G1Affine,
    pub a2: G2Affine,
    pub z: Fr,
}

/// The logarithms and the scalar of a proof.
pub struct EqLogProofView {
    pub a1: int,
    pub a2: int,
    pub z: int,
}

impl View for EqLogProof {
    type V = EqLogProofView;

    open spec fn view(&self) -> EqLogProofView {
        EqLogProofView { a1: self.a1@, a2: self.a2@, z: self.z@ }
    }
}

/// What is hashed for a statement, two commitments and a context.
pub open spec fn eqlog_parts(
    base: int,
    tau: int,
    pkv: int,
    a1: int,
    a2: int,
    context: EqLogContextView,
) -> Seq<Seq<u8>> {
    context.parts() + seq![
        g1_encoding(base),
        g1_encoding(tau),
        g2_encoding(1),
        g2_encoding(pkv),
        g1_encoding(a1),
        g2_encoding(a2),
    ]
}

/// The challenge for a statement, two commitments and a context.
pub open spec fn eqlog_challenge(
    base: int,
    tau: int,
    pkv: int,
    a1: int,
    a2: int,
    context: EqLogContextView,
) -> int {
    fr_hash(encode_utf8(EQLOG_DOMAIN_SEP@), eqlog_parts(base, tau, pkv, a1, a2, context))
}

/// The proof that the prover makes with the nonce `r`.
pub open spec fn eqlog_proof(
    base: int,
    tau: int,
    pkv: int,
    skv: int,
    r: int,
    context: EqLogContextView,
) -> EqLogProofView {
    let a1 = md(base * r);
    let a2 = md(r);
    let c = eqlog_challenge(base, tau, pkv, a1, a2, context);
    EqLogProofView { a1, a2, z: md(r + md(c * skv)) }
}

/// The two equations that the verifier checks, for the challenge `c`.
pub open spec fn eqlog_equations(base: int, tau: int, pkv: int, p: EqLogProofView, c: int) -> bool {
    md(base * p.z) == md(p.a1 + md(tau * c)) && md(p.z) == md(p.a2 + md(pkv * c))
}

/// The verifier accepts the proof.
pub open spec fn eqlog_valid(
    base: int,
    tau: int,
    pkv: int,
    p: EqLogProofView,
    context: EqLogContextView,
) -> bool {
    eqlog_equations(base, tau, pkv, p, eqlog_challenge(base, tau, pkv, p.a1, p.a2, context))
}

fn challenge(
    base_g1: &G1Affine,
    tau: &G1Affine,
    pkv: &G2Affine,
    a1: &G1Affine,
    a2: &G2Affine,
    context: &EqLogContext,
) -> (c: Fr)
    ensures
        c@ == eqlog_challenge(base_g1@, tau@, pkv@, a1@, a2@, context@),
{
    let g2 = g2_generator();
    let mut parts: Vec<Vec<u8>> = context.parts();
    let ghost before = parts@;
    parts.push(canonical_bytes(base_g1));
    parts.push(canonical_bytes(tau));
    parts.push(canonical_bytes(&g2));
    parts.push(canonical_bytes(pkv));
    parts.push(canonical_bytes(a1));
    parts.push(canonical_bytes(a2));
    let mut part_refs: Vec<&[u8]> = Vec::new();
    let mut i: usize = 0;
    while i < parts.len()
        invariant
            i <= parts.len(),
            part_refs.len() == i,
            forall|k: int| 0 <= k < i ==> (#[trigger] part_refs@[k])@ == parts@[k]@,
        decreases parts.len() - i,
    {
        part_refs.push(parts[i].as_slice());
        i += 1;
    }
    proof {
        assert(slices(part_refs@) =~= context@.parts() + seq![
            g1_encoding(base_g1@),
            g1_encoding(tau@),
            g2_encoding(1),
            g2_encoding(pkv@),
            g1_encoding(a1@),
            g2_encoding(a2@),
        ]) by {
            assert(byte_lists(before).len() == 5);
            assert forall|k: int| 0 <= k < 5 implies slices(part_refs@)[k] == context@.parts()[k] by {
                assert(parts@[k] == before[k]);
                assert(byte_lists(before)[k] == context@.parts()[k]);
            }
        }
    }
    hash_to_fr(EQLOG_DOMAIN_SEP.as_bytes(), part_refs.as_slice())
}

/// Proves equal logarithms with a given nonce.
pub fn prove_with_nonce(
    base_g1: &G1Affine,
    tau: &G1Affine,
    pkv: &G2Affine,
    skv: &Fr,
    context: &EqLogContext,
    r: &Fr,
) -> (p: EqLogProof)
    ensures
        p@ == eqlog_proof(base_g1@, tau@, pkv@, skv@, r@, context@),
{
    let a1 = base_g1.mul(*r);
    let a2 = g2_generator().mul(*r);
    let c = challenge(base_g1, tau, pkv, &a1, &a2, context);
    let z = r.add(c.mul(*skv));
    EqLogProof { a1, a2, z }
}

/// Proves that `tau = skv * base_g1` and `pkv = skv * g2` use the same
/// scalar, with a nonce drawn from `rng`.
pub fn prove(
    base_g1: &G1Affine,
    tau: &G1Affine,
    pkv: &G2Affine,
    skv: &Fr,
    context: &EqLogContext,
    rng: &mut rand::rngs::StdRng,
) -> (p: EqLogProof)
    ensures
        p@ == eqlog_proof(
            base_g1@,
            tau@,
            pkv@,
            skv@,
            md(upcoming(*old(rng), 0)),
            context@,
        ),
        later(*old(rng), *final(rng), 1),
{
    let r = Fr::rand(rng);
    prove_with_nonce(base_g1, tau, pkv, skv, context, &r)
}

/// Verifies a proof of equal logarithms.
pub fn verify(
    base_g1: &G1Affine,
    tau: &G1Affine,
    pkv: &G2Affine,
    proof_: &EqLogProof,
    context: &EqLogContext,
) -> (valid: bool)
    ensures
        valid == eqlog_valid(base_g1@, tau@, pkv@, proof_@, context@),
{
    let c = challenge(base_g1, tau, pkv, &proof_.a1, &proof_.a2, context);
    // z * b == a1 + c * tau
    let lhs_g1 = base_g1.mul(proof_.z);
    let rhs_g1 = proof_.a1.add(tau.mul(c));
    if lhs_g1 != rhs_g1 {
        return false;
    }
    // z * g2 == a2 + c * pkv
    let lhs_g2 = g2_generator().mul(proof_.z);
    let rhs_g2 = proof_.a2.add(pkv.mul(c));
    lhs_g2 == rhs_g2
}

/// A proof made with the scalar behind both `tau` and `pkv` is accepted,
/// whatever the nonce and the context.
pub proof fn law_eqlog_complete(base: int, skv: int, r: int, context: EqLogContextView)
    ensures
        eqlog_valid(
            base,
            md(base * skv),
            md(skv),
            eqlog_proof(base, md(base * skv), md(skv), skv, r, context),
            context,
        ),
{
    let tau = md(base * skv);
    let pkv = md(skv);
    let p = eqlog_proof(base, tau, pkv, skv, r, context);
    let c = eqlog_challenge(base, tau, pkv, p.a1, p.a2, context);
    lemma_eqlog_equations(base, skv, r, c);
}

/// The verifier's equations hold for an honest answer to any challenge.
pub proof fn lemma_eqlog_equations(base: int, skv: int, r: int, c: int)
    ensures
        eqlog_equations(
            base,
            md(base * skv),
            md(skv),
            EqLogProofView { a1: md(base * r), a2: md(r), z: md(r + md(c * skv)) },
            c,
        ),
{
    let z = md(r + md(c * skv));
    lemma_md_eqm(c * skv);
    lemma_md_eqm(r + md(c * skv));
    lemma_eqm_add(r, r, md(c * skv), c * skv);
    assert(eqm(z, r + c * skv));
    // first equation
    lemma_eqm_scale(base, z, r + c * skv);
    lemma_md_eqm(base * r);
    lemma_md_eqm(base * skv);
    lemma_eqm_scale(c, md(base * skv), base * skv);
    lemma_md_eqm(md(base * skv) * c);
    lemma_eqm_add(md(base * r), base * r, md(md(base * skv) * c), (base * skv) * c);
    assert(base * (r + c * skv) == base * r + (base * skv) * c) by (nonlinear_arith);
    // second equation
    lemma_md_eqm(r);
    lemma_md_eqm(skv);
    lemma_eqm_scale(c, md(skv), skv);
    lemma_md_eqm(md(skv) * c);
    lemma_eqm_add(md(r), r, md(md(skv) * c), skv * c);
    assert(skv * c == c * skv) by (nonlinear_arith);
}

/// Two accepted answers to the same commitments under challenges with an
/// invertible difference tell a scalar that is behind both `tau` and `pkv`.
pub proof fn law_eqlog_sound(
    base: int,
    tau: int,
    pkv: int,
    a1: int,
    a2: int,
    z: int,
    c: int,
    z2: int,
    c2: int,
    u: int,
)
    requires
        eqlog_equations(base, tau, pkv, (EqLogProofView { a1, a2, z }), c),
        eqlog_equations(base, tau, pkv, (EqLogProofView { a1, a2, z: z2 }), c2),
        eqm(u * (c - c2), 1),
    ensures
        md(tau) == md(base * (u * (z - z2))),
        md(pkv) == md(u * (z - z2)),
{
    let d = c - c2;
    lemma_md_eqm(tau * c);
    lemma_md_eqm(tau * c2);
    lemma_eqm_add(a1, a1, md(tau * c), tau * c);
    lemma_eqm_add(a1, a1, md(tau * c2), tau * c2);
    assert(eqm(base * z, a1 + tau * c));
    assert(eqm(base * z2, a1 + tau * c2));
    lemma_eqm_add(base * z, a1 + tau * c, base * z2, a1 + tau * c2);
    assert(base * z - base * z2 == base * (z - z2)) by (nonlinear_arith);
    assert(tau * c - tau * c2 == d * tau) by (nonlinear_arith)
        requires
            d == c - c2,
    ;
    // base * (z - z2) is congruent to d * tau; multiply by u
    lemma_eqm_scale(u, base * (z - z2), d * tau);
    lemma_eqm_scale(tau, u * d, 1);
    assert(u * (d * tau) == (u * d) * tau) by (nonlinear_arith);
    assert(u * (base * (z - z2)) == base * (u * (z - z2))) by (nonlinear_arith);
    // the same in the second group
    lemma_md_eqm(pkv * c);
    lemma_md_eqm(pkv * c2);
    lemma_eqm_add(a2, a2, md(pkv * c), pkv * c);
    lemma_eqm_add(a2, a2, md(pkv * c2), pkv * c2);
    lemma_eqm_add(z, a2 + pkv * c, z2, a2 + pkv * c2);
    assert(pkv * c - pkv * c2 == d * pkv) by (nonlinear_arith)
        requires
            d == c - c2,
    ;
    lemma_eqm_scale(u, z - z2, d * pkv);
    lemma_eqm_scale(pkv, u * d, 1);
    assert(u * (d * pkv) == (u * d) * pkv) by (nonlinear_arith);
}

impl EqLogContextView {
    /// The texts and numbers have a length and a size of at most 64 bits.
    pub open spec fn fits(self) -> bool {
        &&& encode_utf8(self.election_id).len() <= u64::MAX
        &&& encode_utf8(self.aggregator_id).len() <= u64::MAX
        &&& encode_utf8(self.voter_id).len() <= u64::MAX
        &&& 0 <= self.local_index <= u64::MAX
        &&& 0 <= self.domain_size <= u64::MAX
    }
}

/// Different contexts have different parts.
proof fn lemma_context_parts(a: EqLogContextView, b: EqLogContextView)
    requires
        a.fits(),
        b.fits(),
        a.parts() == b.parts(),
    ensures
        a == b,
{
    let (p, q) = (a.parts(), b.parts());
    assert(p[0] == q[0] && p[1] == q[1] && p[2] == q[2] && p[3] == q[3] && p[4] == q[4]);
    lemma_text_bytes(a.election_id, b.election_id);
    lemma_text_bytes(a.aggregator_id, b.aggregator_id);
    lemma_text_bytes(a.voter_id, b.voter_id);
    lemma_auto_spec_u64_to_from_le_bytes();
    assert(spec_u64_from_le_bytes(p[3]) == a.local_index as u64);
    assert(spec_u64_from_le_bytes(q[3]) == b.local_index as u64);
    assert(spec_u64_from_le_bytes(p[4]) == a.domain_size as u64);
    assert(spec_u64_from_le_bytes(q[4]) == b.domain_size as u64);
}

/// If `x * c` and `x * d` answer for the same difference, the challenges agree.
proof fn lemma_same_challenge(lhs: int, a: int, x: int, c: int, d: int)
    requires
        unit(x),
        md(lhs) == md(a + md(x * c)),
        md(lhs) == md(a + md(x * d)),
    ensures
        eqm(c, d),
{
    lemma_md_eqm(x * c);
    lemma_md_eqm(x * d);
    lemma_eqm_add(a, a, md(x * c), x * c);
    lemma_eqm_add(a, a, md(x * d), x * d);
    lemma_eqm_add(a + x * c, a + x * d, a, a);
    let u = choose|u: int| eqm(#[trigger] (u * x), 1);
    lemma_eqm_cancel(u, x, c, d);
}

/// If an invertible challenge fits two values, they agree.
proof fn lemma_same_value(lhs: int, a: int, x: int, y: int, c: int)
    requires
        unit(c),
        md(lhs) == md(a + md(x * c)),
        md(lhs) == md(a + md(y * c)),
    ensures
        eqm(x, y),
{
    lemma_md_eqm(x * c);
    lemma_md_eqm(y * c);
    lemma_eqm_add(a, a, md(x * c), x * c);
    lemma_eqm_add(a, a, md(y * c), y * c);
    lemma_eqm_add(a + x * c, a + y * c, a, a);
    let u = choose|u: int| eqm(#[trigger] (u * c), 1);
    assert(x * c == c * x && y * c == c * y) by (nonlinear_arith);
    lemma_eqm_cancel(u, c, x, y);
}

/// A proof is bound to its token, its key and its context. If one proof is
/// accepted for two statements with the same invertible key, or the same base
/// and invertible token, then the challenges are the same; tokens (over the
/// same base) and keys are then the same where the challenge is invertible, as
/// every nonzero scalar is; and two different contexts collide under the hash.
pub proof fn law_eqlog_bound(
    p: EqLogProofView,
    base: int,
    tau: int,
    pkv: int,
    context: EqLogContextView,
    other_base: int,
    other_tau: int,
    other_pkv: int,
    other: EqLogContextView,
)
    requires
        eqlog_valid(base, tau, pkv, p, context),
        eqlog_valid(other_base, other_tau, other_pkv, p, other),
        (unit(pkv) && pkv == other_pkv) || (unit(tau) && tau == other_tau && base == other_base),
    ensures
        ({
            let c = eqlog_challenge(base, tau, pkv, p.a1, p.a2, context);
            &&& c == eqlog_challenge(other_base, other_tau, other_pkv, p.a1, p.a2, other)
            &&& unit(c) ==> md(pkv) == md(other_pkv)
            &&& unit(c) && base == other_base ==> md(tau) == md(other_tau)
        }),
        ({
            let sep = encode_utf8(EQLOG_DOMAIN_SEP@);
            context.fits() && other.fits() && context != other ==> fr_collision(
                transcript(sep, eqlog_parts(base, tau, pkv, p.a1, p.a2, context)),
                transcript(
                    sep,
                    eqlog_parts(other_base, other_tau, other_pkv, p.a1, p.a2, other),
                ),
            )
        }),
{
    let c = eqlog_challenge(base, tau, pkv, p.a1, p.a2, context);
    let d = eqlog_challenge(other_base, other_tau, other_pkv, p.a1, p.a2, other);
    if unit(pkv) && pkv == other_pkv {
        lemma_same_challenge(p.z, p.a2, pkv, c, d);
    } else {
        lemma_same_challenge(base * p.z, p.a1, tau, c, d);
    }
    let sep = encode_utf8(EQLOG_DOMAIN_SEP@);
    let parts = eqlog_parts(base, tau, pkv, p.a1, p.a2, context);
    let others = eqlog_parts(other_base, other_tau, other_pkv, p.a1, p.a2, other);
    lemma_md_range(crate::field::le_value(crate::hash::sha512(transcript(sep, parts))));
    lemma_md_range(crate::field::le_value(crate::hash::sha512(transcript(sep, others))));
    if unit(c) {
        lemma_same_value(p.z, p.a2, pkv, other_pkv, c);
        if base == other_base {
            lemma_same_value(base * p.z, p.a1, tau, other_tau, c);
        }
    }
    if context.fits() && other.fits() && context != other {
        if transcript(sep, parts) == transcript(sep, others) {
            reveal_strlit("AGGIOS_EQLOG");
            vstd::utf8::is_ascii_chars_encode_utf8(EQLOG_DOMAIN_SEP@);
            lemma_auto_spec_u64_to_from_le_bytes();
            assert(front_fits(parts, 5));
            assert(front_fits(others, 5));
            lemma_transcript_front(sep, parts, sep, others, 5);
            assert(parts.take(5) =~= context.parts());
            assert(others.take(5) =~= other.parts());
            lemma_context_parts(context, other);
        }
    }
}

/// A proof that is accepted is refused with another answer.
pub proof fn law_other_answer_refused(
    base: int,
    tau: int,
    pkv: int,
    p: EqLogProofView,
    z: int,
    context: EqLogContextView,
)
    requires
        eqlog_valid(base, tau, pkv, p, context),
        md(z) != md(p.z),
    ensures
        !eqlog_valid(base, tau, pkv, (EqLogProofView { z, ..p }), context),
{
}

/// All that goes into the challenge: the five parts of the context, then the
/// encodings of base, token, generator, key and the two commitments.
pub open spec fn challenge_parts(
    base: int,
    tau: int,
    pkv: int,
    a1: int,
    a2: int,
    context: EqLogContextView,
) -> Seq<Seq<u8>> {
    seq![
        encode_utf8(context.election_id),
        encode_utf8(context.aggregator_id),
        encode_utf8(context.voter_id),
        spec_u64_to_le_bytes(context.local_index as u64),
        spec_u64_to_le_bytes(context.domain_size as u64),
        g1_encoding(base),
        g1_encoding(tau),
        g2_encoding(1),
        g2_encoding(pkv),
        g1_encoding(a1),
        g2_encoding(a2),
    ]
}

/// The challenge is for the whole statement, both commitments and the context:
/// where two challenges agree but something that goes into them does not, the
/// hashed bytes collide.
pub proof fn law_challenge_sees_statement(
    base: int,
    tau: int,
    pkv: int,
    a1: int,
    a2: int,
    context: EqLogContextView,
    parts: Seq<Seq<u8>>,
)
    requires
        representable(parts),
        representable(challenge_parts(base, tau, pkv, a1, a2, context)),
        parts != challenge_parts(base, tau, pkv, a1, a2, context),
        fr_hash(encode_utf8(EQLOG_DOMAIN_SEP@), parts) == eqlog_challenge(
            base,
            tau,
            pkv,
            a1,
            a2,
            context,
        ),
    ensures
        fr_collision(
            transcript(encode_utf8(EQLOG_DOMAIN_SEP@), parts),
            transcript(
                encode_utf8(EQLOG_DOMAIN_SEP@),
                challenge_parts(base, tau, pkv, a1, a2, context),
            ),
        ),
{
    let sep = encode_utf8(EQLOG_DOMAIN_SEP@);
    let all = challenge_parts(base, tau, pkv, a1, a2, context);
    reveal_strlit("AGGIOS_EQLOG");
    vstd::utf8::is_ascii_chars_encode_utf8(EQLOG_DOMAIN_SEP@);
    assert(eqlog_parts(base, tau, pkv, a1, a2, context) =~= all);
    law_hash_bound(sep, parts, sep, all);
}

} // verus!
