//! BLS delegation signatures.
//!
//! A voter's long-term key is a scalar `sk` with public key `pk = sk * g2`.
//! The delegation message to an aggregator hashes to a point `h` of the first
//! group, and the signature is `sk * h`. It is valid when
//! `e(signature, g2) == e(h, pk)`. All voters of one aggregator sign the same
//! message, so the sum of their signatures is checked against the sum of
//! their public keys.

use vstd::prelude::*;
use vstd::utf8::encode_utf8;

use crate::curve::{g1_logs, g2_logs, pairings_equal, G1Affine, G2Affine};
use crate::field::Fr;
use crate::generator::{later, upcoming};
use crate::hash::{
    g1_hash, g1_hashable, hash_to_g1, law_transcript_injective, lemma_text_bytes, slices,
    transcript, try_hash_to_g1,
};
use crate::modular::{
    eqm, lemma_eqm_add, lemma_eqm_cancel, lemma_eqm_scale, lemma_md_eqm, lemma_md_range,
    lemma_modulus, md, modulus,
};
use crate::poly_math::unit;
use crate::sums::{
    lemma_sum_add, lemma_sum_eqm, lemma_sum_ext, lemma_sum_scale, lemma_sum_single, sum,
};

verus! {

pub const DELEGATION_DOMAIN_SEP: &'static str = "AGGIOS_DELEGATION";

/// The hashed parts of the delegation message.
pub open spec fn delegation_parts(election_id: Seq<char>, aggregator_id: Seq<char>) -> Seq<Seq<u8>> {
    seq![encode_utf8(election_id), encode_utf8(aggregator_id)]
}

/// The delegation message hashes to a point.
pub open spec fn delegation_hashable(election_id: Seq<char>, aggregator_id: Seq<char>) -> bool {
    g1_hashable(
        encode_utf8(DELEGATION_DOMAIN_SEP@),
        delegation_parts(election_id, aggregator_id),
    )
}

/// The logarithm of the point that the delegation message hashes to.
pub open spec fn delegation_log(election_id: Seq<char>, aggregator_id: Seq<char>) -> int {
    g1_hash(encode_utf8(DELEGATION_DOMAIN_SEP@), delegation_parts(election_id, aggregator_id))
}

/// The sum of all values.
pub open spec fn total(s: Seq<int>) -> int {
    sum(|i: int| s[i], s.len() as int)
}

/// A signature with logarithm `sig` is valid under a public key with
/// logarithm `pk`.
pub open spec fn delegation_valid(
    sig: int,
    pk: int,
    election_id: Seq<char>,
    aggregator_id: Seq<char>,
) -> bool {
    sig != 0 && pk != 0 && md(sig) == md(delegation_log(election_id, aggregator_id) * pk)
}

/// An aggregate signature is valid under the public keys of all signers.
pub open spec fn aggregate_delegation_valid(
    sig: int,
    pks: Seq<int>,
    election_id: Seq<char>,
    aggregator_id: Seq<char>,
) -> bool {
    if pks.len() == 0 {
        sig == 0
    } else {
        delegation_valid(sig, md(total(pks)), election_id, aggregator_id)
    }
}

/// The generator of the second group.
pub fn g2_generator() -> (g: G2Affine)
    ensures
        g@ == 1,
{
    G2Affine::generator()
}

/// A signing key and its public key.
#[derive(Clone, Copy, Debug)]
pub struct SigningKeypair {
    pub sk: Fr,
    pub pk: G2Affine,
}

impl SigningKeypair {
    /// The public key belongs to the secret key.
    pub open spec fn matching(&self) -> bool {
        self.pk@ == self.sk@
    }

    /// The key pair of a secret key: `pk = sk * g2`.
    pub fn from_secret(sk: Fr) -> (k: SigningKeypair)
        ensures
            k.sk == sk,
            k.matching(),
    {
        let pk = g2_generator().mul(sk);
        proof {
            sk.lemma_range();
        }
        SigningKeypair { sk, pk }
    }

    /// A key pair with a secret key drawn from `rng`.
    pub fn generate(rng: &mut rand::rngs::StdRng) -> (k: SigningKeypair)
        ensures
            k.matching(),
            k.sk@ == md(upcoming(*old(rng), 0)),
            later(*old(rng), *final(rng), 1),
    {
        SigningKeypair::from_secret(Fr::rand(rng))
    }
}

/// The point that the delegation message hashes to, if it hashes to one.
pub fn try_delegation_message_hash(election_id: &str, aggregator_id: &str) -> (r: Option<G1Affine>)
    ensures
        r is Some <==> delegation_hashable(election_id@, aggregator_id@),
        r matches Some(h) ==> h@ == delegation_log(election_id@, aggregator_id@) && h@ != 0,
{
    let parts: Vec<&[u8]> = vec![election_id.as_bytes(), aggregator_id.as_bytes()];
    proof {
        assert(slices(parts@) =~= delegation_parts(election_id@, aggregator_id@));
    }
    try_hash_to_g1(DELEGATION_DOMAIN_SEP.as_bytes(), parts.as_slice())
}

/// The point that the delegation message hashes to.
pub fn delegation_message_hash(election_id: &str, aggregator_id: &str) -> (h: G1Affine)
    requires
        delegation_hashable(election_id@, aggregator_id@),
    ensures
        h@ == delegation_log(election_id@, aggregator_id@),
        h@ != 0,
{
    let parts: Vec<&[u8]> = vec![election_id.as_bytes(), aggregator_id.as_bytes()];
    proof {
        assert(slices(parts@) =~= delegation_parts(election_id@, aggregator_id@));
    }
    hash_to_g1(DELEGATION_DOMAIN_SEP.as_bytes(), parts.as_slice())
}

/// Signs the delegation to an aggregator: `sk * h`.
pub fn sign_delegation(sk: &Fr, election_id: &str, aggregator_id: &str) -> (sig: G1Affine)
    requires
        delegation_hashable(election_id@, aggregator_id@),
    ensures
        sig@ == md(delegation_log(election_id@, aggregator_id@) * sk@),
{
    let h_m = delegation_message_hash(election_id, aggregator_id);
    h_m.mul(*sk)
}

/// Verifies one delegation signature: `e(signature, g2) == e(h, pk)`. A
/// signature or public key that is the neutral element is never valid.
pub fn verify_delegation(
    signature: &G1Affine,
    pk: &G2Affine,
    election_id: &str,
    aggregator_id: &str,
) -> (valid: bool)
    requires
        signature@ != 0 && pk@ != 0 ==> delegation_hashable(election_id@, aggregator_id@),
    ensures
        valid == delegation_valid(signature@, pk@, election_id@, aggregator_id@),
{
    if signature.is_zero() || pk.is_zero() {
        return false;
    }
    let h_m = delegation_message_hash(election_id, aggregator_id);
    pairings_equal(signature, &g2_generator(), &h_m, pk)
}

/// The sum of all signatures.
pub fn aggregate_signatures(signatures: &Vec<G1Affine>) -> (sum_point: G1Affine)
    ensures
        sum_point@ == md(total(g1_logs(signatures@))),
{
    let mut acc = G1Affine::zero();
    let mut i: usize = 0;
    let ghost logs = g1_logs(signatures@);
    proof {
        lemma_modulus();
        lemma_md_range(0);
    }
    while i < signatures.len()
        invariant
            i <= signatures.len(),
            logs == g1_logs(signatures@),
            acc@ == md(sum(|k: int| logs[k], i as int)),
        decreases signatures.len() - i,
    {
        proof {
            let s = sum(|k: int| logs[k], i as int);
            lemma_md_eqm(s);
            lemma_eqm_add(md(s), s, logs[i as int], logs[i as int]);
        }
        acc = acc.add(signatures[i]);
        i += 1;
    }
    acc
}

/// The sum of all public keys.
pub fn aggregate_public_keys(public_keys: &Vec<G2Affine>) -> (sum_point: G2Affine)
    ensures
        sum_point@ == md(total(g2_logs(public_keys@))),
{
    let mut acc = G2Affine::zero();
    let mut i: usize = 0;
    let ghost logs = g2_logs(public_keys@);
    proof {
        lemma_modulus();
        lemma_md_range(0);
    }
    while i < public_keys.len()
        invariant
            i <= public_keys.len(),
            logs == g2_logs(public_keys@),
            acc@ == md(sum(|k: int| logs[k], i as int)),
        decreases public_keys.len() - i,
    {
        proof {
            let s = sum(|k: int| logs[k], i as int);
            lemma_md_eqm(s);
            lemma_eqm_add(md(s), s, logs[i as int], logs[i as int]);
        }
        acc = acc.add(public_keys[i]);
        i += 1;
    }
    acc
}

/// Verifies the sum of all delegation signatures to one aggregator:
/// `e(sum of signatures, g2) == e(h, sum of public keys)`. Without voters
/// only the neutral element is valid.
pub fn verify_aggregate_delegation(
    aggregate_signature: &G1Affine,
    public_keys: &Vec<G2Affine>,
    election_id: &str,
    aggregator_id: &str,
) -> (valid: bool)
    requires
        public_keys@.len() > 0 && aggregate_signature@ != 0 ==> delegation_hashable(
            election_id@,
            aggregator_id@,
        ),
    ensures
        valid == aggregate_delegation_valid(
            aggregate_signature@,
            g2_logs(public_keys@),
            election_id@,
            aggregator_id@,
        ),
{
    if public_keys.is_empty() {
        return aggregate_signature.is_zero();
    }
    let pk_agg = aggregate_public_keys(public_keys);
    if aggregate_signature.is_zero() || pk_agg.is_zero() {
        return false;
    }
    let h_m = delegation_message_hash(election_id, aggregator_id);
    pairings_equal(aggregate_signature, &g2_generator(), &h_m, &pk_agg)
}

/// The message hash is a nonzero logarithm in range.
pub proof fn lemma_delegation_log(election_id: Seq<char>, aggregator_id: Seq<char>)
    requires
        delegation_hashable(election_id, aggregator_id),
    ensures
        0 < delegation_log(election_id, aggregator_id) < modulus(),
{
    let sep = encode_utf8(DELEGATION_DOMAIN_SEP@);
    let parts = delegation_parts(election_id, aggregator_id);
    let hit = crate::hash::g1_hits(sep, parts);
    let c = choose|c: int| #[trigger] crate::hash::least_counter(hit, c);
    assert(hit(c));
    let point = crate::curve::lifted_point(
        crate::hash::candidate_digest(sep, parts, c).take(48),
    ).unwrap();
    lemma_md_range(crate::curve::cleared_log(point));
}

/// A signature is valid under the matching public key, for the election and
/// the aggregator that it was made for, exactly if it is not the neutral
/// element. It is not where the key is invertible, as every nonzero scalar is.
pub proof fn law_signature_valid(sk: int, election_id: Seq<char>, aggregator_id: Seq<char>)
    requires
        0 <= sk < modulus(),
    ensures
        ({
            let sig = md(delegation_log(election_id, aggregator_id) * sk);
            &&& delegation_valid(sig, sk, election_id, aggregator_id) <==> sig != 0
            &&& unit(sk) && delegation_hashable(election_id, aggregator_id) ==> sig != 0
        }),
{
    let h = delegation_log(election_id, aggregator_id);
    lemma_md_range(h * sk);
    lemma_modulus();
    lemma_md_range(0);
    assert(h * 0 == 0);
    if unit(sk) && delegation_hashable(election_id, aggregator_id) {
        lemma_delegation_log(election_id, aggregator_id);
        lemma_unit_product_nonzero(h, sk);
    }
}

/// A signature that is valid under an invertible key for two elections and
/// aggregators belongs to messages with the same hash: it cannot be used for
/// another aggregator, unless the hashes collide.
pub proof fn law_signature_bound(
    sig: int,
    pk: int,
    election_id: Seq<char>,
    aggregator_id: Seq<char>,
    other_election: Seq<char>,
    other_aggregator: Seq<char>,
)
    requires
        unit(pk),
        delegation_hashable(election_id, aggregator_id),
        delegation_hashable(other_election, other_aggregator),
        delegation_valid(sig, pk, election_id, aggregator_id),
        delegation_valid(sig, pk, other_election, other_aggregator),
    ensures
        delegation_log(election_id, aggregator_id) == delegation_log(
            other_election,
            other_aggregator,
        ),
{
    let (g, h) = (
        delegation_log(election_id, aggregator_id),
        delegation_log(other_election, other_aggregator),
    );
    let u = choose|u: int| eqm(#[trigger] (u * pk), 1);
    assert(g * pk == pk * g && h * pk == pk * h) by (nonlinear_arith);
    lemma_eqm_cancel(u, pk, g, h);
    lemma_delegation_log(election_id, aggregator_id);
    lemma_delegation_log(other_election, other_aggregator);
    lemma_md_range(g);
    lemma_md_range(h);
}

/// The product of a nonzero value and an invertible one is not zero.
pub proof fn lemma_unit_product_nonzero(h: int, k: int)
    requires
        0 < h < modulus(),
        unit(k),
    ensures
        md(h * k) != 0,
{
    lemma_modulus();
    lemma_md_range(0);
    lemma_md_range(h);
    if md(h * k) == 0 {
        let u = choose|u: int| eqm(#[trigger] (u * k), 1);
        assert(h * k == k * h) by (nonlinear_arith);
        assert(k * 0 == 0);
        lemma_eqm_cancel(u, k, h, 0);
    }
}

/// An invertible value in range is not zero.
pub proof fn lemma_nonzero_unit(k: int)
    requires
        unit(k),
    ensures
        k != 0,
{
    lemma_modulus();
    lemma_md_range(0);
    lemma_md_range(1);
    if k == 0 {
        let u = choose|u: int| eqm(#[trigger] (u * k), 1);
        assert(u * 0 == 0);
    }
}

/// The sum of valid signatures is the message hash times the sum of the keys.
pub proof fn lemma_signature_sum(sigs: Seq<int>, pks: Seq<int>, h: int)
    requires
        sigs.len() == pks.len(),
        forall|i: int| 0 <= i < sigs.len() ==> md(#[trigger] sigs[i]) == md(h * pks[i]),
    ensures
        md(total(sigs)) == md(h * md(total(pks))),
{
    let n = sigs.len() as int;
    let f = |i: int| sigs[i];
    let g = |i: int| pks[i];
    let hg = |i: int| h * g(i);
    assert forall|i: int| 0 <= i < n implies eqm(#[trigger] f(i), hg(i)) by {}
    lemma_sum_eqm(f, hg, n);
    lemma_sum_scale(h, g, n);
    lemma_md_eqm(total(pks));
    lemma_eqm_scale(h, md(total(pks)), total(pks));
}

/// If every voter's signature is valid under that voter's key, the sum of the
/// signatures is valid under all the keys, unless the signatures or the keys
/// sum to the neutral element.
pub proof fn law_aggregate_valid(
    sigs: Seq<int>,
    pks: Seq<int>,
    election_id: Seq<char>,
    aggregator_id: Seq<char>,
)
    requires
        sigs.len() == pks.len(),
        forall|i: int| 0 <= i < sigs.len() ==> delegation_valid(
            #[trigger] sigs[i],
            pks[i],
            election_id,
            aggregator_id,
        ),
        sigs.len() > 0 ==> md(total(sigs)) != 0 && md(total(pks)) != 0,
    ensures
        aggregate_delegation_valid(md(total(sigs)), pks, election_id, aggregator_id),
{
    lemma_modulus();
    lemma_md_range(0);
    lemma_md_range(total(sigs));
    if sigs.len() > 0 {
        lemma_signature_sum(sigs, pks, delegation_log(election_id, aggregator_id));
    }
}

/// An aggregate signature that is valid under keys with an invertible sum for
/// two elections and aggregators belongs to messages with the same hash: it is
/// refused for another aggregator, unless the hashes collide.
pub proof fn law_aggregate_bound(
    sig: int,
    pks: Seq<int>,
    election_id: Seq<char>,
    aggregator_id: Seq<char>,
    other_election: Seq<char>,
    other_aggregator: Seq<char>,
)
    requires
        pks.len() > 0,
        unit(md(total(pks))),
        delegation_hashable(election_id, aggregator_id),
        delegation_hashable(other_election, other_aggregator),
        aggregate_delegation_valid(sig, pks, election_id, aggregator_id),
        aggregate_delegation_valid(sig, pks, other_election, other_aggregator),
    ensures
        delegation_log(election_id, aggregator_id) == delegation_log(
            other_election,
            other_aggregator,
        ),
{
    law_signature_bound(
        sig,
        md(total(pks)),
        election_id,
        aggregator_id,
        other_election,
        other_aggregator,
    );
}

/// An aggregate signature is valid under one sum of keys only, if the message
/// hashes to an invertible logarithm, as every nonzero one is.
proof fn lemma_aggregate_sum(
    sig: int,
    pks: Seq<int>,
    others: Seq<int>,
    election_id: Seq<char>,
    aggregator_id: Seq<char>,
)
    requires
        pks.len() > 0,
        others.len() > 0,
        unit(delegation_log(election_id, aggregator_id)),
        aggregate_delegation_valid(sig, pks, election_id, aggregator_id),
        aggregate_delegation_valid(sig, others, election_id, aggregator_id),
    ensures
        md(total(pks)) == md(total(others)),
{
    let h = delegation_log(election_id, aggregator_id);
    let (a, b) = (md(total(pks)), md(total(others)));
    let u = choose|u: int| eqm(#[trigger] (u * h), 1);
    lemma_eqm_cancel(u, h, a, b);
    lemma_md_range(total(pks));
    lemma_md_range(total(others));
}

/// The sum after one value is replaced.
proof fn lemma_total_update(s: Seq<int>, i: int, x: int)
    requires
        0 <= i < s.len(),
    ensures
        total(s.update(i, x)) == total(s) - s[i] + x,
{
    let n = s.len() as int;
    let t = s.update(i, x);
    let f = |k: int| s[k];
    let d = |k: int| if k == i { x - s[i] } else { 0 };
    lemma_sum_add(f, d, n);
    lemma_sum_ext(|k: int| t[k], |k: int| f(k) + d(k), n);
    lemma_sum_single(d, n, i);
}

/// An aggregate signature is refused where one signer's key is replaced by
/// another, if the message hashes to an invertible logarithm, as every nonzero
/// one is.
pub proof fn law_replaced_key_refused(
    sig: int,
    pks: Seq<int>,
    i: int,
    key: int,
    election_id: Seq<char>,
    aggregator_id: Seq<char>,
)
    requires
        0 <= i < pks.len(),
        md(key) != md(pks[i]),
        unit(delegation_log(election_id, aggregator_id)),
        aggregate_delegation_valid(sig, pks, election_id, aggregator_id),
    ensures
        !aggregate_delegation_valid(sig, pks.update(i, key), election_id, aggregator_id),
{
    let others = pks.update(i, key);
    if aggregate_delegation_valid(sig, others, election_id, aggregator_id) {
        lemma_aggregate_sum(sig, pks, others, election_id, aggregator_id);
        lemma_total_update(pks, i, key);
        let rest = total(pks) - pks[i];
        assert(eqm(total(pks), total(others)));
        lemma_eqm_add(total(pks), total(others), rest, rest);
        assert(total(pks) - rest == pks[i]);
        assert(total(others) - rest == key);
    }
}

proof fn lemma_total_removed(s: Seq<int>, k: int)
    requires
        0 <= k < s.len(),
    ensures
        total(s) == total(s.remove(k)) + s[k],
    decreases s.len(),
{
    let n = s.len() as int;
    let r = s.remove(k);
    let f = |i: int| s[i];
    let g = |i: int| r[i];
    if k == n - 1 {
        lemma_sum_ext(f, g, n - 1);
    } else {
        let t = s.drop_last();
        lemma_total_removed(t, k);
        assert(t.remove(k) =~= r.drop_last());
        lemma_sum_ext(f, |i: int| t[i], n - 1);
        let rt = t.remove(k);
        lemma_sum_ext(g, |i: int| rt[i], n - 2);
        assert(r[n - 2] == s[n - 1]);
    }
}

proof fn lemma_total_order(a: Seq<int>, b: Seq<int>)
    requires
        a.to_multiset() == b.to_multiset(),
    ensures
        a.len() == b.len(),
        total(a) == total(b),
    decreases a.len(),
{
    broadcast use vstd::seq_lib::group_to_multiset_ensures;

    assert(a.to_multiset().len() == a.len());
    assert(b.to_multiset().len() == b.len());
    if a.len() > 0 {
        let x = a.last();
        assert(a.contains(x)) by {
            assert(a[a.len() - 1] == x);
        }
        assert(a.to_multiset().count(x) > 0);
        assert(b.contains(x));
        let k = b.index_of(x);
        let last = a.len() - 1;
        lemma_total_removed(a, last);
        lemma_total_removed(b, k);
        assert(a.remove(last).to_multiset() =~= a.to_multiset().remove(x));
        assert(b.remove(k).to_multiset() =~= b.to_multiset().remove(x));
        lemma_total_order(a.remove(last), b.remove(k));
    }
}

/// Whether an aggregate signature is valid does not depend on the order of the
/// keys.
pub proof fn law_aggregate_order(
    sig: int,
    pks: Seq<int>,
    others: Seq<int>,
    election_id: Seq<char>,
    aggregator_id: Seq<char>,
)
    requires
        pks.to_multiset() == others.to_multiset(),
    ensures
        aggregate_delegation_valid(sig, pks, election_id, aggregator_id)
            == aggregate_delegation_valid(sig, others, election_id, aggregator_id),
{
    lemma_total_order(pks, others);
}

/// There is one valid signature for a key and a message.
pub proof fn law_signature_unique(
    sig: int,
    other: int,
    pk: int,
    election_id: Seq<char>,
    aggregator_id: Seq<char>,
)
    requires
        0 <= sig < modulus(),
        0 <= other < modulus(),
        delegation_valid(sig, pk, election_id, aggregator_id),
        delegation_valid(other, pk, election_id, aggregator_id),
    ensures
        sig == other,
{
    lemma_md_range(sig);
    lemma_md_range(other);
}

/// A signature is valid under one key only, if the message hashes to an
/// invertible logarithm, as every nonzero one is.
pub proof fn law_signature_key_bound(
    sig: int,
    pk: int,
    other: int,
    election_id: Seq<char>,
    aggregator_id: Seq<char>,
)
    requires
        0 <= pk < modulus(),
        0 <= other < modulus(),
        unit(delegation_log(election_id, aggregator_id)),
        delegation_valid(sig, pk, election_id, aggregator_id),
        delegation_valid(sig, other, election_id, aggregator_id),
    ensures
        pk == other,
{
    let h = delegation_log(election_id, aggregator_id);
    let u = choose|u: int| eqm(#[trigger] (u * h), 1);
    lemma_eqm_cancel(u, h, pk, other);
    lemma_md_range(pk);
    lemma_md_range(other);
}

/// The neutral element is never a valid signature or key.
pub proof fn law_neutral_refused(
    sig: int,
    pk: int,
    election_id: Seq<char>,
    aggregator_id: Seq<char>,
)
    requires
        sig == 0 || pk == 0,
    ensures
        !delegation_valid(sig, pk, election_id, aggregator_id),
{
}

/// There is one valid aggregate signature for some keys and a message; without
/// keys it is the neutral element.
pub proof fn law_aggregate_unique(
    sig: int,
    other: int,
    pks: Seq<int>,
    election_id: Seq<char>,
    aggregator_id: Seq<char>,
)
    requires
        0 <= sig < modulus(),
        0 <= other < modulus(),
        aggregate_delegation_valid(sig, pks, election_id, aggregator_id),
        aggregate_delegation_valid(other, pks, election_id, aggregator_id),
    ensures
        sig == other,
        pks.len() == 0 <==> sig == 0,
{
    lemma_md_range(sig);
    lemma_md_range(other);
}

/// The bytes that are hashed for a delegation tell the election and the
/// aggregator.
pub proof fn law_delegation_bytes(
    election_id: Seq<char>,
    aggregator_id: Seq<char>,
    other_election: Seq<char>,
    other_aggregator: Seq<char>,
)
    requires
        encode_utf8(election_id).len() <= u64::MAX,
        encode_utf8(aggregator_id).len() <= u64::MAX,
        encode_utf8(other_election).len() <= u64::MAX,
        encode_utf8(other_aggregator).len() <= u64::MAX,
        transcript(
            encode_utf8(DELEGATION_DOMAIN_SEP@),
            delegation_parts(election_id, aggregator_id),
        ) == transcript(
            encode_utf8(DELEGATION_DOMAIN_SEP@),
            delegation_parts(other_election, other_aggregator),
        ),
    ensures
        election_id == other_election,
        aggregator_id == other_aggregator,
{
    let sep = encode_utf8(DELEGATION_DOMAIN_SEP@);
    let (a, b) = (
        delegation_parts(election_id, aggregator_id),
        delegation_parts(other_election, other_aggregator),
    );
    reveal_strlit("AGGIOS_DELEGATION");
    vstd::utf8::is_ascii_chars_encode_utf8(DELEGATION_DOMAIN_SEP@);
    law_transcript_injective(sep, a, sep, b);
    assert(a[0] == b[0] && a[1] == b[1]);
    lemma_text_bytes(election_id, other_election);
    lemma_text_bytes(aggregator_id, other_aggregator);
}

} // verus!
