//! Domain-separated hashing to scalars and to points of the first group.
//!
//! The hashed bytes are the domain separator and the parts, each preceded by
//! its length, so that different inputs are never hashed as the same bytes.

use sha2::Digest;
use vstd::bytes::{lemma_auto_spec_u64_to_from_le_bytes, spec_u64_from_le_bytes, spec_u64_to_le_bytes, u64_to_le_bytes};
use vstd::prelude::*;
use vstd::utf8::encode_utf8;

use crate::curve::{
    clear_cofactor, cleared_log, g1_encoding, g2_encoding, lift_to_curve, lifted_point, G1Affine,
    G2Affine,
};
use crate::field::{le_digits, le_value, lemma_le_digits_len, Fr};
use crate::modular::md;

verus! {

/// The bytes hashed before the counter when hashing to a point.
pub const H2C_COUNTER_SEP: &'static str = "AGGIOS_H2C_CTR";

/// A part with its length in front, as eight little-endian bytes.
pub open spec fn prefixed(part: Seq<u8>) -> Seq<u8> {
    spec_u64_to_le_bytes(part.len() as u64) + part
}

/// All parts, each with its length in front.
pub open spec fn joined(parts: Seq<Seq<u8>>) -> Seq<u8>
    decreases parts.len(),
{
    if parts.len() == 0 {
        Seq::empty()
    } else {
        joined(parts.drop_last()) + prefixed(parts.last())
    }
}

/// The bytes that are hashed for a domain separator and its parts.
pub open spec fn transcript(separator: Seq<u8>, parts: Seq<Seq<u8>>) -> Seq<u8> {
    prefixed(separator) + joined(parts)
}

/// The contents of a list of byte slices.
pub open spec fn slices(parts: Seq<&[u8]>) -> Seq<Seq<u8>> {
    Seq::new(parts.len(), |i: int| parts[i]@)
}

/// The SHA-512 digest of `bytes`.
pub uninterp spec fn sha512(bytes: Seq<u8>) -> Seq<u8>;

/// `Sha512::digest` of `sha2`: the digest, of 64 bytes.
#[verifier::external_body]
fn sha512_digest(bytes: &[u8]) -> (digest: Vec<u8>)
    ensures
        digest@ == sha512(bytes@),
        digest@.len() == 64,
{
    sha2::Sha512::digest(bytes).to_vec()
}

/// The scalar that a domain separator and its parts hash to.
pub open spec fn fr_hash(separator: Seq<u8>, parts: Seq<Seq<u8>>) -> int {
    md(le_value(sha512(transcript(separator, parts))))
}

/// The digest from which the point candidate with a counter is read.
pub open spec fn candidate_digest(separator: Seq<u8>, parts: Seq<Seq<u8>>, counter: int) -> Seq<
    u8,
> {
    sha512(
        transcript(separator, parts) + encode_utf8(H2C_COUNTER_SEP@) + spec_u64_to_le_bytes(
            counter as u64,
        ),
    )
}

/// The logarithm of the point candidate with a counter, if there is one and
/// it is not the neutral element.
pub open spec fn g1_candidate(separator: Seq<u8>, parts: Seq<Seq<u8>>, counter: int) -> Option<int> {
    match lifted_point(candidate_digest(separator, parts, counter).take(48)) {
        Some(point) => if md(cleared_log(point)) != 0 {
            Some(md(cleared_log(point)))
        } else {
            None
        },
        None => None,
    }
}

/// `c` is the least 64-bit counter for which `hit` holds.
pub open spec fn least_counter(hit: spec_fn(int) -> bool, c: int) -> bool {
    0 <= c <= u64::MAX && hit(c) && forall|d: int| 0 <= d < c ==> !#[trigger] hit(d)
}

/// The counters that give a point candidate.
pub open spec fn g1_hits(separator: Seq<u8>, parts: Seq<Seq<u8>>) -> spec_fn(int) -> bool {
    |d: int| g1_candidate(separator, parts, d) is Some
}

/// Some counter gives a point candidate.
pub open spec fn g1_hashable(separator: Seq<u8>, parts: Seq<Seq<u8>>) -> bool {
    exists|c: int| #[trigger] least_counter(g1_hits(separator, parts), c)
}

/// The logarithm of the point that a domain separator and its parts hash to:
/// the first candidate.
pub open spec fn g1_hash(separator: Seq<u8>, parts: Seq<Seq<u8>>) -> int {
    let c = choose|c: int| #[trigger] least_counter(g1_hits(separator, parts), c);
    g1_candidate(separator, parts, c).unwrap()
}

pub proof fn lemma_least_unique(hit: spec_fn(int) -> bool, c: int, d: int)
    requires
        least_counter(hit, c),
        least_counter(hit, d),
    ensures
        c == d,
{
    if c < d {
        assert(!hit(c));
    } else if d < c {
        assert(!hit(d));
    }
}

/// Appends a part with its length in front.
fn push_prefixed(out: &mut Vec<u8>, part: &[u8])
    ensures
        final(out)@ == old(out)@ + prefixed(part@),
{
    let mut length = u64_to_le_bytes(part.len() as u64);
    out.append(&mut length);
    out.extend_from_slice(part);
    proof {
        assert(out@ =~= old(out)@ + prefixed(part@));
    }
}

/// The bytes that are hashed: the separator, then for each part its length
/// and its bytes.
fn transcript_bytes(domain_separator: &[u8], parts: &[&[u8]]) -> (bytes: Vec<u8>)
    ensures
        bytes@ == transcript(domain_separator@, slices(parts@)),
{
    let mut out: Vec<u8> = Vec::new();
    push_prefixed(&mut out, domain_separator);
    let mut i: usize = 0;
    proof {
        assert(out@ =~= transcript(domain_separator@, slices(parts@).take(0)));
    }
    while i < parts.len()
        invariant
            i <= parts.len(),
            out@ == transcript(domain_separator@, slices(parts@).take(i as int)),
        decreases parts.len() - i,
    {
        push_prefixed(&mut out, parts[i]);
        proof {
            let all = slices(parts@);
            assert(all.take(i + 1).drop_last() =~= all.take(i as int));
            assert(all.take(i + 1).last() == parts@[i as int]@);
            assert(out@ =~= transcript(domain_separator@, all.take(i + 1)));
        }
        i += 1;
    }
    proof {
        assert(slices(parts@).take(parts@.len() as int) =~= slices(parts@));
    }
    out
}

/// Hashes a domain separator and parts to a scalar: SHA-512, then reduction
/// modulo the field order. The 512-bit digest makes the bias negligible.
pub fn hash_to_fr(domain_separator: &[u8], parts: &[&[u8]]) -> (x: Fr)
    ensures
        x@ == fr_hash(domain_separator@, slices(parts@)),
{
    let bytes = transcript_bytes(domain_separator, parts);
    let digest = sha512_digest(bytes.as_slice());
    Fr::from_le_bytes_mod_order(digest.as_slice())
}

/// Hashes a domain separator and parts to a point of the first group, or
/// gives `None` where no 64-bit counter leads to one.
pub fn try_hash_to_g1(domain_separator: &[u8], parts: &[&[u8]]) -> (r: Option<G1Affine>)
    ensures
        r is Some <==> g1_hashable(domain_separator@, slices(parts@)),
        r matches Some(p) ==> p@ == g1_hash(domain_separator@, slices(parts@)) && p@ != 0,
{
    let base = transcript_bytes(domain_separator, parts);
    let ghost sep = domain_separator@;
    let ghost all = slices(parts@);
    let ghost hit = g1_hits(sep, all);
    let mut counter: u64 = 0;
    loop
        invariant
            base@ == transcript(sep, all),
            sep == domain_separator@,
            all == slices(parts@),
            hit == g1_hits(sep, all),
            forall|d: int| 0 <= d < counter ==> !#[trigger] hit(d),
        decreases u64::MAX - counter,
    {
        let mut bytes: Vec<u8> = base.clone();
        bytes.extend_from_slice(H2C_COUNTER_SEP.as_bytes());
        let mut suffix = u64_to_le_bytes(counter);
        bytes.append(&mut suffix);
        proof {
            assert(bytes@ =~= transcript(sep, all) + encode_utf8(H2C_COUNTER_SEP@)
                + spec_u64_to_le_bytes(counter));
        }
        let mut digest = sha512_digest(bytes.as_slice());
        digest.truncate(48);
        proof {
            assert(digest@ =~= candidate_digest(sep, all, counter as int).take(48));
        }
        // The first 48 bytes hold a candidate x coordinate and a sign.
        if let Some(point) = lift_to_curve(digest.as_slice()) {
            let cleared = clear_cofactor(&point);
            if !cleared.is_zero() {
                proof {
                    assert(hit(counter as int));
                    assert(least_counter(hit, counter as int));
                    let c = choose|c: int| #[trigger] least_counter(hit, c);
                    lemma_least_unique(hit, c, counter as int);
                }
                return Some(cleared);
            }
        }
        proof {
            assert(!hit(counter as int));
        }
        if counter == u64::MAX {
            proof {
                assert forall|c: int| !#[trigger] least_counter(hit, c) by {}
            }
            return None;
        }
        counter += 1;
    }
}

/// Hashes a domain separator and parts to a point of the first group: tries
/// counters until a candidate lies on the curve, then clears the cofactor so
/// that the result lies in the prime-order group. The result is not zero.
///
/// This is not constant-time; it serves delegation signatures only.
pub fn hash_to_g1(domain_separator: &[u8], parts: &[&[u8]]) -> (p: G1Affine)
    requires
        g1_hashable(domain_separator@, slices(parts@)),
    ensures
        p@ == g1_hash(domain_separator@, slices(parts@)),
        p@ != 0,
{
    try_hash_to_g1(domain_separator, parts).unwrap()
}

/// Values with a canonical compressed encoding.
pub trait CanonicalBytes {
    spec fn canonical(&self) -> Seq<u8>;

    fn encode(&self) -> (bytes: Vec<u8>)
        ensures
            bytes@ == self.canonical(),
            bytes@.len() <= 96,
    ;
}

impl CanonicalBytes for Fr {
    open spec fn canonical(&self) -> Seq<u8> {
        le_digits(self@, 32)
    }

    fn encode(&self) -> (bytes: Vec<u8>) {
        proof {
            lemma_le_digits_len(self@, 32);
        }
        self.to_bytes()
    }
}

impl CanonicalBytes for G1Affine {
    open spec fn canonical(&self) -> Seq<u8> {
        g1_encoding(self@)
    }

    fn encode(&self) -> (bytes: Vec<u8>) {
        self.to_bytes()
    }
}

impl CanonicalBytes for G2Affine {
    open spec fn canonical(&self) -> Seq<u8> {
        g2_encoding(self@)
    }

    fn encode(&self) -> (bytes: Vec<u8>) {
        self.to_bytes()
    }
}

/// The canonical compressed encoding of a scalar or a point, for hashing and
/// for public artifacts.
pub fn canonical_bytes<T: CanonicalBytes>(t: &T) -> (bytes: Vec<u8>)
    ensures
        bytes@ == t.canonical(),
        bytes@.len() <= 96,
{
    t.encode()
}

// ---- injectivity ----------------------------------------------------------

/// All parts have a length of at most 64 bits.
pub open spec fn representable(parts: Seq<Seq<u8>>) -> bool {
    forall|i: int| 0 <= i < parts.len() ==> (#[trigger] parts[i]).len() <= u64::MAX
}

/// The first part split off.
proof fn lemma_joined_first(parts: Seq<Seq<u8>>)
    requires
        parts.len() > 0,
    ensures
        joined(parts) == prefixed(parts[0]) + joined(parts.drop_first()),
    decreases parts.len(),
{
    if parts.len() == 1 {
        assert(parts.drop_last() =~= Seq::empty());
        assert(parts.drop_first() =~= Seq::empty());
        assert(joined(parts.drop_last()) =~= Seq::empty());
        assert(joined(parts.drop_first()) =~= Seq::empty());
        assert(joined(parts) =~= prefixed(parts[0]) + joined(parts.drop_first()));
    } else {
        lemma_joined_first(parts.drop_last());
        assert(parts.drop_last().drop_first() =~= parts.drop_first().drop_last());
        assert(parts.drop_first().last() == parts.last());
        assert(joined(parts) =~= prefixed(parts[0]) + joined(parts.drop_first()));
    }
}

/// A prefixed part followed by anything tells the part.
proof fn lemma_prefixed_split(a: Seq<u8>, b: Seq<u8>, rest_a: Seq<u8>, rest_b: Seq<u8>)
    requires
        a.len() <= u64::MAX,
        b.len() <= u64::MAX,
        prefixed(a) + rest_a == prefixed(b) + rest_b,
    ensures
        a == b,
        rest_a == rest_b,
{
    lemma_auto_spec_u64_to_from_le_bytes();
    let x = prefixed(a) + rest_a;
    let y = prefixed(b) + rest_b;
    assert(x.take(8) =~= spec_u64_to_le_bytes(a.len() as u64));
    assert(y.take(8) =~= spec_u64_to_le_bytes(b.len() as u64));
    assert(spec_u64_from_le_bytes(x.take(8)) == a.len() as u64);
    assert(spec_u64_from_le_bytes(y.take(8)) == b.len() as u64);
    let n = a.len() as int;
    assert(a =~= x.subrange(8, 8 + n));
    assert(b =~= y.subrange(8, 8 + n));
    assert(rest_a =~= x.subrange(8 + n, x.len() as int));
    assert(rest_b =~= y.subrange(8 + n, y.len() as int));
}

proof fn lemma_joined_injective(a: Seq<Seq<u8>>, b: Seq<Seq<u8>>)
    requires
        representable(a),
        representable(b),
        joined(a) == joined(b),
    ensures
        a == b,
    decreases a.len(),
{
    lemma_auto_spec_u64_to_from_le_bytes();
    if a.len() > 0 {
        lemma_joined_first(a);
    }
    if b.len() > 0 {
        lemma_joined_first(b);
    }
    if a.len() == 0 || b.len() == 0 {
        if a.len() > 0 {
            assert(joined(a).len() >= 8);
        }
        if b.len() > 0 {
            assert(joined(b).len() >= 8);
        }
        assert(a =~= b);
    } else {
        lemma_prefixed_split(a[0], b[0], joined(a.drop_first()), joined(b.drop_first()));
        let (ra, rb) = (a.drop_first(), b.drop_first());
        assert(representable(ra)) by {
            assert forall|i: int| 0 <= i < ra.len() implies (#[trigger] ra[i]).len() <= u64::MAX by {
                assert(ra[i] == a[i + 1]);
            }
        }
        assert(representable(rb)) by {
            assert forall|i: int| 0 <= i < rb.len() implies (#[trigger] rb[i]).len() <= u64::MAX by {
                assert(rb[i] == b[i + 1]);
            }
        }
        lemma_joined_injective(ra, rb);
        assert(a =~= seq![a[0]] + ra);
        assert(b =~= seq![b[0]] + rb);
    }
}

/// The encoding of a separator and its parts is injective: no two different
/// inputs are hashed as the same bytes.
pub proof fn law_transcript_injective(
    sep_a: Seq<u8>,
    parts_a: Seq<Seq<u8>>,
    sep_b: Seq<u8>,
    parts_b: Seq<Seq<u8>>,
)
    requires
        sep_a.len() <= u64::MAX,
        sep_b.len() <= u64::MAX,
        representable(parts_a),
        representable(parts_b),
        transcript(sep_a, parts_a) == transcript(sep_b, parts_b),
    ensures
        sep_a == sep_b,
        parts_a == parts_b,
{
    lemma_prefixed_split(sep_a, sep_b, joined(parts_a), joined(parts_b));
    lemma_joined_injective(parts_a, parts_b);
}

/// Two different byte strings whose digests reduce to the same scalar.
pub open spec fn fr_collision(a: Seq<u8>, b: Seq<u8>) -> bool {
    a != b && md(le_value(sha512(a))) == md(le_value(sha512(b)))
}

/// If two different inputs hash to the same scalar, the bytes that are hashed
/// for them collide.
pub proof fn law_hash_bound(
    sep_a: Seq<u8>,
    parts_a: Seq<Seq<u8>>,
    sep_b: Seq<u8>,
    parts_b: Seq<Seq<u8>>,
)
    requires
        sep_a.len() <= u64::MAX,
        sep_b.len() <= u64::MAX,
        representable(parts_a),
        representable(parts_b),
        sep_a != sep_b || parts_a != parts_b,
        fr_hash(sep_a, parts_a) == fr_hash(sep_b, parts_b),
    ensures
        fr_collision(transcript(sep_a, parts_a), transcript(sep_b, parts_b)),
{
    if transcript(sep_a, parts_a) == transcript(sep_b, parts_b) {
        law_transcript_injective(sep_a, parts_a, sep_b, parts_b);
    }
}

/// Texts are told from their bytes.
pub proof fn lemma_text_bytes(a: Seq<char>, b: Seq<char>)
    requires
        encode_utf8(a) == encode_utf8(b),
    ensures
        a == b,
{
    vstd::utf8::encode_utf8_decode_utf8(a);
    vstd::utf8::encode_utf8_decode_utf8(b);
}

/// The first `k` parts have a length of at most 64 bits.
pub open spec fn front_fits(parts: Seq<Seq<u8>>, k: int) -> bool {
    k <= parts.len() && forall|i: int| 0 <= i < k ==> (#[trigger] parts[i]).len() <= u64::MAX
}

proof fn lemma_joined_front(a: Seq<Seq<u8>>, b: Seq<Seq<u8>>, k: int)
    requires
        0 <= k,
        front_fits(a, k),
        front_fits(b, k),
        joined(a) == joined(b),
    ensures
        a.take(k) == b.take(k),
    decreases k,
{
    if k == 0 {
        assert(a.take(0) =~= b.take(0));
    } else {
        lemma_joined_first(a);
        lemma_joined_first(b);
        let (ra, rb) = (a.drop_first(), b.drop_first());
        lemma_prefixed_split(a[0], b[0], joined(ra), joined(rb));
        assert forall|i: int| 0 <= i < k - 1 implies (#[trigger] ra[i]).len() <= u64::MAX by {
            assert(ra[i] == a[i + 1]);
        }
        assert forall|i: int| 0 <= i < k - 1 implies (#[trigger] rb[i]).len() <= u64::MAX by {
            assert(rb[i] == b[i + 1]);
        }
        lemma_joined_front(ra, rb, k - 1);
        assert(a.take(k) =~= seq![a[0]] + ra.take(k - 1));
        assert(b.take(k) =~= seq![b[0]] + rb.take(k - 1));
    }
}

/// The hashed bytes tell the separator and the first `k` parts.
pub proof fn lemma_transcript_front(
    sep_a: Seq<u8>,
    a: Seq<Seq<u8>>,
    sep_b: Seq<u8>,
    b: Seq<Seq<u8>>,
    k: int,
)
    requires
        0 <= k,
        sep_a.len() <= u64::MAX,
        sep_b.len() <= u64::MAX,
        front_fits(a, k),
        front_fits(b, k),
        transcript(sep_a, a) == transcript(sep_b, b),
    ensures
        sep_a == sep_b,
        a.take(k) == b.take(k),
{
    lemma_prefixed_split(sep_a, sep_b, joined(a), joined(b));
    lemma_joined_front(a, b, k);
}

/// The bytes that are hashed for a point candidate tell the separator, the
/// parts and the counter.
pub proof fn law_point_bytes_injective(
    sep_a: Seq<u8>,
    parts_a: Seq<Seq<u8>>,
    counter_a: u64,
    sep_b: Seq<u8>,
    parts_b: Seq<Seq<u8>>,
    counter_b: u64,
    a: Seq<u8>,
    b: Seq<u8>,
)
    requires
        sep_a.len() <= u64::MAX,
        sep_b.len() <= u64::MAX,
        representable(parts_a),
        representable(parts_b),
        a == transcript(sep_a, parts_a) + encode_utf8(H2C_COUNTER_SEP@) + spec_u64_to_le_bytes(
            counter_a,
        ),
        b == transcript(sep_b, parts_b) + encode_utf8(H2C_COUNTER_SEP@) + spec_u64_to_le_bytes(
            counter_b,
        ),
    ensures
        candidate_digest(sep_a, parts_a, counter_a as int) == sha512(a),
        candidate_digest(sep_b, parts_b, counter_b as int) == sha512(b),
        a == b ==> sep_a == sep_b && parts_a == parts_b && counter_a == counter_b,
{
    lemma_auto_spec_u64_to_from_le_bytes();
    let m = encode_utf8(H2C_COUNTER_SEP@);
    let (x, y) = (transcript(sep_a, parts_a), transcript(sep_b, parts_b));
    if a == b {
        let n = x.len() as int;
        assert(spec_u64_to_le_bytes(counter_a).len() == 8);
        assert(spec_u64_to_le_bytes(counter_b).len() == 8);
        assert(a.len() == n + m.len() + 8);
        assert(b.len() == y.len() + m.len() + 8);
        assert(a.take(n) =~= x);
        assert(b.take(n) =~= y);
        let k = n + m.len();
        assert(a.skip(k) =~= spec_u64_to_le_bytes(counter_a));
        assert(b.skip(k) =~= spec_u64_to_le_bytes(counter_b));
        assert(spec_u64_from_le_bytes(a.skip(k)) == counter_a);
        assert(spec_u64_from_le_bytes(b.skip(k)) == counter_b);
        law_transcript_injective(sep_a, parts_a, sep_b, parts_b);
    }
}

} // verus!
