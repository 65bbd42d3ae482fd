//! Points of the two BLS12-381 groups and the pairing between them.
//!
//! The group operations are those of `ark_bls12_381`. A point is held here as
//! its uncompressed encoding and viewed as its discrete logarithm to the
//! group's fixed generator: adding points adds logarithms, scaling a point
//! multiplies its logarithm, and the pairing multiplies two of them. Every
//! value of these types lies in the prime-order group, because each is made
//! by an operation that stays in it or that checks it.

use ark_ec::{AffineCurve, PairingEngine, ProjectiveCurve};
use ark_ff::{One, Zero};
use ark_serialize::{CanonicalDeserialize, CanonicalSerialize};
use vstd::prelude::*;

use crate::field::Fr;
use crate::modular::{lemma_md_range, md, modulus};
use crate::sums::sum;

verus! {

/// The number of bytes of a compressed point of the first group.
pub const G1_BYTES: usize = 48;

/// The number of bytes of a compressed point of the second group.
pub const G2_BYTES: usize = 96;

/// The scalar by which `G1Affine::prime_subgroup_generator` has to be
/// multiplied to give the point with this uncompressed encoding.
pub uninterp spec fn g1_log(encoding: Seq<u8>) -> int;

/// The scalar by which `G2Affine::prime_subgroup_generator` has to be
/// multiplied to give the point with this uncompressed encoding.
pub uninterp spec fn g2_log(encoding: Seq<u8>) -> int;

/// A point of the first group.
#[derive(Clone, Copy, Debug)]
pub struct G1Affine {
    pub(crate) repr: [u8; 96],
}

/// A point of the second group.
#[derive(Clone, Copy, Debug)]
pub struct G2Affine {
    pub(crate) repr: [u8; 192],
}

impl View for G1Affine {
    type V = int;

    closed spec fn view(&self) -> int {
        md(g1_log(self.repr@))
    }
}

impl View for G2Affine {
    type V = int;

    closed spec fn view(&self) -> int {
        md(g2_log(self.repr@))
    }
}

/// The logarithms of a sequence of points of the first group.
pub open spec fn g1_logs(s: Seq<G1Affine>) -> Seq<int> {
    Seq::new(s.len(), |i: int| s[i]@)
}

/// The logarithms of a sequence of points of the second group.
pub open spec fn g2_logs(s: Seq<G2Affine>) -> Seq<int> {
    Seq::new(s.len(), |i: int| s[i]@)
}

/// A decoding that gives the element with value or logarithm `log`.
pub open spec fn good(log: int) -> Result<int, Seq<char>> {
    Ok(log)
}

/// A decoding that fails with the error text `text`.
pub open spec fn bad(text: Seq<char>) -> Result<int, Seq<char>> {
    Err(text)
}

// ---- the first group ------------------------------------------------------

/// `Zero::zero` of `ark_ec` for a point of the first group.
#[verifier::external_body]
fn g1_zero() -> (c: G1Affine)
    ensures
        md(g1_log(c.repr@)) == 0,
{
    let mut repr = [0u8; 96];
    ark_bls12_381::G1Affine::zero().serialize_uncompressed(&mut repr[..]).unwrap();
    G1Affine { repr }
}

/// `Add::add` of `ark_ec`: the group operation.
#[verifier::external_body]
fn g1_sum(a: &G1Affine, b: &G1Affine) -> (c: G1Affine)
    ensures
        c@ == md(a@ + b@),
{
    let x = ark_bls12_381::G1Affine::deserialize_unchecked(&a.repr[..]).unwrap();
    let y = ark_bls12_381::G1Affine::deserialize_unchecked(&b.repr[..]).unwrap();
    let mut repr = [0u8; 96];
    (x + y).serialize_uncompressed(&mut repr[..]).unwrap();
    G1Affine { repr }
}

/// `Sub::sub` of `ark_ec` on projective points: the group operation with the
/// inverse of the second point.
#[verifier::external_body]
fn g1_difference(a: &G1Affine, b: &G1Affine) -> (c: G1Affine)
    ensures
        c@ == md(a@ - b@),
{
    let x = ark_bls12_381::G1Affine::deserialize_unchecked(&a.repr[..]).unwrap();
    let y = ark_bls12_381::G1Affine::deserialize_unchecked(&b.repr[..]).unwrap();
    let mut repr = [0u8; 96];
    (x.into_projective() - y.into_projective()).into_affine()
        .serialize_uncompressed(&mut repr[..]).unwrap();
    G1Affine { repr }
}

/// `AffineCurve::mul` of `ark_ec`: scalar multiplication.
#[verifier::external_body]
fn g1_scaled(a: &G1Affine, k: &Fr) -> (c: G1Affine)
    ensures
        c@ == md(a@ * k@),
{
    let x = ark_bls12_381::G1Affine::deserialize_unchecked(&a.repr[..]).unwrap();
    let k = ark_bls12_381::Fr::deserialize(&k.repr[..]).unwrap();
    let mut repr = [0u8; 96];
    x.mul(k).into_affine().serialize_uncompressed(&mut repr[..]).unwrap();
    G1Affine { repr }
}

/// `PartialEq::eq` of `ark_ec`: whether the points are the same, which holds
/// exactly when their logarithms are.
#[verifier::external_body]
fn g1_same(a: &G1Affine, b: &G1Affine) -> (same: bool)
    ensures
        same == (a@ == b@),
{
    let x = ark_bls12_381::G1Affine::deserialize_unchecked(&a.repr[..]).unwrap();
    let y = ark_bls12_381::G1Affine::deserialize_unchecked(&b.repr[..]).unwrap();
    x == y
}

/// The compressed encoding of the point of the first group with this logarithm.
pub uninterp spec fn g1_encoding(log: int) -> Seq<u8>;

/// The logarithm of the point of the first group that `bytes` start with, or
/// the text of the error.
pub uninterp spec fn g1_decoding(bytes: Seq<u8>) -> Result<int, Seq<char>>;

/// `CanonicalSerialize::serialize` of `ark_serialize` on a point: its
/// compressed encoding of 48 bytes, which decodes to the point.
#[verifier::external_body]
fn g1_encoded(a: &G1Affine) -> (bytes: Vec<u8>)
    ensures
        bytes@ == g1_encoding(a@),
        bytes@.len() == 48,
        g1_decoding(bytes@) == good(a@),
{
    let x = ark_bls12_381::G1Affine::deserialize_unchecked(&a.repr[..]).unwrap();
    let mut bytes = Vec::new();
    x.serialize(&mut bytes).unwrap();
    bytes
}

/// `CanonicalDeserialize::deserialize` of `ark_serialize` on a point: reads
/// 48 bytes and accepts only points of the prime-order group. The error is
/// handed on as its debug text.
#[verifier::external_body]
fn g1_decoded(bytes: &[u8]) -> (r: Result<G1Affine, String>)
    ensures
        r matches Ok(p) ==> g1_decoding(bytes@) == good(p@) && bytes@.len() >= 48,
        r matches Err(e) ==> g1_decoding(bytes@) == bad(e@),
{
    match ark_bls12_381::G1Affine::deserialize(bytes) {
        Ok(x) => {
            let mut repr = [0u8; 96];
            x.serialize_uncompressed(&mut repr[..]).unwrap();
            Ok(G1Affine { repr })
        }
        Err(e) => Err(format!("{:?}", e)),
    }
}

/// A point of the curve that need not lie in the prime-order group, held as
/// its uncompressed encoding.
pub struct CurvePoint {
    pub(crate) repr: Vec<u8>,
}

impl View for CurvePoint {
    type V = Seq<u8>;

    closed spec fn view(&self) -> Seq<u8> {
        self.repr@
    }
}

/// The uncompressed encoding of the curve point that 48 bytes are lifted to.
pub uninterp spec fn lifted_point(bytes: Seq<u8>) -> Option<Seq<u8>>;

/// `AffineCurve::from_random_bytes` of `ark_ec`: reads a candidate x
/// coordinate and a sign, and lifts it to the curve where that is possible.
#[verifier::external_body]
pub(crate) fn lift_to_curve(bytes: &[u8]) -> (r: Option<CurvePoint>)
    ensures
        r is Some <==> lifted_point(bytes@) is Some,
        r matches Some(p) ==> lifted_point(bytes@) == Some(p@),
{
    ark_bls12_381::G1Affine::from_random_bytes(bytes).map(|x| {
        let mut repr = Vec::new();
        x.serialize_uncompressed(&mut repr).unwrap();
        CurvePoint { repr }
    })
}

/// The logarithm of the multiple by the cofactor of the curve point with this
/// uncompressed encoding.
pub uninterp spec fn cleared_log(encoding: Seq<u8>) -> int;

/// `AffineCurve::mul_by_cofactor` of `ark_ec`: the multiple that lies in the
/// prime-order group.
#[verifier::external_body]
pub(crate) fn clear_cofactor(p: &CurvePoint) -> (c: G1Affine)
    ensures
        c@ == md(cleared_log(p@)),
{
    let x = ark_bls12_381::G1Affine::deserialize_unchecked(&p.repr[..]).unwrap();
    let mut repr = [0u8; 96];
    x.mul_by_cofactor().serialize_uncompressed(&mut repr[..]).unwrap();
    G1Affine { repr }
}

impl PartialEq for G1Affine {
    fn eq(&self, other: &G1Affine) -> (same: bool) {
        g1_same(self, other)
    }
}

impl vstd::std_specs::cmp::PartialEqSpecImpl for G1Affine {
    open spec fn obeys_eq_spec() -> bool {
        true
    }

    open spec fn eq_spec(&self, other: &G1Affine) -> bool {
        self@ == other@
    }
}

impl Eq for G1Affine {

}

impl G1Affine {
    pub proof fn lemma_range(self)
        ensures
            0 <= self@ < modulus(),
            md(self@) == self@,
    {
        lemma_md_range(g1_log(self.repr@));
    }

    /// The neutral element.
    pub fn zero() -> (c: G1Affine)
        ensures
            c@ == 0,
    {
        g1_zero()
    }

    pub fn is_zero(&self) -> (b: bool)
        ensures
            b == (self@ == 0),
    {
        *self == G1Affine::zero()
    }

    pub fn add(self, other: G1Affine) -> (c: G1Affine)
        ensures
            c@ == md(self@ + other@),
    {
        g1_sum(&self, &other)
    }

    pub fn sub(self, other: G1Affine) -> (c: G1Affine)
        ensures
            c@ == md(self@ - other@),
    {
        g1_difference(&self, &other)
    }

    pub fn mul(self, k: Fr) -> (c: G1Affine)
        ensures
            c@ == md(self@ * k@),
    {
        g1_scaled(&self, &k)
    }

    /// The two coordinates of the point, or the mark of the neutral element.
    pub closed spec fn coordinates(&self) -> Seq<u8> {
        self.repr@
    }

    /// The uncompressed encoding.
    pub fn to_uncompressed(&self) -> (bytes: Vec<u8>)
        ensures
            bytes@ == self.coordinates(),
            bytes@.len() == 96,
    {
        let mut bytes: Vec<u8> = Vec::new();
        bytes.extend_from_slice(self.repr.as_slice());
        proof {
            assert(bytes@ =~= self.repr@);
        }
        bytes
    }

    /// The compressed encoding.
    pub fn to_bytes(&self) -> (bytes: Vec<u8>)
        ensures
            bytes@ == g1_encoding(self@),
            bytes@.len() == 48,
            g1_decoding(bytes@) == good(self@),
    {
        g1_encoded(self)
    }

    /// Reads a compressed encoding from the front of `bytes`.
    pub fn from_bytes(bytes: &[u8]) -> (r: Result<G1Affine, String>)
        ensures
            r matches Ok(p) ==> g1_decoding(bytes@) == good(p@) && bytes@.len() >= 48,
            r matches Err(e) ==> g1_decoding(bytes@) == bad(e@),
    {
        g1_decoded(bytes)
    }
}

// ---- the second group -----------------------------------------------------

/// `AffineCurve::prime_subgroup_generator` of `ark_ec` for the second group.
#[verifier::external_body]
fn g2_base() -> (c: G2Affine)
    ensures
        md(g2_log(c.repr@)) == 1,
{
    let mut repr = [0u8; 192];
    ark_bls12_381::G2Affine::prime_subgroup_generator()
        .serialize_uncompressed(&mut repr[..]).unwrap();
    G2Affine { repr }
}

/// `Zero::zero` of `ark_ec` for a point of the second group.
#[verifier::external_body]
fn g2_zero() -> (c: G2Affine)
    ensures
        c@ == 0,
{
    let mut repr = [0u8; 192];
    ark_bls12_381::G2Affine::zero().serialize_uncompressed(&mut repr[..]).unwrap();
    G2Affine { repr }
}

/// `Add::add` of `ark_ec`: the group operation.
#[verifier::external_body]
fn g2_sum(a: &G2Affine, b: &G2Affine) -> (c: G2Affine)
    ensures
        c@ == md(a@ + b@),
{
    let x = ark_bls12_381::G2Affine::deserialize_unchecked(&a.repr[..]).unwrap();
    let y = ark_bls12_381::G2Affine::deserialize_unchecked(&b.repr[..]).unwrap();
    let mut repr = [0u8; 192];
    (x + y).serialize_uncompressed(&mut repr[..]).unwrap();
    G2Affine { repr }
}

/// `AffineCurve::mul` of `ark_ec`: scalar multiplication.
#[verifier::external_body]
fn g2_scaled(a: &G2Affine, k: &Fr) -> (c: G2Affine)
    ensures
        c@ == md(a@ * k@),
{
    let x = ark_bls12_381::G2Affine::deserialize_unchecked(&a.repr[..]).unwrap();
    let k = ark_bls12_381::Fr::deserialize(&k.repr[..]).unwrap();
    let mut repr = [0u8; 192];
    x.mul(k).into_affine().serialize_uncompressed(&mut repr[..]).unwrap();
    G2Affine { repr }
}

/// `PartialEq::eq` of `ark_ec`: whether the points are the same, which holds
/// exactly when their logarithms are.
#[verifier::external_body]
fn g2_same(a: &G2Affine, b: &G2Affine) -> (same: bool)
    ensures
        same == (a@ == b@),
{
    let x = ark_bls12_381::G2Affine::deserialize_unchecked(&a.repr[..]).unwrap();
    let y = ark_bls12_381::G2Affine::deserialize_unchecked(&b.repr[..]).unwrap();
    x == y
}

/// The compressed encoding of the point of the second group with this logarithm.
pub uninterp spec fn g2_encoding(log: int) -> Seq<u8>;

/// The logarithm of the point of the second group that `bytes` start with, or
/// the text of the error.
pub uninterp spec fn g2_decoding(bytes: Seq<u8>) -> Result<int, Seq<char>>;

/// `CanonicalSerialize::serialize` of `ark_serialize` on a point: its
/// compressed encoding of 96 bytes, which decodes to the point.
#[verifier::external_body]
fn g2_encoded(a: &G2Affine) -> (bytes: Vec<u8>)
    ensures
        bytes@ == g2_encoding(a@),
        bytes@.len() == 96,
        g2_decoding(bytes@) == good(a@),
{
    let x = ark_bls12_381::G2Affine::deserialize_unchecked(&a.repr[..]).unwrap();
    let mut bytes = Vec::new();
    x.serialize(&mut bytes).unwrap();
    bytes
}

/// `CanonicalDeserialize::deserialize` of `ark_serialize` on a point: reads
/// 96 bytes and accepts only points of the prime-order group. The error is
/// handed on as its debug text.
#[verifier::external_body]
fn g2_decoded(bytes: &[u8]) -> (r: Result<G2Affine, String>)
    ensures
        r matches Ok(p) ==> g2_decoding(bytes@) == good(p@) && bytes@.len() >= 96,
        r matches Err(e) ==> g2_decoding(bytes@) == bad(e@),
{
    match ark_bls12_381::G2Affine::deserialize(bytes) {
        Ok(x) => {
            let mut repr = [0u8; 192];
            x.serialize_uncompressed(&mut repr[..]).unwrap();
            Ok(G2Affine { repr })
        }
        Err(e) => Err(format!("{:?}", e)),
    }
}

impl PartialEq for G2Affine {
    fn eq(&self, other: &G2Affine) -> (same: bool) {
        g2_same(self, other)
    }
}

impl vstd::std_specs::cmp::PartialEqSpecImpl for G2Affine {
    open spec fn obeys_eq_spec() -> bool {
        true
    }

    open spec fn eq_spec(&self, other: &G2Affine) -> bool {
        self@ == other@
    }
}

impl Eq for G2Affine {

}

impl G2Affine {
    pub proof fn lemma_range(self)
        ensures
            0 <= self@ < modulus(),
            md(self@) == self@,
    {
        lemma_md_range(g2_log(self.repr@));
    }

    /// The fixed generator.
    pub fn generator() -> (c: G2Affine)
        ensures
            c@ == 1,
    {
        g2_base()
    }

    /// The neutral element.
    pub fn zero() -> (c: G2Affine)
        ensures
            c@ == 0,
    {
        g2_zero()
    }

    pub fn is_zero(&self) -> (b: bool)
        ensures
            b == (self@ == 0),
    {
        *self == G2Affine::zero()
    }

    pub fn add(self, other: G2Affine) -> (c: G2Affine)
        ensures
            c@ == md(self@ + other@),
    {
        g2_sum(&self, &other)
    }

    pub fn mul(self, k: Fr) -> (c: G2Affine)
        ensures
            c@ == md(self@ * k@),
    {
        g2_scaled(&self, &k)
    }

    /// The two coordinates of the point, or the mark of the neutral element.
    pub closed spec fn coordinates(&self) -> Seq<u8> {
        self.repr@
    }

    /// The uncompressed encoding.
    pub fn to_uncompressed(&self) -> (bytes: Vec<u8>)
        ensures
            bytes@ == self.coordinates(),
            bytes@.len() == 192,
    {
        let mut bytes: Vec<u8> = Vec::new();
        bytes.extend_from_slice(self.repr.as_slice());
        proof {
            assert(bytes@ =~= self.repr@);
        }
        bytes
    }

    /// The compressed encoding.
    pub fn to_bytes(&self) -> (bytes: Vec<u8>)
        ensures
            bytes@ == g2_encoding(self@),
            bytes@.len() == 96,
            g2_decoding(bytes@) == good(self@),
    {
        g2_encoded(self)
    }

    /// Reads a compressed encoding from the front of `bytes`.
    pub fn from_bytes(bytes: &[u8]) -> (r: Result<G2Affine, String>)
        ensures
            r matches Ok(p) ==> g2_decoding(bytes@) == good(p@) && bytes@.len() >= 96,
            r matches Err(e) ==> g2_decoding(bytes@) == bad(e@),
    {
        g2_decoded(bytes)
    }
}

// ---- the pairing ----------------------------------------------------------

/// `PairingEngine::pairing` of `ark_ec`, twice: whether `e(a, b)` and
/// `e(c, d)` are the same. The pairing is bilinear and not degenerate, so
/// that is whether the products of the logarithms are congruent.
#[verifier::external_body]
fn pairing_values_same(a: &G1Affine, b: &G2Affine, c: &G1Affine, d: &G2Affine) -> (same: bool)
    ensures
        same == (md(a@ * b@) == md(c@ * d@)),
{
    let a = ark_bls12_381::G1Affine::deserialize_unchecked(&a.repr[..]).unwrap();
    let b = ark_bls12_381::G2Affine::deserialize_unchecked(&b.repr[..]).unwrap();
    let c = ark_bls12_381::G1Affine::deserialize_unchecked(&c.repr[..]).unwrap();
    let d = ark_bls12_381::G2Affine::deserialize_unchecked(&d.repr[..]).unwrap();
    ark_bls12_381::Bls12_381::pairing(a, b) == ark_bls12_381::Bls12_381::pairing(c, d)
}

/// Whether `e(a, b) == e(c, d)`.
pub fn pairings_equal(a: &G1Affine, b: &G2Affine, c: &G1Affine, d: &G2Affine) -> (same: bool)
    ensures
        same == (md(a@ * b@) == md(c@ * d@)),
{
    pairing_values_same(a, b, c, d)
}

/// The logarithm of the product of the pairings of all pairs.
pub open spec fn pairing_log(pairs: Seq<(G1Affine, G2Affine)>) -> int {
    sum(|i: int| pairs[i].0@ * pairs[i].1@, pairs.len() as int)
}

/// `PairingEngine::product_of_pairings` of `ark_ec`: whether the product of
/// the pairings of all pairs is one.
#[verifier::external_body]
fn pairing_product(pairs: &Vec<(G1Affine, G2Affine)>) -> (one: bool)
    ensures
        one == (md(pairing_log(pairs@)) == 0),
{
    let prepared: Vec<_> = pairs.iter().map(|(p, q)| {
        let p = ark_bls12_381::G1Affine::deserialize_unchecked(&p.repr[..]).unwrap();
        let q = ark_bls12_381::G2Affine::deserialize_unchecked(&q.repr[..]).unwrap();
        (p.into(), q.into())
    }).collect();
    ark_bls12_381::Bls12_381::product_of_pairings(prepared.iter()).is_one()
}

/// Whether the product of the pairings of all pairs is one.
pub fn pairing_product_is_one(pairs: &Vec<(G1Affine, G2Affine)>) -> (one: bool)
    ensures
        one == (md(pairing_log(pairs@)) == 0),
{
    pairing_product(pairs)
}

} // verus!
