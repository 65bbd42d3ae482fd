//! Scalars of the BLS12-381 scalar field.
//!
//! The arithmetic is that of `ark_bls12_381::Fr`; a scalar is held here as
//! its canonical little-endian encoding and viewed as an integer below the
//! field order.

use ark_ff::{Field, PrimeField};
use ark_serialize::{CanonicalDeserialize, CanonicalSerialize};
use vstd::arithmetic::power::{lemma_pow_adds, pow};
use vstd::prelude::*;

use crate::generator::{after_scalar, after_scalars, later, scalar_draw, upcoming, words};
use crate::modular::{lemma_md_range, md, modulus};

verus! {

/// The integer whose little-endian base-256 digits are `bytes`.
pub open spec fn le_value(bytes: Seq<u8>) -> int
    decreases bytes.len(),
{
    if bytes.len() == 0 {
        0
    } else {
        bytes[0] as int + 256 * le_value(bytes.drop_first())
    }
}

/// The `len` lowest base-256 digits of `n`, little-endian.
pub open spec fn le_digits(n: int, len: nat) -> Seq<u8>
    decreases len,
{
    if len == 0 {
        Seq::empty()
    } else {
        seq![(n % 256) as u8] + le_digits(n / 256, (len - 1) as nat)
    }
}

/// The number of bytes of an encoded scalar.
pub const FR_BYTES: usize = 32;

/// A scalar, held as the 32 little-endian bytes of its canonical value.
#[derive(Clone, Copy, Debug)]
pub struct Fr {
    pub(crate) repr: [u8; 32],
}

impl View for Fr {
    type V = int;

    closed spec fn view(&self) -> int {
        md(le_value(self.repr@))
    }
}

/// The values of a sequence of scalars.
pub open spec fn values(s: Seq<Fr>) -> Seq<int> {
    Seq::new(s.len(), |i: int| s[i]@)
}

/// `Fr::add` of `ark_ff`: the sum modulo the field order.
#[verifier::external_body]
fn fr_sum(a: &Fr, b: &Fr) -> (c: Fr)
    ensures
        c@ == md(a@ + b@),
{
    let x = ark_bls12_381::Fr::deserialize(&a.repr[..]).unwrap();
    let y = ark_bls12_381::Fr::deserialize(&b.repr[..]).unwrap();
    let mut repr = [0u8; 32];
    (x + y).serialize(&mut repr[..]).unwrap();
    Fr { repr }
}

/// `Fr::sub` of `ark_ff`: the difference modulo the field order.
#[verifier::external_body]
fn fr_difference(a: &Fr, b: &Fr) -> (c: Fr)
    ensures
        c@ == md(a@ - b@),
{
    let x = ark_bls12_381::Fr::deserialize(&a.repr[..]).unwrap();
    let y = ark_bls12_381::Fr::deserialize(&b.repr[..]).unwrap();
    let mut repr = [0u8; 32];
    (x - y).serialize(&mut repr[..]).unwrap();
    Fr { repr }
}

/// `Fr::mul` of `ark_ff`: the product modulo the field order.
#[verifier::external_body]
fn fr_product(a: &Fr, b: &Fr) -> (c: Fr)
    ensures
        c@ == md(a@ * b@),
{
    let x = ark_bls12_381::Fr::deserialize(&a.repr[..]).unwrap();
    let y = ark_bls12_381::Fr::deserialize(&b.repr[..]).unwrap();
    let mut repr = [0u8; 32];
    (x * y).serialize(&mut repr[..]).unwrap();
    Fr { repr }
}

/// `Fr::neg` of `ark_ff`: the additive inverse modulo the field order.
#[verifier::external_body]
fn fr_negated(a: &Fr) -> (c: Fr)
    ensures
        c@ == md(-a@),
{
    let x = ark_bls12_381::Fr::deserialize(&a.repr[..]).unwrap();
    let mut repr = [0u8; 32];
    (-x).serialize(&mut repr[..]).unwrap();
    Fr { repr }
}

/// `Field::inverse` of `ark_ff`: the multiplicative inverse, which exactly
/// the nonzero scalars have.
#[verifier::external_body]
fn fr_inverted(a: &Fr) -> (c: Option<Fr>)
    ensures
        c is Some <==> a@ != 0,
        c matches Some(y) ==> md(y@ * a@) == 1,
{
    let x = ark_bls12_381::Fr::deserialize(&a.repr[..]).unwrap();
    x.inverse().map(|y| {
        let mut repr = [0u8; 32];
        y.serialize(&mut repr[..]).unwrap();
        Fr { repr }
    })
}

/// `Field::pow` of `ark_ff` with an exponent of one limb.
#[verifier::external_body]
fn fr_power(a: &Fr, e: u64) -> (c: Fr)
    ensures
        c@ == md(pow(a@, e as nat)),
{
    let x = ark_bls12_381::Fr::deserialize(&a.repr[..]).unwrap();
    let mut repr = [0u8; 32];
    x.pow([e]).serialize(&mut repr[..]).unwrap();
    Fr { repr }
}

/// `From<u64>` for `ark_bls12_381::Fr`: the scalar with that value.
#[verifier::external_body]
fn fr_of_u64(n: u64) -> (c: Fr)
    ensures
        c@ == n,
{
    let mut repr = [0u8; 32];
    ark_bls12_381::Fr::from(n).serialize(&mut repr[..]).unwrap();
    Fr { repr }
}

/// `PrimeField::from_le_bytes_mod_order` of `ark_ff`: the bytes read as a
/// little-endian integer and reduced.
#[verifier::external_body]
fn fr_of_le_bytes(bytes: &[u8]) -> (c: Fr)
    ensures
        c@ == md(le_value(bytes@)),
{
    let mut repr = [0u8; 32];
    ark_bls12_381::Fr::from_le_bytes_mod_order(bytes).serialize(&mut repr[..]).unwrap();
    Fr { repr }
}

/// `Fr::eq` of `ark_ff`: whether the two values are the same.
#[verifier::external_body]
fn fr_same(a: &Fr, b: &Fr) -> (same: bool)
    ensures
        same == (a@ == b@),
{
    let x = ark_bls12_381::Fr::deserialize(&a.repr[..]).unwrap();
    let y = ark_bls12_381::Fr::deserialize(&b.repr[..]).unwrap();
    x == y
}

/// `CanonicalSerialize::serialize` of `ark_serialize` on a scalar: the 32
/// little-endian bytes of its value.
#[verifier::external_body]
fn fr_encoded(a: &Fr) -> (bytes: Vec<u8>)
    ensures
        bytes@ == le_digits(a@, 32),
{
    let x = ark_bls12_381::Fr::deserialize(&a.repr[..]).unwrap();
    let mut bytes = Vec::new();
    x.serialize(&mut bytes).unwrap();
    bytes
}

/// `bytes` starts with the 32 bytes of a canonical scalar.
pub open spec fn fr_decodable(bytes: Seq<u8>) -> bool {
    bytes.len() >= 32 && le_value(bytes.take(32)) < modulus()
}

/// The text of the error with which decoding a scalar from `bytes` fails.
pub uninterp spec fn fr_decode_error(bytes: Seq<u8>) -> Seq<char>;

/// `CanonicalDeserialize::deserialize` of `ark_serialize` on a scalar: reads
/// 32 bytes and accepts exactly the values below the field order. The error
/// is handed on as its debug text.
#[verifier::external_body]
fn fr_decoded(bytes: &[u8]) -> (r: Result<Fr, String>)
    ensures
        r is Ok <==> fr_decodable(bytes@),
        r matches Ok(x) ==> x@ == le_value(bytes@.take(32)),
        r matches Err(e) ==> e@ == fr_decode_error(bytes@),
{
    match ark_bls12_381::Fr::deserialize(bytes) {
        Ok(x) => {
            let mut repr = [0u8; 32];
            x.serialize(&mut repr[..]).unwrap();
            Ok(Fr { repr })
        }
        Err(e) => Err(format!("{:?}", e)),
    }
}

/// `UniformRand::rand` of `ark_ff`: a scalar that is determined by the words
/// that the generator gives next. It takes as many of them as it needs.
#[verifier::external_body]
fn fr_draw(rng: &mut rand::rngs::StdRng) -> (c: Fr)
    ensures
        c@ == md(scalar_draw(words(*old(rng))).0),
        words(*final(rng)) == after_scalar(words(*old(rng))),
{
    let x: ark_bls12_381::Fr = ark_ff::UniformRand::rand(rng);
    let mut repr = [0u8; 32];
    x.serialize(&mut repr[..]).unwrap();
    Fr { repr }
}

impl PartialEq for Fr {
    fn eq(&self, other: &Fr) -> (same: bool) {
        fr_same(self, other)
    }
}

impl vstd::std_specs::cmp::PartialEqSpecImpl for Fr {
    open spec fn obeys_eq_spec() -> bool {
        true
    }

    open spec fn eq_spec(&self, other: &Fr) -> bool {
        self@ == other@
    }
}

impl Eq for Fr {

}

impl Fr {
    /// The view is a canonical value.
    pub proof fn lemma_range(self)
        ensures
            0 <= self@ < modulus(),
            md(self@) == self@,
    {
        lemma_md_range(le_value(self.repr@));
    }

    pub fn zero() -> (c: Fr)
        ensures
            c@ == 0,
    {
        fr_of_u64(0)
    }

    pub fn one() -> (c: Fr)
        ensures
            c@ == 1,
    {
        fr_of_u64(1)
    }

    pub fn from_u64(n: u64) -> (c: Fr)
        ensures
            c@ == n,
    {
        fr_of_u64(n)
    }

    pub fn from_le_bytes_mod_order(bytes: &[u8]) -> (c: Fr)
        ensures
            c@ == md(le_value(bytes@)),
    {
        fr_of_le_bytes(bytes)
    }

    /// The next scalar of `rng`.
    pub fn rand(rng: &mut rand::rngs::StdRng) -> (c: Fr)
        ensures
            0 <= c@ < modulus(),
            c@ == md(upcoming(*old(rng), 0)),
            later(*old(rng), *final(rng), 1),
    {
        let c = fr_draw(rng);
        proof {
            c.lemma_range();
            reveal_with_fuel(after_scalars, 2);
        }
        c
    }

    pub fn add(self, other: Fr) -> (c: Fr)
        ensures
            c@ == md(self@ + other@),
    {
        fr_sum(&self, &other)
    }

    pub fn sub(self, other: Fr) -> (c: Fr)
        ensures
            c@ == md(self@ - other@),
    {
        fr_difference(&self, &other)
    }

    pub fn mul(self, other: Fr) -> (c: Fr)
        ensures
            c@ == md(self@ * other@),
    {
        fr_product(&self, &other)
    }

    pub fn neg(self) -> (c: Fr)
        ensures
            c@ == md(-self@),
    {
        fr_negated(&self)
    }

    /// The multiplicative inverse, if there is one.
    pub fn inverse(self) -> (c: Option<Fr>)
        ensures
            c is Some <==> self@ != 0,
            c matches Some(y) ==> md(y@ * self@) == 1,
    {
        fr_inverted(&self)
    }

    pub fn pow(self, e: u64) -> (c: Fr)
        ensures
            c@ == md(pow(self@, e as nat)),
    {
        fr_power(&self, e)
    }

    pub fn is_zero(&self) -> (b: bool)
        ensures
            b == (self@ == 0),
    {
        *self == Fr::zero()
    }

    /// The canonical encoding: 32 little-endian bytes.
    pub fn to_bytes(&self) -> (bytes: Vec<u8>)
        ensures
            bytes@ == le_digits(self@, 32),
    {
        fr_encoded(self)
    }

    /// Reads a canonical encoding from the front of `bytes`.
    pub fn from_bytes(bytes: &[u8]) -> (r: Result<Fr, String>)
        ensures
            r is Ok <==> fr_decodable(bytes@),
            r matches Ok(x) ==> x@ == le_value(bytes@.take(32)),
            r matches Err(e) ==> e@ == fr_decode_error(bytes@),
    {
        fr_decoded(bytes)
    }
}

pub proof fn lemma_le_digits_len(n: int, len: nat)
    ensures
        le_digits(n, len).len() == len,
    decreases len,
{
    if len > 0 {
        lemma_le_digits_len(n / 256, (len - 1) as nat);
    }
}

/// Reading back the digits of a number gives the number, if they suffice.
pub proof fn lemma_le_round_trip(n: int, len: nat)
    requires
        0 <= n < pow(256, len),
    ensures
        le_digits(n, len).len() == len,
        le_value(le_digits(n, len)) == n,
    decreases len,
{
    reveal(pow);
    if len > 0 {
        let m = n / 256;
        let p = pow(256, (len - 1) as nat);
        assert(pow(256, len) == 256 * p);
        assert(0 <= m < p);
        lemma_le_round_trip(m, (len - 1) as nat);
        let d = le_digits(n, len);
        assert(d.drop_first() =~= le_digits(m, (len - 1) as nat));
        assert(d[0] == n % 256);
    }
}

/// The modulus is below 2^256.
pub proof fn lemma_modulus_fits()
    ensures
        modulus() < pow(256, 32),
{
    reveal(modulus);
    reveal_with_fuel(pow, 9);
    assert(pow(256, 8) == 0x1_0000_0000_0000_0000int);
    lemma_pow_adds(256, 8, 8);
    lemma_pow_adds(256, 16, 16);
    assert(pow(256, 16) == 0x1_0000_0000_0000_0000int * 0x1_0000_0000_0000_0000int);
    assert(pow(256, 16) == 0x1_0000_0000_0000_0000_0000_0000_0000_0000int);
    let p = pow(256, 16);
    assert(p * p > 0x1_0000_0000_0000_0000_0000_0000_0000_0000int * (p - 1)) by (nonlinear_arith)
        requires
            p == 0x1_0000_0000_0000_0000_0000_0000_0000_0000int,
    ;
}

/// Decoding the encoding of a scalar gives the scalar back.
pub proof fn lemma_fr_round_trip(x: Fr)
    ensures
        le_digits(x@, 32).len() == 32,
        le_digits(x@, 32).take(32) == le_digits(x@, 32),
        le_value(le_digits(x@, 32)) == x@,
        fr_decodable(le_digits(x@, 32)),
{
    x.lemma_range();
    lemma_modulus_fits();
    lemma_le_round_trip(x@, 32);
    assert(le_digits(x@, 32).take(32) =~= le_digits(x@, 32));
}

} // verus!
