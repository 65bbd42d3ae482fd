//! Evaluation domains and polynomials over the scalar field.

use ark_poly::{EvaluationDomain, UVPolynomial};
use ark_serialize::{CanonicalDeserialize, CanonicalSerialize};
use vstd::arithmetic::power::pow;
use vstd::arithmetic::power2::{lemma_pow2_pos, lemma_pow2_unfold, pow2};
use vstd::prelude::*;

use crate::field::{values, Fr};
use crate::labels::clone_scalars;
use crate::modular::{eqm, lemma_md_eqm, md};
use crate::poly_math::{ceq, co, ev, lemma_co_ops, padd, peq, pmul, pscale, psub};
use crate::roots::primitive;

verus! {

// ---- powers of two --------------------------------------------------------

/// `n` is a power of two.
pub open spec fn power_of_two(n: int) -> bool {
    exists|k: nat| n == #[trigger] pow2(k)
}

/// The exponent of a power of two, or `None` for any other number.
pub fn exact_log2(n: usize) -> (r: Option<u32>)
    ensures
        r is Some <==> power_of_two(n as int),
        r matches Some(k) ==> n == pow2(k as nat) && k < 64,
{
    if n == 0 {
        proof {
            assert forall|k: nat| n != #[trigger] pow2(k) by {
                lemma_pow2_pos(k);
            }
        }
        return None;
    }
    let mut m: usize = n;
    let mut k: u32 = 0;
    proof {
        vstd::arithmetic::power2::lemma2_to64();
        lemma_fits64(n);
    }
    while m % 2 == 0
        invariant
            m > 0,
            n as int == m * pow2(k as nat),
            n as int <= 0xffff_ffff_ffff_ffff,
            k < 64,
        decreases m,
    {
        proof {
            lemma_pow2_unfold((k + 1) as nat);
            let p = pow2(k as nat) as int;
            let h = m as int / 2;
            assert(m * p == h * (2 * p)) by (nonlinear_arith)
                requires
                    m == 2 * h,
            ;
            if k == 63 {
                vstd::arithmetic::power2::lemma2_to64_rest();
                vstd::arithmetic::power2::lemma2_to64();
                assert(h * (2 * p) >= 2 * p) by (nonlinear_arith)
                    requires
                        h >= 1,
                        p > 0,
                ;
            }
        }
        m = m / 2;
        k = k + 1;
    }
    if m == 1 {
        Some(k)
    } else {
        proof {
            assert forall|j: nat| n != #[trigger] pow2(j) by {
                lemma_odd_multiple(m as int, k as nat, j);
            }
        }
        None
    }
}

proof fn lemma_fits64(n: usize)
    ensures
        n as int <= 0xffff_ffff_ffff_ffff,
{
    assert(n <= 0xffff_ffff_ffff_ffff) by (bit_vector);
}

/// A power of two has no odd factor above one.
proof fn lemma_odd_multiple(m: int, k: nat, j: nat)
    requires
        m % 2 == 1,
        m > 1,
    ensures
        m * pow2(k) != pow2(j),
    decreases k + j,
{
    lemma_pow2_pos(k);
    if j == 0 {
        vstd::arithmetic::power2::lemma2_to64();
        assert(m * pow2(k) > 1) by (nonlinear_arith)
            requires
                m > 1,
                pow2(k) >= 1,
        ;
    } else if k == 0 {
        vstd::arithmetic::power2::lemma2_to64();
        lemma_pow2_unfold(j);
        assert(m * 1 == m);
    } else {
        lemma_pow2_unfold(j);
        lemma_pow2_unfold(k);
        lemma_odd_multiple(m, (k - 1) as nat, (j - 1) as nat);
        let p = pow2((k - 1) as nat) as int;
        assert(m * (2 * p) == 2 * (m * p)) by (nonlinear_arith);
    }
}

// ---- evaluation domains ---------------------------------------------------

/// The generator of the evaluation domain with `n` elements.
pub uninterp spec fn domain_generator(n: int) -> int;

/// `GeneralEvaluationDomain::new` and `element` of `ark_poly`: for a power of
/// two up to `2^32` there is a domain of exactly that size, and its element
/// with index 1 is a primitive root of unity of that order.
#[verifier::external_body]
fn domain_first_element(n: usize) -> (r: Option<Fr>)
    requires
        power_of_two(n as int),
    ensures
        r is Some <==> n <= 0x1_0000_0000,
        r matches Some(g) ==> g@ == md(domain_generator(n as int)),
        r matches Some(g) ==> forall|k: nat| n == pow2(k) ==> #[trigger] primitive(g@, k),
{
    ark_poly::GeneralEvaluationDomain::<ark_bls12_381::Fr>::new(n).map(|domain| {
        let mut repr = [0u8; 32];
        domain.element(1).serialize(&mut repr[..]).unwrap();
        Fr { repr }
    })
}

/// The multiplicative subgroup of the scalar field with `2^log_size` elements.
#[derive(Clone, Copy, Debug)]
pub struct GeneralEvaluationDomain {
    size: usize,
    log_size: u32,
    group_gen: Fr,
}

impl GeneralEvaluationDomain {
    pub closed spec fn spec_size(&self) -> int {
        self.size as int
    }

    pub closed spec fn spec_log(&self) -> nat {
        self.log_size as nat
    }

    /// The value of the generator.
    pub closed spec fn gen(&self) -> int {
        self.group_gen@
    }

    /// The size is a power of two, and the generator is the domain's.
    pub open spec fn wf(&self) -> bool {
        &&& self.spec_size() == pow2(self.spec_log())
        &&& 1 <= self.spec_size() <= 0x1_0000_0000
        &&& self.gen() == md(domain_generator(self.spec_size()))
        &&& primitive(self.gen(), self.spec_log())
    }

    /// The domain with `n` elements, if `n` is a power of two and not too large.
    pub fn new(n: usize) -> (r: Option<GeneralEvaluationDomain>)
        ensures
            r is Some <==> power_of_two(n as int) && n <= 0x1_0000_0000,
            r matches Some(d) ==> d.wf() && d.spec_size() == n,
    {
        match exact_log2(n) {
            Some(log_size) => {
                proof {
                    lemma_pow2_pos(log_size as nat);
                }
                match domain_first_element(n) {
                    Some(group_gen) => {
                        proof {
                            assert(primitive(group_gen@, log_size as nat));
                        }
                        Some(GeneralEvaluationDomain { size: n, log_size, group_gen })
                    },
                    None => None,
                }
            },
            None => None,
        }
    }

    pub fn size(&self) -> (n: usize)
        ensures
            n == self.spec_size(),
    {
        self.size
    }

    pub fn log_size(&self) -> (k: u32)
        ensures
            k == self.spec_log(),
    {
        self.log_size
    }

    /// The element with index `i`: the `i`-th power of the generator.
    pub fn element(&self, i: usize) -> (x: Fr)
        ensures
            x@ == md(pow(self.gen(), i as nat)),
    {
        self.group_gen.pow(i as u64)
    }
}

// ---- polynomials ----------------------------------------------------------

/// All coefficients reduced modulo the field order.
pub open spec fn reduced(p: Seq<int>) -> Seq<int> {
    Seq::new(p.len(), |k: int| md(p[k]))
}

/// A polynomial, given by its coefficients, lowest degree first.
#[derive(Debug)]
pub struct DensePolynomial {
    pub coeffs: Vec<Fr>,
}

impl View for DensePolynomial {
    type V = Seq<int>;

    open spec fn view(&self) -> Seq<int> {
        values(self.coeffs@)
    }
}

/// The leading coefficient, if there is one, is not zero.
pub open spec fn trimmed(coeffs: Seq<Fr>) -> bool {
    coeffs.len() > 0 ==> coeffs.last()@ != 0
}

/// `s` holds the coefficients of `p`, reduced and without leading zeros.
pub open spec fn represents(s: Seq<Fr>, p: Seq<int>) -> bool {
    trimmed(s) && ceq(values(s), reduced(p))
}

pub proof fn lemma_represents(s: Seq<Fr>, p: Seq<int>)
    requires
        represents(s, p),
    ensures
        peq(values(s), p),
        s.len() <= p.len(),
{
    assert forall|k: int| eqm(#[trigger] co(values(s), k), co(p, k)) by {
        assert(co(values(s), k) == co(reduced(p), k));
        lemma_md_eqm(co(p, k));
    }
    if s.len() > p.len() {
        let k = s.len() - 1;
        assert(co(values(s), k) == co(reduced(p), k));
    }
}

/// `DensePolynomial::mul` of `ark_poly`, by fast Fourier transform: the
/// product. It needs an evaluation domain of the size of both factors.
#[verifier::external_body]
fn fft_product(a: &Vec<Fr>, b: &Vec<Fr>) -> (c: Vec<Fr>)
    requires
        a@.len() + b@.len() <= 0x1_0000_0000,
    ensures
        represents(c@, pmul(values(a@), values(b@))),
{
    let p = a.iter().map(|x| ark_bls12_381::Fr::deserialize(&x.repr[..]).unwrap()).collect();
    let q = b.iter().map(|x| ark_bls12_381::Fr::deserialize(&x.repr[..]).unwrap()).collect();
    let p = ark_poly::univariate::DensePolynomial::from_coefficients_vec(p);
    let q = ark_poly::univariate::DensePolynomial::from_coefficients_vec(q);
    (&p * &q).coeffs.iter().map(|x| {
        let mut repr = [0u8; 32];
        x.serialize(&mut repr[..]).unwrap();
        Fr { repr }
    }).collect()
}

/// `DensePolynomial::naive_mul` of `ark_poly`: the product, for factors of
/// any size.
#[verifier::external_body]
fn naive_product(a: &Vec<Fr>, b: &Vec<Fr>) -> (c: Vec<Fr>)
    ensures
        represents(c@, pmul(values(a@), values(b@))),
{
    let p = a.iter().map(|x| ark_bls12_381::Fr::deserialize(&x.repr[..]).unwrap()).collect();
    let q = b.iter().map(|x| ark_bls12_381::Fr::deserialize(&x.repr[..]).unwrap()).collect();
    let p = ark_poly::univariate::DensePolynomial::from_coefficients_vec(p);
    let q = ark_poly::univariate::DensePolynomial::from_coefficients_vec(q);
    p.naive_mul(&q).coeffs.iter().map(|x| {
        let mut repr = [0u8; 32];
        x.serialize(&mut repr[..]).unwrap();
        Fr { repr }
    }).collect()
}

/// `p` takes the given values at the elements of the domain, in order.
pub open spec fn interpolates(p: Seq<int>, vals: Seq<int>, generator: int) -> bool {
    forall|i: int| 0 <= i < vals.len() ==> eqm(ev(p, pow(generator, i as nat)), #[trigger] vals[i])
}

/// `Evaluations::interpolate` of `ark_poly`: the polynomial with fewer
/// coefficients than the domain has elements, or as many, that takes the
/// given value at each element.
#[verifier::external_body]
fn interpolation(vals: &Vec<Fr>) -> (c: Vec<Fr>)
    requires
        power_of_two(vals@.len() as int),
        vals@.len() <= 0x1_0000_0000,
    ensures
        trimmed(c@),
        c@.len() <= vals@.len(),
        interpolates(values(c@), values(vals@), md(domain_generator(vals@.len() as int))),
{
    let v: Vec<_> =
        vals.iter().map(|x| ark_bls12_381::Fr::deserialize(&x.repr[..]).unwrap()).collect();
    let domain = ark_poly::GeneralEvaluationDomain::new(v.len()).unwrap();
    let p = ark_poly::Evaluations::from_vec_and_domain(v, domain).interpolate();
    p.coeffs.iter().map(|x| {
        let mut repr = [0u8; 32];
        x.serialize(&mut repr[..]).unwrap();
        Fr { repr }
    }).collect()
}

impl Clone for DensePolynomial {
    fn clone(&self) -> (r: DensePolynomial)
        ensures
            r.coeffs@ == self.coeffs@,
    {
        DensePolynomial { coeffs: clone_scalars(&self.coeffs) }
    }
}

impl DensePolynomial {
    pub open spec fn wf(&self) -> bool {
        trimmed(self.coeffs@)
    }

    /// The polynomial with these coefficients, leading zeros dropped.
    pub fn from_coefficients_vec(coeffs: Vec<Fr>) -> (p: DensePolynomial)
        ensures
            p.wf(),
            ceq(p@, values(coeffs@)),
            p@.len() <= coeffs@.len(),
            p.coeffs@ == coeffs@.take(p.coeffs@.len() as int),
    {
        let mut c = coeffs;
        let ghost start = c@;
        while c.len() > 0 && c[c.len() - 1].is_zero()
            invariant
                c@.len() <= start.len(),
                c@ == start.take(c@.len() as int),
                ceq(values(c@), values(start)),
            decreases c.len(),
        {
            let ghost before = c@;
            c.pop();
            proof {
                assert(c@ =~= start.take(c@.len() as int));
                assert forall|k: int| #[trigger] co(values(c@), k) == co(values(start), k) by {
                    assert(co(values(before), k) == co(values(start), k));
                }
            }
        }
        DensePolynomial { coeffs: c }
    }

    pub fn zero() -> (p: DensePolynomial)
        ensures
            p.wf(),
            p@ == Seq::<int>::empty(),
    {
        let p = DensePolynomial { coeffs: Vec::new() };
        proof {
            assert(p@ =~= Seq::<int>::empty());
        }
        p
    }

    /// The polynomial that is constantly `c`.
    pub fn constant(c: Fr) -> (p: DensePolynomial)
        ensures
            p.wf(),
            ceq(p@, seq![c@]),
            p@.len() <= 1,
    {
        let coeffs: Vec<Fr> = vec![c];
        proof {
            assert(values(coeffs@) =~= seq![c@]);
        }
        DensePolynomial::from_coefficients_vec(coeffs)
    }

    /// Whether all coefficients are zero.
    pub fn is_zero(&self) -> (b: bool)
        requires
            self.wf(),
        ensures
            b == (self@.len() == 0),
    {
        self.coeffs.len() == 0
    }

    /// The degree; zero for the zero polynomial.
    pub fn degree(&self) -> (d: usize)
        requires
            self.wf(),
        ensures
            d == if self@.len() == 0 {
                0
            } else {
                self@.len() - 1
            },
    {
        if self.coeffs.len() == 0 {
            0
        } else {
            self.coeffs.len() - 1
        }
    }

    pub fn add(&self, other: &DensePolynomial) -> (r: DensePolynomial)
        ensures
            represents(r.coeffs@, padd(self@, other@)),
    {
        let n = if self.coeffs.len() >= other.coeffs.len() {
            self.coeffs.len()
        } else {
            other.coeffs.len()
        };
        let mut c: Vec<Fr> = Vec::new();
        let mut i: usize = 0;
        let ghost want = reduced(padd(self@, other@));
        while i < n
            invariant
                i <= n,
                n == padd(self@, other@).len(),
                want == reduced(padd(self@, other@)),
                c@.len() == i,
                forall|j: int| 0 <= j < i ==> (#[trigger] c@[j])@ == want[j],
            decreases n - i,
        {
            let x = if i < self.coeffs.len() {
                if i < other.coeffs.len() {
                    self.coeffs[i].add(other.coeffs[i])
                } else {
                    self.coeffs[i]
                }
            } else {
                other.coeffs[i]
            };
            proof {
                if i < self.coeffs.len() {
                    self.coeffs@[i as int].lemma_range();
                }
                if i < other.coeffs.len() {
                    other.coeffs@[i as int].lemma_range();
                }
                assert(x@ == want[i as int]);
            }
            c.push(x);
            i += 1;
        }
        proof {
            assert(values(c@) =~= want);
        }
        DensePolynomial::from_coefficients_vec(c)
    }

    pub fn sub(&self, other: &DensePolynomial) -> (r: DensePolynomial)
        ensures
            represents(r.coeffs@, psub(self@, other@)),
    {
        let n = if self.coeffs.len() >= other.coeffs.len() {
            self.coeffs.len()
        } else {
            other.coeffs.len()
        };
        let mut c: Vec<Fr> = Vec::new();
        let mut i: usize = 0;
        let ghost want = reduced(psub(self@, other@));
        while i < n
            invariant
                i <= n,
                n == psub(self@, other@).len(),
                want == reduced(psub(self@, other@)),
                c@.len() == i,
                forall|j: int| 0 <= j < i ==> (#[trigger] c@[j])@ == want[j],
            decreases n - i,
        {
            let x = if i < self.coeffs.len() {
                if i < other.coeffs.len() {
                    self.coeffs[i].sub(other.coeffs[i])
                } else {
                    self.coeffs[i]
                }
            } else {
                other.coeffs[i].neg()
            };
            proof {
                lemma_co_ops(self@, other@, 0, 0, i as int);
                if i < self.coeffs.len() {
                    self.coeffs@[i as int].lemma_range();
                }
                assert(x@ == want[i as int]);
            }
            c.push(x);
            i += 1;
        }
        proof {
            assert(values(c@) =~= want);
        }
        DensePolynomial::from_coefficients_vec(c)
    }

    /// The polynomial times a scalar.
    pub fn scale(&self, k: Fr) -> (r: DensePolynomial)
        ensures
            represents(r.coeffs@, pscale(k@, self@)),
    {
        let mut c: Vec<Fr> = Vec::new();
        let mut i: usize = 0;
        let ghost want = reduced(pscale(k@, self@));
        while i < self.coeffs.len()
            invariant
                i <= self.coeffs.len(),
                want == reduced(pscale(k@, self@)),
                c@.len() == i,
                forall|j: int| 0 <= j < i ==> (#[trigger] c@[j])@ == want[j],
            decreases self.coeffs.len() - i,
        {
            let x = k.mul(self.coeffs[i]);
            c.push(x);
            i += 1;
        }
        proof {
            assert(values(c@) =~= want);
        }
        DensePolynomial::from_coefficients_vec(c)
    }

    pub fn mul(&self, other: &DensePolynomial) -> (r: DensePolynomial)
        ensures
            represents(r.coeffs@, pmul(self@, other@)),
    {
        if self.coeffs.len() <= 0x4000_0000 && other.coeffs.len() <= 0x4000_0000 {
            DensePolynomial { coeffs: fft_product(&self.coeffs, &other.coeffs) }
        } else {
            DensePolynomial { coeffs: naive_product(&self.coeffs, &other.coeffs) }
        }
    }

    /// The polynomial that takes the given values at the elements of the domain.
    pub fn interpolate(vals: &Vec<Fr>, domain: &GeneralEvaluationDomain) -> (r: DensePolynomial)
        requires
            domain.wf(),
            vals@.len() == domain.spec_size(),
        ensures
            r.wf(),
            r@.len() <= domain.spec_size(),
            interpolates(r@, values(vals@), domain.gen()),
    {
        DensePolynomial { coeffs: interpolation(vals) }
    }
}

} // verus!
