//! The proof of partition, for a vector of voter and padding tokens.
//!
//! A proof convinces a verifier that the vector behind a commitment is split
//! into disjoint subsets with public labels and public sizes, which together
//! cover the domain. So the public sizes are a correct tally.
//!
//! A label is the index of a domain element. Partition `j` has label index
//! `j + 1`; with a domain larger than the number of partitions the labels are
//! distinct. Empty partitions are dropped by prover and verifier alike.

use vstd::arithmetic::power::pow;
use vstd::arithmetic::power2::pow2;
use vstd::prelude::*;

use crate::clock::{elapsed_millis, moment};
use crate::curve::{g1_logs, g2_logs, G1Affine, G2Affine};
use crate::domain::{lagrange_basis, law_lagrange_commitment, lagrange_basis_commitments};
use crate::epa::kzg_helpers::{
    commit_log, g1_commit, get_powers, law_commitment_is_value, setup_base_g1, setup_base_g2,
    setup_params,
};
use crate::epa::completeness::{
    flat, law_honest_proof_accepted, lemma_partition_lists, lemma_partition_reordered,
    lemma_prefix_len, partition, sizes_match,
};
use crate::epa::partition_math::{distinct_below, product};
use crate::epa::prover::{
    drawn_r, generate_proof, honest_proof, index_lists, indices, proof_drawn, proof_made, provable, witness_fits,
};
use crate::epa::verify::{accepted, shape_ok, statement, verify_proof, Statement};
use crate::epa::structs::{
    structured_powers, CommonInputs, Proof, ProofView, PublicParameters, Round1Proof, Round1View,
    Witness,
};
use crate::fft_math::dft;
use crate::error::{fails_with, AggiosError, ErrorView, Result};
use crate::field::{values, Fr};
use crate::generator::{test_scalar, thread_seeded_rng};
use crate::labels::clone_scalars;
use crate::modular::{
    eqm, lemma_eqm_cancel, lemma_md_eqm, lemma_md_range, lemma_modulus, md,
};
use crate::proof_bytes::{
    law_list_round_trip, lemma_list_cut, lemma_point_cut, lemma_point_round_trip, list_bytes, logs, read_list_spec, read_one,
    read_point_spec, read_vec, readable, write_point, write_vec, PointBytes, MAX_COUNT,
};
use crate::poly::{exact_log2, interpolates, power_of_two, DensePolynomial, GeneralEvaluationDomain};
use crate::sorting::{ascending, sorted_copy};
use crate::sums::{lemma_sum_ext, sum};
use crate::text::{cat2, cat3, cat4, decimal, decimal_text, wide_decimal_text};

verus! {

pub const EPA_PROOF_FORMAT_VERSION: u8 = 1;

pub const EPA_BACKEND_ID: &'static str = "epa-kzg10-bls12-381-arkworks-0.3";

/// The parameters for one domain size.
///
/// They come from a generator with a fixed seed, so that provers and
/// validators arrive at the same ones. That is for demonstrations only: a
/// deployment needs a setup whose secret nobody knows.
pub struct SrsBundle {
    pub pp: PublicParameters,
    pub srs_ref: String,
    /// The commitments to the Lagrange basis.
    pub lagrange_g1: Vec<G1Affine>,
}

/// The reference to the parameters for domain size `n`.
pub open spec fn srs_ref_text(n: int) -> Seq<char> {
    EPA_BACKEND_ID@ + ";deterministic-test-rng;n="@ + decimal(n)
}

impl SrsBundle {
    pub open spec fn spec_size(&self) -> int {
        self.pp.domain.spec_size()
    }

    /// The powers are those of the setup for this size, and the basis is that
    /// of the domain.
    pub open spec fn wf(&self) -> bool {
        let n = self.spec_size();
        &&& self.pp.wf()
        &&& n >= 2
        &&& self.pp.structured(setup_base_g1(), md(setup_base_g2()), test_scalar(0))
        &&& self.srs_ref@ == srs_ref_text(n)
        &&& lagrange_basis(
            g1_logs(self.lagrange_g1@),
            g1_logs(self.pp.poly_ck.powers_of_g@),
            self.pp.domain.gen(),
            n,
        )
    }

    pub fn domain_size(&self) -> (n: usize)
        ensures
            n == self.spec_size(),
    {
        self.pp.domain.size()
    }

    /// The commitments to the Lagrange basis.
    pub fn lagrange_basis(&self) -> (basis: &Vec<G1Affine>)
        ensures
            *basis == self.lagrange_g1,
    {
        &self.lagrange_g1
    }
}

pub fn srs_ref_for(n: usize) -> (r: String)
    ensures
        r@ == srs_ref_text(n as int),
{
    cat3(EPA_BACKEND_ID, ";deterministic-test-rng;n=", decimal_text(n as u64).as_str())
}

/// The message for a size that is no power of two.
pub open spec fn not_power_of_two_text(n: int) -> Seq<char> {
    "EPA requires a power-of-two domain size, got "@ + decimal(n)
}

/// The message for a size beyond the largest domain.
pub open spec fn no_domain_text(n: int) -> Seq<char> {
    "no evaluation domain of size "@ + decimal(n)
}

/// The parameters for domain size `n`. The smallest domain has two elements.
pub fn get_or_create_srs(n: usize) -> (r: Result<SrsBundle>)
    requires
        n != 1,
    ensures
        r is Ok <==> power_of_two(n as int) && n <= 0x1_0000_0000,
        r matches Ok(b) ==> b.wf() && b.spec_size() == n,
        r matches Err(e) ==> (e matches AggiosError::Domain(m) && m@ == if power_of_two(n as int) {
            no_domain_text(n as int)
        } else {
            not_power_of_two_text(n as int)
        }),
{
    if exact_log2(n).is_none() {
        return Err(
            AggiosError::Domain(
                cat2(
                    "EPA requires a power-of-two domain size, got ",
                    decimal_text(n as u64).as_str(),
                ),
            ),
        );
    }
    let domain = match GeneralEvaluationDomain::new(n) {
        Some(domain) => domain,
        None => {
            return Err(
                AggiosError::Domain(
                    cat2("no evaluation domain of size ", decimal_text(n as u64).as_str()),
                ),
            );
        },
    };
    match setup_params(n) {
        Ok(srs) => {
            let (poly_ck, g2_powers) = get_powers(&srs, n);
            let pp = PublicParameters { poly_ck, g2_powers, domain, max_degree: n };
            let lagrange_g1 = lagrange_basis_commitments(&pp.poly_ck.powers_of_g, &pp.domain);
            proof {
                assert(srs.powers_of_g@.take(n + 1) =~= srs.powers_of_g@);
            }
            Ok(SrsBundle { pp, srs_ref: srs_ref_for(n), lagrange_g1 })
        },
        Err(e) => Err(AggiosError::Epa(cat2("KZG setup failed: ", e.as_str()))),
    }
}

/// Two lists of points with congruent logarithms have the same logarithms.
proof fn lemma_same_logs(a: Seq<int>, b: Seq<int>, base: int, tau: int)
    requires
        a.len() == b.len(),
        structured_powers(a, base, tau),
        structured_powers(b, base, tau),
        forall|i: int| 0 <= i < a.len() ==> md(#[trigger] a[i]) == a[i],
        forall|i: int| 0 <= i < b.len() ==> md(#[trigger] b[i]) == b[i],
    ensures
        a == b,
{
    assert forall|i: int| 0 <= i < a.len() implies a[i] == b[i] by {
        assert(eqm(a[i], base * pow(tau, i as nat)));
        assert(eqm(b[i], base * pow(tau, i as nat)));
    }
    assert(a =~= b);
}

proof fn lemma_g1_reduced(s: Seq<G1Affine>)
    ensures
        forall|i: int| 0 <= i < s.len() ==> md(#[trigger] g1_logs(s)[i]) == g1_logs(s)[i],
{
    assert forall|i: int| 0 <= i < s.len() implies md(#[trigger] g1_logs(s)[i]) == g1_logs(s)[i] by {
        s[i].lemma_range();
    }
}

proof fn lemma_g2_reduced(s: Seq<G2Affine>)
    ensures
        forall|i: int| 0 <= i < s.len() ==> md(#[trigger] g2_logs(s)[i]) == g2_logs(s)[i],
{
    assert forall|i: int| 0 <= i < s.len() implies md(#[trigger] g2_logs(s)[i]) == g2_logs(s)[i] by {
        s[i].lemma_range();
    }
}

/// The parameters hold the same values.
pub open spec fn same_srs(a: &SrsBundle, b: &SrsBundle) -> bool {
    &&& g1_logs(a.pp.poly_ck.powers_of_g@) == g1_logs(b.pp.poly_ck.powers_of_g@)
    &&& g2_logs(a.pp.g2_powers@) == g2_logs(b.pp.g2_powers@)
    &&& g1_logs(a.lagrange_g1@) == g1_logs(b.lagrange_g1@)
    &&& a.pp.domain.gen() == b.pp.domain.gen()
    &&& a.pp.max_degree == b.pp.max_degree
    &&& a.srs_ref@ == b.srs_ref@
}

/// All parameters for one domain size are the same: provers and validators
/// that derive them independently agree.
pub proof fn law_srs_deterministic(a: &SrsBundle, b: &SrsBundle)
    requires
        a.wf(),
        b.wf(),
        a.spec_size() == b.spec_size(),
    ensures
        same_srs(a, b),
{
    let n = a.spec_size();
    let (g, h, tau) = (setup_base_g1(), md(setup_base_g2()), test_scalar(0));
    let (p, q) = (g1_logs(a.pp.poly_ck.powers_of_g@), g1_logs(b.pp.poly_ck.powers_of_g@));
    lemma_g1_reduced(a.pp.poly_ck.powers_of_g@);
    lemma_g1_reduced(b.pp.poly_ck.powers_of_g@);
    lemma_same_logs(p, q, g, tau);
    lemma_g2_reduced(a.pp.g2_powers@);
    lemma_g2_reduced(b.pp.g2_powers@);
    lemma_same_logs(g2_logs(a.pp.g2_powers@), g2_logs(b.pp.g2_powers@), h, tau);
    let (x, y) = (g1_logs(a.lagrange_g1@), g1_logs(b.lagrange_g1@));
    lemma_g1_reduced(a.lagrange_g1@);
    lemma_g1_reduced(b.lagrange_g1@);
    let k = a.pp.domain.spec_log();
    crate::fft_math::lemma_pow2_unit(k);
    let u = choose|u: int| eqm(#[trigger] (u * (pow2(k) as int)), 1);
    assert forall|i: int| 0 <= i < x.len() implies x[i] == y[i] by {
        let d = dft(p.take(n), pow(a.pp.domain.gen(), (n - 1) as nat), i);
        assert(eqm(n * x[i], d));
        assert(eqm(n * y[i], d));
        lemma_eqm_cancel(u, n, x[i], y[i]);
    }
    assert(x =~= y);
}

/// The parameters for a domain size.
pub open spec fn srs(n: int) -> SrsBundle {
    choose|b: SrsBundle| #[trigger] b.wf() && b.spec_size() == n
}

/// Any parameters for a size are the parameters for that size.
pub proof fn lemma_srs(b: &SrsBundle)
    requires
        b.wf(),
    ensures
        srs(b.spec_size()).wf(),
        srs(b.spec_size()).spec_size() == b.spec_size(),
        same_srs(b, &srs(b.spec_size())),
{
    law_srs_deterministic(b, &srs(b.spec_size()));
}

/// The public side of a proof.
#[derive(Clone, Debug)]
pub struct EpaPublicInput {
    pub election_id: String,
    pub aggregator_id: String,
    pub domain_size: usize,
    /// The commitment to the token vector.
    pub commitment_c: G1Affine,
    /// The labels of the partitions: candidates in display order, then those
    /// for no vote and for padding.
    pub labels: Vec<Fr>,
    /// The indices of the domain elements that stand for the labels.
    pub label_indices: Vec<usize>,
    /// The claimed sizes, in the order of the labels.
    pub sizes: Vec<usize>,
    /// The reference to the parameters.
    pub srs_ref: String,
}

/// The public side of a proof, as values.
#[verifier::ext_equal]
pub struct InputView {
    pub election_id: Seq<char>,
    pub aggregator_id: Seq<char>,
    pub domain_size: usize,
    pub commitment_c: int,
    pub labels: Seq<int>,
    pub label_indices: Seq<usize>,
    pub sizes: Seq<usize>,
    pub srs_ref: Seq<char>,
}

impl View for EpaPublicInput {
    type V = InputView;

    open spec fn view(&self) -> InputView {
        InputView {
            election_id: self.election_id@,
            aggregator_id: self.aggregator_id@,
            domain_size: self.domain_size,
            commitment_c: self.commitment_c@,
            labels: values(self.labels@),
            label_indices: self.label_indices@,
            sizes: self.sizes@,
            srs_ref: self.srs_ref@,
        }
    }
}

/// The total of the first `count` sizes.
pub open spec fn size_total(sizes: Seq<usize>, count: int) -> int
    decreases count,
{
    if count <= 0 {
        0
    } else {
        size_total(sizes, count - 1) + sizes[count - 1]
    }
}

/// The total of some sizes.
pub fn total_of(sizes: &Vec<usize>) -> (total: u128)
    ensures
        total == size_total(sizes@, sizes@.len() as int),
{
    let mut total: u128 = 0;
    let mut i: usize = 0;
    while i < sizes.len()
        invariant
            i <= sizes.len(),
            total == size_total(sizes@, i as int),
            total <= i * 0xffff_ffff_ffff_ffffu64,
        decreases sizes.len() - i,
    {
        assert(i * 0xffff_ffff_ffff_ffffu64 + 0xffff_ffff_ffff_ffffu64 <= u128::MAX)
            by (nonlinear_arith)
            requires
                i <= 0xffff_ffff_ffff_ffff,
        ;
        total = total + sizes[i] as u128;
        i += 1;
    }
    total
}

/// The first thing that is wrong with the first `count` label indices.
pub open spec fn label_index_error(indices: Seq<usize>, n: int, count: int) -> Option<Seq<char>>
    decreases count,
{
    if count <= 0 {
        None
    } else {
        let idx = indices[count - 1];
        match label_index_error(indices, n, count - 1) {
            Some(e) => Some(e),
            None => if idx == 0 || idx >= n {
                Some("label index "@ + decimal(idx as int) + " out of range 1.."@ + decimal(n))
            } else if indices.take(count - 1).contains(idx) {
                Some("duplicate label index "@ + decimal(idx as int))
            } else {
                None
            },
        }
    }
}

/// What is wrong with a public input for parameters of domain size `n`.
pub open spec fn input_error(input: InputView, n: int) -> Option<Seq<char>> {
    let total = size_total(input.sizes, input.sizes.len() as int);
    if input.domain_size != n {
        Some(
            "domain_size "@ + decimal(input.domain_size as int) + " does not match SRS domain "@
                + decimal(n),
        )
    } else if input.labels.len() != input.sizes.len() || input.labels.len()
        != input.label_indices.len() {
        Some("labels, label_indices and sizes must have equal length"@)
    } else if input.labels.len() == 0 {
        Some("at least one partition required"@)
    } else if total != input.domain_size {
        Some(
            "partition sizes sum to "@ + decimal(total) + " but domain size is "@ + decimal(
                input.domain_size as int,
            ),
        )
    } else {
        label_index_error(input.label_indices, n, input.label_indices.len() as int)
    }
}

/// An error of this module.
pub open spec fn epa_error(m: Option<Seq<char>>) -> Option<ErrorView> {
    match m {
        Some(t) => Some(ErrorView::Epa(t)),
        None => None,
    }
}

/// The positions with a positive size among the first `count`.
pub open spec fn kept(sizes: Seq<usize>, count: int) -> Seq<int>
    decreases count,
{
    if count <= 0 {
        Seq::empty()
    } else if sizes[count - 1] > 0 {
        kept(sizes, count - 1).push(count - 1)
    } else {
        kept(sizes, count - 1)
    }
}

/// The positions of the partitions that are not empty.
pub open spec fn kept_positions(sizes: Seq<usize>) -> Seq<int> {
    kept(sizes, sizes.len() as int)
}

/// The entries at the given positions.
pub open spec fn selected<T>(s: Seq<T>, positions: Seq<int>) -> Seq<T> {
    Seq::new(positions.len(), |i: int| s[positions[i]])
}

pub proof fn lemma_kept(sizes: Seq<usize>, count: int)
    requires
        0 <= count <= sizes.len(),
    ensures
        kept(sizes, count).len() <= count,
        forall|i: int|
            0 <= i < kept(sizes, count).len() ==> 0 <= #[trigger] kept(sizes, count)[i] < count
                && sizes[kept(sizes, count)[i]] > 0,
        size_total(sizes, count) > 0 ==> kept(sizes, count).len() > 0,
        size_total(sizes, count) >= 0,
    decreases count,
{
    if count > 0 {
        lemma_kept(sizes, count - 1);
    }
}

/// The inputs are those of the partitions that are not empty.
pub open spec fn common_of(input: InputView, c: &CommonInputs) -> bool {
    let positions = kept_positions(input.sizes);
    &&& c.c_comm@ == input.commitment_c
    &&& c.vote_per_j@ == selected(input.label_indices, positions)
    &&& c.subsets_sizes@ == selected(input.sizes, positions)
}

/// The label indices for `k` partitions: 1, 2, and so on.
pub open spec fn label_numbers(k: int) -> Seq<usize> {
    Seq::new(k as nat, |j: int| (j + 1) as usize)
}

impl EpaPublicInput {
    /// The label indices for a number of partitions: 1, 2, and so on.
    pub fn canonical_label_indices(num_partitions: usize) -> (r: Vec<usize>)
        ensures
            r@ == label_numbers(num_partitions as int),
    {
        let mut r: Vec<usize> = Vec::new();
        let mut j: usize = 0;
        while j < num_partitions
            invariant
                j <= num_partitions,
                r@.len() == j,
                forall|i: int| 0 <= i < j ==> #[trigger] r@[i] == i + 1,
            decreases num_partitions - j,
        {
            j += 1;
            r.push(j);
        }
        proof {
            assert(r@ =~= label_numbers(num_partitions as int));
        }
        r
    }

    /// Whether the label index at `pos` occurs before.
    fn repeated_label(&self, pos: usize) -> (found: bool)
        requires
            pos < self.label_indices@.len(),
        ensures
            found == self.label_indices@.take(pos as int).contains(self.label_indices@[pos as int]),
    {
        let idx = self.label_indices[pos];
        let ghost before = self.label_indices@.take(pos as int);
        let mut i: usize = 0;
        while i < pos
            invariant
                i <= pos,
                pos < self.label_indices@.len(),
                idx == self.label_indices@[pos as int],
                before == self.label_indices@.take(pos as int),
                forall|j: int| 0 <= j < i ==> #[trigger] before[j] != idx,
            decreases pos - i,
        {
            if self.label_indices[i] == idx {
                assert(before[i as int] == idx);
                return true;
            }
            i += 1;
        }
        false
    }

    /// Checks a public input against the parameters.
    fn validate(&self, bundle: &SrsBundle) -> (r: Result<()>)
        ensures
            fails_with(r, epa_error(input_error(self@, bundle.spec_size()))),
    {
        let n = bundle.domain_size();
        if self.domain_size != n {
            return Err(
                AggiosError::Epa(
                    cat4(
                        "domain_size ",
                        decimal_text(self.domain_size as u64).as_str(),
                        " does not match SRS domain ",
                        decimal_text(n as u64).as_str(),
                    ),
                ),
            );
        }
        if self.labels.len() != self.sizes.len() || self.labels.len() != self.label_indices.len() {
            return Err(
                AggiosError::Epa(
                    String::from_str("labels, label_indices and sizes must have equal length"),
                ),
            );
        }
        if self.labels.len() == 0 {
            return Err(AggiosError::Epa(String::from_str("at least one partition required")));
        }
        let total = total_of(&self.sizes);
        if total != self.domain_size as u128 {
            return Err(
                AggiosError::Epa(
                    cat4(
                        "partition sizes sum to ",
                        wide_decimal_text(total).as_str(),
                        " but domain size is ",
                        decimal_text(self.domain_size as u64).as_str(),
                    ),
                ),
            );
        }
        let mut i: usize = 0;
        while i < self.label_indices.len()
            invariant
                i <= self.label_indices.len(),
                n == bundle.spec_size(),
                n == self.domain_size,
                label_index_error(self.label_indices@, n as int, i as int) is None,
                input_error(self@, n as int) == label_index_error(
                    self.label_indices@,
                    n as int,
                    self.label_indices@.len() as int,
                ),
            decreases self.label_indices.len() - i,
        {
            let idx = self.label_indices[i];
            if idx == 0 || idx >= self.domain_size {
                proof {
                    lemma_label_error_stays(self.label_indices@, n as int, i + 1);
                }
                return Err(
                    AggiosError::Epa(
                        cat4(
                            "label index ",
                            decimal_text(idx as u64).as_str(),
                            " out of range 1..",
                            decimal_text(self.domain_size as u64).as_str(),
                        ),
                    ),
                );
            }
            if self.repeated_label(i) {
                proof {
                    lemma_label_error_stays(self.label_indices@, n as int, i + 1);
                }
                return Err(
                    AggiosError::Epa(
                        cat2("duplicate label index ", decimal_text(idx as u64).as_str()),
                    ),
                );
            }
            i += 1;
        }
        Ok(())
    }

    /// The inputs of the proof of partition, without empty partitions, and the
    /// positions that are kept.
    fn to_common_inputs(&self) -> (r: (CommonInputs, Vec<usize>))
        requires
            self.label_indices@.len() == self.sizes@.len(),
        ensures
            common_of(self@, &r.0),
            r.1@.len() == kept_positions(self.sizes@).len(),
            forall|i: int|
                0 <= i < r.1@.len() ==> #[trigger] r.1@[i] == kept_positions(self.sizes@)[i],
    {
        let mut vote_per_j: Vec<usize> = Vec::new();
        let mut subsets_sizes: Vec<usize> = Vec::new();
        let mut positions: Vec<usize> = Vec::new();
        let mut j: usize = 0;
        while j < self.sizes.len()
            invariant
                j <= self.sizes.len(),
                self.label_indices@.len() == self.sizes@.len(),
                vote_per_j@ == selected(self.label_indices@, kept(self.sizes@, j as int)),
                subsets_sizes@ == selected(self.sizes@, kept(self.sizes@, j as int)),
                positions@.len() == kept(self.sizes@, j as int).len(),
                forall|i: int|
                    0 <= i < positions@.len() ==> #[trigger] positions@[i] == kept(
                        self.sizes@,
                        j as int,
                    )[i],
            decreases self.sizes.len() - j,
        {
            let ghost before = kept(self.sizes@, j as int);
            if self.sizes[j] > 0 {
                vote_per_j.push(self.label_indices[j]);
                subsets_sizes.push(self.sizes[j]);
                positions.push(j);
                proof {
                    let now = kept(self.sizes@, j + 1);
                    assert(now == before.push(j as int));
                    assert(vote_per_j@ =~= selected(self.label_indices@, now));
                    assert(subsets_sizes@ =~= selected(self.sizes@, now));
                }
            }
            j += 1;
        }
        (CommonInputs { c_comm: self.commitment_c, vote_per_j, subsets_sizes }, positions)
    }
}

/// An error among the first indices is the error of all.
proof fn lemma_label_error_stays(indices: Seq<usize>, n: int, count: int)
    requires
        0 <= count <= indices.len(),
        label_index_error(indices, n, count) is Some,
    ensures
        label_index_error(indices, n, indices.len() as int) == label_index_error(
            indices,
            n,
            count,
        ),
    decreases indices.len() - count,
{
    if count < indices.len() {
        lemma_label_error_stays(indices, n, count + 1);
    }
}

/// The bytes of a proof: the version, then its parts in order.
pub open spec fn epa_proof_bytes(p: ProofView) -> Seq<u8> {
    seq![EPA_PROOF_FORMAT_VERSION] + (list_bytes::<G1Affine>(p.round1.x) + (G1Affine::encoding(
        p.round1.z_0,
    ) + (list_bytes::<G2Affine>(p.round1.z_nonzero) + (list_bytes::<G1Affine>(p.round1.v) + (
    list_bytes::<G1Affine>(p.round1.y) + (G2Affine::encoding(p.p_0) + list_bytes::<G1Affine>(
        p.p_nonzero,
    )))))))
}

/// What bytes stand for, or a message. Bytes after the proof are ignored.
pub open spec fn epa_proof_parsed(bytes: Seq<u8>) -> std::result::Result<ProofView, Seq<char>> {
    if bytes.len() == 0 || bytes[0] != EPA_PROOF_FORMAT_VERSION {
        Err("unknown EPA proof format version"@)
    } else {
        match read_list_spec::<G1Affine>(bytes.skip(1)) {
            Err(e) => Err(e),
            Ok((x, b)) => match read_point_spec::<G1Affine>(b) {
                Err(e) => Err(e),
                Ok((z_0, b)) => match read_list_spec::<G2Affine>(b) {
                    Err(e) => Err(e),
                    Ok((z_nonzero, b)) => match read_list_spec::<G1Affine>(b) {
                        Err(e) => Err(e),
                        Ok((v, b)) => match read_list_spec::<G1Affine>(b) {
                            Err(e) => Err(e),
                            Ok((y, b)) => match read_point_spec::<G2Affine>(b) {
                                Err(e) => Err(e),
                                Ok((p_0, b)) => match read_list_spec::<G1Affine>(b) {
                                    Err(e) => Err(e),
                                    Ok((p_nonzero, b)) => Ok(
                                        ProofView {
                                            round1: Round1View { x, z_0, z_nonzero, v, y },
                                            p_0,
                                            p_nonzero,
                                        },
                                    ),
                                },
                            },
                        },
                    },
                },
            },
        }
    }
}

/// No list is longer than what is read back.
pub open spec fn short_lists(p: ProofView) -> bool {
    &&& p.round1.x.len() <= MAX_COUNT
    &&& p.round1.z_nonzero.len() <= MAX_COUNT
    &&& p.round1.v.len() <= MAX_COUNT
    &&& p.round1.y.len() <= MAX_COUNT
    &&& p.p_nonzero.len() <= MAX_COUNT
}

/// A proof of partition that can be turned into bytes.
#[derive(Debug)]
pub struct EpaProof {
    pub inner: Proof,
}

impl View for EpaProof {
    type V = ProofView;

    open spec fn view(&self) -> ProofView {
        self.inner@
    }
}

fn copy_g1(list: &Vec<G1Affine>) -> (r: Vec<G1Affine>)
    ensures
        r@ == list@,
{
    let mut r: Vec<G1Affine> = Vec::new();
    let mut i: usize = 0;
    while i < list.len()
        invariant
            i <= list.len(),
            r@ == list@.take(i as int),
        decreases list.len() - i,
    {
        r.push(list[i]);
        i += 1;
        proof {
            assert(r@ =~= list@.take(i as int));
        }
    }
    proof {
        assert(r@ =~= list@);
    }
    r
}

fn copy_g2(list: &Vec<G2Affine>) -> (r: Vec<G2Affine>)
    ensures
        r@ == list@,
{
    let mut r: Vec<G2Affine> = Vec::new();
    let mut i: usize = 0;
    while i < list.len()
        invariant
            i <= list.len(),
            r@ == list@.take(i as int),
        decreases list.len() - i,
    {
        r.push(list[i]);
        i += 1;
        proof {
            assert(r@ =~= list@.take(i as int));
        }
    }
    proof {
        assert(r@ =~= list@);
    }
    r
}

impl Clone for EpaProof {
    fn clone(&self) -> (r: EpaProof)
        ensures
            r@ == self@,
    {
        let round1 = &self.inner.round1proof;
        EpaProof {
            inner: Proof {
                round1proof: Round1Proof {
                    x_comm: copy_g1(&round1.x_comm),
                    z_0_comm: round1.z_0_comm,
                    z_nonzero_comm: copy_g2(&round1.z_nonzero_comm),
                    v_comm: copy_g1(&round1.v_comm),
                    y_comm: copy_g1(&round1.y_comm),
                },
                p_0_comm: self.inner.p_0_comm,
                p_nonzero_comm: copy_g1(&self.inner.p_nonzero_comm),
            },
        }
    }
}

impl EpaProof {
    /// The bytes of the proof. Unless a list is too long, the proof can be
    /// read back from them.
    pub fn to_bytes(&self) -> (r: Result<Vec<u8>>)
        ensures
            r matches Ok(b) && b@ == epa_proof_bytes(self@) && (short_lists(self@)
                ==> epa_proof_parsed(b@) == Ok::<ProofView, Seq<char>>(self@)),
            proof_readable(self@),
    {
        let mut out: Vec<u8> = Vec::new();
        out.push(EPA_PROOF_FORMAT_VERSION);
        let round1 = &self.inner.round1proof;
        write_vec(&mut out, &round1.x_comm);
        write_point(&mut out, &round1.z_0_comm);
        write_vec(&mut out, &round1.z_nonzero_comm);
        write_vec(&mut out, &round1.v_comm);
        write_vec(&mut out, &round1.y_comm);
        write_point(&mut out, &self.inner.p_0_comm);
        write_vec(&mut out, &self.inner.p_nonzero_comm);
        proof {
            let p = self@;
            assert(logs(round1.x_comm@) =~= p.round1.x);
            assert(logs(round1.z_nonzero_comm@) =~= p.round1.z_nonzero);
            assert(logs(round1.v_comm@) =~= p.round1.v);
            assert(logs(round1.y_comm@) =~= p.round1.y);
            assert(logs(self.inner.p_nonzero_comm@) =~= p.p_nonzero);
            assert(out@ =~= epa_proof_bytes(p));
            assert(readable::<G1Affine>(seq![p.round1.z_0]));
            assert(readable::<G2Affine>(seq![p.p_0]));
            if short_lists(p) {
                law_proof_round_trip(p);
            }
        }
        Ok(out)
    }

    /// Reads a proof.
    pub fn from_bytes(bytes: &[u8]) -> (r: Result<EpaProof>)
        ensures
            match epa_proof_parsed(bytes@) {
                Ok(p) => r matches Ok(x) && x@ == p,
                Err(e) => r matches Err(AggiosError::Serialization(m)) && m@ == e,
            },
    {
        if bytes.len() == 0 || bytes[0] != EPA_PROOF_FORMAT_VERSION {
            return Err(
                AggiosError::Serialization(String::from_str("unknown EPA proof format version")),
            );
        }
        let (x_comm, pos) = match read_vec::<G1Affine>(bytes, 1) {
            Ok(x) => x,
            Err(e) => return Err(AggiosError::Serialization(e)),
        };
        let (z_0_comm, pos) = match read_one::<G1Affine>(bytes, pos) {
            Ok(x) => x,
            Err(e) => return Err(AggiosError::Serialization(e)),
        };
        let (z_nonzero_comm, pos) = match read_vec::<G2Affine>(bytes, pos) {
            Ok(x) => x,
            Err(e) => return Err(AggiosError::Serialization(e)),
        };
        let (v_comm, pos) = match read_vec::<G1Affine>(bytes, pos) {
            Ok(x) => x,
            Err(e) => return Err(AggiosError::Serialization(e)),
        };
        let (y_comm, pos) = match read_vec::<G1Affine>(bytes, pos) {
            Ok(x) => x,
            Err(e) => return Err(AggiosError::Serialization(e)),
        };
        let (p_0_comm, pos) = match read_one::<G2Affine>(bytes, pos) {
            Ok(x) => x,
            Err(e) => return Err(AggiosError::Serialization(e)),
        };
        let (p_nonzero_comm, pos) = match read_vec::<G1Affine>(bytes, pos) {
            Ok(x) => x,
            Err(e) => return Err(AggiosError::Serialization(e)),
        };
        let r = EpaProof {
            inner: Proof {
                round1proof: Round1Proof { x_comm, z_0_comm, z_nonzero_comm, v_comm, y_comm },
                p_0_comm,
                p_nonzero_comm,
            },
        };
        proof {
            let p = r@;
            assert(logs(x_comm@) =~= p.round1.x);
            assert(logs(z_nonzero_comm@) =~= p.round1.z_nonzero);
            assert(logs(v_comm@) =~= p.round1.v);
            assert(logs(y_comm@) =~= p.round1.y);
            assert(logs(p_nonzero_comm@) =~= p.p_nonzero);
        }
        Ok(r)
    }
}

/// Each part of the proof can be read back from its encoding.
pub open spec fn proof_readable(p: ProofView) -> bool {
    &&& readable::<G1Affine>(p.round1.x)
    &&& readable::<G1Affine>(seq![p.round1.z_0])
    &&& readable::<G2Affine>(p.round1.z_nonzero)
    &&& readable::<G1Affine>(p.round1.v)
    &&& readable::<G1Affine>(p.round1.y)
    &&& readable::<G2Affine>(seq![p.p_0])
    &&& readable::<G1Affine>(p.p_nonzero)
}

/// A proof that was written is read back.
pub proof fn law_proof_round_trip(p: ProofView)
    requires
        short_lists(p),
        proof_readable(p),
    ensures
        epa_proof_parsed(epa_proof_bytes(p)) == Ok::<ProofView, Seq<char>>(p),
{
    let e7 = list_bytes::<G1Affine>(p.p_nonzero);
    let e6 = G2Affine::encoding(p.p_0) + e7;
    let e5 = list_bytes::<G1Affine>(p.round1.y) + e6;
    let e4 = list_bytes::<G1Affine>(p.round1.v) + e5;
    let e3 = list_bytes::<G2Affine>(p.round1.z_nonzero) + e4;
    let e2 = G1Affine::encoding(p.round1.z_0) + e3;
    let e1 = list_bytes::<G1Affine>(p.round1.x) + e2;
    let all = epa_proof_bytes(p);
    assert(all.skip(1) =~= e1);
    law_list_round_trip::<G1Affine>(p.round1.x, e2);
    assert(seq![p.round1.z_0][0] == p.round1.z_0);
    lemma_point_round_trip::<G1Affine>(p.round1.z_0, e3);
    law_list_round_trip::<G2Affine>(p.round1.z_nonzero, e4);
    law_list_round_trip::<G1Affine>(p.round1.v, e5);
    law_list_round_trip::<G1Affine>(p.round1.y, e6);
    assert(seq![p.p_0][0] == p.p_0);
    lemma_point_round_trip::<G2Affine>(p.p_0, e7);
    assert(e7 + Seq::<u8>::empty() =~= e7);
    law_list_round_trip::<G1Affine>(p.p_nonzero, Seq::empty());
}

/// No list is longer than its count can say.
pub open spec fn counted_lists(p: ProofView) -> bool {
    &&& p.round1.x.len() <= u32::MAX
    &&& p.round1.z_nonzero.len() <= u32::MAX
    &&& p.round1.v.len() <= u32::MAX
    &&& p.round1.y.len() <= u32::MAX
    &&& p.p_nonzero.len() <= u32::MAX
}

/// The bytes of a proof without the last ones, as few as they may be, are
/// refused.
pub proof fn law_proof_cut(p: ProofView, k: int)
    requires
        counted_lists(p),
        proof_readable(p),
        0 <= k < epa_proof_bytes(p).len(),
    ensures
        epa_proof_parsed(epa_proof_bytes(p).take(k)) is Err,
{
    let e7 = list_bytes::<G1Affine>(p.p_nonzero);
    let e6 = G2Affine::encoding(p.p_0) + e7;
    let l5 = list_bytes::<G1Affine>(p.round1.y);
    let e5 = l5 + e6;
    let l4 = list_bytes::<G1Affine>(p.round1.v);
    let e4 = l4 + e5;
    let l3 = list_bytes::<G2Affine>(p.round1.z_nonzero);
    let e3 = l3 + e4;
    let e2 = G1Affine::encoding(p.round1.z_0) + e3;
    let l1 = list_bytes::<G1Affine>(p.round1.x);
    let e1 = l1 + e2;
    let bytes = epa_proof_bytes(p).take(k);
    if k > 0 {
        assert(bytes.skip(1) =~= e1.take(k - 1));
        assert(seq![p.round1.z_0][0] == p.round1.z_0);
        assert(seq![p.p_0][0] == p.p_0);
        let k1 = k - 1;
        lemma_list_cut::<G1Affine>(p.round1.x, e2, k1);
        let k2 = k1 - l1.len();
        if k2 >= 0 {
            lemma_point_cut::<G1Affine>(p.round1.z_0, e3, k2);
            let k3 = k2 - 48;
            if k3 >= 0 {
                lemma_list_cut::<G2Affine>(p.round1.z_nonzero, e4, k3);
                let k4 = k3 - l3.len();
                if k4 >= 0 {
                    lemma_list_cut::<G1Affine>(p.round1.v, e5, k4);
                    let k5 = k4 - l4.len();
                    if k5 >= 0 {
                        lemma_list_cut::<G1Affine>(p.round1.y, e6, k5);
                        let k6 = k5 - l5.len();
                        if k6 >= 0 {
                            lemma_point_cut::<G2Affine>(p.p_0, e7, k6);
                            let k7 = k6 - 96;
                            if k7 >= 0 {
                                assert(e7 + Seq::<u8>::empty() =~= e7);
                                lemma_list_cut::<G1Affine>(p.p_nonzero, Seq::empty(), k7);
                            }
                        }
                    }
                }
            }
        }
    }
}

/// What only the prover knows.
#[derive(Clone, Debug)]
pub struct EpaWitness {
    /// The token of each domain index.
    pub values_by_index: Vec<Fr>,
    /// The indices of each partition, in the order of the labels.
    pub partition_indices: Vec<Vec<usize>>,
}

/// What only the prover knows, as values.
#[verifier::ext_equal]
pub struct WitnessView {
    pub values: Seq<int>,
    pub partitions: Seq<Seq<int>>,
}

impl View for EpaWitness {
    type V = WitnessView;

    open spec fn view(&self) -> WitnessView {
        WitnessView {
            values: values(self.values_by_index@),
            partitions: index_lists(self.partition_indices@),
        }
    }
}

/// The first thing that is wrong with the first `count` indices of a
/// partition, after those in `seen`.
pub open spec fn index_error(seen: Seq<int>, part: Seq<int>, n: int, count: int) -> Option<
    Seq<char>,
>
    decreases count,
{
    if count <= 0 {
        None
    } else {
        let i = part[count - 1];
        match index_error(seen, part, n, count - 1) {
            Some(e) => Some(e),
            None => if i >= n {
                Some("index "@ + decimal(i) + " out of domain"@)
            } else if (seen + part.take(count - 1)).contains(i) {
                Some("index "@ + decimal(i) + " appears twice"@)
            } else {
                None
            },
        }
    }
}

/// The first thing that is wrong with the first `count` partitions.
pub open spec fn partition_error(
    lists: Seq<Seq<int>>,
    sizes: Seq<usize>,
    n: int,
    count: int,
) -> Option<Seq<char>>
    decreases count,
{
    if count <= 0 {
        None
    } else {
        let j = count - 1;
        match partition_error(lists, sizes, n, j) {
            Some(e) => Some(e),
            None => if lists[j].len() != sizes[j] {
                Some(
                    "partition "@ + decimal(j) + " has "@ + decimal(lists[j].len() as int)
                        + " indices but claimed size "@ + decimal(sizes[j] as int),
                )
            } else {
                index_error(flat(lists.take(j)), lists[j], n, lists[j].len() as int)
            },
        }
    }
}

/// What is wrong with a witness for a public input.
pub open spec fn witness_error(input: InputView, witness: WitnessView) -> Option<Seq<char>> {
    let n = input.domain_size as int;
    let lists = witness.partitions;
    if witness.values.len() != n {
        Some(
            "witness has "@ + decimal(witness.values.len() as int)
                + " values but domain size is "@ + decimal(n),
        )
    } else if lists.len() != input.sizes.len() {
        Some("witness partition count does not match public sizes"@)
    } else {
        match partition_error(lists, input.sizes, n, lists.len() as int) {
            Some(e) => Some(e),
            None => if forall|i: int| 0 <= i < n ==> #[trigger] flat(lists).contains(i) {
                None
            } else {
                Some("partitions do not cover the whole domain"@)
            },
        }
    }
}

proof fn lemma_index_error_stays(seen: Seq<int>, part: Seq<int>, n: int, i: int, count: int)
    requires
        i <= count,
        index_error(seen, part, n, i) is Some,
    ensures
        index_error(seen, part, n, count) == index_error(seen, part, n, i),
    decreases count - i,
{
    if 0 < count && i < count {
        lemma_index_error_stays(seen, part, n, i, count - 1);
    }
}

proof fn lemma_partition_error_stays(
    lists: Seq<Seq<int>>,
    sizes: Seq<usize>,
    n: int,
    i: int,
    count: int,
)
    requires
        i <= count,
        partition_error(lists, sizes, n, i) is Some,
    ensures
        partition_error(lists, sizes, n, count) == partition_error(lists, sizes, n, i),
    decreases count - i,
{
    if 0 < count && i < count {
        lemma_partition_error_stays(lists, sizes, n, i, count - 1);
    }
}

/// Indices without an error are distinct.
proof fn lemma_index_error_none(seen: Seq<int>, part: Seq<int>, n: int, count: int)
    requires
        0 <= count <= part.len(),
        distinct_below(seen, n),
        forall|i: int| 0 <= i < part.len() ==> #[trigger] part[i] >= 0,
        index_error(seen, part, n, count) is None,
    ensures
        distinct_below(seen + part.take(count), n),
    decreases count,
{
    if count == 0 {
        assert(seen + part.take(0) =~= seen);
    } else {
        lemma_index_error_none(seen, part, n, count - 1);
        let before = seen + part.take(count - 1);
        let now = seen + part.take(count);
        let x = part[count - 1];
        assert(now =~= before.push(x));
        assert forall|a: int, b: int| 0 <= a < b < now.len() implies #[trigger] now[a]
            != #[trigger] now[b] by {
            if b == now.len() - 1 {
                assert(before[a] == now[a]);
            } else {
                assert(before[a] == now[a] && before[b] == now[b]);
            }
        }
        assert forall|i: int| 0 <= i < now.len() implies 0 <= #[trigger] now[i] < n by {
            if i < before.len() {
                assert(before[i] == now[i]);
            }
        }
    }
}

/// Partitions without an error are disjoint and of the claimed sizes.
proof fn lemma_partition_error_none(lists: Seq<Seq<int>>, sizes: Seq<usize>, n: int, count: int)
    requires
        0 <= count <= lists.len(),
        lists.len() == sizes.len(),
        natural(lists),
        partition_error(lists, sizes, n, count) is None,
    ensures
        distinct_below(flat(lists.take(count)), n),
        flat(lists.take(count)).len() == size_total(sizes, count),
        forall|j: int| 0 <= j < count ==> (#[trigger] lists[j]).len() == sizes[j],
    decreases count,
{
    if count > 0 {
        let j = count - 1;
        lemma_partition_error_none(lists, sizes, n, j);
        let l = lists[j];
        assert(lists.take(count).drop_last() =~= lists.take(j));
        assert(lists.take(count).last() == l);
        assert forall|i: int| 0 <= i < l.len() implies #[trigger] l[i] >= 0 by {
            assert(lists[j][i] >= 0);
        }
        lemma_index_error_none(flat(lists.take(j)), l, n, l.len() as int);
        assert(l.take(l.len() as int) =~= l);
    }
}

/// All indices are positions.
pub open spec fn natural(lists: Seq<Seq<int>>) -> bool {
    forall|j: int, i: int|
        0 <= j < lists.len() && 0 <= i < lists[j].len() ==> #[trigger] lists[j][i] >= 0
}

/// A checked witness is a partition of the domain.
pub proof fn lemma_witness_partition(input: InputView, witness: WitnessView)
    requires
        natural(witness.partitions),
        witness_error(input, witness) is None,
        size_total(input.sizes, input.sizes.len() as int) == input.domain_size,
    ensures
        partition(witness.partitions, input.domain_size as int),
        forall|j: int|
            0 <= j < input.sizes.len() ==> (#[trigger] witness.partitions[j]).len()
                == input.sizes[j],
{
    let lists = witness.partitions;
    lemma_partition_error_none(lists, input.sizes, input.domain_size as int, lists.len() as int);
    assert(lists.take(lists.len() as int) =~= lists);
    assert forall|j: int| 0 <= j < input.sizes.len() implies (#[trigger] witness.partitions[j]).len() == input.sizes[j] by {
        assert(lists[j].len() == input.sizes[j]);
    }
}

/// Marks the indices of one partition as seen.
fn mark_partition(
    part: &Vec<usize>,
    n: usize,
    covered: &mut Vec<bool>,
    Ghost(seen): Ghost<Seq<int>>,
) -> (r: Result<()>)
    requires
        old(covered)@.len() == n,
        forall|i: int| 0 <= i < n ==> #[trigger] old(covered)@[i] == seen.contains(i),
    ensures
        fails_with(
            r,
            epa_error(index_error(seen, indices(part@), n as int, part@.len() as int)),
        ),
        final(covered)@.len() == n,
        r is Ok ==> forall|i: int|
            0 <= i < n ==> #[trigger] final(covered)@[i] == (seen + indices(part@)).contains(i),
{
    let ghost idx = indices(part@);
    let mut k: usize = 0;
    proof {
        assert(seen + idx.take(0) =~= seen);
    }
    while k < part.len()
        invariant
            k <= part.len(),
            idx == indices(part@),
            covered@.len() == n,
            index_error(seen, idx, n as int, k as int) is None,
            forall|i: int|
                0 <= i < n ==> #[trigger] covered@[i] == (seen + idx.take(k as int)).contains(i),
        decreases part.len() - k,
    {
        let i = part[k];
        let ghost before = seen + idx.take(k as int);
        if i >= n {
            proof {
                lemma_index_error_stays(seen, idx, n as int, k + 1, part@.len() as int);
            }
            return Err(
                AggiosError::Epa(cat3("index ", decimal_text(i as u64).as_str(), " out of domain")),
            );
        }
        if covered[i] {
            proof {
                lemma_index_error_stays(seen, idx, n as int, k + 1, part@.len() as int);
            }
            return Err(
                AggiosError::Epa(cat3("index ", decimal_text(i as u64).as_str(), " appears twice")),
            );
        }
        covered.set(i, true);
        proof {
            let now = seen + idx.take(k + 1);
            assert(now =~= before.push(i as int));
            assert forall|z: int| 0 <= z < n implies #[trigger] covered@[z] == now.contains(z) by {
                lemma_push_contains(before, i as int, z);
            }
        }
        k += 1;
    }
    proof {
        assert(idx.take(idx.len() as int) =~= idx);
    }
    Ok(())
}

proof fn lemma_push_contains(s: Seq<int>, x: int, z: int)
    ensures
        s.push(x).contains(z) <==> s.contains(z) || z == x,
{
    let t = s.push(x);
    assert(t[s.len() as int] == x);
    if s.contains(z) {
        let i = choose|i: int| 0 <= i < s.len() && s[i] == z;
        assert(t[i] == z);
    }
}

/// Checks a witness against a public input.
fn validate_witness(public_input: &EpaPublicInput, witness: &EpaWitness) -> (r: Result<()>)
    ensures
        fails_with(r, epa_error(witness_error(public_input@, witness@))),
{
    let n = public_input.domain_size;
    if witness.values_by_index.len() != n {
        return Err(
            AggiosError::Epa(
                cat4(
                    "witness has ",
                    decimal_text(witness.values_by_index.len() as u64).as_str(),
                    " values but domain size is ",
                    decimal_text(n as u64).as_str(),
                ),
            ),
        );
    }
    if witness.partition_indices.len() != public_input.sizes.len() {
        return Err(
            AggiosError::Epa(
                String::from_str("witness partition count does not match public sizes"),
            ),
        );
    }
    let ghost lists = index_lists(witness.partition_indices@);
    let ghost sizes = public_input.sizes@;
    let ghost count = lists.len() as int;
    let mut covered: Vec<bool> = Vec::new();
    let mut i: usize = 0;
    while i < n
        invariant
            i <= n,
            covered@.len() == i,
            forall|z: int| 0 <= z < i ==> #[trigger] covered@[z] == false,
        decreases n - i,
    {
        covered.push(false);
        i += 1;
    }
    let mut j: usize = 0;
    proof {
        assert(lists.take(0) =~= Seq::<Seq<int>>::empty());
    }
    while j < witness.partition_indices.len()
        invariant
            j <= witness.partition_indices.len(),
            n == public_input.domain_size,
            sizes == public_input.sizes@,
            lists == index_lists(witness.partition_indices@),
            count == lists.len(),
            witness.values_by_index@.len() == n,
            witness.partition_indices@.len() == sizes.len(),
            covered@.len() == n,
            partition_error(lists, sizes, n as int, j as int) is None,
            forall|z: int|
                0 <= z < n ==> #[trigger] covered@[z] == flat(lists.take(j as int)).contains(z),
        decreases witness.partition_indices.len() - j,
    {
        let part = &witness.partition_indices[j];
        assert(lists[j as int] == indices(part@));
        if part.len() != public_input.sizes[j] {
            proof {
                lemma_partition_error_stays(lists, sizes, n as int, j + 1, count);
            }
            let mut message = cat4(
                "partition ",
                decimal_text(j as u64).as_str(),
                " has ",
                decimal_text(part.len() as u64).as_str(),
            );
            message.append(" indices but claimed size ");
            message.append(decimal_text(public_input.sizes[j] as u64).as_str());
            return Err(AggiosError::Epa(message));
        }
        match mark_partition(part, n, &mut covered, Ghost(flat(lists.take(j as int)))) {
            Ok(_) => {},
            Err(e) => {
                proof {
                    lemma_partition_error_stays(lists, sizes, n as int, j + 1, count);
                }
                return Err(e);
            },
        }
        proof {
            assert(lists.take(j + 1).drop_last() =~= lists.take(j as int));
            assert(lists.take(j + 1).last() == lists[j as int]);
        }
        j += 1;
    }
    proof {
        assert(lists.take(count) =~= lists);
    }
    let mut k: usize = 0;
    while k < n
        invariant
            k <= n,
            n == public_input.domain_size,
            sizes == public_input.sizes@,
            lists == index_lists(witness.partition_indices@),
            witness.values_by_index@.len() == n,
            witness.partition_indices@.len() == sizes.len(),
            partition_error(lists, sizes, n as int, lists.len() as int) is None,
            covered@.len() == n,
            forall|z: int| 0 <= z < n ==> #[trigger] covered@[z] == flat(lists).contains(z),
            forall|z: int| 0 <= z < k ==> #[trigger] covered@[z],
        decreases n - k,
    {
        if !covered[k] {
            assert(!flat(lists).contains(k as int));
            return Err(
                AggiosError::Epa(String::from_str("partitions do not cover the whole domain")),
            );
        }
        k += 1;
    }
    proof {
        assert forall|z: int| 0 <= z < n implies #[trigger] flat(lists).contains(z) by {
            assert(covered@[z]);
        }
    }
    Ok(())
}

// ---- proving ---------------------------------------------------------------

/// The commitment to a vector of tokens: each token times the commitment to
/// the basis polynomial of its index.
pub open spec fn token_commitment(bundle: &SrsBundle, vals: Seq<int>) -> int {
    let basis = g1_logs(bundle.lagrange_g1@);
    md(sum(|i: int| vals[i] * basis[i], vals.len() as int))
}

/// Why there is no proof for a public input and a witness.
pub open spec fn prove_error(
    bundle: &SrsBundle,
    input: InputView,
    witness: WitnessView,
) -> Option<Seq<char>> {
    match input_error(input, bundle.spec_size()) {
        Some(e) => Some(e),
        None => match witness_error(input, witness) {
            Some(e) => Some(e),
            None => if input.commitment_c != token_commitment(
                bundle,
                witness.values,
            ) {
                Some("commitment_c does not match the witness values"@)
            } else {
                None
            },
        },
    }
}

/// The prover's witness: the tokens, their interpolation, and the subsets that
/// are not empty, each sorted.
pub open spec fn witness_of(
    bundle: &SrsBundle,
    input: InputView,
    witness: WitnessView,
    w: &Witness,
) -> bool {
    let positions = kept_positions(input.sizes);
    let vals = witness.values;
    &&& values(w.c_values@) == vals
    &&& w.c_poly@.len() <= vals.len()
    &&& interpolates(w.c_poly@, vals, bundle.pp.domain.gen())
    &&& w.subsets_indices@.len() == positions.len()
    &&& forall|i: int|
        0 <= i < positions.len() ==> {
            let sorted = indices((#[trigger] w.subsets_indices@[i])@);
            ascending(sorted) && sorted.to_multiset() == witness.partitions[positions[i]].to_multiset()
        }
}

/// Dropping empty lists leaves the same indices.
pub proof fn law_empty_partitions_dropped(lists: Seq<Seq<int>>, sizes: Seq<usize>, count: int)
    requires
        0 <= count <= lists.len(),
        lists.len() == sizes.len(),
        forall|j: int| 0 <= j < lists.len() ==> (#[trigger] lists[j]).len() == sizes[j],
    ensures
        flat(selected(lists, kept(sizes, count))) == flat(lists.take(count)),
    decreases count,
{
    if count == 0 {
        assert(lists.take(0) =~= Seq::<Seq<int>>::empty());
        assert(selected(lists, kept(sizes, 0)) =~= Seq::<Seq<int>>::empty());
    } else {
        let j = count - 1;
        law_empty_partitions_dropped(lists, sizes, j);
        assert(lists.take(count).drop_last() =~= lists.take(j));
        assert(lists.take(count).last() == lists[j]);
        if sizes[j] > 0 {
            let now = selected(lists, kept(sizes, count));
            assert(now.drop_last() =~= selected(lists, kept(sizes, j)));
            assert(now.last() == lists[j]);
        } else {
            assert(lists[j] =~= Seq::<int>::empty());
            assert(flat(lists.take(j)) + lists[j] =~= flat(lists.take(j)));
        }
    }
}

/// The inputs of a proof are a partition of the domain.
proof fn lemma_prepared(
    bundle: &SrsBundle,
    input: InputView,
    witness: WitnessView,
    c: &CommonInputs,
    w: &Witness,
)
    requires
        bundle.wf(),
        natural(witness.partitions),
        input_error(input, bundle.spec_size()) is None,
        witness_error(input, witness) is None,
        common_of(input, c),
        witness_of(bundle, input, witness, w),
    ensures
        witness_fits(&bundle.pp, c, w),
        provable(c, w, bundle.pp.max_degree as int),
        sizes_match(c, w),
        partition(index_lists(w.subsets_indices@), bundle.spec_size()),
{
    broadcast use vstd::seq_lib::group_to_multiset_ensures;

    let n = bundle.spec_size();
    let sizes = input.sizes;
    let positions = kept_positions(sizes);
    let all = witness.partitions;
    let subsets = index_lists(w.subsets_indices@);
    lemma_kept(sizes, sizes.len() as int);
    lemma_witness_partition(input, witness);
    assert forall|j: int| 0 <= j < all.len() implies (#[trigger] all[j]).len() == sizes[j] by {
        assert(witness.partitions[j].len() == sizes[j]);
    }
    law_empty_partitions_dropped(all, sizes, sizes.len() as int);
    assert(all.take(all.len() as int) =~= all);
    let chosen = selected(all, positions);
    assert forall|j: int| 0 <= j < chosen.len() implies (#[trigger] chosen[j]).to_multiset()
        == subsets[j].to_multiset() by {
        let sorted = indices(w.subsets_indices@[j]@);
        assert(sorted == subsets[j]);
    }
    lemma_partition_reordered(chosen, subsets, n);
    assert forall|j: int| 0 <= j < w.subsets_indices@.len() implies distinct_below(
        indices(#[trigger] w.subsets_indices@[j]@),
        n,
    ) by {
        lemma_partition_lists(subsets, n, j);
        assert(subsets[j] == indices(w.subsets_indices@[j]@));
    }
    assert forall|j: int| 2 <= j < subsets.len() implies #[trigger]
        crate::epa::prover::prefix_len(subsets, j) <= n by {
        lemma_prefix_len(subsets, j);
    }
    assert forall|j: int| 0 <= j < c.subsets_sizes@.len() implies #[trigger] c.subsets_sizes@[j]
        == w.subsets_indices@[j]@.len() by {
        let sorted = indices(w.subsets_indices@[j]@);
        let part = witness.partitions[positions[j]];
        assert(sorted.to_multiset().len() == part.to_multiset().len());
        assert(all[positions[j]].len() == sizes[positions[j]]);
        assert(part == all[positions[j]]);
    }
    assert(values(w.c_values@).len() == w.c_values@.len());
}

/// Terms that are zero do not count.
proof fn lemma_sum_zeros(f: spec_fn(int) -> int, m: int, n: int)
    requires
        0 <= m <= n,
        forall|i: int| m <= i < n ==> #[trigger] f(i) == 0,
    ensures
        sum(f, n) == sum(f, m),
    decreases n - m,
{
    if m < n {
        lemma_sum_zeros(f, m, n - 1);
        assert(f(n - 1) == 0);
    }
}

/// The commitment to the interpolation of the tokens is the commitment to the
/// tokens.
pub proof fn law_token_commitment(bundle: &SrsBundle, p: Seq<int>, vals: Seq<int>)
    requires
        bundle.wf(),
        vals.len() == bundle.spec_size(),
        p.len() <= vals.len(),
        interpolates(p, vals, bundle.pp.domain.gen()),
    ensures
        md(commit_log(g1_logs(bundle.pp.poly_ck.powers_of_g@), p)) == token_commitment(
            bundle,
            vals,
        ),
{
    let n = bundle.spec_size();
    let powers = g1_logs(bundle.pp.poly_ck.powers_of_g@);
    let basis = g1_logs(bundle.lagrange_g1@);
    law_lagrange_commitment(
        basis,
        powers,
        p,
        vals,
        bundle.pp.domain.gen(),
        bundle.pp.domain.spec_log(),
    );
    let f = |l: int| crate::poly_math::co(p, l) * powers[l];
    let g = |i: int| p[i] * powers[i];
    lemma_sum_ext(f, |l: int| crate::poly_math::co(p, l) * powers[l], n);
    assert forall|i: int| p.len() <= i < n implies #[trigger] f(i) == 0 by {
        assert(0 * powers[i] == 0);
    }
    lemma_sum_zeros(f, p.len() as int, n);
    lemma_sum_ext(f, g, p.len() as int);
    lemma_sum_ext(g, |i: int| p[i] * powers[i], p.len() as int);
    lemma_sum_ext(|i: int| vals[i] * basis[i], |i: int| vals[i] * basis[i], n);
}

/// The inputs of the proof of partition for a public input and a witness.
pub fn epa_inputs(
    bundle: &SrsBundle,
    public_input: &EpaPublicInput,
    witness: &EpaWitness,
) -> (r: Result<(CommonInputs, Witness)>)
    requires
        bundle.wf(),
    ensures
        fails_with(r, epa_error(prove_error(bundle, public_input@, witness@))),
        r matches Ok((c, w)) ==> common_of(public_input@, &c) && witness_of(
            bundle,
            public_input@,
            witness@,
            &w,
        ),
{
    match public_input.validate(bundle) {
        Ok(_) => {},
        Err(e) => return Err(e),
    }
    match validate_witness(public_input, witness) {
        Ok(_) => {},
        Err(e) => return Err(e),
    }
    let (common_inputs, positions) = public_input.to_common_inputs();
    let c_values = clone_scalars(&witness.values_by_index);
    let c_poly = DensePolynomial::interpolate(&c_values, &bundle.pp.domain);
    let recomputed = g1_commit(&bundle.pp.poly_ck, &c_poly);
    proof {
        assert(values(c_values@) =~= values(witness.values_by_index@));
        law_token_commitment(bundle, c_poly@, values(c_values@));
    }
    if recomputed != public_input.commitment_c {
        return Err(
            AggiosError::Epa(String::from_str("commitment_c does not match the witness values")),
        );
    }
    let ghost want = kept_positions(public_input.sizes@);
    let mut subsets_indices: Vec<Vec<usize>> = Vec::new();
    let mut i: usize = 0;
    proof {
        lemma_kept(public_input.sizes@, public_input.sizes@.len() as int);
    }
    while i < positions.len()
        invariant
            i <= positions.len(),
            want == kept_positions(public_input.sizes@),
            positions@.len() == want.len(),
            forall|k: int| 0 <= k < positions@.len() ==> #[trigger] positions@[k] == want[k],
            forall|k: int|
                0 <= k < want.len() ==> 0 <= #[trigger] want[k] < witness.partition_indices@.len(),
            subsets_indices@.len() == i,
            forall|k: int|
                0 <= k < i ==> {
                    let sorted = indices((#[trigger] subsets_indices@[k])@);
                    ascending(sorted) && sorted.to_multiset() == indices(
                        witness.partition_indices@[want[k]]@,
                    ).to_multiset()
                },
        decreases positions.len() - i,
    {
        assert(positions@[i as int] == want[i as int]);
        subsets_indices.push(sorted_copy(&witness.partition_indices[positions[i]]));
        i += 1;
    }
    Ok((common_inputs, Witness { subsets_indices, c_poly, c_values }))
}

/// The proof was made for the public input and the witness, with some blinding
/// factors.
pub open spec fn proved(
    bundle: &SrsBundle,
    input: InputView,
    witness: WitnessView,
    view: ProofView,
) -> bool {
    exists|c: CommonInputs, w: Witness|
        common_of(input, &c) && witness_of(bundle, input, witness, &w) && #[trigger] proof_made(
            &bundle.pp,
            &c,
            &w,
            view,
        )
}

/// The proof was made for the public input and the witness, with blinding
/// factors that a generator gave, each a scalar of its own.
pub open spec fn proved_with_draws(
    bundle: &SrsBundle,
    input: InputView,
    witness: WitnessView,
    view: ProofView,
) -> bool {
    exists|c: CommonInputs, w: Witness, rng: rand::rngs::StdRng|
        common_of(input, &c) && witness_of(bundle, input, witness, &w) && #[trigger] proof_drawn(
            &bundle.pp,
            &c,
            &w,
            rng,
            view,
        )
}

/// A proof with what is measured of it.
pub struct EpaProofResult {
    pub proof: EpaProof,
    /// Commitments to the single partitions, for voter receipts. There are
    /// none: the proof holds blinded commitments only.
    pub partition_commitments: Option<Vec<G1Affine>>,
    pub proving_time_ms: u128,
    pub proof_size_bytes: usize,
}

/// The outcome of a verification.
#[derive(Clone, Debug)]
pub struct VerificationResult {
    pub valid: bool,
    pub verification_time_ms: u128,
}

/// Only one partition is not empty. Then no factor is drawn that could be
/// zero.
pub open spec fn lone_partition(sizes: Seq<usize>) -> bool {
    kept_positions(sizes).len() == 1
}

/// The message where a blinding factor was drawn that is zero.
pub open spec fn zero_blinder_text() -> Seq<char> {
    "a blinding factor is zero"@
}

/// Makes a proof. It is drawn with fresh blinding factors; it fails if one of
/// them is zero.
pub fn prove(
    bundle: &SrsBundle,
    public_input: &EpaPublicInput,
    witness: &EpaWitness,
) -> (r: Result<EpaProofResult>)
    requires
        bundle.wf(),
    ensures
        prove_error(bundle, public_input@, witness@) is Some ==> fails_with(
            r,
            epa_error(prove_error(bundle, public_input@, witness@)),
        ),
        prove_error(bundle, public_input@, witness@) is None ==> match r {
            Ok(p) => proved(bundle, public_input@, witness@, p.proof@) && epa_valid(
                bundle,
                public_input@,
                p.proof@,
            ) && proved_with_draws(bundle, public_input@, witness@, p.proof@)
                && p.proof_size_bytes == epa_proof_bytes(p.proof@).len()
                && p.partition_commitments is None,
            Err(e) => e@ == ErrorView::Epa(zero_blinder_text()) && !lone_partition(
                public_input@.sizes,
            ),
        },
{
    let (common_inputs, epa_witness) = match epa_inputs(bundle, public_input, witness) {
        Ok(x) => x,
        Err(e) => return Err(e),
    };
    proof {
        lemma_prepared(bundle, public_input@, witness@, &common_inputs, &epa_witness);
    }
    let mut rng = thread_seeded_rng();
    proof {
        if lone_partition(public_input@.sizes) {
            assert(drawn_r(rng, 0) =~= Seq::<int>::empty());
            lemma_modulus();
            lemma_md_range(1);
        }
    }
    let ghost drawn_from = rng;
    let start = moment();
    let made = generate_proof(&bundle.pp, &common_inputs, &epa_witness, &mut rng);
    let proving_time_ms = elapsed_millis(&start);
    match made {
        Some(inner) => {
            let p = EpaProof { inner };
            proof {
                law_proved_is_valid(bundle, public_input@, witness@, p@);
                assert(proof_drawn(&bundle.pp, &common_inputs, &epa_witness, drawn_from, p@));
            }
            match p.to_bytes() {
                Ok(bytes) => Ok(
                    EpaProofResult {
                        proof: p,
                        partition_commitments: None,
                        proving_time_ms,
                        proof_size_bytes: bytes.len(),
                    },
                ),
                Err(e) => Err(e),
            }
        },
        None => Err(AggiosError::Epa(String::from_str("a blinding factor is zero"))),
    }
}

// ---- verifying -------------------------------------------------------------

/// What a proof is checked against: the parameters and the partitions that are
/// not empty.
pub open spec fn adapter_statement(bundle: &SrsBundle, input: InputView) -> Statement {
    let positions = kept_positions(input.sizes);
    Statement {
        g1: g1_logs(bundle.pp.poly_ck.powers_of_g@),
        g2: g2_logs(bundle.pp.g2_powers@),
        degree: bundle.pp.max_degree as int,
        generator: bundle.pp.domain.gen(),
        c_comm: input.commitment_c,
        votes: selected(input.label_indices, positions),
        sizes: selected(input.sizes, positions),
    }
}

/// The proof has the right number of commitments and is accepted.
pub open spec fn epa_valid(bundle: &SrsBundle, input: InputView, view: ProofView) -> bool {
    &&& shape_ok(view, kept_positions(input.sizes).len() as int)
    &&& accepted(adapter_statement(bundle, input), view)
}

/// A proof that was made for a checked witness is valid.
pub proof fn law_proved_is_valid(
    bundle: &SrsBundle,
    input: InputView,
    witness: WitnessView,
    view: ProofView,
)
    requires
        bundle.wf(),
        natural(witness.partitions),
        prove_error(bundle, input, witness) is None,
        proved(bundle, input, witness, view),
    ensures
        epa_valid(bundle, input, view),
{
    let (c, w) = choose|c: CommonInputs, w: Witness|
        common_of(input, &c) && witness_of(bundle, input, witness, &w) && #[trigger] proof_made(
            &bundle.pp,
            &c,
            &w,
            view,
        );
    lemma_prepared(bundle, input, witness, &c, &w);
    let (r, s) = choose|r: Seq<int>, s: Seq<int>|
        r.len() == w.subsets_indices@.len() && eqm(product(r), 1) && #[trigger] honest_proof(
            &bundle.pp,
            &c,
            &w,
            r,
            s,
            view,
        );
    let n = bundle.spec_size();
    let (g, h, tau) = (setup_base_g1(), md(setup_base_g2()), test_scalar(0));
    let powers = g1_logs(bundle.pp.poly_ck.powers_of_g@);
    let p = w.c_poly@;
    law_token_commitment(bundle, p, values(w.c_values@));
    law_commitment_is_value(powers, p, g, tau);
    lemma_md_eqm(commit_log(powers, p));
    law_honest_proof_accepted(&bundle.pp, &c, &w, r, s, view, p, g, h, tau);
    assert(statement(&bundle.pp, &c) == adapter_statement(bundle, input));
}

/// Whether a proof has the number of commitments that `k` partitions call for.
fn proof_shape_matches(p: &Proof, k: usize) -> (matches: bool)
    requires
        k >= 1,
    ensures
        matches == shape_ok(p@, k as int),
{
    let y_len: usize = if k >= 2 {
        k - 2
    } else {
        0
    };
    p.round1proof.x_comm.len() == k && p.round1proof.v_comm.len() == k
        && p.round1proof.z_nonzero_comm.len() == k - 1 && p.p_nonzero_comm.len() == k - 1
        && p.round1proof.y_comm.len() == y_len
}

/// Checks a proof.
pub fn verify(bundle: &SrsBundle, public_input: &EpaPublicInput, proof_: &EpaProof) -> (r: Result<
    VerificationResult,
>)
    requires
        bundle.wf(),
    ensures
        fails_with(r, epa_error(input_error(public_input@, bundle.spec_size()))),
        r matches Ok(v) ==> v.valid == epa_valid(bundle, public_input@, proof_@),
{
    match public_input.validate(bundle) {
        Ok(_) => {},
        Err(e) => return Err(e),
    }
    let (common_inputs, _) = public_input.to_common_inputs();
    proof {
        lemma_kept(public_input.sizes@, public_input.sizes@.len() as int);
    }
    let start = moment();
    if !proof_shape_matches(&proof_.inner, common_inputs.subsets_sizes.len()) {
        return Ok(
            VerificationResult { valid: false, verification_time_ms: elapsed_millis(&start) },
        );
    }
    proof {
        let sizes = public_input.sizes@;
        let positions = kept_positions(sizes);
        assert forall|j: int|
            0 <= j < common_inputs.subsets_sizes@.len() implies #[trigger] common_inputs.subsets_sizes@[j]
            <= bundle.pp.max_degree by {
            lemma_size_below_total(sizes, positions[j], sizes.len() as int);
        }
        assert(statement(&bundle.pp, &common_inputs) == adapter_statement(bundle, public_input@));
    }
    let valid = verify_proof(&bundle.pp, &common_inputs, &proof_.inner);
    Ok(VerificationResult { valid, verification_time_ms: elapsed_millis(&start) })
}

/// No size is larger than the total.
proof fn lemma_size_below_total(sizes: Seq<usize>, j: int, count: int)
    requires
        0 <= j < count <= sizes.len(),
    ensures
        sizes[j] <= size_total(sizes, count),
        size_total(sizes, count) >= 0,
    decreases count,
{
    lemma_kept(sizes, count - 1);
    if j < count - 1 {
        lemma_size_below_total(sizes, j, count - 1);
    }
}

/// What is proved and checked depends on the size of the parameters alone.
pub proof fn lemma_srs_used(
    b: &SrsBundle,
    input: InputView,
    witness: WitnessView,
    view: ProofView,
)
    requires
        b.wf(),
    ensures
        epa_valid(b, input, view) == epa_valid(&srs(b.spec_size()), input, view),
        prove_error(b, input, witness) == prove_error(&srs(b.spec_size()), input, witness),
{
    lemma_srs(b);
    let s = srs(b.spec_size());
    assert(adapter_statement(b, input) == adapter_statement(&s, input));
    if witness.values.len() == b.spec_size() {
        assert(token_commitment(b, witness.values) == token_commitment(&s, witness.values));
    }
}

} // verus!
