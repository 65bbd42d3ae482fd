//! Registration: voter keys, registration tokens, what an aggregator posts
//! when registration closes, and what validators check of it.
//!
//! The voter at local index `i` has the token `tau_i = skv_i * B_i`, where
//! `B_i` is the commitment to the Lagrange basis polynomial of that index.
//! Padding index `p` has a public token `tau_pad_p` with a scalar that is
//! hashed from the election, the aggregator and `p`. The commitment to the
//! whole vector is the sum of all tokens.

use vstd::prelude::*;

use crate::bls::{
    aggregate_delegation_valid, aggregate_signatures, delegation_hashable, delegation_log,
    delegation_valid, g2_generator, sign_delegation, total, verify_aggregate_delegation,
    verify_delegation, SigningKeypair,
};
use crate::curve::{g1_logs, g2_logs, G1Affine, G2Affine};
use crate::domain::{least_power_of_two, next_power_of_two, pad_scalar, pad_value};
use crate::election::ElectionParams;
use crate::epa_adapter::{
    get_or_create_srs, lemma_srs, no_domain_text, srs, srs_ref_text, SrsBundle,
};
use crate::eqlog::{
    eqlog_proof, eqlog_valid, prove as prove_eqlog, verify as verify_eqlog, EqLogContext,
    EqLogContextView, EqLogProof, EqLogProofView,
};
use crate::error::{fails_with, AggiosError, ErrorView, Result};
use crate::field::Fr;
use crate::generator::{later, lemma_later, lemma_upcoming, upcoming};
use crate::modular::{eqm, lemma_eqm_add, lemma_md_eqm, lemma_md_range, md, modulus};
use crate::sums::{lemma_sum_eqm, lemma_sum_ext, lemma_sum_split, sum};
use crate::registration_laws::{
    law_duplicates_reported, law_post_faults_reported, law_unreported_post, link_fault, linked,
    posted_at, posted_twice,
};
use crate::text::{cat2, cat3, cat4, cat6, contains_text, decimal, decimal_text, texts};

verus! {

// ---- voters ----------------------------------------------------------------

/// All keys of a voter.
#[derive(Clone, Copy, Debug)]
pub struct VoterKeys {
    /// The long-term signing key.
    pub signing: SigningKeypair,
    /// The voting key. The chosen aggregator learns its secret.
    pub skv: Fr,
    pub pkv: G2Affine,
}

impl VoterKeys {
    /// Each public key belongs to its secret key.
    pub open spec fn matching(&self) -> bool {
        self.signing.matching() && self.pkv@ == self.skv@
    }

    /// Keys drawn from `rng`.
    pub fn generate(rng: &mut rand::rngs::StdRng) -> (k: VoterKeys)
        ensures
            k.matching(),
            k.signing.sk@ == md(upcoming(*old(rng), 0)),
            k.skv@ == md(upcoming(*old(rng), 1)),
            later(*old(rng), *final(rng), 2),
    {
        let signing = SigningKeypair::generate(rng);
        let ghost between = *rng;
        let skv = Fr::rand(rng);
        let pkv = g2_generator().mul(skv);
        proof {
            skv.lemma_range();
            lemma_upcoming(*old(rng), between, 1, 0);
            lemma_later(*old(rng), between, *rng, 1, 1);
        }
        VoterKeys { signing, skv, pkv }
    }

    /// The signature by which the voter delegates to an aggregator.
    pub fn sign_delegation(&self, election_id: &str, aggregator_id: &str) -> (sig: G1Affine)
        requires
            delegation_hashable(election_id@, aggregator_id@),
        ensures
            sig@ == md(delegation_log(election_id@, aggregator_id@) * self.signing.sk@),
    {
        sign_delegation(&self.signing.sk, election_id, aggregator_id)
    }
}

/// An accepted registration, as the aggregator keeps it. It holds the voting
/// secret, which is never published.
#[derive(Debug)]
pub struct RegisteredVoter {
    pub voter_id: String,
    pub pk: G2Affine,
    pub pkv: G2Affine,
    pub sigma: G1Affine,
    pub skv: Fr,
}

#[verifier::ext_equal]
pub struct VoterView {
    pub voter_id: Seq<char>,
    pub pk: int,
    pub pkv: int,
    pub sigma: int,
    pub skv: int,
}

impl View for RegisteredVoter {
    type V = VoterView;

    open spec fn view(&self) -> VoterView {
        VoterView {
            voter_id: self.voter_id@,
            pk: self.pk@,
            pkv: self.pkv@,
            sigma: self.sigma@,
            skv: self.skv@,
        }
    }
}

impl Clone for RegisteredVoter {
    fn clone(&self) -> (r: RegisteredVoter)
        ensures
            r == *self,
    {
        RegisteredVoter {
            voter_id: self.voter_id.clone(),
            pk: self.pk,
            pkv: self.pkv,
            sigma: self.sigma,
            skv: self.skv,
        }
    }
}

pub open spec fn voter_views(s: Seq<RegisteredVoter>) -> Seq<VoterView> {
    Seq::new(s.len(), |i: int| s[i]@)
}

// ---- posts -----------------------------------------------------------------

/// The public record of one voter.
#[derive(Debug)]
pub struct VoterRegistrationRecord {
    pub voter_id: String,
    pub idx: usize,
    pub pk: G2Affine,
    pub pkv: G2Affine,
    pub tau: G1Affine,
    pub sigma: G1Affine,
    pub eqlog: EqLogProof,
}

#[verifier::ext_equal]
pub struct RecordView {
    pub voter_id: Seq<char>,
    pub idx: usize,
    pub pk: int,
    pub pkv: int,
    pub tau: int,
    pub sigma: int,
    pub eqlog: EqLogProofView,
}

impl View for VoterRegistrationRecord {
    type V = RecordView;

    open spec fn view(&self) -> RecordView {
        RecordView {
            voter_id: self.voter_id@,
            idx: self.idx,
            pk: self.pk@,
            pkv: self.pkv@,
            tau: self.tau@,
            sigma: self.sigma@,
            eqlog: self.eqlog@,
        }
    }
}

impl Clone for VoterRegistrationRecord {
    fn clone(&self) -> (r: VoterRegistrationRecord)
        ensures
            r == *self,
    {
        VoterRegistrationRecord {
            voter_id: self.voter_id.clone(),
            idx: self.idx,
            pk: self.pk,
            pkv: self.pkv,
            tau: self.tau,
            sigma: self.sigma,
            eqlog: self.eqlog,
        }
    }
}

/// What an aggregator posts when registration closes.
#[derive(Clone, Debug)]
pub struct FinalizedRegistration {
    pub election_id: String,
    pub aggregator_id: String,
    pub domain_size: usize,
    pub real_registered_count: usize,
    pub pad_count: usize,
    pub voters: Vec<VoterRegistrationRecord>,
    /// The padding tokens, at the domain indices after the voters.
    pub pad_tokens: Vec<G1Affine>,
    /// The sum of all delegation signatures.
    pub aggregate_sigma: G1Affine,
    /// The sum of all tokens.
    pub c_commit: G1Affine,
    pub srs_ref: String,
    pub timestamp_unix_ms: u64,
}

#[verifier::ext_equal]
pub struct RegistrationView {
    pub election_id: Seq<char>,
    pub aggregator_id: Seq<char>,
    pub domain_size: usize,
    pub real_registered_count: usize,
    pub pad_count: usize,
    pub voters: Seq<RecordView>,
    pub pad_tokens: Seq<int>,
    pub aggregate_sigma: int,
    pub c_commit: int,
    pub srs_ref: Seq<char>,
    pub timestamp_unix_ms: u64,
}

pub open spec fn record_views(s: Seq<VoterRegistrationRecord>) -> Seq<RecordView> {
    Seq::new(s.len(), |i: int| s[i]@)
}

impl View for FinalizedRegistration {
    type V = RegistrationView;

    open spec fn view(&self) -> RegistrationView {
        RegistrationView {
            election_id: self.election_id@,
            aggregator_id: self.aggregator_id@,
            domain_size: self.domain_size,
            real_registered_count: self.real_registered_count,
            pad_count: self.pad_count,
            voters: record_views(self.voters@),
            pad_tokens: g1_logs(self.pad_tokens@),
            aggregate_sigma: self.aggregate_sigma@,
            c_commit: self.c_commit@,
            srs_ref: self.srs_ref@,
            timestamp_unix_ms: self.timestamp_unix_ms,
        }
    }
}

// ---- the size of the domain ------------------------------------------------

/// The larger of the number of voters and one more than the partitions.
pub open spec fn least_domain(count: int, partitions: int) -> int {
    if count >= partitions + 1 {
        count
    } else {
        partitions + 1
    }
}

/// The size of the domain for a number of voters and of partitions.
pub open spec fn domain_size_for(count: int, partitions: int) -> int {
    choose|r: int| least_power_of_two(r, least_domain(count, partitions))
}

/// There is one least power of two.
pub proof fn lemma_least_unique(r: int, s: int, n: int)
    requires
        least_power_of_two(r, n),
        least_power_of_two(s, n),
    ensures
        r == s,
{
}

/// The size of the domain: a power of two that holds all voters and is larger
/// than the number of partitions, so that each has a label of its own.
pub fn required_domain_size(real_registered_count: usize, num_partitions: usize) -> (n: usize)
    requires
        least_domain(real_registered_count as int, num_partitions as int) <= usize::MAX / 2 + 1,
    ensures
        n == domain_size_for(real_registered_count as int, num_partitions as int),
        least_power_of_two(
            n as int,
            least_domain(real_registered_count as int, num_partitions as int),
        ),
{
    let least: usize = if real_registered_count > num_partitions {
        real_registered_count
    } else {
        num_partitions + 1
    };
    let n = next_power_of_two(least);
    proof {
        let d = domain_size_for(real_registered_count as int, num_partitions as int);
        lemma_least_unique(n as int, d, least as int);
    }
    n
}

// ---- accepting a voter -----------------------------------------------------

/// Why an aggregator does not accept a voter.
pub open spec fn accept_error(
    election_id: Seq<char>,
    aggregator_id: Seq<char>,
    voter_id: Seq<char>,
    pk: int,
    pkv: int,
    sigma: int,
    skv: int,
) -> Option<ErrorView> {
    if !delegation_valid(sigma, pk, election_id, aggregator_id) {
        Some(
            ErrorView::Registration(
                "invalid delegation signature for voter "@ + voter_id + " to aggregator "@
                    + aggregator_id,
            ),
        )
    } else if pkv != skv {
        Some(
            ErrorView::Registration(
                "voting key mismatch for voter "@ + voter_id + ": skv does not match pkv"@,
            ),
        )
    } else {
        None
    }
}

/// The aggregator's check of one voter.
pub fn accept_registration(
    election_id: &str,
    aggregator_id: &str,
    voter_id: &str,
    pk: &G2Affine,
    pkv: &G2Affine,
    sigma: &G1Affine,
    skv: &Fr,
) -> (r: Result<RegisteredVoter>)
    requires
        sigma@ != 0 && pk@ != 0 ==> delegation_hashable(election_id@, aggregator_id@),
    ensures
        fails_with(
            r,
            accept_error(
                election_id@,
                aggregator_id@,
                voter_id@,
                pk@,
                pkv@,
                sigma@,
                skv@,
            ),
        ),
        r matches Ok(v) ==> v.voter_id@ == voter_id@ && v.pk == *pk && v.pkv == *pkv && v.sigma
            == *sigma && v.skv == *skv,
        r is Ok <==> delegation_valid(sigma@, pk@, election_id@, aggregator_id@) && pkv@ == skv@,
{
    if !verify_delegation(sigma, pk, election_id, aggregator_id) {
        return Err(
            AggiosError::Registration(
                cat4(
                    "invalid delegation signature for voter ",
                    voter_id,
                    " to aggregator ",
                    aggregator_id,
                ),
            ),
        );
    }
    let expected_pkv = g2_generator().mul(*skv);
    proof {
        skv.lemma_range();
    }
    if expected_pkv != *pkv {
        return Err(
            AggiosError::Registration(
                cat3("voting key mismatch for voter ", voter_id, ": skv does not match pkv"),
            ),
        );
    }
    Ok(
        RegisteredVoter {
            voter_id: String::from_str(voter_id),
            pk: *pk,
            pkv: *pkv,
            sigma: *sigma,
            skv: *skv,
        },
    )
}

// ---- tokens ----------------------------------------------------------------

/// The tokens of the voters.
pub open spec fn taus(voters: Seq<RecordView>) -> Seq<int> {
    Seq::new(voters.len(), |i: int| voters[i].tau)
}

/// The sum of all tokens.
pub open spec fn token_sum(voters: Seq<RecordView>, pads: Seq<int>) -> int {
    md(total(taus(voters)) + total(pads))
}

fn add_points(acc: G1Affine, points: &Vec<G1Affine>) -> (r: G1Affine)
    ensures
        r@ == md(acc@ + total(g1_logs(points@))),
{
    let ghost logs = g1_logs(points@);
    let ghost f = |i: int| logs[i];
    let mut r = acc;
    let mut i: usize = 0;
    proof {
        acc.lemma_range();
    }
    while i < points.len()
        invariant
            i <= points.len(),
            logs == g1_logs(points@),
            f == (|k: int| logs[k]),
            r@ == md(acc@ + sum(f, i as int)),
        decreases points.len() - i,
    {
        proof {
            let t = acc@ + sum(f, i as int);
            lemma_md_eqm(t);
            lemma_eqm_add(md(t), t, logs[i as int], logs[i as int]);
        }
        r = r.add(points[i]);
        i += 1;
    }
    proof {
        lemma_sum_ext(f, |k: int| logs[k], logs.len() as int);
    }
    r
}

fn voter_tokens(voters: &Vec<VoterRegistrationRecord>) -> (r: Vec<G1Affine>)
    ensures
        g1_logs(r@) == taus(record_views(voters@)),
{
    let mut r: Vec<G1Affine> = Vec::new();
    let mut i: usize = 0;
    while i < voters.len()
        invariant
            i <= voters.len(),
            r@.len() == i,
            forall|k: int| 0 <= k < i ==> #[trigger] r@[k] == voters@[k].tau,
        decreases voters.len() - i,
    {
        r.push(voters[i].tau);
        i += 1;
    }
    proof {
        assert(g1_logs(r@) =~= taus(record_views(voters@)));
    }
    r
}

/// The sum of all tokens of a registration post.
pub fn sum_tokens(voters: &Vec<VoterRegistrationRecord>, pad_tokens: &Vec<G1Affine>) -> (c: G1Affine)
    ensures
        c@ == token_sum(record_views(voters@), g1_logs(pad_tokens@)),
{
    let tokens = voter_tokens(voters);
    let acc = add_points(G1Affine::zero(), &tokens);
    let c = add_points(acc, pad_tokens);
    proof {
        let t = total(g1_logs(tokens@));
        let p = total(g1_logs(pad_tokens@));
        lemma_md_eqm(t);
        lemma_eqm_add(md(t), t, p, p);
    }
    c
}

// ---- finalizing ------------------------------------------------------------

/// The context of a voter's proof of equal logarithms.
pub open spec fn slot(
    election_id: Seq<char>,
    aggregator_id: Seq<char>,
    voter_id: Seq<char>,
    idx: int,
    n: int,
) -> EqLogContextView {
    EqLogContextView {
        election_id,
        aggregator_id,
        voter_id,
        local_index: idx,
        domain_size: n,
    }
}

/// The proof was made with some nonce.
pub open spec fn eqlog_made(
    base: int,
    tau: int,
    pkv: int,
    skv: int,
    context: EqLogContextView,
    p: EqLogProofView,
) -> bool {
    exists|r: int|
        0 <= r < modulus() && p == #[trigger] eqlog_proof(base, tau, pkv, skv, r, context)
}

/// The proofs of a post were made with the next scalars of a generator, one
/// for each voter.
pub open spec fn nonces_drawn(
    election_id: Seq<char>,
    aggregator_id: Seq<char>,
    voters: Seq<VoterView>,
    rng: rand::rngs::StdRng,
    post: RegistrationView,
) -> bool {
    let n = post.domain_size as int;
    forall|i: int|
        0 <= i < voters.len() ==> (#[trigger] post.voters[i]).eqlog == eqlog_proof(
            basis_for(n)[i],
            post.voters[i].tau,
            voters[i].pkv,
            voters[i].skv,
            md(upcoming(rng, i)),
            slot(election_id, aggregator_id, voters[i].voter_id, i, n),
        )
}

/// The commitments to the Lagrange basis for a domain size.
pub open spec fn basis_for(n: int) -> Seq<int> {
    g1_logs(srs(n).lagrange_g1@)
}

/// The record of the voter with index `i`.
pub open spec fn record_of(
    election_id: Seq<char>,
    aggregator_id: Seq<char>,
    n: int,
    v: VoterView,
    i: int,
    r: RecordView,
) -> bool {
    let base = basis_for(n)[i];
    &&& r.voter_id == v.voter_id
    &&& r.idx == i
    &&& r.pk == v.pk
    &&& r.pkv == v.pkv
    &&& r.sigma == v.sigma
    &&& r.tau == md(base * v.skv)
    &&& eqlog_made(
        base,
        r.tau,
        v.pkv,
        v.skv,
        slot(election_id, aggregator_id, v.voter_id, i, n),
        r.eqlog,
    )
}

/// The padding token with index `p`, after `count` voters.
pub open spec fn pad_token(
    election_id: Seq<char>,
    aggregator_id: Seq<char>,
    n: int,
    count: int,
    p: int,
) -> int {
    md(basis_for(n)[count + p] * pad_value(election_id, aggregator_id, p))
}

/// The signatures of voters.
pub open spec fn sigmas(voters: Seq<VoterView>) -> Seq<int> {
    Seq::new(voters.len(), |i: int| voters[i].sigma)
}

/// What an aggregator posts for its voters.
pub open spec fn finalized(
    election_id: Seq<char>,
    partitions: int,
    aggregator_id: Seq<char>,
    voters: Seq<VoterView>,
    timestamp: u64,
    post: RegistrationView,
) -> bool {
    let count = voters.len() as int;
    let n = domain_size_for(count, partitions);
    &&& post.election_id == election_id
    &&& post.aggregator_id == aggregator_id
    &&& post.domain_size == n
    &&& least_power_of_two(n, least_domain(count, partitions))
    &&& post.real_registered_count == count
    &&& post.pad_count == n - count
    &&& post.voters.len() == count
    &&& forall|i: int|
        0 <= i < count ==> record_of(
            election_id,
            aggregator_id,
            n,
            voters[i],
            i,
            #[trigger] post.voters[i],
        )
    &&& post.pad_tokens.len() == n - count
    &&& forall|p: int|
        0 <= p < n - count ==> #[trigger] post.pad_tokens[p] == pad_token(
            election_id,
            aggregator_id,
            n,
            count,
            p,
        )
    &&& post.aggregate_sigma == md(total(sigmas(voters)))
    &&& post.c_commit == token_sum(post.voters, post.pad_tokens)
    &&& post.srs_ref == srs_ref_text(n)
    &&& post.timestamp_unix_ms == timestamp
}

/// A record of a post is that of a voter, at index `i`: the voter's id and
/// keys, the signature, and the voting secret times the basis point.
pub open spec fn posted_as(
    post: &FinalizedRegistration,
    record: VoterRegistrationRecord,
    voter: RegisteredVoter,
    i: int,
) -> bool {
    &&& record.voter_id@ == voter.voter_id@
    &&& record.idx == i
    &&& record.pk@ == voter.pk@
    &&& record.pkv@ == voter.pkv@
    &&& record.sigma@ == voter.sigma@
    &&& record.tau@ == md(basis_for(post.domain_size as int)[i] * voter.skv@)
}

/// The error for a domain that is too large.
pub open spec fn domain_error(n: int) -> Option<ErrorView> {
    if n <= 0x1_0000_0000 {
        None
    } else {
        Some(ErrorView::Domain(no_domain_text(n)))
    }
}

fn voter_sigmas(voters: &Vec<RegisteredVoter>) -> (r: Vec<G1Affine>)
    ensures
        g1_logs(r@) == sigmas(voter_views(voters@)),
{
    let mut r: Vec<G1Affine> = Vec::new();
    let mut i: usize = 0;
    while i < voters.len()
        invariant
            i <= voters.len(),
            r@.len() == i,
            forall|k: int| 0 <= k < i ==> #[trigger] r@[k] == voters@[k].sigma,
        decreases voters.len() - i,
    {
        r.push(voters[i].sigma);
        i += 1;
    }
    proof {
        assert(g1_logs(r@) =~= sigmas(voter_views(voters@)));
    }
    r
}

/// Freezes the accepted voters of one aggregator: assigns local indices in the
/// order of registration, and makes the public post.
pub fn finalize_registration(
    election: &ElectionParams,
    aggregator_id: &str,
    voters: &Vec<RegisteredVoter>,
    timestamp_unix_ms: u64,
    rng: &mut rand::rngs::StdRng,
) -> (r: Result<(FinalizedRegistration, SrsBundle)>)
    requires
        least_domain(voters@.len() as int, election.partitions()) <= usize::MAX / 2 + 1,
    ensures
        fails_with(
            r,
            domain_error(domain_size_for(voters@.len() as int, election.partitions())),
        ),
        r matches Ok((post, bundle)) ==> bundle.wf() && bundle.spec_size() == post.domain_size
            && finalized(
            election.election_id@,
            election.partitions(),
            aggregator_id@,
            voter_views(voters@),
            timestamp_unix_ms,
            post@,
        ) && nonces_drawn(
            election.election_id@,
            aggregator_id@,
            voter_views(voters@),
            *old(rng),
            post@,
        ) && later(*old(rng), *final(rng), voters@.len() as int),
        r matches Ok((post, bundle)) ==> {
            &&& post.election_id@ == election.election_id@
            &&& post.aggregator_id@ == aggregator_id@
            &&& post.voters@.len() == voters@.len()
            &&& post.real_registered_count == voters@.len()
            &&& post.pad_tokens@.len() == post.pad_count
            &&& post.real_registered_count + post.pad_count == post.domain_size
            &&& forall|i: int|
                0 <= i < voters@.len() ==> posted_as(
                    &post,
                    #[trigger] post.voters@[i],
                    voters@[i],
                    i,
                )
        },
{
    let real_count = voters.len();
    let domain_size = required_domain_size(real_count, election.num_partitions());
    let pad_count = domain_size - real_count;
    let bundle = match get_or_create_srs(domain_size) {
        Ok(bundle) => bundle,
        Err(e) => return Err(e),
    };
    let basis = bundle.lagrange_basis();
    let ghost n = domain_size as int;
    let ghost eid = election.election_id@;
    proof {
        lemma_srs(&bundle);
        assert(g1_logs(basis@).len() == n);
    }
    let mut records: Vec<VoterRegistrationRecord> = Vec::new();
    let mut idx: usize = 0;
    while idx < voters.len()
        invariant
            idx <= voters.len(),
            real_count == voters.len(),
            real_count <= domain_size,
            n == domain_size,
            eid == election.election_id@,
            g1_logs(basis@) == basis_for(n),
            basis@.len() == n,
            records@.len() == idx,
            forall|i: int|
                0 <= i < idx ==> record_of(
                    eid,
                    aggregator_id@,
                    n,
                    voters@[i]@,
                    i,
                    (#[trigger] records@[i])@,
                ) && records@[i].eqlog@ == eqlog_proof(
                    basis_for(n)[i],
                    records@[i].tau@,
                    voters@[i].pkv@,
                    voters@[i].skv@,
                    md(upcoming(*old(rng), i)),
                    slot(eid, aggregator_id@, voters@[i].voter_id@, i, n),
                ),
            later(*old(rng), *rng, idx as int),
        decreases voters.len() - idx,
    {
        let voter = &voters[idx];
        let b_i = basis[idx];
        let tau = b_i.mul(voter.skv);
        let context = EqLogContext {
            election_id: election.election_id.clone(),
            aggregator_id: String::from_str(aggregator_id),
            voter_id: voter.voter_id.clone(),
            local_index: idx,
            domain_size,
        };
        let ghost before = *rng;
        let eqlog = prove_eqlog(&b_i, &tau, &voter.pkv, &voter.skv, &context, rng);
        proof {
            lemma_upcoming(*old(rng), before, idx as int, 0);
            lemma_later(*old(rng), before, *rng, idx as int, 1);
            lemma_md_range(upcoming(*old(rng), idx as int));
            assert(basis_for(n)[idx as int] == b_i@);
            assert(context@ == slot(eid, aggregator_id@, voter.voter_id@, idx as int, n));
        }
        records.push(
            VoterRegistrationRecord {
                voter_id: voter.voter_id.clone(),
                idx,
                pk: voter.pk,
                pkv: voter.pkv,
                tau,
                sigma: voter.sigma,
                eqlog,
            },
        );
        idx += 1;
    }
    let mut pad_tokens: Vec<G1Affine> = Vec::new();
    let mut p: usize = 0;
    while p < pad_count
        invariant
            p <= pad_count,
            pad_count == domain_size - real_count,
            real_count <= domain_size,
            n == domain_size,
            eid == election.election_id@,
            g1_logs(basis@) == basis_for(n),
            basis@.len() == n,
            pad_tokens@.len() == p,
            forall|i: int|
                0 <= i < p ==> (#[trigger] pad_tokens@[i])@ == pad_token(
                    eid,
                    aggregator_id@,
                    n,
                    real_count as int,
                    i,
                ),
        decreases pad_count - p,
    {
        let scalar = pad_scalar(election.election_id.as_str(), aggregator_id, p);
        let base = basis[real_count + p];
        proof {
            assert(basis_for(n)[real_count + p] == base@);
        }
        pad_tokens.push(base.mul(scalar));
        p += 1;
    }
    let sigma_list = voter_sigmas(voters);
    let aggregate_sigma = aggregate_signatures(&sigma_list);
    let c_commit = sum_tokens(&records, &pad_tokens);
    let post = FinalizedRegistration {
        election_id: election.election_id.clone(),
        aggregator_id: String::from_str(aggregator_id),
        domain_size,
        real_registered_count: real_count,
        pad_count,
        voters: records,
        pad_tokens,
        aggregate_sigma,
        c_commit,
        srs_ref: bundle.srs_ref.clone(),
        timestamp_unix_ms,
    };
    proof {
        let views = voter_views(voters@);
        assert forall|i: int| 0 <= i < views.len() implies record_of(
            eid,
            aggregator_id@,
            n,
            views[i],
            i,
            #[trigger] post@.voters[i],
        ) by {
            assert(post@.voters[i] == records@[i]@);
        }
        assert forall|i: int| 0 <= i < voters@.len() implies posted_as(
            &post,
            #[trigger] post.voters@[i],
            voters@[i],
            i,
        ) by {
            assert(record_of(eid, aggregator_id@, n, voters@[i]@, i, records@[i]@));
        }
        assert(nonces_drawn(eid, aggregator_id@, views, *old(rng), post@)) by {
            assert forall|i: int| 0 <= i < views.len() implies (#[trigger] post@.voters[i]).eqlog
                == eqlog_proof(
                basis_for(n)[i],
                post@.voters[i].tau,
                views[i].pkv,
                views[i].skv,
                md(upcoming(*old(rng), i)),
                slot(eid, aggregator_id@, views[i].voter_id, i, n),
            ) by {
                assert(post@.voters[i] == records@[i]@);
                assert(views[i] == voters@[i]@);
            }
        }
        assert forall|i: int| 0 <= i < n - views.len() implies #[trigger] post@.pad_tokens[i]
            == pad_token(eid, aggregator_id@, n, views.len() as int, i) by {
            assert(post@.pad_tokens[i] == pad_tokens@[i]@);
        }
    }
    Ok((post, bundle))
}

// ---- validating ------------------------------------------------------------

/// The messages for the positions below `n` at which something is wrong.
pub open spec fn flagged(
    n: int,
    wrong: spec_fn(int) -> bool,
    message: spec_fn(int) -> Seq<char>,
) -> Seq<Seq<char>>
    decreases n,
{
    if n <= 0 {
        Seq::empty()
    } else if wrong(n - 1) {
        flagged(n - 1, wrong, message).push(message(n - 1))
    } else {
        flagged(n - 1, wrong, message)
    }
}

/// Nothing is flagged where nothing is wrong.
pub proof fn lemma_nothing_flagged(
    n: int,
    wrong: spec_fn(int) -> bool,
    message: spec_fn(int) -> Seq<char>,
)
    requires
        forall|i: int| 0 <= i < n ==> !#[trigger] wrong(i),
    ensures
        flagged(n, wrong, message) == Seq::<Seq<char>>::empty(),
    decreases n,
{
    if n > 0 {
        lemma_nothing_flagged(n - 1, wrong, message);
    }
}

/// Local indices are dense, in the order of registration.
pub open spec fn misplaced(voters: Seq<RecordView>) -> spec_fn(int) -> bool {
    |i: int| voters[i].idx != i
}

pub open spec fn misplaced_text(voters: Seq<RecordView>) -> spec_fn(int) -> Seq<char> {
    |i: int|
        "voter "@ + voters[i].voter_id + " has index "@ + decimal(voters[i].idx as int)
            + " but position "@ + decimal(i)
}

/// The ids of voters.
pub open spec fn voter_ids(voters: Seq<RecordView>) -> Seq<Seq<char>> {
    Seq::new(voters.len(), |i: int| voters[i].voter_id)
}

/// The id at a position occurs before.
pub open spec fn repeated(ids: Seq<Seq<char>>) -> spec_fn(int) -> bool {
    |i: int| ids.take(i).contains(ids[i])
}

pub open spec fn repeated_text(ids: Seq<Seq<char>>) -> spec_fn(int) -> Seq<char> {
    |i: int| "duplicate voter "@ + ids[i] + " in post"@
}

pub open spec fn unsigned(eid: Seq<char>, aid: Seq<char>, voters: Seq<RecordView>) -> spec_fn(
    int,
) -> bool {
    |i: int| !delegation_valid(voters[i].sigma, voters[i].pk, eid, aid)
}

pub open spec fn unsigned_text(voters: Seq<RecordView>) -> spec_fn(int) -> Seq<char> {
    |i: int| "delegation signature invalid for voter "@ + voters[i].voter_id
}

/// The signatures of records.
pub open spec fn record_sigmas(voters: Seq<RecordView>) -> Seq<int> {
    Seq::new(voters.len(), |i: int| voters[i].sigma)
}

/// The public keys of records.
pub open spec fn record_pks(voters: Seq<RecordView>) -> Seq<int> {
    Seq::new(voters.len(), |i: int| voters[i].pk)
}

pub open spec fn signature_problems(post: RegistrationView, eid: Seq<char>, use_aggregate: bool) -> Seq<
    Seq<char>,
> {
    let aid = post.aggregator_id;
    let voters = post.voters;
    if use_aggregate {
        if aggregate_delegation_valid(post.aggregate_sigma, record_pks(voters), eid, aid) {
            Seq::empty()
        } else {
            seq!["aggregate delegation signature invalid"@]
        }
    } else {
        flagged(voters.len() as int, unsigned(eid, aid, voters), unsigned_text(voters)) + if md(
            total(record_sigmas(voters)),
        ) == post.aggregate_sigma {
            Seq::empty()
        } else {
            seq!["aggregate signature does not match individual signatures"@]
        }
    }
}

/// The proof of equal logarithms at a position is not valid. It is not checked
/// for an index outside the domain, which is reported as misplaced.
pub open spec fn unlinked(eid: Seq<char>, post: RegistrationView) -> spec_fn(int) -> bool {
    let n = post.domain_size as int;
    |i: int|
        {
            let r = post.voters[i];
            r.idx < n && !eqlog_valid(
                basis_for(n)[r.idx as int],
                r.tau,
                r.pkv,
                r.eqlog,
                slot(eid, post.aggregator_id, r.voter_id, r.idx as int, n),
            )
        }
}

pub open spec fn unlinked_text(voters: Seq<RecordView>) -> spec_fn(int) -> Seq<char> {
    |i: int| "EqLog proof invalid for voter "@ + voters[i].voter_id
}

/// The padding token with an index is not the public one.
pub open spec fn wrong_pad(eid: Seq<char>, post: RegistrationView) -> spec_fn(int) -> bool {
    |p: int|
        post.pad_tokens[p] != pad_token(
            eid,
            post.aggregator_id,
            post.domain_size as int,
            post.real_registered_count as int,
            p,
        )
}

pub open spec fn wrong_pad_text() -> spec_fn(int) -> Seq<char> {
    |p: int| "padding token "@ + decimal(p) + " does not match derivation"@
}

pub open spec fn commitment_problems(post: RegistrationView) -> Seq<Seq<char>> {
    if token_sum(post.voters, post.pad_tokens) == post.c_commit {
        Seq::empty()
    } else {
        seq!["C_commit does not equal the sum of registration tokens"@]
    }
}

/// The counts of a post belong together.
pub open spec fn counts_consistent(post: RegistrationView) -> bool {
    &&& post.voters.len() == post.real_registered_count
    &&& post.pad_tokens.len() == post.pad_count
    &&& post.real_registered_count + post.pad_count == post.domain_size
}

/// The post comes from a known aggregator and has the right sizes, so that its
/// contents are checked.
pub open spec fn checkable(aggregators: Seq<Seq<char>>, partitions: int, post: RegistrationView) -> bool {
    &&& aggregators.contains(post.aggregator_id)
    &&& post.domain_size == domain_size_for(post.real_registered_count as int, partitions)
    &&& counts_consistent(post)
}

/// What is wrong with the contents of a post.
pub open spec fn content_problems(
    eid: Seq<char>,
    post: RegistrationView,
    use_aggregate: bool,
) -> Seq<Seq<char>> {
    let voters = post.voters;
    let count = voters.len() as int;
    let ids = voter_ids(voters);
    flagged(count, misplaced(voters), misplaced_text(voters)) + flagged(
        count,
        repeated(ids),
        repeated_text(ids),
    ) + signature_problems(post, eid, use_aggregate) + flagged(
        count,
        unlinked(eid, post),
        unlinked_text(voters),
    ) + flagged(post.pad_tokens.len() as int, wrong_pad(eid, post), wrong_pad_text())
        + commitment_problems(post)
}

/// What validators find wrong with a registration post.
pub open spec fn registration_problems(
    eid: Seq<char>,
    aggregators: Seq<Seq<char>>,
    partitions: int,
    post: RegistrationView,
    use_aggregate: bool,
) -> Seq<Seq<char>> {
    let expected = domain_size_for(post.real_registered_count as int, partitions);
    if !aggregators.contains(post.aggregator_id) {
        seq!["unknown aggregator "@ + post.aggregator_id]
    } else if post.domain_size != expected {
        seq![
            "domain size "@ + decimal(post.domain_size as int) + " does not match expected "@
                + decimal(expected),
        ]
    } else if !counts_consistent(post) {
        seq!["inconsistent registration counts"@]
    } else {
        content_problems(eid, post, use_aggregate)
    }
}

/// What validators found.
#[derive(Debug)]
pub struct ValidationReport {
    pub errors: Vec<String>,
}

impl Clone for ValidationReport {
    fn clone(&self) -> (r: ValidationReport)
        ensures
            r.errors@ == self.errors@,
    {
        ValidationReport { errors: crate::text::clone_texts(&self.errors) }
    }
}

impl Default for ValidationReport {
    fn default() -> (r: ValidationReport)
        ensures
            r.errors@ == Seq::<String>::empty(),
    {
        ValidationReport { errors: Vec::new() }
    }
}

impl ValidationReport {
    /// Nothing was found.
    pub fn ok(&self) -> (b: bool)
        ensures
            b == (self.errors@.len() == 0),
    {
        self.errors.len() == 0
    }
}

fn push_message(list: &mut Vec<String>, message: String)
    ensures
        texts(final(list)@) == texts(old(list)@).push(message@),
{
    list.push(message);
    proof {
        assert(texts(list@) =~= texts(old(list)@).push(message@));
    }
}

fn check_positions(voters: &Vec<VoterRegistrationRecord>, errors: &mut Vec<String>)
    ensures
        texts(final(errors)@) == texts(old(errors)@) + flagged(
            voters@.len() as int,
            misplaced(record_views(voters@)),
            misplaced_text(record_views(voters@)),
        ),
{
    let ghost start = texts(errors@);
    let ghost views = record_views(voters@);
    let mut i: usize = 0;
    proof {
        assert(start + flagged(0, misplaced(views), misplaced_text(views)) =~= start);
    }
    while i < voters.len()
        invariant
            i <= voters.len(),
            views == record_views(voters@),
            texts(errors@) == start + flagged(i as int, misplaced(views), misplaced_text(views)),
        decreases voters.len() - i,
    {
        let record = &voters[i];
        let ghost before = flagged(i as int, misplaced(views), misplaced_text(views));
        assert(views[i as int] == record@);
        if record.idx != i {
            push_message(
                errors,
                cat6(
                    "voter ",
                    record.voter_id.as_str(),
                    " has index ",
                    decimal_text(record.idx as u64).as_str(),
                    " but position ",
                    decimal_text(i as u64).as_str(),
                ),
            );
            proof {
                assert(misplaced(views)(i as int));
                assert(texts(errors@) =~= start + before.push(misplaced_text(views)(i as int)));
            }
        } else {
            assert(!misplaced(views)(i as int));
        }
        i += 1;
    }
}

/// Whether the id at `pos` occurs before.
fn occurs_before(voters: &Vec<VoterRegistrationRecord>, pos: usize) -> (found: bool)
    requires
        pos < voters@.len(),
    ensures
        found == repeated(voter_ids(record_views(voters@)))(pos as int),
{
    let ghost ids = voter_ids(record_views(voters@));
    let mut i: usize = 0;
    while i < pos
        invariant
            i <= pos,
            pos < voters@.len(),
            ids == voter_ids(record_views(voters@)),
            forall|j: int| 0 <= j < i ==> #[trigger] ids[j] != ids[pos as int],
        decreases pos - i,
    {
        assert(ids[i as int] == voters@[i as int].voter_id@);
        assert(ids[pos as int] == voters@[pos as int].voter_id@);
        if voters[i].voter_id == voters[pos].voter_id {
            assert(ids.take(pos as int)[i as int] == ids[pos as int]);
            return true;
        }
        i += 1;
    }
    proof {
        let t = ids.take(pos as int);
        assert forall|j: int| 0 <= j < t.len() implies t[j] != ids[pos as int] by {
            assert(ids[j] != ids[pos as int]);
        }
    }
    false
}

fn check_duplicates(voters: &Vec<VoterRegistrationRecord>, errors: &mut Vec<String>)
    ensures
        texts(final(errors)@) == texts(old(errors)@) + flagged(
            voters@.len() as int,
            repeated(voter_ids(record_views(voters@))),
            repeated_text(voter_ids(record_views(voters@))),
        ),
{
    let ghost start = texts(errors@);
    let ghost ids = voter_ids(record_views(voters@));
    let mut i: usize = 0;
    proof {
        assert(start + flagged(0, repeated(ids), repeated_text(ids)) =~= start);
    }
    while i < voters.len()
        invariant
            i <= voters.len(),
            ids == voter_ids(record_views(voters@)),
            texts(errors@) == start + flagged(i as int, repeated(ids), repeated_text(ids)),
        decreases voters.len() - i,
    {
        let ghost before = flagged(i as int, repeated(ids), repeated_text(ids));
        assert(ids[i as int] == voters@[i as int].voter_id@);
        if occurs_before(voters, i) {
            push_message(
                errors,
                cat3("duplicate voter ", voters[i].voter_id.as_str(), " in post"),
            );
            proof {
                assert(texts(errors@) =~= start + before.push(repeated_text(ids)(i as int)));
            }
        }
        i += 1;
    }
}

fn check_signatures(
    post: &FinalizedRegistration,
    election_id: &str,
    use_aggregate_bls: bool,
    errors: &mut Vec<String>,
)
    requires
        post.voters@.len() > 0 ==> delegation_hashable(election_id@, post.aggregator_id@),
    ensures
        texts(final(errors)@) == texts(old(errors)@) + signature_problems(
            post@,
            election_id@,
            use_aggregate_bls,
        ),
{
    let ghost start = texts(errors@);
    let ghost views = record_views(post.voters@);
    let ghost eid = election_id@;
    let ghost aid = post.aggregator_id@;
    let aggregator_id = post.aggregator_id.as_str();
    let mut pks: Vec<G2Affine> = Vec::new();
    let mut sigma_list: Vec<G1Affine> = Vec::new();
    let mut i: usize = 0;
    while i < post.voters.len()
        invariant
            i <= post.voters.len(),
            pks@.len() == i,
            sigma_list@.len() == i,
            forall|k: int| 0 <= k < i ==> #[trigger] pks@[k] == post.voters@[k].pk,
            forall|k: int| 0 <= k < i ==> #[trigger] sigma_list@[k] == post.voters@[k].sigma,
        decreases post.voters.len() - i,
    {
        pks.push(post.voters[i].pk);
        sigma_list.push(post.voters[i].sigma);
        i += 1;
    }
    proof {
        assert(g2_logs(pks@) =~= record_pks(views));
        assert(g1_logs(sigma_list@) =~= record_sigmas(views));
        assert(start + Seq::<Seq<char>>::empty() =~= start);
    }
    if use_aggregate_bls {
        if !verify_aggregate_delegation(&post.aggregate_sigma, &pks, election_id, aggregator_id) {
            push_message(errors, String::from_str("aggregate delegation signature invalid"));
            proof {
                assert(texts(errors@) =~= start + seq!["aggregate delegation signature invalid"@]);
            }
        }
        return ;
    }
    let mut j: usize = 0;
    proof {
        assert(start + flagged(0, unsigned(eid, aid, views), unsigned_text(views)) =~= start);
    }
    while j < post.voters.len()
        invariant
            j <= post.voters.len(),
            views == record_views(post.voters@),
            eid == election_id@,
            aid == post.aggregator_id@,
            aggregator_id@ == aid,
            post.voters@.len() > 0 ==> delegation_hashable(eid, aid),
            texts(errors@) == start + flagged(
                j as int,
                unsigned(eid, aid, views),
                unsigned_text(views),
            ),
        decreases post.voters.len() - j,
    {
        let record = &post.voters[j];
        let ghost before = flagged(j as int, unsigned(eid, aid, views), unsigned_text(views));
        assert(views[j as int] == record@);
        if !verify_delegation(&record.sigma, &record.pk, election_id, aggregator_id) {
            push_message(
                errors,
                cat2("delegation signature invalid for voter ", record.voter_id.as_str()),
            );
            proof {
                assert(unsigned(eid, aid, views)(j as int));
                assert(texts(errors@) =~= start + before.push(unsigned_text(views)(j as int)));
            }
        } else {
            assert(!unsigned(eid, aid, views)(j as int));
        }
        j += 1;
    }
    let ghost listed = flagged(
        views.len() as int,
        unsigned(eid, aid, views),
        unsigned_text(views),
    );
    if aggregate_signatures(&sigma_list) != post.aggregate_sigma {
        push_message(
            errors,
            String::from_str("aggregate signature does not match individual signatures"),
        );
        proof {
            assert(texts(errors@) =~= start + (listed + seq![
                "aggregate signature does not match individual signatures"@,
            ]));
        }
    } else {
        proof {
            assert(listed + Seq::<Seq<char>>::empty() =~= listed);
        }
    }
}

fn check_eqlogs(
    post: &FinalizedRegistration,
    election_id: &str,
    basis: &Vec<G1Affine>,
    errors: &mut Vec<String>,
)
    requires
        g1_logs(basis@) == basis_for(post.domain_size as int),
        basis@.len() == post.domain_size,
    ensures
        texts(final(errors)@) == texts(old(errors)@) + flagged(
            post.voters@.len() as int,
            unlinked(election_id@, post@),
            unlinked_text(post@.voters),
        ),
{
    let ghost start = texts(errors@);
    let ghost view = post@;
    let ghost wrong = unlinked(election_id@, view);
    let ghost message = unlinked_text(view.voters);
    let mut i: usize = 0;
    proof {
        assert(start + flagged(0, wrong, message) =~= start);
    }
    while i < post.voters.len()
        invariant
            i <= post.voters.len(),
            view == post@,
            wrong == unlinked(election_id@, view),
            message == unlinked_text(view.voters),
            g1_logs(basis@) == basis_for(post.domain_size as int),
            basis@.len() == post.domain_size,
            texts(errors@) == start + flagged(i as int, wrong, message),
        decreases post.voters.len() - i,
    {
        let record = &post.voters[i];
        let ghost before = flagged(i as int, wrong, message);
        assert(view.voters[i as int] == record@);
        if record.idx >= post.domain_size {
            assert(!wrong(i as int));
            i += 1;
            continue;
        }
        let context = EqLogContext {
            election_id: String::from_str(election_id),
            aggregator_id: post.aggregator_id.clone(),
            voter_id: record.voter_id.clone(),
            local_index: record.idx,
            domain_size: post.domain_size,
        };
        let b_i = basis[record.idx];
        assert(basis_for(post.domain_size as int)[record.idx as int] == b_i@);
        assert(context@ == slot(
            election_id@,
            view.aggregator_id,
            record@.voter_id,
            record.idx as int,
            post.domain_size as int,
        ));
        if !verify_eqlog(&b_i, &record.tau, &record.pkv, &record.eqlog, &context) {
            push_message(
                errors,
                cat2("EqLog proof invalid for voter ", record.voter_id.as_str()),
            );
            proof {
                assert(wrong(i as int));
                assert(texts(errors@) =~= start + before.push(message(i as int)));
            }
        } else {
            assert(!wrong(i as int));
        }
        i += 1;
    }
}

fn check_pads(
    post: &FinalizedRegistration,
    election_id: &str,
    basis: &Vec<G1Affine>,
    errors: &mut Vec<String>,
)
    requires
        g1_logs(basis@) == basis_for(post.domain_size as int),
        basis@.len() == post.domain_size,
        counts_consistent(post@),
    ensures
        texts(final(errors)@) == texts(old(errors)@) + flagged(
            post.pad_tokens@.len() as int,
            wrong_pad(election_id@, post@),
            wrong_pad_text(),
        ),
{
    let ghost start = texts(errors@);
    let ghost view = post@;
    let ghost wrong = wrong_pad(election_id@, view);
    let ghost message = wrong_pad_text();
    let mut p: usize = 0;
    proof {
        assert(start + flagged(0, wrong, message) =~= start);
        assert(view.pad_tokens.len() == post.pad_tokens@.len());
    }
    while p < post.pad_tokens.len()
        invariant
            p <= post.pad_tokens.len(),
            view == post@,
            wrong == wrong_pad(election_id@, view),
            message == wrong_pad_text(),
            g1_logs(basis@) == basis_for(post.domain_size as int),
            basis@.len() == post.domain_size,
            post.real_registered_count + post.pad_tokens@.len() == post.domain_size,
            texts(errors@) == start + flagged(p as int, wrong, message),
        decreases post.pad_tokens.len() - p,
    {
        let ghost before = flagged(p as int, wrong, message);
        let scalar = pad_scalar(election_id, post.aggregator_id.as_str(), p);
        let base = basis[post.real_registered_count + p];
        let expected = base.mul(scalar);
        assert(basis_for(post.domain_size as int)[post.real_registered_count + p] == base@);
        assert(view.pad_tokens[p as int] == post.pad_tokens@[p as int]@);
        if post.pad_tokens[p] != expected {
            push_message(
                errors,
                cat3(
                    "padding token ",
                    decimal_text(p as u64).as_str(),
                    " does not match derivation",
                ),
            );
            proof {
                assert(wrong(p as int));
                assert(texts(errors@) =~= start + before.push(message(p as int)));
            }
        } else {
            assert(!wrong(p as int));
        }
        p += 1;
    }
}

pub proof fn lemma_flagged_contains(
    n: int,
    wrong: spec_fn(int) -> bool,
    message: spec_fn(int) -> Seq<char>,
    k: int,
)
    requires
        0 <= k < n,
        wrong(k),
    ensures
        flagged(n, wrong, message).contains(message(k)),
    decreases n,
{
    let all = flagged(n, wrong, message);
    if k == n - 1 {
        assert(all[all.len() - 1] == message(k));
    } else {
        lemma_flagged_contains(n - 1, wrong, message, k);
        let before = flagged(n - 1, wrong, message);
        let i = choose|i: int| 0 <= i < before.len() && before[i] == message(k);
        assert(all[i] == message(k));
    }
}

/// A voter whose index is not the position in the post, inside the domain or
/// not, is reported with both.
pub proof fn law_misplaced_reported(
    eid: Seq<char>,
    aggregators: Seq<Seq<char>>,
    partitions: int,
    post: RegistrationView,
    use_aggregate: bool,
    k: int,
)
    requires
        checkable(aggregators, partitions, post),
        0 <= k < post.voters.len(),
        post.voters[k].idx != k,
    ensures
        registration_problems(eid, aggregators, partitions, post, use_aggregate).contains(
            "voter "@ + post.voters[k].voter_id + " has index "@ + decimal(
                post.voters[k].idx as int,
            ) + " but position "@ + decimal(k),
        ),
{
    let (wrong, message) = (misplaced(post.voters), misplaced_text(post.voters));
    let first = flagged(post.voters.len() as int, wrong, message);
    lemma_flagged_contains(post.voters.len() as int, wrong, message, k);
    let i = choose|i: int| 0 <= i < first.len() && first[i] == message(k);
    let all = registration_problems(eid, aggregators, partitions, post, use_aggregate);
    assert(all[i] == first[i]);
}

/// What validators find wrong with a registration post.
fn find_problems(
    election: &ElectionParams,
    post: &FinalizedRegistration,
    use_aggregate_bls: bool,
) -> (r: Result<ValidationReport>)
    requires
        texts(election.aggregators@).contains(post.aggregator_id@) ==> least_domain(
            post.real_registered_count as int,
            election.partitions(),
        ) <= usize::MAX / 2 + 1,
        checkable(texts(election.aggregators@), election.partitions(), post@)
            && post.voters@.len() > 0 ==> delegation_hashable(
            election.election_id@,
            post.aggregator_id@,
        ),
    ensures
        fails_with(
            r,
            if checkable(texts(election.aggregators@), election.partitions(), post@) {
                domain_error(post.domain_size as int)
            } else {
                None
            },
        ),
        r matches Ok(report) ==> texts(report.errors@) == registration_problems(
            election.election_id@,
            texts(election.aggregators@),
            election.partitions(),
            post@,
            use_aggregate_bls,
        ),
{
    let mut errors: Vec<String> = Vec::new();
    let ghost none = Seq::<Seq<char>>::empty();
    proof {
        assert(texts(errors@) =~= none);
    }
    if !contains_text(&election.aggregators, post.aggregator_id.as_str()) {
        push_message(&mut errors, cat2("unknown aggregator ", post.aggregator_id.as_str()));
        proof {
            assert(texts(errors@) =~= seq!["unknown aggregator "@ + post.aggregator_id@]);
        }
        return Ok(ValidationReport { errors });
    }
    let expected_domain = required_domain_size(
        post.real_registered_count,
        election.num_partitions(),
    );
    if post.domain_size != expected_domain {
        push_message(
            &mut errors,
            cat4(
                "domain size ",
                decimal_text(post.domain_size as u64).as_str(),
                " does not match expected ",
                decimal_text(expected_domain as u64).as_str(),
            ),
        );
        proof {
            assert(texts(errors@) =~= seq![
                "domain size "@ + decimal(post.domain_size as int) + " does not match expected "@
                    + decimal(expected_domain as int),
            ]);
        }
        return Ok(ValidationReport { errors });
    }
    proof {
        assert(post@.voters.len() == post.voters@.len());
        assert(post@.pad_tokens.len() == post.pad_tokens@.len());
    }
    if post.voters.len() != post.real_registered_count || post.pad_tokens.len() != post.pad_count
        || post.real_registered_count as u128 + post.pad_count as u128
        != post.domain_size as u128 {
        push_message(&mut errors, String::from_str("inconsistent registration counts"));
        proof {
            assert(texts(errors@) =~= seq!["inconsistent registration counts"@]);
        }
        return Ok(ValidationReport { errors });
    }
    let bundle = match get_or_create_srs(post.domain_size) {
        Ok(bundle) => bundle,
        Err(e) => return Err(e),
    };
    let basis = bundle.lagrange_basis();
    proof {
        lemma_srs(&bundle);
        assert(g1_logs(basis@).len() == post.domain_size);
    }
    let election_id = election.election_id.as_str();
    check_positions(&post.voters, &mut errors);
    check_duplicates(&post.voters, &mut errors);
    check_signatures(post, election_id, use_aggregate_bls, &mut errors);
    check_eqlogs(post, election_id, basis, &mut errors);
    check_pads(post, election_id, basis, &mut errors);
    let ghost before = texts(errors@);
    let c = sum_tokens(&post.voters, &post.pad_tokens);
    if c != post.c_commit {
        push_message(
            &mut errors,
            String::from_str("C_commit does not equal the sum of registration tokens"),
        );
    }
    proof {
        assert(texts(errors@) =~= before + commitment_problems(post@));
        assert(texts(errors@) =~= content_problems(
            election.election_id@,
            post@,
            use_aggregate_bls,
        ));
    }
    Ok(ValidationReport { errors })
}

/// The validators' checks of one registration post. Each signature is checked
/// by itself, or all at once by their sum.
///
/// The post is one whose counts can be added up.
pub fn validate_finalized_registration(
    election: &ElectionParams,
    post: &FinalizedRegistration,
    use_aggregate_bls: bool,
) -> (r: Result<ValidationReport>)
    requires
        texts(election.aggregators@).contains(post.aggregator_id@) ==> least_domain(
            post.real_registered_count as int,
            election.partitions(),
        ) <= usize::MAX / 2 + 1,
        checkable(texts(election.aggregators@), election.partitions(), post@)
            && post.voters@.len() > 0 ==> delegation_hashable(
            election.election_id@,
            post.aggregator_id@,
        ),
    ensures
        fails_with(
            r,
            if checkable(texts(election.aggregators@), election.partitions(), post@) {
                domain_error(post.domain_size as int)
            } else {
                None
            },
        ),
        r matches Ok(report) ==> texts(report.errors@) == registration_problems(
            election.election_id@,
            texts(election.aggregators@),
            election.partitions(),
            post@,
            use_aggregate_bls,
        ),
        r matches Ok(report) && report.errors@.len() == 0 ==> sound_post(
            election,
            post,
            use_aggregate_bls,
        ),
        r matches Ok(report) ==> forall|i: int|
            checkable(texts(election.aggregators@), election.partitions(), post@) && 0 <= i
                < post.voters@.len() && post.voters@[i].idx < post.domain_size && !record_linked(
                election.election_id@,
                post,
                i,
            ) ==> texts(report.errors@).contains(
                "EqLog proof invalid for voter "@ + (#[trigger] post.voters@[i]).voter_id@,
            ),
{
    let r = find_problems(election, post, use_aggregate_bls);
    proof {
        if r is Ok {
            let report = r->Ok_0;
            let (eid, ids, k) = (
                election.election_id@,
                texts(election.aggregators@),
                election.partitions(),
            );
            assert(texts(report.errors@).len() == report.errors@.len());
            if report.errors@.len() == 0 {
                law_unreported_post(eid, ids, k, post@, use_aggregate_bls);
                lemma_sound_post(election, post, use_aggregate_bls);
            }
            assert forall|i: int|
                checkable(ids, k, post@) && 0 <= i < post.voters@.len() && post.voters@[i].idx
                    < post.domain_size && !record_linked(eid, post, i) implies texts(
                report.errors@,
            ).contains(
                "EqLog proof invalid for voter "@ + (#[trigger] post.voters@[i]).voter_id@,
            ) by {
                let m = "EqLog proof invalid for voter "@ + post.voters@[i].voter_id@;
                assert(post@.voters[i] == post.voters@[i]@);
                assert(link_fault(eid, post@, i, m));
                law_post_faults_reported(eid, ids, k, post@, use_aggregate_bls, m);
            }
        }
    }
    r
}

/// The proof of record `i` links its token to its voting key, in the slot that
/// its index says.
pub open spec fn record_linked(eid: Seq<char>, post: &FinalizedRegistration, i: int) -> bool {
    let r = post.voters@[i];
    let n = post.domain_size as int;
    eqlog_valid(
        basis_for(n)[r.idx as int],
        r.tau@,
        r.pkv@,
        r.eqlog@,
        EqLogContextView {
            election_id: eid,
            aggregator_id: post.aggregator_id@,
            voter_id: r.voter_id@,
            local_index: r.idx as int,
            domain_size: n,
        },
    )
}

/// The public keys of the records of a post.
pub open spec fn posted_keys(post: &FinalizedRegistration) -> Seq<int> {
    Seq::new(post.voters@.len(), |i: int| post.voters@[i].pk@)
}

/// Padding token `p` is the public scalar times its basis point.
pub open spec fn pad_derived(eid: Seq<char>, post: &FinalizedRegistration, p: int) -> bool {
    post.pad_tokens@[p]@ == md(
        basis_for(post.domain_size as int)[post.real_registered_count + p] * pad_value(
            eid,
            post.aggregator_id@,
            p,
        ),
    )
}

/// What holds of a post in which validators find nothing wrong.
pub open spec fn sound_post(
    election: &ElectionParams,
    post: &FinalizedRegistration,
    use_aggregate: bool,
) -> bool {
    let eid = election.election_id@;
    let aid = post.aggregator_id@;
    let count = post.voters@.len() as int;
    &&& texts(election.aggregators@).contains(aid)
    &&& post.domain_size == domain_size_for(
        post.real_registered_count as int,
        election.candidates@.len() as int + 2,
    )
    &&& post.real_registered_count == count
    &&& post.pad_count == post.pad_tokens@.len()
    &&& count + post.pad_count == post.domain_size
    &&& forall|i: int| 0 <= i < count ==> (#[trigger] post.voters@[i]).idx == i
    &&& forall|i: int, j: int|
        0 <= i < j < count ==> (#[trigger] post.voters@[i]).voter_id@ != (
        #[trigger] post.voters@[j]).voter_id@
    &&& forall|i: int| 0 <= i < count ==> #[trigger] record_linked(eid, post, i)
    &&& forall|p: int| 0 <= p < post.pad_count ==> #[trigger] pad_derived(eid, post, p)
    &&& if use_aggregate {
        aggregate_delegation_valid(post.aggregate_sigma@, posted_keys(post), eid, aid)
    } else {
        forall|i: int|
            0 <= i < count ==> delegation_valid(
                (#[trigger] post.voters@[i]).sigma@,
                post.voters@[i].pk@,
                eid,
                aid,
            )
    }
}

proof fn lemma_sound_post(
    election: &ElectionParams,
    post: &FinalizedRegistration,
    use_aggregate: bool,
)
    requires
        registration_problems(
            election.election_id@,
            texts(election.aggregators@),
            election.partitions(),
            post@,
            use_aggregate,
        ).len() == 0,
    ensures
        sound_post(election, post, use_aggregate),
{
    let eid = election.election_id@;
    let v = post@;
    let count = post.voters@.len() as int;
    law_unreported_post(
        eid,
        texts(election.aggregators@),
        election.partitions(),
        v,
        use_aggregate,
    );
    assert(v.voters.len() == count);
    assert(v.pad_tokens.len() == post.pad_tokens@.len());
    assert forall|i: int| 0 <= i < count implies (#[trigger] post.voters@[i]).idx == i by {
        assert(v.voters[i] == post.voters@[i]@);
    }
    assert forall|i: int, j: int| 0 <= i < j < count implies (#[trigger] post.voters@[i]).voter_id@
        != (#[trigger] post.voters@[j]).voter_id@ by {
        assert(v.voters[i].voter_id != v.voters[j].voter_id);
    }
    assert forall|i: int| 0 <= i < count implies #[trigger] record_linked(eid, post, i) by {
        assert(linked(eid, v, v.voters[i], i));
        assert(v.voters[i].idx == i);
    }
    assert forall|p: int| 0 <= p < post.pad_count implies #[trigger] pad_derived(eid, post, p) by {
        assert(v.pad_tokens[p] == post.pad_tokens@[p]@);
    }
    assert(posted_keys(post) =~= Seq::new(v.voters.len(), |i: int| v.voters[i].pk));
    if !use_aggregate {
        assert forall|i: int| 0 <= i < count implies delegation_valid(
            (#[trigger] post.voters@[i]).sigma@,
            post.voters@[i].pk@,
            eid,
            post.aggregator_id@,
        ) by {
            assert(delegation_valid(
                v.voters[i].sigma,
                v.voters[i].pk,
                eid,
                post.aggregator_id@,
            ));
        }
    }
}

/// The ids of all voters of some posts, one after another.
pub open spec fn all_voter_ids(posts: Seq<RegistrationView>) -> Seq<Seq<char>>
    decreases posts.len(),
{
    if posts.len() == 0 {
        Seq::empty()
    } else {
        all_voter_ids(posts.drop_last()) + voter_ids(posts.last().voters)
    }
}

pub open spec fn repeated_across_text(ids: Seq<Seq<char>>) -> spec_fn(int) -> Seq<char> {
    |i: int| "voter "@ + ids[i] + " registered under more than one aggregator"@
}

pub open spec fn post_views(posts: Seq<&FinalizedRegistration>) -> Seq<RegistrationView> {
    Seq::new(posts.len(), |i: int| posts[i]@)
}

/// Checks that no voter occurs twice in all posts of an election. Each later
/// occurrence gives a message.
pub fn check_no_duplicate_voters(posts: &Vec<&FinalizedRegistration>) -> (errors: Vec<String>)
    ensures
        ({
            let ids = all_voter_ids(post_views(posts@));
            texts(errors@) == flagged(ids.len() as int, repeated(ids), repeated_across_text(ids))
        }),
        errors@.len() == 0 <==> forall|p: int, i: int, q: int, j: int|
            #[trigger] record_at(posts@, p, i) && #[trigger] record_at(posts@, q, j) && (p != q || i
                != j) ==> posts@[p].voters@[i].voter_id@ != posts@[q].voters@[j].voter_id@,
{
    let ghost views = post_views(posts@);
    let ghost ids = all_voter_ids(views);
    let mut errors: Vec<String> = Vec::new();
    let mut seen: Vec<String> = Vec::new();
    let mut i: usize = 0;
    proof {
        assert(views.take(0) =~= Seq::<RegistrationView>::empty());
        assert(texts(seen@) =~= Seq::<Seq<char>>::empty());
        assert(texts(errors@) =~= Seq::<Seq<char>>::empty());
        lemma_ids_prefix(views, 0);
    }
    while i < posts.len()
        invariant
            i <= posts.len(),
            views == post_views(posts@),
            ids == all_voter_ids(views),
            texts(seen@) == all_voter_ids(views.take(i as int)),
            texts(errors@) == flagged(
                seen@.len() as int,
                repeated(ids),
                repeated_across_text(ids),
            ),
        decreases posts.len() - i,
    {
        let voters = &posts[i].voters;
        let ghost done = texts(seen@);
        let ghost here = voter_ids(record_views(voters@));
        let mut k: usize = 0;
        proof {
            assert(views.take(i + 1).drop_last() =~= views.take(i as int));
            assert(views.take(i + 1).last() == posts@[i as int]@);
            assert(done + here == all_voter_ids(views.take(i + 1)));
            lemma_ids_prefix(views, i + 1);
            assert(texts(seen@) =~= done + here.take(0));
        }
        while k < voters.len()
            invariant
                k <= voters.len(),
                here == voter_ids(record_views(voters@)),
                ids == all_voter_ids(views),
                (done + here).len() <= ids.len(),
                done + here == ids.take((done + here).len() as int),
                texts(seen@) == done + here.take(k as int),
                texts(errors@) == flagged(
                    seen@.len() as int,
                    repeated(ids),
                    repeated_across_text(ids),
                ),
            decreases voters.len() - k,
        {
            let record = &voters[k];
            let ghost at = seen@.len() as int;
            proof {
                assert(here[k as int] == record.voter_id@);
                assert(texts(seen@).len() == at);
                assert((done + here)[at] == here[k as int]);
                assert(ids[at] == (done + here)[at]);
                assert(ids.take(at) =~= texts(seen@)) by {
                    assert forall|z: int| 0 <= z < at implies ids[z] == texts(seen@)[z] by {
                        assert((done + here)[z] == (done + here.take(k as int))[z]);
                    }
                }
            }
            if contains_text(&seen, record.voter_id.as_str()) {
                push_message(
                    &mut errors,
                    cat3(
                        "voter ",
                        record.voter_id.as_str(),
                        " registered under more than one aggregator",
                    ),
                );
                assert(repeated(ids)(at));
            } else {
                assert(!repeated(ids)(at));
            }
            push_message(&mut seen, record.voter_id.clone());
            k += 1;
            proof {
                assert(texts(seen@) =~= done + here.take(k as int));
                assert(texts(seen@).len() == at + 1);
            }
        }
        i += 1;
        proof {
            assert(here.take(here.len() as int) =~= here);
        }
    }
    proof {
        assert(views.take(views.len() as int) =~= views);
        assert(texts(seen@).len() == seen@.len());
        assert(texts(errors@).len() == errors@.len());
        lemma_no_duplicates(posts@);
    }
    errors
}

/// There is a post with number `p` and a record in it with number `i`.
pub open spec fn record_at(posts: Seq<&FinalizedRegistration>, p: int, i: int) -> bool {
    0 <= p < posts.len() && 0 <= i < posts[p].voters@.len()
}

proof fn lemma_no_duplicates(posts: Seq<&FinalizedRegistration>)
    ensures
        ({
            let ids = all_voter_ids(post_views(posts));
            flagged(ids.len() as int, repeated(ids), repeated_across_text(ids)).len() == 0
                <==> forall|p: int, i: int, q: int, j: int|
                #[trigger] record_at(posts, p, i) && #[trigger] record_at(posts, q, j) && (p != q
                    || i != j) ==> posts[p].voters@[i].voter_id@ != posts[q].voters@[j].voter_id@
        }),
{
    let views = post_views(posts);
    law_duplicates_reported(views, Seq::empty());
    if forall|v: Seq<char>| !#[trigger] posted_twice(views, v) {
        assert forall|p: int, i: int, q: int, j: int|
            #[trigger] record_at(posts, p, i) && #[trigger] record_at(posts, q, j) && (p != q || i
                != j) implies posts[p].voters@[i].voter_id@ != posts[q].voters@[j].voter_id@ by {
            let id = posts[p].voters@[i].voter_id@;
            assert(views[p] == posts[p]@ && views[q] == posts[q]@);
            assert(views[p].voters[i].voter_id == id);
            if posts[q].voters@[j].voter_id@ == id {
                assert(views[q].voters[j].voter_id == id);
                assert(posted_at(views, p, i, id) && posted_at(views, q, j, id));
                assert(posted_twice(views, id));
            }
        }
    } else {
        let id = choose|v: Seq<char>| #[trigger] posted_twice(views, v);
        let (p, i, q, j) = choose|p: int, i: int, q: int, j: int|
            #[trigger] posted_at(views, p, i, id) && #[trigger] posted_at(views, q, j, id) && (p
                != q || i != j);
        assert(views[p] == posts[p]@ && views[q] == posts[q]@);
        assert(record_at(posts, p, i) && record_at(posts, q, j));
        assert(posts[p].voters@[i].voter_id@ == views[p].voters[i].voter_id);
        assert(posts[q].voters@[j].voter_id@ == views[q].voters[j].voter_id);
    }
}

/// The ids of the first posts come first.
proof fn lemma_ids_prefix(posts: Seq<RegistrationView>, count: int)
    requires
        0 <= count <= posts.len(),
    ensures
        all_voter_ids(posts.take(count)).len() <= all_voter_ids(posts).len(),
        all_voter_ids(posts.take(count)) == all_voter_ids(posts).take(
            all_voter_ids(posts.take(count)).len() as int,
        ),
    decreases posts.len(),
{
    let all = all_voter_ids(posts);
    if count == posts.len() {
        assert(posts.take(count) =~= posts);
        assert(all.take(all.len() as int) =~= all);
    } else {
        let rest = posts.drop_last();
        lemma_ids_prefix(rest, count);
        assert(rest.take(count) =~= posts.take(count));
        let first = all_voter_ids(posts.take(count));
        assert(first =~= all.take(first.len() as int)) by {
            let mid = all_voter_ids(rest);
            assert forall|z: int| 0 <= z < first.len() implies first[z] == all[z] by {
                assert(first[z] == mid.take(first.len() as int)[z]);
                assert(all[z] == mid[z]);
            }
        }
    }
}

// ---- laws ------------------------------------------------------------------

/// The aggregator accepted the voter.
pub open spec fn accepted_voter(eid: Seq<char>, aid: Seq<char>, v: VoterView) -> bool {
    accept_error(eid, aid, v.voter_id, v.pk, v.pkv, v.sigma, v.skv) is None
}

/// The voters have distinct ids.
pub open spec fn distinct_voters(voters: Seq<VoterView>) -> bool {
    forall|i: int, j: int|
        0 <= i < j < voters.len() ==> (#[trigger] voters[i]).voter_id != (
        #[trigger] voters[j]).voter_id
}

/// What an aggregator posts for voters that it accepted, each once, stands up
/// to the validators' checks. The check of all signatures at once holds where
/// neither the signatures nor the keys add up to zero.
pub proof fn law_finalized_is_valid(
    eid: Seq<char>,
    aggregators: Seq<Seq<char>>,
    partitions: int,
    aid: Seq<char>,
    voters: Seq<VoterView>,
    timestamp: u64,
    post: RegistrationView,
)
    requires
        finalized(eid, partitions, aid, voters, timestamp, post),
        aggregators.contains(aid),
        distinct_voters(voters),
        forall|i: int| 0 <= i < voters.len() ==> accepted_voter(eid, aid, #[trigger] voters[i]),
        forall|i: int|
            0 <= i < voters.len() ==> 0 <= (#[trigger] voters[i]).skv < modulus(),
    ensures
        checkable(aggregators, partitions, post),
        registration_problems(eid, aggregators, partitions, post, false) == Seq::<
            Seq<char>,
        >::empty(),
        voters.len() == 0 || (post.aggregate_sigma != 0 && md(total(record_pks(post.voters))) != 0)
            ==> registration_problems(eid, aggregators, partitions, post, true) == Seq::<
            Seq<char>,
        >::empty(),
{
    let records = post.voters;
    let count = records.len() as int;
    let n = post.domain_size as int;
    let ids = voter_ids(records);
    let none = Seq::<Seq<char>>::empty();
    assert forall|i: int| 0 <= i < count implies record_of(
        eid,
        aid,
        n,
        voters[i],
        i,
        #[trigger] records[i],
    ) by {}
    assert forall|i: int| 0 <= i < count implies !#[trigger] misplaced(records)(i) by {
        assert(record_of(eid, aid, n, voters[i], i, records[i]));
    }
    lemma_nothing_flagged(count, misplaced(records), misplaced_text(records));
    assert forall|i: int| 0 <= i < count implies !#[trigger] repeated(ids)(i) by {
        assert(record_of(eid, aid, n, voters[i], i, records[i]));
        let before = ids.take(i);
        assert forall|j: int| 0 <= j < before.len() implies before[j] != ids[i] by {
            assert(record_of(eid, aid, n, voters[j], j, records[j]));
            assert(voters[j].voter_id != voters[i].voter_id);
        }
    }
    lemma_nothing_flagged(count, repeated(ids), repeated_text(ids));
    assert forall|i: int| 0 <= i < count implies !#[trigger] unsigned(eid, aid, records)(i) by {
        assert(record_of(eid, aid, n, voters[i], i, records[i]));
        assert(accepted_voter(eid, aid, voters[i]));
    }
    lemma_nothing_flagged(count, unsigned(eid, aid, records), unsigned_text(records));
    assert(record_sigmas(records) =~= sigmas(voters)) by {
        assert forall|i: int| 0 <= i < count implies record_sigmas(records)[i] == sigmas(voters)[i] by {
            assert(record_of(eid, aid, n, voters[i], i, records[i]));
        }
    }
    assert forall|i: int| 0 <= i < count implies !#[trigger] unlinked(eid, post)(i) by {
        let v = voters[i];
        let r = records[i];
        assert(record_of(eid, aid, n, v, i, r));
        assert(accepted_voter(eid, aid, v));
        let base = basis_for(n)[i];
        let context = slot(eid, aid, v.voter_id, i, n);
        let nonce = choose|z: int|
            0 <= z < modulus() && r.eqlog == #[trigger] eqlog_proof(
                base,
                r.tau,
                v.pkv,
                v.skv,
                z,
                context,
            );
        lemma_md_range(v.skv);
        crate::eqlog::law_eqlog_complete(base, v.skv, nonce, context);
    }
    lemma_nothing_flagged(count, unlinked(eid, post), unlinked_text(records));
    let pads = post.pad_tokens.len() as int;
    assert forall|p: int| 0 <= p < pads implies !#[trigger] wrong_pad(eid, post)(p) by {
        assert(post.pad_tokens[p] == pad_token(eid, aid, n, count, p));
    }
    lemma_nothing_flagged(pads, wrong_pad(eid, post), wrong_pad_text());
    assert(none + none =~= none);
    assert(content_problems(eid, post, false) =~= none);
    if voters.len() == 0 || (post.aggregate_sigma != 0 && md(total(record_pks(records))) != 0) {
        let (s, k) = (record_sigmas(records), record_pks(records));
        assert forall|i: int| 0 <= i < s.len() implies delegation_valid(
            #[trigger] s[i],
            k[i],
            eid,
            aid,
        ) by {
            assert(!unsigned(eid, aid, records)(i));
        }
        crate::bls::law_aggregate_valid(s, k, eid, aid);
        assert(content_problems(eid, post, true) =~= none);
    }
}

/// The token of each domain index: the voters' secrets, then the padding
/// scalars.
pub open spec fn token_values(
    eid: Seq<char>,
    aid: Seq<char>,
    voters: Seq<VoterView>,
    n: int,
) -> Seq<int> {
    Seq::new(
        n as nat,
        |i: int| if i < voters.len() {
            voters[i].skv
        } else {
            pad_value(eid, aid, i - voters.len())
        },
    )
}

/// The posted commitment is the commitment to the vector of tokens.
pub proof fn law_commitment_of_tokens(
    eid: Seq<char>,
    partitions: int,
    aid: Seq<char>,
    voters: Seq<VoterView>,
    timestamp: u64,
    post: RegistrationView,
    bundle: &SrsBundle,
)
    requires
        finalized(eid, partitions, aid, voters, timestamp, post),
        bundle.wf(),
        bundle.spec_size() == post.domain_size,
    ensures
        post.c_commit == crate::epa_adapter::token_commitment(
            bundle,
            token_values(eid, aid, voters, post.domain_size as int),
        ),
{
    let n = post.domain_size as int;
    let count = voters.len() as int;
    lemma_srs(bundle);
    let basis = basis_for(n);
    let vals = token_values(eid, aid, voters, n);
    let f = |i: int| vals[i] * basis[i];
    let (t, q) = (taus(post.voters), post.pad_tokens);
    let first = |i: int| t[i];
    let second = |i: int| q[i];
    let shifted = |i: int| f(count + i);
    assert forall|i: int| 0 <= i < count implies eqm(#[trigger] first(i), f(i)) by {
        assert(record_of(eid, aid, n, voters[i], i, post.voters[i]));
        let (b, x) = (basis[i], voters[i].skv);
        lemma_md_eqm(b * x);
        assert(b * x == x * b) by (nonlinear_arith);
    }
    assert forall|p: int| 0 <= p < n - count implies eqm(#[trigger] second(p), shifted(p)) by {
        assert(q[p] == pad_token(eid, aid, n, count, p));
        let (b, x) = (basis[count + p], pad_value(eid, aid, p));
        lemma_md_eqm(b * x);
        assert(b * x == x * b) by (nonlinear_arith);
        assert(vals[count + p] == x);
    }
    lemma_sum_eqm(first, f, count);
    lemma_sum_eqm(second, shifted, n - count);
    lemma_sum_split(f, count, n - count);
    lemma_sum_ext(shifted, |i: int| f(count + i), n - count);
    lemma_sum_ext(first, |i: int| t[i], count);
    lemma_sum_ext(second, |i: int| q[i], n - count);
    lemma_eqm_add(sum(first, count), sum(f, count), sum(second, n - count), sum(shifted, n - count));
    lemma_sum_ext(f, |i: int| vals[i] * g1_logs(bundle.lagrange_g1@)[i], n);
}

/// The domain is a power of two that holds all voters and is larger than the
/// number of partitions.
pub proof fn law_domain_size(count: int, partitions: int, n: int)
    requires
        least_power_of_two(n, least_domain(count, partitions)),
    ensures
        domain_size_for(count, partitions) == n,
        crate::poly::power_of_two(n),
        n >= count,
        n > partitions,
{
    lemma_least_unique(
        n,
        domain_size_for(count, partitions),
        least_domain(count, partitions),
    );
}

} // verus!
