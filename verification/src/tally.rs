//! The tally: an aggregator counts the votes of its voters and proves the
//! count; validators check it.

use vstd::prelude::*;

use crate::count_laws::{
    counts_for, how_many, last_of_id, law_counts_mean_votes, law_valid_tally,
    law_valid_tally_counts_voters, lemma_global_total, lemma_how_many_ext, some_valid, voted,
    voted_for,
};
use crate::curve::G1Affine;
use crate::domain::{pad_scalar, pad_value};
use crate::election::{candidate_ids, Candidate, ElectionParams};
use crate::epa_adapter::{
    epa_proof_bytes, epa_proof_parsed, epa_valid, get_or_create_srs, input_error, label_numbers,
    lemma_srs_used, lone_partition, no_domain_text, not_power_of_two_text, prove, prove_error, proved, short_lists,
    size_total, srs, total_of, verify, zero_blinder_text, EpaProof, EpaProofResult, EpaPublicInput,
    EpaWitness, VerificationResult, InputView, SrsBundle, WitnessView,
};
use crate::epa::prover::{index_lists, indices};
use crate::epa_laws::sum_of_sizes;
use crate::epa::structs::ProofView;
use crate::error::{error_text, AggiosError, ErrorView, Result};
use crate::field::{values, Fr};
use crate::labels::{clone_scalars, ElectionLabels, LabelsView};
use crate::poly::power_of_two;
use crate::registration::{
    record_views, sum_tokens, token_sum, voter_views, FinalizedRegistration, RecordView,
    RegisteredVoter, RegistrationView, VoterRegistrationRecord, VoterView,
};
use crate::string_map::{viewed, StringMap};
use crate::sums::sum;
use crate::text::{cat2, clone_texts, texts};

verus! {

/// What an aggregator posts with its tally.
#[derive(Debug)]
pub struct TallyPost {
    pub election_id: String,
    pub aggregator_id: String,
    /// The votes for each candidate, in display order.
    pub candidate_counts: Vec<usize>,
    pub no_vote_count: usize,
    pub pad_count: usize,
    pub domain_size: usize,
    pub c_commit: G1Affine,
    /// The labels of the partitions: candidates, no vote, padding.
    pub labels: Vec<Fr>,
    /// The indices of the domain elements that stand for the labels.
    pub label_indices: Vec<usize>,
    /// The sizes of the partitions, in the order of the labels.
    pub sizes: Vec<usize>,
    /// The proof of partition, as bytes.
    pub proof_bytes: Vec<u8>,
    pub proving_time_ms: u128,
    pub proof_size_bytes: usize,
}

#[verifier::ext_equal]
pub struct TallyView {
    pub election_id: Seq<char>,
    pub aggregator_id: Seq<char>,
    pub candidate_counts: Seq<usize>,
    pub no_vote_count: usize,
    pub pad_count: usize,
    pub domain_size: usize,
    pub c_commit: int,
    pub labels: Seq<int>,
    pub label_indices: Seq<usize>,
    pub sizes: Seq<usize>,
    pub proof_bytes: Seq<u8>,
    pub proving_time_ms: u128,
    pub proof_size_bytes: usize,
}

impl View for TallyPost {
    type V = TallyView;

    open spec fn view(&self) -> TallyView {
        TallyView {
            election_id: self.election_id@,
            aggregator_id: self.aggregator_id@,
            candidate_counts: self.candidate_counts@,
            no_vote_count: self.no_vote_count,
            pad_count: self.pad_count,
            domain_size: self.domain_size,
            c_commit: self.c_commit@,
            labels: values(self.labels@),
            label_indices: self.label_indices@,
            sizes: self.sizes@,
            proof_bytes: self.proof_bytes@,
            proving_time_ms: self.proving_time_ms,
            proof_size_bytes: self.proof_size_bytes,
        }
    }
}

impl Clone for TallyPost {
    fn clone(&self) -> (r: TallyPost)
        ensures
            r@ == self@,
    {
        TallyPost {
            election_id: self.election_id.clone(),
            aggregator_id: self.aggregator_id.clone(),
            candidate_counts: clone_sizes(&self.candidate_counts),
            no_vote_count: self.no_vote_count,
            pad_count: self.pad_count,
            domain_size: self.domain_size,
            c_commit: self.c_commit,
            labels: clone_scalars(&self.labels),
            label_indices: clone_sizes(&self.label_indices),
            sizes: clone_sizes(&self.sizes),
            proof_bytes: clone_bytes(&self.proof_bytes),
            proving_time_ms: self.proving_time_ms,
            proof_size_bytes: self.proof_size_bytes,
        }
    }
}

fn clone_bytes(bytes: &Vec<u8>) -> (r: Vec<u8>)
    ensures
        r@ == bytes@,
{
    let mut r: Vec<u8> = Vec::new();
    let mut i: usize = 0;
    while i < bytes.len()
        invariant
            i <= bytes.len(),
            r@ == bytes@.take(i as int),
        decreases bytes.len() - i,
    {
        r.push(bytes[i]);
        i += 1;
        proof {
            assert(r@ =~= bytes@.take(i as int));
        }
    }
    proof {
        assert(r@ =~= bytes@);
    }
    r
}

// ---- building --------------------------------------------------------------

/// The last of the first `count` positions with an id.
pub open spec fn last_position(ids: Seq<Seq<char>>, id: Seq<char>, count: int) -> Option<int>
    decreases count,
{
    if count <= 0 {
        None
    } else if ids[count - 1] == id {
        Some(count - 1)
    } else {
        last_position(ids, id, count - 1)
    }
}

/// The last position with an id.
pub open spec fn position_of(ids: Seq<Seq<char>>, id: Seq<char>) -> Option<int> {
    last_position(ids, id, ids.len() as int)
}

/// The ids of registered voters.
pub open spec fn registered_ids(voters: Seq<VoterView>) -> Seq<Seq<char>> {
    Seq::new(voters.len(), |i: int| voters[i].voter_id)
}

/// What a tally is made of: the ids of the candidates, the voters with their
/// secrets, the votes, and the public records.
pub struct Ballots {
    pub candidates: Seq<Seq<char>>,
    pub registered: Seq<VoterView>,
    pub votes: Map<Seq<char>, Seq<char>>,
    pub records: Seq<RecordView>,
}

/// What is wrong with the ballot of a record.
pub open spec fn ballot_problem(b: Ballots, i: int) -> Option<Seq<char>> {
    let id = b.records[i].voter_id;
    if position_of(registered_ids(b.registered), id) is None {
        Some("aggregator has no private skv for voter "@ + id)
    } else if b.votes.dom().contains(id) && position_of(b.candidates, b.votes[id]) is None {
        Some("unknown candidate "@ + b.votes[id])
    } else {
        None
    }
}

/// The first thing that is wrong with the first `count` ballots.
pub open spec fn ballot_error(b: Ballots, count: int) -> Option<Seq<char>>
    decreases count,
{
    if count <= 0 {
        None
    } else {
        match ballot_error(b, count - 1) {
            Some(e) => Some(e),
            None => ballot_problem(b, count - 1),
        }
    }
}

/// The partition of a record: that of the candidate who was voted for, or the
/// one for no vote.
pub open spec fn choice(b: Ballots, i: int) -> int {
    let id = b.records[i].voter_id;
    if b.votes.dom().contains(id) {
        position_of(b.candidates, b.votes[id])->0
    } else {
        b.candidates.len() as int
    }
}

/// The secret of a record's voter.
pub open spec fn secret(b: Ballots, i: int) -> int {
    b.registered[position_of(registered_ids(b.registered), b.records[i].voter_id)->0].skv
}

/// The tokens and the partitions after the first `count` ballots.
pub open spec fn cast_ballots(b: Ballots, n: int, count: int) -> WitnessView
    decreases count,
{
    if count <= 0 {
        WitnessView {
            values: Seq::new(n as nat, |i: int| 0int),
            partitions: Seq::new(b.candidates.len() + 2, |j: int| Seq::<int>::empty()),
        }
    } else {
        let before = cast_ballots(b, n, count - 1);
        let idx = b.records[count - 1].idx as int;
        let j = choice(b, count - 1);
        WitnessView {
            values: before.values.update(idx, secret(b, count - 1)),
            partitions: before.partitions.update(j, before.partitions[j].push(idx)),
        }
    }
}

/// The tokens and the partitions after `count` padding indices, from `start`.
pub open spec fn with_padding(
    w: WitnessView,
    eid: Seq<char>,
    aid: Seq<char>,
    start: int,
    count: int,
) -> WitnessView
    decreases count,
{
    if count <= 0 {
        w
    } else {
        let before = with_padding(w, eid, aid, start, count - 1);
        let idx = start + count - 1;
        let j = before.partitions.len() - 1;
        WitnessView {
            values: before.values.update(idx, pad_value(eid, aid, count - 1)),
            partitions: before.partitions.update(j, before.partitions[j].push(idx)),
        }
    }
}

/// The tokens and the partitions of a tally.
pub open spec fn tally_witness(b: Ballots, eid: Seq<char>, reg: RegistrationView) -> WitnessView {
    with_padding(
        cast_ballots(b, reg.domain_size as int, b.records.len() as int),
        eid,
        reg.aggregator_id,
        reg.real_registered_count as int,
        reg.pad_count as int,
    )
}

/// The sizes of partitions.
pub open spec fn sizes_of(lists: Seq<Seq<int>>) -> Seq<usize> {
    Seq::new(lists.len(), |j: int| lists[j].len() as usize)
}

/// The public side of a tally's proof.
pub open spec fn tally_input(
    eid: Seq<char>,
    aid: Seq<char>,
    n: usize,
    c_commit: int,
    labels: Seq<int>,
    sizes: Seq<usize>,
    srs_ref: Seq<char>,
) -> InputView {
    InputView {
        election_id: eid,
        aggregator_id: aid,
        domain_size: n,
        commitment_c: c_commit,
        labels,
        label_indices: label_numbers(sizes.len() as int),
        sizes,
        srs_ref,
    }
}

/// Why there are no parameters for a domain size.
pub open spec fn srs_error(n: int) -> Option<ErrorView> {
    if !power_of_two(n) {
        Some(ErrorView::Domain(not_power_of_two_text(n)))
    } else if n > 0x1_0000_0000 {
        Some(ErrorView::Domain(no_domain_text(n)))
    } else {
        None
    }
}

/// The public side of the proof of a tally that is built.
pub open spec fn built_input(b: Ballots, eid: Seq<char>, labels: LabelsView, reg: RegistrationView) -> InputView {
    tally_input(
        eid,
        reg.aggregator_id,
        reg.domain_size,
        reg.c_commit,
        labels.all(),
        sizes_of(tally_witness(b, eid, reg).partitions),
        reg.srs_ref,
    )
}

/// A ballot is refused, or the partitions do not fill the domain, so that no
/// proof is tried.
pub open spec fn unbalanced(b: Ballots, eid: Seq<char>, reg: RegistrationView) -> bool {
    let sizes = sizes_of(tally_witness(b, eid, reg).partitions);
    ballot_error(b, b.records.len() as int) is Some || size_total(sizes, sizes.len() as int)
        != reg.domain_size
}

/// Why there is no tally.
pub open spec fn tally_error(b: Ballots, eid: Seq<char>, labels: LabelsView, reg: RegistrationView) -> Option<
    ErrorView,
> {
    let n = reg.domain_size as int;
    let witness = tally_witness(b, eid, reg);
    let input = built_input(b, eid, labels, reg);
    match ballot_error(b, b.records.len() as int) {
        Some(e) => Some(ErrorView::Tally(e)),
        None => if size_total(input.sizes, input.sizes.len() as int) != n {
            Some(ErrorView::Tally("partition sizes do not sum to domain"@))
        } else {
            match srs_error(n) {
                Some(e) => Some(e),
                None => match prove_error(&srs(n), input, witness) {
                    Some(e) => Some(ErrorView::Epa(e)),
                    None => None,
                },
            }
        },
    }
}

/// The proof of a tally, in its bytes.
pub open spec fn tally_proof(
    input: InputView,
    witness: WitnessView,
    view: ProofView,
    bytes: Seq<u8>,
) -> bool {
    &&& exists|bundle: SrsBundle|
        #[trigger] bundle.wf() && bundle.spec_size() == input.domain_size && proved(
            &bundle,
            input,
            witness,
            view,
        )
    &&& epa_valid(&srs(input.domain_size as int), input, view)
    &&& bytes == epa_proof_bytes(view)
    &&& short_lists(view) ==> epa_proof_parsed(bytes) == Ok::<ProofView, Seq<char>>(view)
}

/// The post of a tally: the sizes of the partitions, and a proof of them.
pub open spec fn tally_made(
    b: Ballots,
    eid: Seq<char>,
    labels: LabelsView,
    reg: RegistrationView,
    post: TallyView,
) -> bool {
    let witness = tally_witness(b, eid, reg);
    let input = built_input(b, eid, labels, reg);
    let k = b.candidates.len() as int;
    &&& post.election_id == eid
    &&& post.aggregator_id == reg.aggregator_id
    &&& post.candidate_counts == input.sizes.take(k)
    &&& post.no_vote_count == input.sizes[k]
    &&& post.pad_count == input.sizes[k + 1]
    &&& post.domain_size == reg.domain_size
    &&& post.c_commit == reg.c_commit
    &&& post.labels == input.labels
    &&& post.label_indices == input.label_indices
    &&& post.sizes == input.sizes
    &&& post.proof_size_bytes == post.proof_bytes.len()
    &&& exists|view: ProofView| #[trigger] tally_proof(input, witness, view, post.proof_bytes)
}

/// The ballots of an aggregator.
pub open spec fn ballots_of(
    election: &ElectionParams,
    finalized: &FinalizedRegistration,
    registered: &Vec<RegisteredVoter>,
    votes: &StringMap<String>,
) -> Ballots {
    Ballots {
        candidates: candidate_ids(election.candidates@),
        registered: voter_views(registered@),
        votes: viewed(votes@),
        records: record_views(finalized.voters@),
    }
}

/// The last position of a candidate.
fn find_candidate(candidates: &Vec<Candidate>, id: &String) -> (r: Option<usize>)
    ensures
        match position_of(candidate_ids(candidates@), id@) {
            Some(j) => r matches Some(x) && x == j && x < candidates@.len(),
            None => r is None,
        },
{
    let ghost ids = candidate_ids(candidates@);
    let mut i: usize = candidates.len();
    while i > 0
        invariant
            i <= candidates@.len(),
            ids == candidate_ids(candidates@),
            position_of(ids, id@) == last_position(ids, id@, i as int),
        decreases i,
    {
        i -= 1;
        assert(ids[i as int] == candidates@[i as int].id@);
        if candidates[i].id == *id {
            return Some(i);
        }
    }
    None
}

/// The last position of a voter.
fn find_voter(voters: &Vec<RegisteredVoter>, id: &String) -> (r: Option<usize>)
    ensures
        match position_of(registered_ids(voter_views(voters@)), id@) {
            Some(j) => r matches Some(x) && x == j && x < voters@.len(),
            None => r is None,
        },
{
    let ghost ids = registered_ids(voter_views(voters@));
    let mut i: usize = voters.len();
    while i > 0
        invariant
            i <= voters@.len(),
            ids == registered_ids(voter_views(voters@)),
            position_of(ids, id@) == last_position(ids, id@, i as int),
        decreases i,
    {
        i -= 1;
        assert(ids[i as int] == voters@[i as int].voter_id@);
        if voters[i].voter_id == *id {
            return Some(i);
        }
    }
    None
}

proof fn lemma_ballot_error_stays(b: Ballots, i: int, count: int)
    requires
        i <= count,
        ballot_error(b, i) is Some,
    ensures
        ballot_error(b, count) == ballot_error(b, i),
    decreases count - i,
{
    if 0 < count && i < count {
        lemma_ballot_error_stays(b, i, count - 1);
    }
}

/// A position that is found lies in the list.
pub proof fn lemma_position_range(ids: Seq<Seq<char>>, id: Seq<char>, count: int)
    requires
        count <= ids.len(),
    ensures
        last_position(ids, id, count) matches Some(j) ==> 0 <= j < count && ids[j] == id,
        last_position(ids, id, count) is None ==> forall|j: int|
            0 <= j < count ==> #[trigger] ids[j] != id,
    decreases count,
{
    if count > 0 {
        lemma_position_range(ids, id, count - 1);
    }
}

/// The choices of good ballots are candidates or no vote.
pub proof fn lemma_choice_range(b: Ballots, i: int, count: int)
    requires
        0 <= i < count <= b.records.len(),
        ballot_error(b, count) is None,
    ensures
        ballot_problem(b, i) is None,
        0 <= choice(b, i) <= b.candidates.len(),
    decreases count,
{
    if i < count - 1 {
        lemma_choice_range(b, i, count - 1);
    } else {
        let id = b.records[i].voter_id;
        lemma_position_range(b.candidates, b.votes[id], b.candidates.len() as int);
    }
}

/// All records lie in the domain.
pub open spec fn indices_below(records: Seq<RecordView>, n: int) -> bool {
    forall|i: int| 0 <= i < records.len() ==> (#[trigger] records[i]).idx < n
}

/// The records lie in the domain, up to the first that is refused.
pub open spec fn ballots_placed(b: Ballots, n: int) -> bool {
    forall|i: int|
        0 <= i < b.records.len() && ballot_error(b, i + 1) is None ==> (#[trigger] b.records[i]).idx
            < n
}

/// The shape of the witness while it is filled.
pub proof fn lemma_cast_shape(b: Ballots, n: int, count: int)
    requires
        0 <= count <= b.records.len(),
        n >= 0,
        ballots_placed(b, n),
        ballot_error(b, count) is None,
    ensures
        cast_ballots(b, n, count).values.len() == n,
        cast_ballots(b, n, count).partitions.len() == b.candidates.len() + 2,
        cast_ballots(b, n, count).partitions[b.candidates.len() as int + 1].len() == 0,
    decreases count,
{
    if count > 0 {
        lemma_cast_shape(b, n, count - 1);
        lemma_choice_range(b, count - 1, count);
        let last = count - 1;
        assert(ballot_error(b, last + 1) is None);
        assert(b.records[last].idx < n);
    }
}

/// The records and the padding lie in the domain, as far as they are placed
/// before something is refused.
pub open spec fn placeable(b: Ballots, reg: RegistrationView) -> bool {
    &&& ballots_placed(b, reg.domain_size as int)
    &&& ballot_error(b, b.records.len() as int) is None && reg.pad_count > 0
        ==> reg.real_registered_count + reg.pad_count <= reg.domain_size
}

/// The shape of the witness while padding is added.
pub proof fn lemma_padding_shape(w: WitnessView, eid: Seq<char>, aid: Seq<char>, start: int, count: int)
    requires
        w.partitions.len() >= 1,
        0 <= start,
        0 <= count,
        count > 0 ==> start + count <= w.values.len(),
    ensures
        with_padding(w, eid, aid, start, count).values.len() == w.values.len(),
        with_padding(w, eid, aid, start, count).partitions.len() == w.partitions.len(),
        with_padding(w, eid, aid, start, count).partitions.last().len() == w.partitions.last().len()
            + count,
        forall|j: int|
            0 <= j < w.partitions.len() - 1 ==> #[trigger] with_padding(
                w,
                eid,
                aid,
                start,
                count,
            ).partitions[j] == w.partitions[j],
    decreases count,
{
    if count > 0 {
        lemma_padding_shape(w, eid, aid, start, count - 1);
    }
}

/// Puts an index into a partition.
fn put(partitions: &mut Vec<Vec<usize>>, j: usize, idx: usize)
    requires
        j < old(partitions)@.len(),
    ensures
        index_lists(final(partitions)@) == index_lists(old(partitions)@).update(
            j as int,
            index_lists(old(partitions)@)[j as int].push(idx as int),
        ),
{
    let ghost before = partitions@;
    let mut part: Vec<usize> = Vec::new();
    partitions.set_and_swap(j, &mut part);
    part.push(idx);
    partitions.set_and_swap(j, &mut part);
    proof {
        let now = index_lists(partitions@);
        let want = index_lists(before).update(
            j as int,
            index_lists(before)[j as int].push(idx as int),
        );
        assert(now[j as int] =~= want[j as int]);
        assert(now =~= want);
    }
}

/// Sets a token.
fn set_value(list: &mut Vec<Fr>, idx: usize, x: Fr)
    requires
        idx < old(list)@.len(),
    ensures
        values(final(list)@) == values(old(list)@).update(idx as int, x@),
{
    list.set(idx, x);
    proof {
        assert(values(list@) =~= values(old(list)@).update(idx as int, x@));
    }
}

fn zero_values(n: usize) -> (r: Vec<Fr>)
    ensures
        values(r@) == Seq::new(n as nat, |i: int| 0int),
{
    let mut r: Vec<Fr> = Vec::new();
    let mut i: usize = 0;
    while i < n
        invariant
            i <= n,
            r@.len() == i,
            forall|k: int| 0 <= k < i ==> (#[trigger] r@[k])@ == 0,
        decreases n - i,
    {
        r.push(Fr::zero());
        i += 1;
    }
    proof {
        assert(values(r@) =~= Seq::new(n as nat, |i: int| 0int));
    }
    r
}

fn empty_partitions(k: usize) -> (r: Vec<Vec<usize>>)
    ensures
        index_lists(r@) == Seq::new(k as nat, |j: int| Seq::<int>::empty()),
{
    let mut r: Vec<Vec<usize>> = Vec::new();
    let mut i: usize = 0;
    while i < k
        invariant
            i <= k,
            r@.len() == i,
            forall|j: int| 0 <= j < i ==> (#[trigger] r@[j])@.len() == 0,
        decreases k - i,
    {
        r.push(Vec::new());
        i += 1;
    }
    proof {
        assert forall|j: int| 0 <= j < k implies #[trigger] index_lists(r@)[j] == Seq::<int>::empty() by {
            assert(r@[j]@.len() == 0);
            assert(index_lists(r@)[j] =~= Seq::<int>::empty());
        }
        assert(index_lists(r@) =~= Seq::new(k as nat, |j: int| Seq::<int>::empty()));
    }
    r
}

fn partition_sizes(partitions: &Vec<Vec<usize>>) -> (r: Vec<usize>)
    ensures
        r@ == sizes_of(index_lists(partitions@)),
{
    let mut r: Vec<usize> = Vec::new();
    let mut j: usize = 0;
    while j < partitions.len()
        invariant
            j <= partitions.len(),
            r@.len() == j,
            forall|k: int| 0 <= k < j ==> #[trigger] r@[k] == partitions@[k]@.len(),
        decreases partitions.len() - j,
    {
        r.push(partitions[j].len());
        j += 1;
    }
    proof {
        assert(r@ =~= sizes_of(index_lists(partitions@)));
    }
    r
}

fn first_sizes(sizes: &Vec<usize>, count: usize) -> (r: Vec<usize>)
    requires
        count <= sizes@.len(),
    ensures
        r@ == sizes@.take(count as int),
{
    let mut r: Vec<usize> = Vec::new();
    let mut j: usize = 0;
    while j < count
        invariant
            j <= count,
            count <= sizes@.len(),
            r@ == sizes@.take(j as int),
        decreases count - j,
    {
        r.push(sizes[j]);
        j += 1;
        proof {
            assert(r@ =~= sizes@.take(j as int));
        }
    }
    r
}

pub fn clone_sizes(sizes: &Vec<usize>) -> (r: Vec<usize>)
    ensures
        r@ == sizes@,
{
    let r = first_sizes(sizes, sizes.len());
    proof {
        assert(sizes@.take(sizes@.len() as int) =~= sizes@);
    }
    r
}

/// The tokens and the partitions of a tally: each voter's secret at its index,
/// each index under the candidate who was voted for or under no vote, and the
/// padding.
fn collect_ballots(
    election: &ElectionParams,
    finalized: &FinalizedRegistration,
    registered: &Vec<RegisteredVoter>,
    votes: &StringMap<String>,
) -> (r: Result<EpaWitness>)
    requires
        votes.wf(),
        election.partitions() <= usize::MAX,
        placeable(ballots_of(election, finalized, registered, votes), finalized@),
    ensures
        ({
            let b = ballots_of(election, finalized, registered, votes);
            match ballot_error(b, b.records.len() as int) {
                Some(e) => r matches Err(x) && x@ == ErrorView::Tally(e),
                None => r matches Ok(w) && w@ == tally_witness(
                    b,
                    election.election_id@,
                    finalized@,
                ),
            }
        }),
{
    let ghost b = ballots_of(election, finalized, registered, votes);
    let n = finalized.domain_size;
    let num_candidates = election.candidates.len();
    let num_partitions = election.num_partitions();
    let ghost count = b.records.len() as int;
    let mut values_by_index = zero_values(n);
    let mut partition_indices = empty_partitions(num_partitions);
    let mut i: usize = 0;
    while i < finalized.voters.len()
        invariant
            i <= finalized.voters.len(),
            votes.wf(),
            b == ballots_of(election, finalized, registered, votes),
            count == b.records.len(),
            n == finalized.domain_size,
            num_candidates == election.candidates@.len(),
            b.candidates.len() == num_candidates,
            ballots_placed(b, n as int),
            ballot_error(b, i as int) is None,
            values(values_by_index@) == cast_ballots(b, n as int, i as int).values,
            index_lists(partition_indices@) == cast_ballots(b, n as int, i as int).partitions,
        decreases finalized.voters.len() - i,
    {
        let record = &finalized.voters[i];
        proof {
            lemma_cast_shape(b, n as int, i as int);
            assert(b.records[i as int] == record@);
            assert(values(values_by_index@).len() == values_by_index@.len());
            assert(index_lists(partition_indices@).len() == partition_indices@.len());
        }
        let at = match find_voter(registered, &record.voter_id) {
            Some(at) => at,
            None => {
                proof {
                    lemma_ballot_error_stays(b, i + 1, count);
                }
                return Err(
                    AggiosError::Tally(
                        cat2(
                            "aggregator has no private skv for voter ",
                            record.voter_id.as_str(),
                        ),
                    ),
                );
            },
        };
        assert(b.registered[at as int] == registered@[at as int]@);
        assert(secret(b, i as int) == registered@[at as int].skv@);
        let j: usize = match votes.get(record.voter_id.as_str()) {
            Some(candidate_id) => {
                match find_candidate(&election.candidates, candidate_id) {
                    Some(j) => j,
                    None => {
                        proof {
                            lemma_ballot_error_stays(b, i + 1, count);
                        }
                        return Err(
                            AggiosError::Tally(cat2("unknown candidate ", candidate_id.as_str())),
                        );
                    },
                }
            },
            None => num_candidates,
        };
        assert(j == choice(b, i as int));
        assert(ballot_error(b, i + 1) is None);
        assert(record.idx < n);
        set_value(&mut values_by_index, record.idx, registered[at].skv);
        put(&mut partition_indices, j, record.idx);
        i += 1;
    }
    let ghost w = cast_ballots(b, n as int, count);
    let ghost eid = election.election_id@;
    let ghost aid = finalized.aggregator_id@;
    let ghost start = finalized.real_registered_count as int;
    proof {
        lemma_cast_shape(b, n as int, count);
    }
    let mut p: usize = 0;
    while p < finalized.pad_count
        invariant
            p <= finalized.pad_count,
            n == finalized.domain_size,
            eid == election.election_id@,
            aid == finalized.aggregator_id@,
            start == finalized.real_registered_count,
            finalized.pad_count > 0 ==> finalized.real_registered_count + finalized.pad_count <= n,
            w.values.len() == n,
            w.partitions.len() == num_candidates + 2,
            num_partitions == num_candidates + 2,
            values(values_by_index@) == with_padding(w, eid, aid, start, p as int).values,
            index_lists(partition_indices@) == with_padding(
                w,
                eid,
                aid,
                start,
                p as int,
            ).partitions,
        decreases finalized.pad_count - p,
    {
        let idx = finalized.real_registered_count + p;
        proof {
            lemma_padding_shape(w, eid, aid, start, p as int);
            assert(values(values_by_index@).len() == values_by_index@.len());
            assert(index_lists(partition_indices@).len() == partition_indices@.len());
        }
        let scalar = pad_scalar(
            election.election_id.as_str(),
            finalized.aggregator_id.as_str(),
            p,
        );
        set_value(&mut values_by_index, idx, scalar);
        put(&mut partition_indices, num_candidates + 1, idx);
        p += 1;
    }
    Ok(EpaWitness { values_by_index, partition_indices })
}

/// Makes the proof of a tally.
fn prove_partitions(public_input: &EpaPublicInput, witness: &EpaWitness) -> (r: Result<
    (EpaProofResult, Vec<u8>),
>)
    requires
        public_input.domain_size != 1,
    ensures
        ({
            let n = public_input.domain_size as int;
            match srs_error(n) {
                Some(e) => r matches Err(x) && x@ == e,
                None => match prove_error(&srs(n), public_input@, witness@) {
                    Some(e) => r matches Err(x) && x@ == ErrorView::Epa(e),
                    None => match r {
                        Ok((result, bytes)) => result.proof_size_bytes == bytes@.len()
                            && tally_proof(public_input@, witness@, result.proof@, bytes@),
                        Err(e) => e@ == ErrorView::Epa(zero_blinder_text()) && !lone_partition(
                            public_input@.sizes,
                        ),
                    },
                },
            }
        }),
{
    let bundle = match get_or_create_srs(public_input.domain_size) {
        Ok(bundle) => bundle,
        Err(e) => return Err(e),
    };
    proof {
        lemma_srs_used(&bundle, public_input@, witness@, arbitrary());
    }
    let result = match prove(&bundle, public_input, witness) {
        Ok(result) => result,
        Err(e) => return Err(e),
    };
    match result.proof.to_bytes() {
        Ok(bytes) => {
            proof {
                lemma_srs_used(&bundle, public_input@, witness@, result.proof@);
            }
            Ok((result, bytes))
        },
        Err(e) => Err(e),
    }
}

/// Makes the tally of one aggregator and its proof.
#[verifier::rlimit(40)]
fn make_post(
    election: &ElectionParams,
    labels: &ElectionLabels,
    finalized: &FinalizedRegistration,
    registered: &Vec<RegisteredVoter>,
    votes: &StringMap<String>,
) -> (r: Result<TallyPost>)
    requires
        votes.wf(),
        election.partitions() <= usize::MAX,
        placeable(ballots_of(election, finalized, registered, votes), finalized@),
        finalized.domain_size == 1 ==> unbalanced(
            ballots_of(election, finalized, registered, votes),
            election.election_id@,
            finalized@,
        ),
    ensures
        ({
            let b = ballots_of(election, finalized, registered, votes);
            let eid = election.election_id@;
            match tally_error(b, eid, labels@, finalized@) {
                Some(e) => r matches Err(x) && x@ == e,
                None => match r {
                    Ok(post) => tally_made(b, eid, labels@, finalized@, post@),
                    Err(e) => e@ == ErrorView::Epa(zero_blinder_text()) && !lone_partition(
                        built_input(b, eid, labels@, finalized@).sizes,
                    ),
                },
            }
        }),
{
    let ghost b = ballots_of(election, finalized, registered, votes);
    let ghost eid = election.election_id@;
    let n = finalized.domain_size;
    let num_candidates = election.candidates.len();
    let num_partitions = election.num_partitions();
    let witness = match collect_ballots(election, finalized, registered, votes) {
        Ok(w) => w,
        Err(e) => return Err(e),
    };
    let sizes = partition_sizes(&witness.partition_indices);
    let ghost w = tally_witness(b, eid, finalized@);
    proof {
        lemma_tally_shape(b, eid, finalized@);
        assert(sizes@ == sizes_of(w.partitions));
        assert(sizes@.len() == num_partitions);
        assert(sizes@[num_candidates + 1] == w.partitions[num_candidates + 1].len());
    }
    let candidate_counts = first_sizes(&sizes, num_candidates);
    let no_vote_count = sizes[num_candidates];
    let pad_count = sizes[num_candidates + 1];
    if total_of(&sizes) != n as u128 {
        return Err(AggiosError::Tally(String::from_str("partition sizes do not sum to domain")));
    }
    if pad_count != finalized.pad_count {
        return Err(AggiosError::Tally(String::from_str("pad partition size mismatch")));
    }
    let public_input = EpaPublicInput {
        election_id: election.election_id.clone(),
        aggregator_id: finalized.aggregator_id.clone(),
        domain_size: n,
        commitment_c: finalized.c_commit,
        labels: labels.partition_labels(),
        label_indices: EpaPublicInput::canonical_label_indices(num_partitions),
        sizes: clone_sizes(&sizes),
        srs_ref: finalized.srs_ref.clone(),
    };
    proof {
        assert(public_input@ =~= built_input(b, eid, labels@, finalized@));
    }
    let (result, proof_bytes) = match prove_partitions(&public_input, &witness) {
        Ok(x) => x,
        Err(e) => return Err(e),
    };
    proof {
        assert(tally_proof(public_input@, witness@, result.proof@, proof_bytes@));
    }
    let post = TallyPost {
        election_id: election.election_id.clone(),
        aggregator_id: finalized.aggregator_id.clone(),
        candidate_counts,
        no_vote_count,
        pad_count,
        domain_size: n,
        c_commit: finalized.c_commit,
        labels: public_input.labels,
        label_indices: public_input.label_indices,
        sizes,
        proof_bytes,
        proving_time_ms: result.proving_time_ms,
        proof_size_bytes: result.proof_size_bytes,
    };
    Ok(post)
}

/// Counts the votes of one aggregator's voters and proves the count. Voters
/// without a vote are counted as such.
pub fn build_and_prove_tally(
    election: &ElectionParams,
    labels: &ElectionLabels,
    finalized: &FinalizedRegistration,
    registered: &Vec<RegisteredVoter>,
    votes: &StringMap<String>,
) -> (r: Result<TallyPost>)
    requires
        votes.wf(),
        election.partitions() <= usize::MAX,
        placeable(ballots_of(election, finalized, registered, votes), finalized@),
        finalized.domain_size == 1 ==> unbalanced(
            ballots_of(election, finalized, registered, votes),
            election.election_id@,
            finalized@,
        ),
    ensures
        ({
            let b = ballots_of(election, finalized, registered, votes);
            let eid = election.election_id@;
            match tally_error(b, eid, labels@, finalized@) {
                Some(e) => r matches Err(x) && x@ == e,
                None => match r {
                    Ok(post) => tally_made(b, eid, labels@, finalized@, post@),
                    Err(e) => e@ == ErrorView::Epa(zero_blinder_text()) && !lone_partition(
                        built_input(b, eid, labels@, finalized@).sizes,
                    ),
                },
            }
        }),
        r matches Ok(post) ==> counts_votes(election.candidates@, finalized, votes@, &post),
{
    let ghost b = ballots_of(election, finalized, registered, votes);
    let ghost eid = election.election_id@;
    let count = finalized.voters.len();
    let r = make_post(election, labels, finalized, registered, votes);
    proof {
        if r is Ok {
            let post = r->Ok_0;
            assert(b.records.len() == count);
            law_counts_mean_votes(b, eid, labels@, finalized@, post@);
            lemma_counts_votes(election.candidates@, finalized, votes@, b, &post);
        }
    }
    r
}

/// No later candidate has the id of candidate `j`.
pub open spec fn last_candidate(candidates: Seq<Candidate>, j: int) -> bool {
    forall|l: int| j < l < candidates.len() ==> (#[trigger] candidates[l]).id@ != candidates[j].id@
}

/// The voter of record `i` cast a vote.
pub open spec fn has_vote(
    voters: Seq<VoterRegistrationRecord>,
    votes: Map<Seq<char>, String>,
    i: int,
) -> bool {
    votes.dom().contains(voters[i].voter_id@)
}

/// The voter of record `i` voted for the candidate with an id.
pub open spec fn has_vote_for(
    voters: Seq<VoterRegistrationRecord>,
    votes: Map<Seq<char>, String>,
    id: Seq<char>,
    i: int,
) -> bool {
    has_vote(voters, votes, i) && votes[voters[i].voter_id@]@ == id
}

/// The number of records whose voter cast no vote.
pub open spec fn records_without_vote(
    voters: Seq<VoterRegistrationRecord>,
    votes: Map<Seq<char>, String>,
) -> int {
    how_many(|i: int| !has_vote(voters, votes, i), voters.len() as int)
}

/// The number of records whose voter voted for the candidate with an id.
pub open spec fn records_with_vote(
    voters: Seq<VoterRegistrationRecord>,
    votes: Map<Seq<char>, String>,
    id: Seq<char>,
) -> int {
    how_many(|i: int| has_vote_for(voters, votes, id, i), voters.len() as int)
}

/// The post is for the registration, and counts each of its records by the
/// vote: for no vote, or for the candidate (of those with one id, the last).
pub open spec fn counts_votes(
    candidates: Seq<Candidate>,
    finalized: &FinalizedRegistration,
    votes: Map<Seq<char>, String>,
    post: &TallyPost,
) -> bool {
    &&& post.aggregator_id@ == finalized.aggregator_id@
    &&& post.domain_size == finalized.domain_size
    &&& post.c_commit@ == finalized.c_commit@
    &&& post.pad_count == finalized.pad_count
    &&& post.no_vote_count == records_without_vote(finalized.voters@, votes)
    &&& post.candidate_counts@.len() == candidates.len()
    &&& forall|j: int|
        0 <= j < candidates.len() ==> #[trigger] post.candidate_counts@[j] == if last_candidate(
            candidates,
            j,
        ) {
            records_with_vote(finalized.voters@, votes, candidates[j].id@)
        } else {
            0
        }
}

proof fn lemma_records_counted(
    candidates: Seq<Candidate>,
    finalized: &FinalizedRegistration,
    votes: Map<Seq<char>, String>,
    b: Ballots,
)
    requires
        b.candidates == candidate_ids(candidates),
        b.votes == viewed(votes),
        b.records == record_views(finalized.voters@),
    ensures
        how_many(|i: int| !voted(b, i), b.records.len() as int) == records_without_vote(
            finalized.voters@,
            votes,
        ),
        forall|j: int|
            0 <= j < candidates.len() ==> #[trigger] last_of_id(b, j) == last_candidate(
                candidates,
                j,
            ),
{
    let voters = finalized.voters@;
    let count = voters.len() as int;
    let p = |i: int| !voted(b, i);
    let q = |i: int| !has_vote(voters, votes, i);
    assert forall|i: int| 0 <= i < count implies #[trigger] p(i) == q(i) by {
        assert(b.records[i] == voters[i]@);
    }
    lemma_how_many_ext(p, q, count);
    assert forall|j: int| 0 <= j < candidates.len() implies #[trigger] last_of_id(b, j)
        == last_candidate(candidates, j) by {
        assert(b.candidates[j] == candidates[j].id@);
        if last_of_id(b, j) {
            assert forall|l: int| j < l < candidates.len() implies (#[trigger] candidates[l]).id@
                != candidates[j].id@ by {
                assert(b.candidates[l] != b.candidates[j]);
            }
        }
        if last_candidate(candidates, j) {
            assert forall|l: int| j < l < b.candidates.len() implies #[trigger] b.candidates[l]
                != b.candidates[j] by {
                assert(candidates[l].id@ != candidates[j].id@);
            }
        }
    }
}

proof fn lemma_records_for(
    finalized: &FinalizedRegistration,
    votes: Map<Seq<char>, String>,
    b: Ballots,
    id: Seq<char>,
)
    requires
        b.votes == viewed(votes),
        b.records == record_views(finalized.voters@),
    ensures
        how_many(|i: int| voted_for(b, i, id), b.records.len() as int) == records_with_vote(
            finalized.voters@,
            votes,
            id,
        ),
{
    let voters = finalized.voters@;
    let count = voters.len() as int;
    let p = |i: int| voted_for(b, i, id);
    let q = |i: int| has_vote_for(voters, votes, id, i);
    assert forall|i: int| 0 <= i < count implies #[trigger] p(i) == q(i) by {
        assert(b.records[i] == voters[i]@);
    }
    lemma_how_many_ext(p, q, count);
}

proof fn lemma_counts_votes(
    candidates: Seq<Candidate>,
    finalized: &FinalizedRegistration,
    votes: Map<Seq<char>, String>,
    b: Ballots,
    post: &TallyPost,
)
    requires
        b.candidates == candidate_ids(candidates),
        b.votes == viewed(votes),
        b.records == record_views(finalized.voters@),
        post.aggregator_id@ == finalized.aggregator_id@,
        post.domain_size == finalized.domain_size,
        post.c_commit@ == finalized.c_commit@,
        post.pad_count == finalized.pad_count,
        post.no_vote_count == how_many(|i: int| !voted(b, i), b.records.len() as int),
        post.candidate_counts@.len() == b.candidates.len(),
        forall|j: int|
            0 <= j < b.candidates.len() ==> #[trigger] post.candidate_counts@[j] == if last_of_id(
                b,
                j,
            ) {
                how_many(|i: int| voted_for(b, i, b.candidates[j]), b.records.len() as int)
            } else {
                0
            },
    ensures
        counts_votes(candidates, finalized, votes, post),
{
    lemma_records_counted(candidates, finalized, votes, b);
    assert forall|j: int| 0 <= j < candidates.len() implies #[trigger] post.candidate_counts@[j]
        == if last_candidate(candidates, j) {
        records_with_vote(finalized.voters@, votes, candidates[j].id@)
    } else {
        0
    } by {
        assert(last_of_id(b, j) == last_candidate(candidates, j));
        assert(b.candidates[j] == candidates[j].id@);
        lemma_records_for(finalized, votes, b, b.candidates[j]);
    }
}

/// The shape of a tally's witness.
pub proof fn lemma_tally_shape(b: Ballots, eid: Seq<char>, reg: RegistrationView)
    requires
        placeable(b, reg),
        ballot_error(b, b.records.len() as int) is None,
    ensures
        tally_witness(b, eid, reg).values.len() == reg.domain_size,
        tally_witness(b, eid, reg).partitions.len() == b.candidates.len() + 2,
        tally_witness(b, eid, reg).partitions[b.candidates.len() as int + 1].len()
            == reg.pad_count,
{
    let n = reg.domain_size as int;
    let count = b.records.len() as int;
    lemma_cast_shape(b, n, count);
    let w = cast_ballots(b, n, count);
    lemma_padding_shape(
        w,
        eid,
        reg.aggregator_id,
        reg.real_registered_count as int,
        reg.pad_count as int,
    );
    assert(w.partitions.last().len() == 0);
}

// ---- verifying -------------------------------------------------------------

/// What validators find of one aggregator's tally.
#[derive(Debug)]
pub struct AggregatorVerification {
    pub aggregator_id: String,
    pub valid: bool,
    pub errors: Vec<String>,
    pub verification_time_ms: u128,
}

#[verifier::ext_equal]
pub struct VerificationView {
    pub aggregator_id: Seq<char>,
    pub valid: bool,
    pub errors: Seq<Seq<char>>,
    pub verification_time_ms: u128,
}

impl View for AggregatorVerification {
    type V = VerificationView;

    open spec fn view(&self) -> VerificationView {
        VerificationView {
            aggregator_id: self.aggregator_id@,
            valid: self.valid,
            errors: texts(self.errors@),
            verification_time_ms: self.verification_time_ms,
        }
    }
}

impl Clone for AggregatorVerification {
    fn clone(&self) -> (r: AggregatorVerification)
        ensures
            r@ == self@,
    {
        AggregatorVerification {
            aggregator_id: self.aggregator_id.clone(),
            valid: self.valid,
            errors: clone_texts(&self.errors),
            verification_time_ms: self.verification_time_ms,
        }
    }
}

/// A message, if something is wrong.
pub open spec fn note(wrong: bool, message: Seq<char>) -> Seq<Seq<char>> {
    if wrong {
        seq![message]
    } else {
        Seq::empty()
    }
}

/// What is wrong with the sizes of a tally with `k` partitions.
pub open spec fn size_problems(k: int, reg: RegistrationView, post: TallyView) -> Seq<Seq<char>> {
    if post.sizes.len() != k {
        seq!["wrong number of partitions"@]
    } else {
        note(
            size_total(post.sizes, k) != post.domain_size,
            "partition sizes do not sum to domain size"@,
        ) + note(
            post.candidate_counts != post.sizes.take(k - 2),
            "candidate tally does not match partition sizes"@,
        ) + note(
            post.no_vote_count != post.sizes[k - 2],
            "NO_VOTE count does not match partition size"@,
        ) + note(
            post.pad_count != post.sizes[k - 1],
            "PAD count does not match partition size"@,
        ) + note(
            post.pad_count != reg.pad_count,
            "PAD count does not match registration post"@,
        )
    }
}

/// What is wrong with a tally apart from its proof.
pub open spec fn tally_problems(k: int, labels: LabelsView, reg: RegistrationView, post: TallyView) -> Seq<
    Seq<char>,
> {
    note(
        token_sum(reg.voters, reg.pad_tokens) != post.c_commit,
        "posted C_commit does not match registration tokens"@,
    ) + note(
        post.domain_size != reg.domain_size,
        "tally domain size does not match registration post"@,
    ) + size_problems(k, reg, post) + note(
        post.labels != labels.all(),
        "posted labels do not match recomputed labels"@,
    ) + note(
        post.label_indices != label_numbers(k),
        "posted label indices are not canonical"@,
    )
}

/// Whether proof bytes are accepted for a public input, or why they are not
/// checked.
pub open spec fn proof_outcome(input: InputView, bytes: Seq<u8>) -> std::result::Result<
    bool,
    ErrorView,
> {
    let n = input.domain_size as int;
    match srs_error(n) {
        Some(e) => Err(e),
        None => match epa_proof_parsed(bytes) {
            Err(e) => Err(ErrorView::Serialization(e)),
            Ok(view) => match input_error(input, n) {
                Some(e) => Err(ErrorView::Epa(e)),
                None => Ok(epa_valid(&srs(n), input, view)),
            },
        },
    }
}

/// The public input of a posted tally, from recomputed data.
pub open spec fn posted_input(
    eid: Seq<char>,
    labels: LabelsView,
    reg: RegistrationView,
    post: TallyView,
) -> InputView {
    tally_input(
        eid,
        post.aggregator_id,
        post.domain_size,
        token_sum(reg.voters, reg.pad_tokens),
        labels.all(),
        post.sizes,
        reg.srs_ref,
    )
}

/// What validators find of a posted tally: whether it is valid, and messages.
pub open spec fn tally_verdict(
    eid: Seq<char>,
    k: int,
    labels: LabelsView,
    reg: RegistrationView,
    post: TallyView,
) -> (bool, Seq<Seq<char>>) {
    let problems = tally_problems(k, labels, reg, post);
    if problems.len() > 0 {
        (false, problems)
    } else {
        match proof_outcome(posted_input(eid, labels, reg, post), post.proof_bytes) {
            Ok(valid) => (valid, note(!valid, "EPA proof rejected"@)),
            Err(e) => (false, seq!["verification failed: "@ + error_text(e)]),
        }
    }
}

fn same_sizes(a: &Vec<usize>, b: &Vec<usize>) -> (same: bool)
    ensures
        same == (a@ == b@),
{
    if a.len() != b.len() {
        return false;
    }
    let mut i: usize = 0;
    while i < a.len()
        invariant
            i <= a.len(),
            a@.len() == b@.len(),
            forall|j: int| 0 <= j < i ==> a@[j] == b@[j],
        decreases a.len() - i,
    {
        if a[i] != b[i] {
            return false;
        }
        i += 1;
    }
    proof {
        assert(a@ =~= b@);
    }
    true
}

fn same_scalars(a: &Vec<Fr>, b: &Vec<Fr>) -> (same: bool)
    ensures
        same == (values(a@) == values(b@)),
{
    proof {
        assert(values(a@).len() == a@.len() && values(b@).len() == b@.len());
    }
    if a.len() != b.len() {
        return false;
    }
    let mut i: usize = 0;
    while i < a.len()
        invariant
            i <= a.len(),
            a@.len() == b@.len(),
            forall|j: int| 0 <= j < i ==> (#[trigger] a@[j])@ == b@[j]@,
        decreases a.len() - i,
    {
        if a[i] != b[i] {
            assert(values(a@)[i as int] != values(b@)[i as int]);
            return false;
        }
        i += 1;
    }
    proof {
        assert(values(a@) =~= values(b@));
    }
    true
}

/// Adds a message if something is wrong.
fn push_note(errors: &mut Vec<String>, wrong: bool, message: &str)
    ensures
        texts(final(errors)@) == texts(old(errors)@) + note(wrong, message@),
{
    if wrong {
        errors.push(String::from_str(message));
    }
    proof {
        assert(texts(errors@) =~= texts(old(errors)@) + note(wrong, message@));
    }
}

fn append_messages(errors: &mut Vec<String>, more: Vec<String>)
    ensures
        texts(final(errors)@) == texts(old(errors)@) + texts(more@),
{
    let ghost start = texts(errors@);
    let mut i: usize = 0;
    proof {
        assert(start =~= start + texts(more@).take(0));
    }
    while i < more.len()
        invariant
            i <= more.len(),
            texts(errors@) == start + texts(more@).take(i as int),
        decreases more.len() - i,
    {
        let ghost before = texts(errors@);
        errors.push(more[i].clone());
        proof {
            let all = texts(more@);
            assert(texts(errors@) =~= before.push(all[i as int]));
            assert(start + all.take(i + 1) =~= (start + all.take(i as int)).push(all[i as int]));
        }
        i += 1;
    }
    proof {
        assert(texts(more@).take(more@.len() as int) =~= texts(more@));
    }
}

/// The checks of a tally's sizes.
fn check_sizes(num_partitions: usize, finalized: &FinalizedRegistration, post: &TallyPost) -> (errors:
    Vec<String>)
    requires
        num_partitions >= 2,
    ensures
        texts(errors@) == size_problems(num_partitions as int, finalized@, post@),
{
    let mut errors: Vec<String> = Vec::new();
    let ghost none = Seq::<Seq<char>>::empty();
    proof {
        assert(texts(errors@) =~= none);
    }
    if post.sizes.len() != num_partitions {
        push_note(&mut errors, true, "wrong number of partitions");
        proof {
            assert(texts(errors@) =~= seq!["wrong number of partitions"@]);
        }
        return errors;
    }
    let counts = first_sizes(&post.sizes, num_partitions - 2);
    let wrong_total = total_of(&post.sizes) != post.domain_size as u128;
    push_note(&mut errors, wrong_total, "partition sizes do not sum to domain size");
    proof {
        assert(texts(errors@) =~= note(wrong_total, "partition sizes do not sum to domain size"@));
    }
    let wrong_counts = !same_sizes(&post.candidate_counts, &counts);
    push_note(&mut errors, wrong_counts, "candidate tally does not match partition sizes");
    let wrong_none = post.no_vote_count != post.sizes[num_partitions - 2];
    push_note(&mut errors, wrong_none, "NO_VOTE count does not match partition size");
    let wrong_pad = post.pad_count != post.sizes[num_partitions - 1];
    push_note(&mut errors, wrong_pad, "PAD count does not match partition size");
    let wrong_posted = post.pad_count != finalized.pad_count;
    push_note(&mut errors, wrong_posted, "PAD count does not match registration post");
    errors
}

/// The checks of a tally apart from its proof.
fn check_tally(
    num_partitions: usize,
    labels: &Vec<Fr>,
    c_recomputed: &G1Affine,
    finalized: &FinalizedRegistration,
    post: &TallyPost,
    Ghost(view): Ghost<LabelsView>,
) -> (errors: Vec<String>)
    requires
        num_partitions >= 2,
        values(labels@) == view.all(),
        c_recomputed@ == token_sum(finalized@.voters, finalized@.pad_tokens),
    ensures
        texts(errors@) == tally_problems(num_partitions as int, view, finalized@, post@),
{
    let mut errors: Vec<String> = Vec::new();
    proof {
        assert(texts(errors@) =~= Seq::<Seq<char>>::empty());
    }
    let wrong_commit = *c_recomputed != post.c_commit;
    push_note(
        &mut errors,
        wrong_commit,
        "posted C_commit does not match registration tokens",
    );
    proof {
        assert(texts(errors@) =~= note(
            wrong_commit,
            "posted C_commit does not match registration tokens"@,
        ));
    }
    let wrong_domain = post.domain_size != finalized.domain_size;
    push_note(
        &mut errors,
        wrong_domain,
        "tally domain size does not match registration post",
    );
    let more = check_sizes(num_partitions, finalized, post);
    append_messages(&mut errors, more);
    let wrong_labels = !same_scalars(&post.labels, labels);
    push_note(&mut errors, wrong_labels, "posted labels do not match recomputed labels");
    let canonical = EpaPublicInput::canonical_label_indices(num_partitions);
    let wrong_indices = !same_sizes(&post.label_indices, &canonical);
    push_note(&mut errors, wrong_indices, "posted label indices are not canonical");
    errors
}

/// Checks proof bytes for a public input.
fn check_proof(public_input: &EpaPublicInput, bytes: &Vec<u8>) -> (r: Result<VerificationResult>)
    requires
        public_input.domain_size != 1,
    ensures
        match proof_outcome(public_input@, bytes@) {
            Ok(valid) => r matches Ok(v) && v.valid == valid,
            Err(e) => r matches Err(x) && x@ == e,
        },
{
    let bundle = match get_or_create_srs(public_input.domain_size) {
        Ok(bundle) => bundle,
        Err(e) => return Err(e),
    };
    let p = match EpaProof::from_bytes(bytes.as_slice()) {
        Ok(p) => p,
        Err(e) => return Err(e),
    };
    proof {
        lemma_srs_used(&bundle, public_input@, arbitrary(), p@);
    }
    verify(&bundle, public_input, &p)
}

/// The validators' check of one aggregator's tally: recomputes labels and
/// commitment from public data, compares them with the post, and checks the
/// proof. There are no parameters for a domain of one element.
pub fn verify_aggregator_tally(
    election: &ElectionParams,
    labels: &ElectionLabels,
    finalized: &FinalizedRegistration,
    post: &TallyPost,
) -> (v: AggregatorVerification)
    requires
        election.partitions() <= usize::MAX,
        post.domain_size == 1 ==> tally_problems(
            election.partitions(),
            labels@,
            finalized@,
            post@,
        ).len() > 0,
    ensures
        v.aggregator_id@ == post.aggregator_id@,
        (v.valid, texts(v.errors@)) == tally_verdict(
            election.election_id@,
            election.partitions(),
            labels@,
            finalized@,
            post@,
        ),
        v.valid == (v.errors@.len() == 0),
        v.valid ==> {
            let k = election.candidates@.len() as int;
            &&& post.domain_size == finalized.domain_size
            &&& post.pad_count == finalized.pad_count
            &&& post.sizes@.len() == k + 2
            &&& post.candidate_counts@ == post.sizes@.take(k)
            &&& post.no_vote_count == post.sizes@[k]
            &&& post.pad_count == post.sizes@[k + 1]
            &&& sum_of_sizes(post.sizes@) == finalized.domain_size
            &&& finalized.real_registered_count + finalized.pad_count == finalized.domain_size
                ==> sum_of_sizes(post.candidate_counts@) + post.no_vote_count
                == finalized.real_registered_count
        },
{
    let num_partitions = election.num_partitions();
    let c_recomputed = sum_tokens(&finalized.voters, &finalized.pad_tokens);
    let expected_labels = labels.partition_labels();
    let errors = check_tally(
        num_partitions,
        &expected_labels,
        &c_recomputed,
        finalized,
        post,
        Ghost(labels@),
    );
    proof {
        assert(texts(errors@).len() == errors@.len());
    }
    if errors.len() > 0 {
        return AggregatorVerification {
            aggregator_id: post.aggregator_id.clone(),
            valid: false,
            errors,
            verification_time_ms: 0,
        };
    }
    let public_input = EpaPublicInput {
        election_id: election.election_id.clone(),
        aggregator_id: post.aggregator_id.clone(),
        domain_size: post.domain_size,
        commitment_c: c_recomputed,
        labels: expected_labels,
        label_indices: EpaPublicInput::canonical_label_indices(num_partitions),
        sizes: clone_sizes(&post.sizes),
        srs_ref: finalized.srs_ref.clone(),
    };
    proof {
        lemma_no_problems(num_partitions as int, labels@, finalized@, post@);
        assert(public_input@ =~= posted_input(
            election.election_id@,
            labels@,
            finalized@,
            post@,
        ));
    }
    match check_proof(&public_input, &post.proof_bytes) {
        Ok(v) => {
            let mut errors: Vec<String> = Vec::new();
            proof {
                assert(texts(errors@) =~= Seq::<Seq<char>>::empty());
            }
            push_note(&mut errors, !v.valid, "EPA proof rejected");
            proof {
                assert(texts(errors@) =~= note(!v.valid, "EPA proof rejected"@));
                assert(texts(errors@).len() == errors@.len());
                if v.valid {
                    let (eid, k) = (election.election_id@, election.partitions());
                    assert(tally_verdict(eid, k, labels@, finalized@, post@).0);
                    law_valid_tally(eid, k, labels@, finalized@, post@);
                    assert(post.candidate_counts@ =~= post.sizes@.take(k - 2));
                    if finalized.real_registered_count + finalized.pad_count
                        == finalized.domain_size {
                        law_valid_tally_counts_voters(eid, k, labels@, finalized@, post@);
                    }
                }
            }
            AggregatorVerification {
                aggregator_id: post.aggregator_id.clone(),
                valid: v.valid,
                errors,
                verification_time_ms: v.verification_time_ms,
            }
        },
        Err(e) => {
            let mut errors: Vec<String> = Vec::new();
            errors.push(cat2("verification failed: ", e.to_text().as_str()));
            proof {
                assert(texts(errors@) =~= seq!["verification failed: "@ + error_text(e@)]);
            }
            AggregatorVerification {
                aggregator_id: post.aggregator_id.clone(),
                valid: false,
                errors,
                verification_time_ms: 0,
            }
        },
    }
}

/// Where nothing is wrong, the sizes are as many as the partitions and the
/// rest agrees.
proof fn lemma_no_problems(k: int, labels: LabelsView, reg: RegistrationView, post: TallyView)
    requires
        tally_problems(k, labels, reg, post).len() == 0,
    ensures
        post.sizes.len() == k,
        size_total(post.sizes, k) == post.domain_size,
        post.c_commit == token_sum(reg.voters, reg.pad_tokens),
        post.labels == labels.all(),
        post.label_indices == label_numbers(k),
{
    let p = size_problems(k, reg, post);
    assert(tally_problems(k, labels, reg, post).len() >= p.len());
}

// ---- the global tally ------------------------------------------------------

pub open spec fn tally_views(posts: Seq<TallyPost>) -> Seq<TallyView> {
    Seq::new(posts.len(), |i: int| posts[i]@)
}

pub open spec fn verification_views(s: Seq<AggregatorVerification>) -> Seq<VerificationView> {
    Seq::new(s.len(), |i: int| s[i]@)
}

/// Some verification found the aggregator's tally valid.
pub open spec fn verified(verifications: Seq<VerificationView>, aid: Seq<char>) -> bool {
    exists|i: int|
        0 <= i < verifications.len() && (#[trigger] verifications[i]).valid
            && verifications[i].aggregator_id == aid
}

/// The votes in a list of counts for the candidate with an id, up to position
/// `count`. Counts that are missing count as none.
pub open spec fn votes_for(
    ids: Seq<Seq<char>>,
    counts: Seq<usize>,
    id: Seq<char>,
    count: int,
) -> int
    decreases count,
{
    if count <= 0 {
        0
    } else {
        votes_for(ids, counts, id, count - 1) + if ids[count - 1] == id && count - 1
            < counts.len() {
            counts[count - 1] as int
        } else {
            0
        }
    }
}

/// The votes for a candidate in the first `count` posts, of those that were
/// verified.
pub open spec fn verified_votes(
    ids: Seq<Seq<char>>,
    posts: Seq<TallyView>,
    verifications: Seq<VerificationView>,
    id: Seq<char>,
    count: int,
) -> int
    decreases count,
{
    if count <= 0 {
        0
    } else {
        let post = posts[count - 1];
        verified_votes(ids, posts, verifications, id, count - 1) + if verified(
            verifications,
            post.aggregator_id,
        ) {
            votes_for(ids, post.candidate_counts, id, ids.len() as int)
        } else {
            0
        }
    }
}

/// The total of all candidate counts of the first `count` posts.
pub open spec fn all_counts(posts: Seq<TallyView>, count: int) -> int
    decreases count,
{
    if count <= 0 {
        0
    } else {
        all_counts(posts, count - 1) + size_total(
            posts[count - 1].candidate_counts,
            posts[count - 1].candidate_counts.len() as int,
        )
    }
}

proof fn lemma_votes_bound(ids: Seq<Seq<char>>, counts: Seq<usize>, id: Seq<char>, count: int)
    requires
        0 <= count <= ids.len(),
    ensures
        0 <= votes_for(ids, counts, id, count) <= size_total(
            counts,
            if count <= counts.len() {
                count
            } else {
                counts.len() as int
            },
        ),
    decreases count,
{
    if count > 0 {
        lemma_votes_bound(ids, counts, id, count - 1);
    }
}

proof fn lemma_size_monotone(sizes: Seq<usize>, a: int, b: int)
    requires
        0 <= a <= b <= sizes.len(),
    ensures
        0 <= size_total(sizes, a) <= size_total(sizes, b),
    decreases b,
{
    if b > 0 && a < b {
        lemma_size_monotone(sizes, a, b - 1);
    } else if a > 0 {
        lemma_size_monotone(sizes, 0, a - 1);
    }
}

/// The total of each candidate's verified votes fits a machine integer.
pub open spec fn totals_fit(
    ids: Seq<Seq<char>>,
    posts: Seq<TallyView>,
    verifications: Seq<VerificationView>,
) -> bool {
    forall|i: int|
        0 <= i < ids.len() ==> verified_votes(
            ids,
            posts,
            verifications,
            #[trigger] ids[i],
            posts.len() as int,
        ) <= usize::MAX
}

/// Where all counts together fit, so do the verified votes.
pub proof fn lemma_totals_fit(
    ids: Seq<Seq<char>>,
    posts: Seq<TallyView>,
    verifications: Seq<VerificationView>,
)
    requires
        all_counts(posts, posts.len() as int) <= usize::MAX,
    ensures
        totals_fit(ids, posts, verifications),
{
    assert forall|i: int| 0 <= i < ids.len() implies verified_votes(
        ids,
        posts,
        verifications,
        #[trigger] ids[i],
        posts.len() as int,
    ) <= usize::MAX by {
        lemma_verified_below(ids, posts, verifications, ids[i], posts.len() as int);
    }
}

proof fn lemma_verified_monotone(
    ids: Seq<Seq<char>>,
    posts: Seq<TallyView>,
    verifications: Seq<VerificationView>,
    id: Seq<char>,
    a: int,
    b: int,
)
    requires
        0 <= a <= b <= posts.len(),
    ensures
        verified_votes(ids, posts, verifications, id, a) <= verified_votes(
            ids,
            posts,
            verifications,
            id,
            b,
        ),
    decreases b,
{
    if a < b {
        lemma_verified_monotone(ids, posts, verifications, id, a, b - 1);
        lemma_votes_bound(ids, posts[b - 1].candidate_counts, id, ids.len() as int);
    }
}

proof fn lemma_verified_below(
    ids: Seq<Seq<char>>,
    posts: Seq<TallyView>,
    verifications: Seq<VerificationView>,
    id: Seq<char>,
    count: int,
)
    requires
        0 <= count <= posts.len(),
    ensures
        0 <= verified_votes(ids, posts, verifications, id, count) <= all_counts(posts, count),
    decreases count,
{
    if count > 0 {
        lemma_verified_below(ids, posts, verifications, id, count - 1);
        let counts = posts[count - 1].candidate_counts;
        lemma_votes_bound(ids, counts, id, ids.len() as int);
        lemma_size_monotone(counts, 0, counts.len() as int);
        if ids.len() <= counts.len() {
            lemma_size_monotone(counts, ids.len() as int, counts.len() as int);
        }
    }
}

proof fn lemma_counts_monotone(posts: Seq<TallyView>, a: int, b: int)
    requires
        0 <= a <= b <= posts.len(),
    ensures
        0 <= all_counts(posts, a) <= all_counts(posts, b),
    decreases b,
{
    if b > 0 {
        let counts = posts[b - 1].candidate_counts;
        lemma_size_monotone(counts, 0, counts.len() as int);
        if a < b {
            lemma_counts_monotone(posts, a, b - 1);
        } else {
            lemma_counts_monotone(posts, 0, b - 1);
        }
    }
}

fn is_verified(verifications: &Vec<AggregatorVerification>, aggregator_id: &String) -> (found: bool)
    ensures
        found == verified(verification_views(verifications@), aggregator_id@),
{
    let ghost views = verification_views(verifications@);
    let mut i: usize = 0;
    while i < verifications.len()
        invariant
            i <= verifications.len(),
            views == verification_views(verifications@),
            forall|j: int|
                0 <= j < i ==> !((#[trigger] views[j]).valid && views[j].aggregator_id
                    == aggregator_id@),
        decreases verifications.len() - i,
    {
        assert(views[i as int] == verifications@[i as int]@);
        if verifications[i].valid && verifications[i].aggregator_id == *aggregator_id {
            return true;
        }
        i += 1;
    }
    false
}

/// The total of all candidate counts.
pub fn count_all(posts: &Vec<TallyPost>) -> (r: Option<u128>)
    ensures
        match r {
            Some(n) => n == all_counts(tally_views(posts@), posts@.len() as int),
            None => all_counts(tally_views(posts@), posts@.len() as int) > u128::MAX,
        },
{
    let ghost views = tally_views(posts@);
    let mut sum: u128 = 0;
    let mut i: usize = 0;
    while i < posts.len()
        invariant
            i <= posts.len(),
            views == tally_views(posts@),
            sum == all_counts(views, i as int),
        decreases posts.len() - i,
    {
        assert(views[i as int] == posts@[i as int]@);
        let here = total_of(&posts[i].candidate_counts);
        proof {
            lemma_counts_monotone(views, i + 1, views.len() as int);
        }
        match sum.checked_add(here) {
            Some(s) => {
                sum = s;
            },
            None => {
                return None;
            },
        }
        i += 1;
    }
    Some(sum)
}

/// The votes for each candidate over verified aggregators only. Those for no
/// vote and padding are not counted.
pub fn global_tally(
    election: &ElectionParams,
    posts: &Vec<TallyPost>,
    verifications: &Vec<AggregatorVerification>,
) -> (totals: StringMap<usize>)
    requires
        totals_fit(
            candidate_ids(election.candidates@),
            tally_views(posts@),
            verification_views(verifications@),
        ),
    ensures
        totals.wf(),
        forall|id: Seq<char>| #[trigger]
            totals@.dom().contains(id) <==> candidate_ids(election.candidates@).contains(id),
        forall|id: Seq<char>| #[trigger]
            totals@.dom().contains(id) ==> totals@[id] == verified_votes(
                candidate_ids(election.candidates@),
                tally_views(posts@),
                verification_views(verifications@),
                id,
                posts@.len() as int,
            ),
        forall|id: Seq<char>| #[trigger]
            totals@.dom().contains(id) ==> totals@[id] == sum(
                |p: int|
                    if some_valid(verifications@, posts@[p].aggregator_id@) {
                        counts_for(election.candidates@, posts@[p], id)
                    } else {
                        0
                    },
                posts@.len() as int,
            ),
{
    let ghost ids = candidate_ids(election.candidates@);
    let ghost views = tally_views(posts@);
    let ghost found = verification_views(verifications@);
    let mut totals: StringMap<usize> = StringMap::new();
    let mut j: usize = 0;
    while j < election.candidates.len()
        invariant
            j <= election.candidates.len(),
            ids == candidate_ids(election.candidates@),
            totals.wf(),
            forall|id: Seq<char>| #[trigger]
                totals@.dom().contains(id) <==> ids.take(j as int).contains(id),
            forall|id: Seq<char>| #[trigger] totals@.dom().contains(id) ==> totals@[id] == 0,
        decreases election.candidates.len() - j,
    {
        let ghost before = totals@;
        totals.insert(election.candidates[j].id.clone(), 0);
        proof {
            let x = ids[j as int];
            assert(x == election.candidates@[j as int].id@);
            let (a, b) = (ids.take(j as int), ids.take(j + 1));
            assert(b =~= a.push(x));
            assert forall|id: Seq<char>| #[trigger] totals@.dom().contains(id) <==> b.contains(
                id,
            ) by {
                assert(b[a.len() as int] == x);
                if a.contains(id) {
                    let i = choose|i: int| 0 <= i < a.len() && a[i] == id;
                    assert(b[i] == id);
                }
            }
        }
        j += 1;
    }
    proof {
        assert(ids.take(ids.len() as int) =~= ids);
    }
    let mut i: usize = 0;
    while i < posts.len()
        invariant
            i <= posts.len(),
            ids == candidate_ids(election.candidates@),
            views == tally_views(posts@),
            found == verification_views(verifications@),
            totals_fit(ids, views, found),
            totals.wf(),
            forall|id: Seq<char>| #[trigger] totals@.dom().contains(id) <==> ids.contains(id),
            forall|id: Seq<char>| #[trigger]
                totals@.dom().contains(id) ==> totals@[id] == verified_votes(
                    ids,
                    views,
                    found,
                    id,
                    i as int,
                ),
        decreases posts.len() - i,
    {
        let post = &posts[i];
        assert(views[i as int] == post@);
        if is_verified(verifications, &post.aggregator_id) {
            let mut c: usize = 0;
            while c < election.candidates.len()
                invariant
                    c <= election.candidates.len(),
                    i < posts@.len(),
                    post@ == views[i as int],
                    views.len() == posts@.len(),
                    ids == candidate_ids(election.candidates@),
                    verified(found, post@.aggregator_id),
                    totals_fit(ids, views, found),
                    totals.wf(),
                    forall|id: Seq<char>| #[trigger]
                        totals@.dom().contains(id) <==> ids.contains(id),
                    forall|id: Seq<char>| #[trigger]
                        totals@.dom().contains(id) ==> totals@[id] == verified_votes(
                            ids,
                            views,
                            found,
                            id,
                            i as int,
                        ) + votes_for(ids, post.candidate_counts@, id, c as int),
                decreases election.candidates.len() - c,
            {
                let candidate = &election.candidates[c];
                let ghost before = totals@;
                let ghost x = ids[c as int];
                assert(x == candidate.id@);
                assert(ids.contains(x));
                if c < post.candidate_counts.len() {
                    let add = post.candidate_counts[c];
                    let now: usize = match totals.get(candidate.id.as_str()) {
                        Some(v) => *v,
                        None => 0,
                    };
                    proof {
                        lemma_verified_monotone(ids, views, found, x, i + 1, views.len() as int);
                        lemma_votes_monotone(
                            ids,
                            post.candidate_counts@,
                            x,
                            c + 1,
                            ids.len() as int,
                        );
                    }
                    totals.insert(candidate.id.clone(), now + add);
                    proof {
                        assert forall|id: Seq<char>| #[trigger] totals@.dom().contains(id) implies totals@[id]
                            == verified_votes(ids, views, found, id, i as int) + votes_for(
                            ids,
                            post.candidate_counts@,
                            id,
                            c + 1,
                        ) by {
                            if id != x {
                                assert(before.dom().contains(id));
                            }
                        }
                    }
                }
                c += 1;
            }
        }
        i += 1;
    }
    proof {
        assert forall|id: Seq<char>| #[trigger] totals@.dom().contains(id) implies totals@[id]
            == sum(
            |p: int|
                if some_valid(verifications@, posts@[p].aggregator_id@) {
                    counts_for(election.candidates@, posts@[p], id)
                } else {
                    0
                },
            posts@.len() as int,
        ) by {
            lemma_global_total(election.candidates@, posts@, verifications@, id);
        }
    }
    totals
}

proof fn lemma_votes_monotone(
    ids: Seq<Seq<char>>,
    counts: Seq<usize>,
    id: Seq<char>,
    a: int,
    b: int,
)
    requires
        0 <= a <= b,
    ensures
        0 <= votes_for(ids, counts, id, a) <= votes_for(ids, counts, id, b),
    decreases b,
{
    if b > 0 {
        if a < b {
            lemma_votes_monotone(ids, counts, id, a, b - 1);
        } else {
            lemma_votes_monotone(ids, counts, id, 0, b - 1);
        }
    }
}

} // verus!
