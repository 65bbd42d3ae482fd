//! Benchmarks: how they are configured, how voters are spread over
//! aggregators and candidates, and what is reported.
//!
//! A simulation only counts. It runs no cryptography and keeps no voters, so
//! that it works for very many.

use vstd::prelude::*;

pub use crate::benchmark_engine::{run_benchmark, run_benchmark_until};
use crate::election::{
    candidate_ids, candidate_texts, clone_candidates, template_candidates, template_texts,
    Candidate, ElectionTemplate,
};
use crate::registration::{domain_size_for, least_domain, required_domain_size};
use crate::string_map::StringMap;
use crate::tally::{last_position, lemma_position_range, position_of};
use crate::text::{cat2, decimal, push_decimal};

verus! {

/// How voters are spread over aggregators.
#[derive(Clone, Copy, Debug, PartialEq, Eq, Structural)]
pub enum AssignmentStrategy {
    RoundRobin,
    Uniform,
    Weighted,
    Skewed,
}

/// How votes are spread over candidates.
#[derive(Clone, Copy, Debug, PartialEq, Eq, Structural)]
pub enum VoteDistributionKind {
    Uniform,
    Fixed,
    Skewed,
}

/// What is measured.
#[derive(Clone, Debug)]
pub struct BenchmarkConfig {
    pub voters: usize,
    pub aggregators: usize,
    pub template: ElectionTemplate,
    /// The candidates of a custom election.
    pub custom_candidates: Vec<Candidate>,
    pub assignment: AssignmentStrategy,
    pub vote_distribution: VoteDistributionKind,
    pub seed: u64,
    pub real_crypto: bool,
    /// Receipts are not available; a request for them is reported as such.
    pub receipts: bool,
}

impl Default for BenchmarkConfig {
    fn default() -> (c: BenchmarkConfig)
        ensures
            c.voters == 100,
            c.aggregators == 3,
            c.template == ElectionTemplate::Representative,
            c.custom_candidates@.len() == 0,
            c.assignment == AssignmentStrategy::Uniform,
            c.vote_distribution == VoteDistributionKind::Uniform,
            c.seed == 42,
            c.real_crypto,
            !c.receipts,
    {
        BenchmarkConfig {
            voters: 100,
            aggregators: 3,
            template: ElectionTemplate::Representative,
            custom_candidates: Vec::new(),
            assignment: AssignmentStrategy::Uniform,
            vote_distribution: VoteDistributionKind::Uniform,
            seed: 42,
            real_crypto: true,
            receipts: false,
        }
    }
}

/// A step of a benchmark that begins or ends. The fraction is given as two
/// numbers, the part and the whole.
#[derive(Clone, Debug)]
pub struct ProgressEvent {
    pub stage: String,
    pub message: String,
    pub aggregator: Option<String>,
    pub fraction: Option<(usize, usize)>,
}

/// What was measured of one aggregator.
#[derive(Clone, Debug)]
pub struct AggregatorBenchResult {
    pub aggregator_id: String,
    pub voters: usize,
    pub domain_size: usize,
    pub pad_count: usize,
    pub registration_ms: u64,
    pub finalization_ms: u64,
    pub registration_validation_ms: u64,
    pub tally_and_proving_ms: u64,
    pub epa_proving_ms: u64,
    pub epa_verification_ms: u64,
    pub proof_size_bytes: usize,
    pub verified: bool,
}

/// What a benchmark gave.
#[derive(Clone, Debug)]
pub struct BenchmarkResult {
    pub mode: String,
    pub voter_count: usize,
    pub num_aggregators: usize,
    pub num_candidates: usize,
    pub voters_per_aggregator: Vec<usize>,
    pub per_aggregator: Vec<AggregatorBenchResult>,
    pub candidate_tally: StringMap<usize>,
    pub expected_tally: StringMap<usize>,
    pub tally_matches_expected: bool,
    pub voter_generation_ms: u64,
    pub registration_time_ms: u64,
    pub tally_construction_and_proving_ms: u64,
    pub epa_proving_time_ms: u64,
    pub epa_verification_time_ms: u64,
    pub proof_size_bytes_total: usize,
    pub public_artifact_size_bytes: usize,
    pub max_rss_bytes: Option<u64>,
    pub total_ms: u64,
    pub receipts: String,
    pub success: bool,
    pub error: Option<String>,
}

// ---- seeds ---------------------------------------------------------------------

/// The bits of a seed, mixed.
pub open spec fn mixed(x: u64) -> u64 {
    let a = x.wrapping_add(0x9E3779B97F4A7C15);
    let b = (a ^ (a >> 30)).wrapping_mul(0xBF58476D1CE4E5B9);
    let c = (b ^ (b >> 27)).wrapping_mul(0x94D049BB133111EB);
    c ^ (c >> 31)
}

/// Mixes the bits of a seed.
pub fn splitmix64(x: u64) -> (r: u64)
    ensures
        r == mixed(x),
{
    let a: u64 = x.wrapping_add(0x9E3779B97F4A7C15);
    let b: u64 = (a ^ (a >> 30)).wrapping_mul(0xBF58476D1CE4E5B9);
    let c: u64 = (b ^ (b >> 27)).wrapping_mul(0x94D049BB133111EB);
    c ^ (c >> 31)
}

/// The seed for where voter `i` registers and how the voter votes.
pub fn choice_seed(seed: u64, i: usize) -> (r: u64)
    ensures
        r == mixed(seed ^ (i as u64)),
{
    splitmix64(seed ^ (i as u64))
}

/// The seed for the keys of voter `i`.
pub open spec fn key_seed_of(seed: u64, i: int) -> u64 {
    mixed(seed.wrapping_mul(0x5851F42D4C957F2D) ^ (i as u64))
}

/// The seed for the keys of voter `i`.
pub fn key_seed(seed: u64, i: usize) -> (r: u64)
    ensures
        r == key_seed_of(seed, i as int),
{
    splitmix64(seed.wrapping_mul(0x5851F42D4C957F2D) ^ (i as u64))
}

/// The seed for the nonces of the aggregator with an index.
pub fn aggregator_seed(seed: u64, index: usize) -> (r: u64)
    ensures
        r == mixed(seed ^ 0xA66u64 ^ (index as u64)),
{
    splitmix64(seed ^ 0xA66u64 ^ (index as u64))
}

// ---- what voters choose ----------------------------------------------------------

/// The aggregator and the candidate of voter `i`, where both were drawn: in
/// turn, the aggregators are taken one after another instead.
pub fn assign_voter(config: &BenchmarkConfig, i: usize, aggregator: usize, candidate: usize) -> (r:
    (usize, usize))
    requires
        config.assignment == AssignmentStrategy::RoundRobin ==> config.aggregators > 0,
    ensures
        r.0 == if config.assignment == AssignmentStrategy::RoundRobin {
            (i % config.aggregators) as int
        } else {
            aggregator as int
        },
        r.1 == candidate,
{
    match config.assignment {
        AssignmentStrategy::RoundRobin => (i % config.aggregators, candidate),
        _ => (aggregator, candidate),
    }
}

/// The candidates of a benchmark: ids and names.
pub open spec fn bench_candidates(config: &BenchmarkConfig) -> Seq<(Seq<char>, Seq<char>)> {
    match config.template {
        ElectionTemplate::Custom => candidate_texts(config.custom_candidates@),
        t => template_texts(t),
    }
}

/// The ids of the candidates.
pub open spec fn bench_ids(config: &BenchmarkConfig) -> Seq<Seq<char>> {
    let c = bench_candidates(config);
    Seq::new(c.len(), |j: int| c[j].0)
}

/// The candidates of a benchmark.
pub fn candidates_for(config: &BenchmarkConfig) -> (r: Vec<Candidate>)
    ensures
        candidate_texts(r@) == bench_candidates(config),
        candidate_ids(r@) == bench_ids(config),
{
    let r = match config.template {
        ElectionTemplate::Custom => clone_candidates(&config.custom_candidates),
        t => template_candidates(t),
    };
    proof {
        assert(candidate_texts(r@) == bench_candidates(config));
        assert forall|j: int| 0 <= j < r@.len() implies candidate_ids(r@)[j] == bench_ids(
            config,
        )[j] by {
            assert(candidate_texts(r@)[j].0 == r@[j].id@);
        }
        assert(candidate_texts(r@).len() == r@.len());
        assert(candidate_ids(r@) =~= bench_ids(config));
    }
    r
}

/// What each voter chose: an aggregator and a candidate.
pub open spec fn decided<A: Fn(usize) -> (usize, usize)>(
    assign: &A,
    voters: int,
    cs: Seq<(usize, usize)>,
) -> bool {
    &&& cs.len() == voters
    &&& forall|i: int|
        0 <= i < voters ==> call_ensures(*assign, (i as usize,), #[trigger] cs[i])
}

/// The number of the first `count` voters that chose an aggregator.
pub open spec fn assigned_to(cs: Seq<(usize, usize)>, a: int, count: int) -> int
    decreases count,
{
    if count <= 0 {
        0
    } else {
        assigned_to(cs, a, count - 1) + if cs[count - 1].0 == a {
            1int
        } else {
            0int
        }
    }
}

/// The number of the first `count` voters that chose a candidate.
pub open spec fn voted_for(cs: Seq<(usize, usize)>, j: int, count: int) -> int
    decreases count,
{
    if count <= 0 {
        0
    } else {
        voted_for(cs, j, count - 1) + if cs[count - 1].1 == j {
            1int
        } else {
            0int
        }
    }
}

proof fn lemma_choice_counts(cs: Seq<(usize, usize)>, x: int, count: int)
    requires
        0 <= count,
    ensures
        0 <= assigned_to(cs, x, count) <= count,
        0 <= voted_for(cs, x, count) <= count,
    decreases count,
{
    if count > 0 {
        lemma_choice_counts(cs, x, count - 1);
    }
}

/// What was counted.
pub struct Counted {
    pub per_aggregator: Vec<usize>,
    pub per_candidate: Vec<usize>,
    /// The choices themselves, if they were kept.
    pub kept: Vec<(usize, usize)>,
}

/// The counts of choices.
pub open spec fn counts(x: &Counted, m: int, k: int, cs: Seq<(usize, usize)>, count: int) -> bool {
    &&& x.per_aggregator@.len() == m
    &&& x.per_candidate@.len() == k
    &&& forall|a: int| 0 <= a < m ==> #[trigger] x.per_aggregator@[a] == assigned_to(cs, a, count)
    &&& forall|j: int| 0 <= j < k ==> #[trigger] x.per_candidate@[j] == voted_for(cs, j, count)
}

/// The choices are within bounds.
pub open spec fn in_bounds<A: Fn(usize) -> (usize, usize)>(
    assign: &A,
    voters: int,
    m: int,
    k: int,
) -> bool {
    &&& forall|i: usize| i < voters ==> #[trigger] call_requires(*assign, (i,))
    &&& forall|i: usize, c: (usize, usize)|
        i < voters && #[trigger] call_ensures(*assign, (i,), c) ==> c.0 < m && c.1 < k
}

fn zeros(n: usize) -> (v: Vec<usize>)
    ensures
        v@.len() == n,
        forall|i: int| 0 <= i < n ==> #[trigger] v@[i] == 0,
{
    let mut v: Vec<usize> = Vec::new();
    let mut i: usize = 0;
    while i < n
        invariant
            i <= n,
            v@.len() == i,
            forall|k: int| 0 <= k < i ==> #[trigger] v@[k] == 0,
        decreases n - i,
    {
        v.push(0);
        i += 1;
    }
    v
}

/// Counts the choices of all voters, one after another. They are kept only
/// where that is asked for.
pub fn count_choices<A: Fn(usize) -> (usize, usize)>(
    voters: usize,
    aggregators: usize,
    candidates: usize,
    assign: &A,
    keep: bool,
) -> (r: Counted)
    requires
        in_bounds(assign, voters as int, aggregators as int, candidates as int),
    ensures
        exists|cs: Seq<(usize, usize)>|
            decided(assign, voters as int, cs) && #[trigger] counts(
                &r,
                aggregators as int,
                candidates as int,
                cs,
                voters as int,
            ) && (keep ==> r.kept@ == cs),
{
    let (m, k) = (Ghost(aggregators as int), Ghost(candidates as int));
    let mut x = Counted {
        per_aggregator: zeros(aggregators),
        per_candidate: zeros(candidates),
        kept: Vec::new(),
    };
    let ghost mut cs: Seq<(usize, usize)> = Seq::empty();
    let mut i: usize = 0;
    while i < voters
        invariant
            i <= voters,
            m@ == aggregators,
            k@ == candidates,
            in_bounds(assign, voters as int, m@, k@),
            decided(assign, i as int, cs),
            counts(&x, m@, k@, cs, i as int),
            keep ==> x.kept@ == cs,
        decreases voters - i,
    {
        let c: (usize, usize) = assign(i);
        let ghost before = cs;
        let ghost was = x;
        proof {
            cs = cs.push(c);
            lemma_same_counts(before, cs, i as int);
            lemma_choice_counts(before, c.0 as int, i as int);
            lemma_choice_counts(before, c.1 as int, i as int);
            assert forall|n: int| 0 <= n < i + 1 implies call_ensures(
                *assign,
                (n as usize,),
                #[trigger] cs[n],
            ) by {
                if n < i {
                    assert(cs[n] == before[n]);
                }
            }
        }
        let (a, j) = c;
        let there: usize = x.per_aggregator[a];
        x.per_aggregator.set(a, there + 1);
        let there: usize = x.per_candidate[j];
        x.per_candidate.set(j, there + 1);
        if keep {
            x.kept.push(c);
        }
        i += 1;
        proof {
            assert forall|b: int| 0 <= b < m@ implies #[trigger] x.per_aggregator@[b]
                == assigned_to(cs, b, i as int) by {
                assert(was.per_aggregator@[b] == assigned_to(before, b, i - 1));
                assert(assigned_to(cs, b, i - 1) == assigned_to(before, b, i - 1));
            }
            assert forall|b: int| 0 <= b < k@ implies #[trigger] x.per_candidate@[b] == voted_for(
                cs,
                b,
                i as int,
            ) by {
                assert(was.per_candidate@[b] == voted_for(before, b, i - 1));
                assert(voted_for(cs, b, i - 1) == voted_for(before, b, i - 1));
            }
        }
    }
    x
}

/// Counts look at the first choices only.
pub proof fn lemma_same_counts(a: Seq<(usize, usize)>, b: Seq<(usize, usize)>, count: int)
    requires
        0 <= count <= a.len(),
        count <= b.len(),
        forall|i: int| 0 <= i < count ==> a[i] == b[i],
    ensures
        forall|x: int| #[trigger] assigned_to(a, x, count) == assigned_to(b, x, count),
        forall|x: int| #[trigger] voted_for(a, x, count) == voted_for(b, x, count),
    decreases count,
{
    if count > 0 {
        lemma_same_counts(a, b, count - 1);
        assert forall|x: int| #[trigger] assigned_to(a, x, count) == assigned_to(b, x, count) by {
            assert(assigned_to(a, x, count - 1) == assigned_to(b, x, count - 1));
        }
        assert forall|x: int| #[trigger] voted_for(a, x, count) == voted_for(b, x, count) by {
            assert(voted_for(a, x, count - 1) == voted_for(b, x, count - 1));
        }
    }
}

// ---- what is expected --------------------------------------------------------------

/// The counts by candidate id. The last candidate with an id stands for it.
pub open spec fn by_id(ids: Seq<Seq<char>>, counts: Seq<usize>) -> Map<Seq<char>, usize> {
    Map::new(
        |id: Seq<char>| ids.contains(id),
        |id: Seq<char>| counts[position_of(ids, id)->0],
    )
}

/// The counts by candidate id.
pub fn tally_by_id(candidates: &Vec<Candidate>, counts: &Vec<usize>) -> (r: StringMap<usize>)
    requires
        counts@.len() == candidates@.len(),
    ensures
        r.wf(),
        r@ == by_id(candidate_ids(candidates@), counts@),
{
    let ghost ids = candidate_ids(candidates@);
    let mut r: StringMap<usize> = StringMap::new();
    let mut j: usize = 0;
    while j < candidates.len()
        invariant
            j <= candidates.len(),
            counts@.len() == candidates@.len(),
            ids == candidate_ids(candidates@),
            r.wf(),
            forall|id: Seq<char>| #[trigger]
                r@.dom().contains(id) <==> last_position(ids, id, j as int) is Some,
            forall|id: Seq<char>| #[trigger]
                r@.dom().contains(id) ==> r@[id] == counts@[last_position(ids, id, j as int)->0],
        decreases candidates.len() - j,
    {
        let ghost before = r@;
        r.insert(candidates[j].id.clone(), counts[j]);
        proof {
            let x = candidates@[j as int].id@;
            assert(ids[j as int] == x);
            assert forall|id: Seq<char>| #[trigger] r@.dom().contains(id) <==> last_position(
                ids,
                id,
                j + 1,
            ) is Some by {
                assert(before.dom().contains(id) <==> last_position(ids, id, j as int) is Some);
            }
            assert forall|id: Seq<char>| #[trigger] r@.dom().contains(id) implies r@[id]
                == counts@[last_position(ids, id, j + 1)->0] by {
                if id != x {
                    assert(before.dom().contains(id));
                }
            }
        }
        j += 1;
    }
    proof {
        assert forall|id: Seq<char>| #[trigger] r@.dom().contains(id) <==> ids.contains(id) by {
            lemma_position_range(ids, id, ids.len() as int);
            if ids.contains(id) {
                let n = choose|n: int| 0 <= n < ids.len() && ids[n] == id;
                assert(ids[n] == id);
            }
        }
        assert(r@ =~= by_id(ids, counts@));
    }
    r
}

/// The tally that is expected of choices.
pub open spec fn expected(config: &BenchmarkConfig, cs: Seq<(usize, usize)>) -> Map<
    Seq<char>,
    usize,
> {
    let ids = bench_ids(config);
    by_id(ids, Seq::new(ids.len(), |j: int| voted_for(cs, j, cs.len() as int) as usize))
}

// ---- results ---------------------------------------------------------------------------

/// The kind of benchmark.
pub open spec fn mode_text(real_crypto: bool) -> Seq<char> {
    if real_crypto {
        "real-crypto"@
    } else {
        "simulation (NON-CRYPTOGRAPHIC)"@
    }
}

/// What every result says of its configuration.
pub open spec fn describes(config: &BenchmarkConfig, r: &BenchmarkResult) -> bool {
    &&& r.mode@ == mode_text(config.real_crypto)
    &&& r.voter_count == config.voters
    &&& r.num_aggregators == config.aggregators
    &&& r.num_candidates == bench_candidates(config).len()
    &&& r.receipts@ == "not available with current EPA API"@
}

/// No aggregator was measured.
pub open spec fn unmeasured(r: &BenchmarkResult) -> bool {
    &&& r.voter_generation_ms == 0
    &&& r.registration_time_ms == 0
    &&& r.tally_construction_and_proving_ms == 0
    &&& r.epa_proving_time_ms == 0
    &&& r.epa_verification_time_ms == 0
    &&& r.proof_size_bytes_total == 0
    &&& r.public_artifact_size_bytes == 0
}

/// Nothing was done.
pub open spec fn blank(r: &BenchmarkResult) -> bool {
    &&& unmeasured(r)
    &&& r.voters_per_aggregator@.len() == 0
    &&& r.per_aggregator@.len() == 0
    &&& r.candidate_tally@ == Map::<Seq<char>, usize>::empty()
    &&& r.expected_tally@ == Map::<Seq<char>, usize>::empty()
    &&& !r.tally_matches_expected
    &&& !r.success
}

/// Why a benchmark is not run.
pub open spec fn config_error(config: &BenchmarkConfig) -> Option<Seq<char>> {
    if bench_candidates(config).len() == 0 {
        Some("no candidates configured"@)
    } else if config.aggregators == 0 || config.voters == 0 {
        Some("need at least one aggregator and one voter"@)
    } else {
        None
    }
}

/// A result with nothing done.
pub fn blank_result(config: &BenchmarkConfig) -> (r: BenchmarkResult)
    ensures
        describes(config, &r),
        blank(&r),
        r.candidate_tally.wf(),
        r.expected_tally.wf(),
        r.max_rss_bytes is None,
        r.total_ms == 0,
        r.error is None,
{
    let candidates = candidates_for(config);
    let mode = if config.real_crypto {
        String::from_str("real-crypto")
    } else {
        String::from_str("simulation (NON-CRYPTOGRAPHIC)")
    };
    proof {
        assert(candidate_texts(candidates@).len() == candidates@.len());
    }
    BenchmarkResult {
        mode,
        voter_count: config.voters,
        num_aggregators: config.aggregators,
        num_candidates: candidates.len(),
        voters_per_aggregator: Vec::new(),
        per_aggregator: Vec::new(),
        candidate_tally: StringMap::new(),
        expected_tally: StringMap::new(),
        tally_matches_expected: false,
        voter_generation_ms: 0,
        registration_time_ms: 0,
        tally_construction_and_proving_ms: 0,
        epa_proving_time_ms: 0,
        epa_verification_time_ms: 0,
        proof_size_bytes_total: 0,
        public_artifact_size_bytes: 0,
        max_rss_bytes: None,
        total_ms: 0,
        receipts: String::from_str("not available with current EPA API"),
        success: false,
        error: None,
    }
}

/// The record of a benchmark that was broken off by a panic.
pub fn panic_result(config: &BenchmarkConfig, message: &str, peak: Option<u64>) -> (r:
    BenchmarkResult)
    ensures
        describes(config, &r),
        blank(&r),
        r.max_rss_bytes == peak,
        r.total_ms == 0,
        r.error matches Some(e) && e@ == "panic during benchmark: "@ + message@,
{
    let mut r = blank_result(config);
    r.max_rss_bytes = peak;
    r.error = Some(cat2("panic during benchmark: ", message));
    r
}

// ---- simulation ----------------------------------------------------------------------

/// The id of the aggregator with an index.
pub open spec fn aggregator_name(a: int) -> Seq<char> {
    "A"@ + decimal(a + 1)
}

/// The id of the aggregator with an index.
pub fn aggregator_id(a: usize) -> (s: String)
    ensures
        s@ == aggregator_name(a as int),
{
    let mut s = String::from_str("A");
    push_decimal(&mut s, a as u128 + 1);
    s
}

/// What a simulation reports of an aggregator.
pub open spec fn simulated_line(
    a: int,
    voters: int,
    partitions: int,
    r: &AggregatorBenchResult,
) -> bool {
    &&& r.aggregator_id@ == aggregator_name(a)
    &&& r.voters == voters
    &&& r.domain_size == domain_size_for(voters, partitions)
    &&& r.pad_count == r.domain_size - voters
    &&& r.registration_ms == 0
    &&& r.finalization_ms == 0
    &&& r.registration_validation_ms == 0
    &&& r.tally_and_proving_ms == 0
    &&& r.epa_proving_ms == 0
    &&& r.epa_verification_ms == 0
    &&& r.proof_size_bytes == 0
    &&& !r.verified
}

/// The domains of all aggregators can be sized, whatever voters choose.
pub open spec fn benchable(config: &BenchmarkConfig) -> bool {
    least_domain(config.voters as int, bench_candidates(config).len() as int + 2) <= usize::MAX / 2
        + 1
}

/// The lines of a simulation.
pub(crate) fn simulate_aggregators(per_aggregator: &Vec<usize>, partitions: usize) -> (r: Vec<
    AggregatorBenchResult,
>)
    requires
        forall|a: int|
            0 <= a < per_aggregator@.len() ==> least_domain(
                #[trigger] per_aggregator@[a] as int,
                partitions as int,
            ) <= usize::MAX / 2 + 1,
    ensures
        r@.len() == per_aggregator@.len(),
        forall|a: int|
            0 <= a < r@.len() ==> simulated_line(
                a,
                per_aggregator@[a] as int,
                partitions as int,
                &#[trigger] r@[a],
            ),
{
    let mut r: Vec<AggregatorBenchResult> = Vec::new();
    let mut a: usize = 0;
    while a < per_aggregator.len()
        invariant
            a <= per_aggregator.len(),
            forall|b: int|
                0 <= b < per_aggregator@.len() ==> least_domain(
                    #[trigger] per_aggregator@[b] as int,
                    partitions as int,
                ) <= usize::MAX / 2 + 1,
            r@.len() == a,
            forall|b: int|
                0 <= b < a ==> simulated_line(
                    b,
                    per_aggregator@[b] as int,
                    partitions as int,
                    &#[trigger] r@[b],
                ),
        decreases per_aggregator.len() - a,
    {
        let voters: usize = per_aggregator[a];
        let domain_size: usize = required_domain_size(voters, partitions);
        r.push(
            AggregatorBenchResult {
                aggregator_id: aggregator_id(a),
                voters,
                domain_size,
                pad_count: domain_size - voters,
                registration_ms: 0,
                finalization_ms: 0,
                registration_validation_ms: 0,
                tally_and_proving_ms: 0,
                epa_proving_ms: 0,
                epa_verification_ms: 0,
                proof_size_bytes: 0,
                verified: false,
            },
        );
        a += 1;
    }
    r
}

// ---- export ------------------------------------------------------------------------------

/// A truth value as text.
pub open spec fn truth_text(b: bool) -> Seq<char> {
    if b {
        "true"@
    } else {
        "false"@
    }
}

/// The names of the columns.
pub const CSV_HEADER: &'static str =
    "aggregator,voters,domain_size,pad_count,registration_ms,finalization_ms,registration_validation_ms,tally_and_proving_ms,epa_proving_ms,epa_verification_ms,proof_size_bytes,verified\n";

/// The numbers of an aggregator, in the order of the columns.
pub open spec fn row_numbers(a: AggregatorBenchResult) -> Seq<int> {
    seq![
        a.voters as int,
        a.domain_size as int,
        a.pad_count as int,
        a.registration_ms as int,
        a.finalization_ms as int,
        a.registration_validation_ms as int,
        a.tally_and_proving_ms as int,
        a.epa_proving_ms as int,
        a.epa_verification_ms as int,
        a.proof_size_bytes as int,
    ]
}

/// Numbers, with a comma before each.
pub open spec fn csv_cells(numbers: Seq<int>) -> Seq<char>
    decreases numbers.len(),
{
    if numbers.len() == 0 {
        Seq::empty()
    } else {
        csv_cells(numbers.drop_last()) + ","@ + decimal(numbers.last())
    }
}

/// The row of an aggregator.
pub open spec fn csv_row(a: AggregatorBenchResult) -> Seq<char> {
    a.aggregator_id@ + csv_cells(row_numbers(a)) + ","@ + truth_text(a.verified) + "\n"@
}

/// The header and the rows of the first aggregators.
pub open spec fn csv_rows(list: Seq<AggregatorBenchResult>) -> Seq<char>
    decreases list.len(),
{
    if list.len() == 0 {
        CSV_HEADER@
    } else {
        csv_rows(list.drop_last()) + csv_row(list.last())
    }
}

/// The last row, with the totals.
pub open spec fn csv_total(r: &BenchmarkResult) -> Seq<char> {
    "TOTAL,"@ + decimal(r.voter_count as int) + ",,,"@ + decimal(r.registration_time_ms as int)
        + ",,,"@ + decimal(r.tally_construction_and_proving_ms as int) + ","@ + decimal(
        r.epa_proving_time_ms as int,
    ) + ","@ + decimal(r.epa_verification_time_ms as int) + ","@ + decimal(
        r.proof_size_bytes_total as int,
    ) + ","@ + truth_text(r.success) + "\n"@
}

fn truth(b: bool) -> (s: &'static str)
    ensures
        s@ == truth_text(b),
{
    if b {
        "true"
    } else {
        "false"
    }
}

/// Numbers of 128 bits as integers.
spec fn wide_values(cells: Seq<u128>) -> Seq<int> {
    Seq::new(cells.len(), |i: int| cells[i] as int)
}

/// Appends numbers, with a comma before each.
fn push_cells(out: &mut String, cells: &Vec<u128>)
    ensures
        final(out)@ == old(out)@ + csv_cells(wide_values(cells@)),
{
    let ghost start = out@;
    let ghost all = wide_values(cells@);
    let mut i: usize = 0;
    proof {
        assert(all.take(0) =~= Seq::<int>::empty());
        assert(out@ =~= start + csv_cells(all.take(0)));
    }
    while i < cells.len()
        invariant
            i <= cells.len(),
            all == wide_values(cells@),
            out@ == start + csv_cells(all.take(i as int)),
        decreases cells.len() - i,
    {
        out.append(",");
        push_decimal(out, cells[i]);
        proof {
            let now = all.take(i + 1);
            assert(now.drop_last() =~= all.take(i as int));
            assert(now.last() == cells@[i as int]);
            assert(out@ =~= start + csv_cells(now));
        }
        i += 1;
    }
    proof {
        assert(all.take(all.len() as int) =~= all);
    }
}

fn push_row(out: &mut String, a: &AggregatorBenchResult)
    ensures
        final(out)@ == old(out)@ + csv_row(*a),
{
    let cells: Vec<u128> = vec![
        a.voters as u128,
        a.domain_size as u128,
        a.pad_count as u128,
        a.registration_ms as u128,
        a.finalization_ms as u128,
        a.registration_validation_ms as u128,
        a.tally_and_proving_ms as u128,
        a.epa_proving_ms as u128,
        a.epa_verification_ms as u128,
        a.proof_size_bytes as u128,
    ];
    proof {
        assert(wide_values(cells@) =~= row_numbers(*a));
    }
    out.append(a.aggregator_id.as_str());
    push_cells(out, &cells);
    out.append(",");
    out.append(truth(a.verified));
    out.append("\n");
    proof {
        assert(out@ =~= old(out)@ + csv_row(*a));
    }
}

/// The result as comma-separated values: a row for each aggregator, then one
/// with the totals.
pub fn result_to_csv(result: &BenchmarkResult) -> (out: String)
    ensures
        out@ == csv_rows(result.per_aggregator@) + csv_total(result),
{
    let ghost all = result.per_aggregator@;
    let mut out = String::from_str(CSV_HEADER);
    let mut i: usize = 0;
    proof {
        assert(all.take(0) =~= Seq::empty());
    }
    while i < result.per_aggregator.len()
        invariant
            i <= result.per_aggregator.len(),
            all == result.per_aggregator@,
            out@ == csv_rows(all.take(i as int)),
        decreases result.per_aggregator.len() - i,
    {
        push_row(&mut out, &result.per_aggregator[i]);
        i += 1;
        proof {
            assert(all.take(i as int).drop_last() =~= all.take(i - 1));
        }
    }
    proof {
        assert(all.take(all.len() as int) =~= all);
    }
    let ghost rows = out@;
    out.append("TOTAL,");
    push_decimal(&mut out, result.voter_count as u128);
    out.append(",,,");
    push_decimal(&mut out, result.registration_time_ms as u128);
    out.append(",,,");
    push_decimal(&mut out, result.tally_construction_and_proving_ms as u128);
    out.append(",");
    push_decimal(&mut out, result.epa_proving_time_ms as u128);
    out.append(",");
    push_decimal(&mut out, result.epa_verification_time_ms as u128);
    out.append(",");
    push_decimal(&mut out, result.proof_size_bytes_total as u128);
    out.append(",");
    out.append(truth(result.success));
    out.append("\n");
    proof {
        assert(out@ =~= rows + csv_total(result));
    }
    out
}

} // verus!
