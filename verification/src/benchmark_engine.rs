//! The benchmark engine: a simulation that only counts, or the whole pipeline
//! with real cryptography.

use vstd::prelude::*;

use crate::artifacts::{
    fr_hex, fr_to_hex, scalar_hexes, scalars_to_hex, shorten, tally_texts, PublicElectionArtifact,
    TallyPostArtifact, VerificationArtifact,
};
use crate::benchmark::{
    aggregator_name, assigned_to, bench_candidates, bench_ids, benchable, blank, blank_result,
    candidates_for, config_error, count_choices, counts, decided, describes, expected, in_bounds,
    simulate_aggregators, simulated_line, tally_by_id, unmeasured, voted_for, AggregatorBenchResult,
    BenchmarkConfig, BenchmarkResult, Counted, ProgressEvent,
};
use crate::benchmark_math::{
    choices_ok, choose_as, law_votes_counted, lemma_counts_fit, mine, own_counts, votes_of_id,
    BenchVoterView,
};
use crate::benchmark_run::{
    all_hashable, bench_eid, bench_election, bench_views, check_hashable, drawn, event,
    generate_voters, is_set, line_for, line_of, make_election, ready, run_aggregator, stopped,
    BenchVoter, Measured,
};
use crate::clock::{elapsed_millis, moment};
use crate::demo_election::verification_texts;
use crate::election::{candidate_ids, candidate_texts, ElectionParams, ARTIFACT_VERSION};
use crate::epa_adapter::EPA_BACKEND_ID;
use crate::error::{error_text, AggiosError, ErrorView, Result};
use crate::labels::{
    election_labels, labels_derivable, lemma_candidate_labels_len, try_derive_election_labels,
    ElectionLabels, LabelsView,
};
use crate::registration::least_domain;
use crate::string_map::StringMap;
use crate::tally::{
    global_tally, lemma_totals_fit, tally_views, verification_views, verified,
    AggregatorVerification, TallyPost, TallyView, VerificationView,
};
use crate::text::{push_decimal, texts};

verus! {

/// What the aggregators of a run gave.
pub struct Runs {
    pub lines: Vec<AggregatorBenchResult>,
    pub posts: Vec<TallyPost>,
    pub verifications: Vec<AggregatorVerification>,
}

/// The first aggregators ran, and each counted the votes of its own voters.
pub open spec fn runs_of(
    config: &BenchmarkConfig,
    vs: Seq<BenchVoterView>,
    lines: Seq<AggregatorBenchResult>,
    posts: Seq<TallyView>,
    found: Seq<VerificationView>,
) -> bool {
    &&& lines.len() <= config.aggregators
    &&& posts.len() == lines.len()
    &&& found.len() == lines.len()
    &&& forall|a: int|
        0 <= a < lines.len() ==> line_of(
            config,
            a,
            mine(vs, a, vs.len() as int),
            &#[trigger] lines[a],
        ) && line_for(a, &lines[a], posts[a], found[a]) && own_counts(
            bench_ids(config),
            mine(vs, a, vs.len() as int),
            posts[a],
        )
}

/// Why a run stopped before the aggregator with an index, where a read of the
/// flag found it set (`set`), or no read did.
pub open spec fn stopped_at(
    config: &BenchmarkConfig,
    set: bool,
    vs: Seq<BenchVoterView>,
    a: int,
    e: ErrorView,
) -> bool {
    ||| set && e == ErrorView::Benchmark("cancelled"@)
    ||| stopped(config, aggregator_name(a), mine(vs, a, vs.len() as int), e)
}

/// Runs one aggregator, unless the flag was found set before it.
pub fn aggregator_step<P: Fn(ProgressEvent)>(
    cancelled: bool,
    config: &BenchmarkConfig,
    election: &ElectionParams,
    labels: &ElectionLabels,
    voters: &Vec<BenchVoter>,
    a: usize,
    progress: &P,
    Ghost(cs): Ghost<Seq<(usize, usize)>>,
) -> (r: Result<Measured>)
    requires
        ready(config, election, labels@, cs, bench_views(voters@)),
        a < config.aggregators,
        forall|e: ProgressEvent| call_requires(*progress, (e,)),
    ensures
        cancelled ==> (r matches Err(e) && e@ == ErrorView::Benchmark("cancelled"@)),
        !cancelled ==> ({
            let own = mine(bench_views(voters@), a as int, voters@.len() as int);
            match r {
                Ok(x) => line_of(config, a as int, own, &x.line) && line_for(
                    a as int,
                    &x.line,
                    x.post@,
                    x.verification@,
                ) && own_counts(bench_ids(config), own, x.post@),
                Err(e) => stopped(config, aggregator_name(a as int), own, e@),
            }
        }),
{
    if cancelled {
        return Err(AggiosError::Benchmark(String::from_str("cancelled")));
    }
    run_aggregator(config, election, labels, voters, a, progress, Ghost(cs))
}

/// Runs the aggregators one after another, until one fails or the run is
/// cancelled. `cancel` reads the flag.
fn run_aggregators<P: Fn(ProgressEvent), C: Fn() -> bool>(
    config: &BenchmarkConfig,
    election: &ElectionParams,
    labels: &ElectionLabels,
    voters: &Vec<BenchVoter>,
    progress: &P,
    cancel: &C,
    Ghost(cs): Ghost<Seq<(usize, usize)>>,
) -> (r: (Runs, Option<AggiosError>))
    requires
        ready(config, election, labels@, cs, bench_views(voters@)),
        forall|e: ProgressEvent| call_requires(*progress, (e,)),
        call_requires(*cancel, ()),
    ensures
        runs_of(
            config,
            bench_views(voters@),
            r.0.lines@,
            tally_views(r.0.posts@),
            verification_views(r.0.verifications@),
        ),
        match r.1 {
            None => r.0.lines@.len() == config.aggregators,
            Some(e) => r.0.lines@.len() < config.aggregators && stopped_at(
                config,
                call_ensures(*cancel, (), true),
                bench_views(voters@),
                r.0.lines@.len() as int,
                e@,
            ),
        },
{
    let ghost vs = bench_views(voters@);
    let mut runs = Runs { lines: Vec::new(), posts: Vec::new(), verifications: Vec::new() };
    let mut a: usize = 0;
    while a < config.aggregators
        invariant
            a <= config.aggregators,
            vs == bench_views(voters@),
            ready(config, election, labels@, cs, vs),
            forall|e: ProgressEvent| call_requires(*progress, (e,)),
            call_requires(*cancel, ()),
            runs.lines@.len() == a,
            runs_of(
                config,
                vs,
                runs.lines@,
                tally_views(runs.posts@),
                verification_views(runs.verifications@),
            ),
        decreases config.aggregators - a,
    {
        let cancelled = cancel();
        match aggregator_step(
            cancelled,
            config,
            election,
            labels,
            voters,
            a,
            progress,
            Ghost(cs),
        ) {
            Ok(x) => {
                let ghost (lines, posts, found) = (
                    runs.lines@,
                    tally_views(runs.posts@),
                    verification_views(runs.verifications@),
                );
                proof {
                    assert(vs.len() == voters@.len());
                    assert(posts.len() == runs.posts@.len());
                    assert(found.len() == runs.verifications@.len());
                }
                runs.lines.push(x.line);
                runs.posts.push(x.post);
                runs.verifications.push(x.verification);
                proof {
                    assert(tally_views(runs.posts@) =~= posts.push(x.post@));
                    assert(verification_views(runs.verifications@) =~= found.push(
                        x.verification@,
                    ));
                    assert forall|b: int| 0 <= b < runs.lines@.len() implies line_of(
                        config,
                        b,
                        mine(vs, b, vs.len() as int),
                        &#[trigger] runs.lines@[b],
                    ) && line_for(
                        b,
                        &runs.lines@[b],
                        tally_views(runs.posts@)[b],
                        verification_views(runs.verifications@)[b],
                    ) && own_counts(
                        bench_ids(config),
                        mine(vs, b, vs.len() as int),
                        tally_views(runs.posts@)[b],
                    ) by {
                        if b < a {
                            assert(runs.lines@[b] == lines[b]);
                        }
                    }
                }
            },
            Err(e) => {
                proof {
                    assert(vs.len() == voters@.len());
                }
                return (runs, Some(e));
            },
        }
        a += 1;
    }
    (runs, None)
}

// ---- totals ----------------------------------------------------------------------------

/// The time for a registration: accepting, finalizing and checking.
pub open spec fn registration_time(a: AggregatorBenchResult) -> u64 {
    a.registration_ms.wrapping_add(a.finalization_ms).wrapping_add(a.registration_validation_ms)
}

/// The total of a time over the first `count` aggregators, in 64 bits.
pub open spec fn time_total(
    lines: Seq<AggregatorBenchResult>,
    f: spec_fn(AggregatorBenchResult) -> u64,
    count: int,
) -> u64
    decreases count,
{
    if count <= 0 {
        0
    } else {
        time_total(lines, f, count - 1).wrapping_add(f(lines[count - 1]))
    }
}

/// The total size of the proofs of the first `count` aggregators.
pub open spec fn size_sum(lines: Seq<AggregatorBenchResult>, count: int) -> usize
    decreases count,
{
    if count <= 0 {
        0
    } else {
        size_sum(lines, count - 1).wrapping_add(lines[count - 1].proof_size_bytes)
    }
}

/// The totals of a result are those of its lines.
pub open spec fn totalled(r: &BenchmarkResult) -> bool {
    let lines = r.per_aggregator@;
    let n = lines.len() as int;
    &&& r.registration_time_ms == time_total(
        lines,
        |a: AggregatorBenchResult| registration_time(a),
        n,
    )
    &&& r.tally_construction_and_proving_ms == time_total(
        lines,
        |a: AggregatorBenchResult| a.tally_and_proving_ms,
        n,
    )
    &&& r.epa_proving_time_ms == time_total(lines, |a: AggregatorBenchResult| a.epa_proving_ms, n)
    &&& r.epa_verification_time_ms == time_total(
        lines,
        |a: AggregatorBenchResult| a.epa_verification_ms,
        n,
    )
    &&& r.proof_size_bytes_total == size_sum(lines, n)
}

/// Adds up the times and sizes of all aggregators.
fn add_totals(result: &mut BenchmarkResult)
    ensures
        totalled(final(result)),
        *final(result) == (BenchmarkResult {
            registration_time_ms: final(result).registration_time_ms,
            tally_construction_and_proving_ms: final(result).tally_construction_and_proving_ms,
            epa_proving_time_ms: final(result).epa_proving_time_ms,
            epa_verification_time_ms: final(result).epa_verification_time_ms,
            proof_size_bytes_total: final(result).proof_size_bytes_total,
            ..*old(result)
        }),
{
    let mut registration: u64 = 0;
    let mut tally: u64 = 0;
    let mut proving: u64 = 0;
    let mut verification: u64 = 0;
    let mut size: usize = 0;
    let mut i: usize = 0;
    let ghost lines = result.per_aggregator@;
    let ghost was = *result;
    let ghost f = |a: AggregatorBenchResult| registration_time(a);
    let ghost g = |a: AggregatorBenchResult| a.tally_and_proving_ms;
    let ghost h = |a: AggregatorBenchResult| a.epa_proving_ms;
    let ghost k = |a: AggregatorBenchResult| a.epa_verification_ms;
    while i < result.per_aggregator.len()
        invariant
            i <= result.per_aggregator.len(),
            *result == was,
            lines == result.per_aggregator@,
            f == (|a: AggregatorBenchResult| registration_time(a)),
            g == (|a: AggregatorBenchResult| a.tally_and_proving_ms),
            h == (|a: AggregatorBenchResult| a.epa_proving_ms),
            k == (|a: AggregatorBenchResult| a.epa_verification_ms),
            registration == time_total(lines, f, i as int),
            tally == time_total(lines, g, i as int),
            proving == time_total(lines, h, i as int),
            verification == time_total(lines, k, i as int),
            size == size_sum(lines, i as int),
        decreases result.per_aggregator.len() - i,
    {
        let a = &result.per_aggregator[i];
        let here: u64 = a.registration_ms.wrapping_add(a.finalization_ms).wrapping_add(
            a.registration_validation_ms,
        );
        registration = registration.wrapping_add(here);
        tally = tally.wrapping_add(a.tally_and_proving_ms);
        proving = proving.wrapping_add(a.epa_proving_ms);
        verification = verification.wrapping_add(a.epa_verification_ms);
        size = size.wrapping_add(a.proof_size_bytes);
        i += 1;
    }
    result.registration_time_ms = registration;
    result.tally_construction_and_proving_ms = tally;
    result.epa_proving_time_ms = proving;
    result.epa_verification_time_ms = verification;
    result.proof_size_bytes_total = size;
}

// ---- the artifact ------------------------------------------------------------------------

/// What a benchmark publishes: an election without registration posts.
pub open spec fn bench_artifact(
    config: &BenchmarkConfig,
    labels: LabelsView,
    posts: Seq<TallyView>,
    found: Seq<VerificationView>,
    tally: Map<Seq<char>, usize>,
    a: &PublicElectionArtifact,
) -> bool {
    &&& a.version == ARTIFACT_VERSION
    &&& a.object_type@ == "aggios_public_election_artifact"@
    &&& a.curve@ == EPA_BACKEND_ID@
    &&& a.election@ == bench_election(config)
    &&& texts(a.candidate_labels@) == scalar_hexes(labels.candidates)
    &&& a.no_vote_label@ == fr_hex(labels.no_vote)
    &&& a.pad_label@ == fr_hex(labels.pad)
    &&& a.registration_posts@.len() == 0
    &&& a.tally_posts@.len() == posts.len()
    &&& forall|i: int|
        0 <= i < posts.len() ==> tally_texts(&#[trigger] a.tally_posts@[i], posts[i])
    &&& a.verifications@.len() == found.len()
    &&& forall|i: int|
        0 <= i < found.len() ==> verification_texts(
            &#[trigger] a.verifications@[i],
            bench_eid(config),
            found[i],
        )
    &&& a.verified_global_tally.wf()
    &&& a.verified_global_tally@ == tally
}

fn make_artifact(
    config: &BenchmarkConfig,
    election: &ElectionParams,
    labels: &ElectionLabels,
    posts: &Vec<TallyPost>,
    found: &Vec<AggregatorVerification>,
    tally: &StringMap<usize>,
) -> (r: PublicElectionArtifact)
    requires
        election@ == bench_election(config),
        tally.wf(),
    ensures
        bench_artifact(
            config,
            labels@,
            tally_views(posts@),
            verification_views(found@),
            tally@,
            &r,
        ),
{
    let mut tally_posts: Vec<TallyPostArtifact> = Vec::new();
    let mut i: usize = 0;
    while i < posts.len()
        invariant
            i <= posts.len(),
            tally_posts@.len() == i,
            forall|k: int|
                0 <= k < i ==> tally_texts(&#[trigger] tally_posts@[k], tally_views(posts@)[k]),
        decreases posts.len() - i,
    {
        assert(tally_views(posts@)[i as int] == posts@[i as int]@);
        tally_posts.push(TallyPostArtifact::from_post(&posts[i]));
        i += 1;
    }
    let mut verifications: Vec<VerificationArtifact> = Vec::new();
    let mut j: usize = 0;
    while j < found.len()
        invariant
            j <= found.len(),
            election@ == bench_election(config),
            verifications@.len() == j,
            forall|k: int|
                0 <= k < j ==> verification_texts(
                    &#[trigger] verifications@[k],
                    bench_eid(config),
                    verification_views(found@)[k],
                ),
        decreases found.len() - j,
    {
        assert(verification_views(found@)[j as int] == found@[j as int]@);
        verifications.push(
            VerificationArtifact::from_verification(election.election_id.as_str(), &found[j]),
        );
        j += 1;
    }
    proof {
        assert(tally_views(posts@).len() == posts@.len());
        assert(verification_views(found@).len() == found@.len());
    }
    PublicElectionArtifact {
        version: ARTIFACT_VERSION,
        object_type: String::from_str("aggios_public_election_artifact"),
        curve: String::from_str(EPA_BACKEND_ID),
        election: election.clone(),
        candidate_labels: scalars_to_hex(&labels.candidate_labels),
        no_vote_label: fr_to_hex(&labels.no_vote_label),
        pad_label: fr_to_hex(&labels.pad_label),
        registration_posts: Vec::new(),
        tally_posts,
        verifications,
        verified_global_tally: tally.copy_counts(),
    }
}

// ---- the run ---------------------------------------------------------------------------

/// The votes that each candidate id received.
pub open spec fn counted_votes(config: &BenchmarkConfig, cs: Seq<(usize, usize)>) -> Map<
    Seq<char>,
    usize,
> {
    let ids = bench_ids(config);
    Map::new(
        |id: Seq<char>| ids.contains(id),
        |id: Seq<char>| votes_of_id(ids, cs, id, cs.len() as int) as usize,
    )
}

/// Why no voters are made.
pub open spec fn setup_error(config: &BenchmarkConfig) -> Option<Seq<char>> {
    if !labels_derivable(bench_eid(config), bench_candidates(config)) {
        Some("labels cannot be derived"@)
    } else if !all_hashable(config) {
        Some("delegation message cannot be hashed"@)
    } else {
        None
    }
}

/// No aggregator ran.
pub open spec fn abandoned(r: &BenchmarkResult) -> bool {
    &&& r.per_aggregator@.len() == 0
    &&& r.candidate_tally@ == Map::<Seq<char>, usize>::empty()
    &&& !r.tally_matches_expected
    &&& !r.success
    &&& r.registration_time_ms == 0
    &&& r.tally_construction_and_proving_ms == 0
    &&& r.epa_proving_time_ms == 0
    &&& r.epa_verification_time_ms == 0
    &&& r.proof_size_bytes_total == 0
    &&& r.public_artifact_size_bytes == 0
}

/// The result has an error with this text.
pub open spec fn failed_with(r: &BenchmarkResult, text: Seq<char>) -> bool {
    r.error matches Some(x) && x@ == text
}

/// The size of what was published is that of the run's artifact.
pub open spec fn published<S: Fn(&PublicElectionArtifact) -> usize>(
    config: &BenchmarkConfig,
    vs: Seq<BenchVoterView>,
    size: &S,
    r: &BenchmarkResult,
    posts: Seq<TallyView>,
    found: Seq<VerificationView>,
    artifact: PublicElectionArtifact,
) -> bool {
    &&& runs_of(config, vs, r.per_aggregator@, posts, found)
    &&& bench_artifact(
        config,
        election_labels(bench_eid(config), bench_candidates(config)),
        posts,
        found,
        r.candidate_tally@,
        &artifact,
    )
    &&& call_ensures(*size, (&artifact,), r.public_artifact_size_bytes)
}

/// All aggregators ran. The result is a success where the verified tally is
/// the expected one.
pub open spec fn complete<S: Fn(&PublicElectionArtifact) -> usize>(
    config: &BenchmarkConfig,
    cs: Seq<(usize, usize)>,
    vs: Seq<BenchVoterView>,
    size: &S,
    r: &BenchmarkResult,
) -> bool {
    &&& r.per_aggregator@.len() == config.aggregators
    &&& r.candidate_tally@ == counted_votes(config, cs)
    &&& r.tally_matches_expected == (counted_votes(config, cs) == expected(config, cs))
    &&& r.success == r.tally_matches_expected
    &&& if r.success {
        r.error is None
    } else {
        failed_with(r, "verified tally does not match expected tally"@)
    }
    &&& exists|
        posts: Seq<TallyView>,
        found: Seq<VerificationView>,
        artifact: PublicElectionArtifact,
    | #[trigger] published(config, vs, size, r, posts, found, artifact)
}

/// The run stopped before all aggregators were done.
pub open spec fn incomplete(
    config: &BenchmarkConfig,
    set: bool,
    vs: Seq<BenchVoterView>,
    r: &BenchmarkResult,
) -> bool {
    &&& r.per_aggregator@.len() < config.aggregators
    &&& r.candidate_tally@ == Map::<Seq<char>, usize>::empty()
    &&& !r.tally_matches_expected
    &&& !r.success
    &&& r.public_artifact_size_bytes == 0
    &&& exists|e: ErrorView|
        stopped_at(config, set, vs, r.per_aggregator@.len() as int, e) && failed_with(
            r,
            #[trigger] error_text(e),
        )
}

/// Voters were made, and the aggregators ran.
pub open spec fn ran<S: Fn(&PublicElectionArtifact) -> usize>(
    config: &BenchmarkConfig,
    cs: Seq<(usize, usize)>,
    vs: Seq<BenchVoterView>,
    set: bool,
    size: &S,
    r: &BenchmarkResult,
) -> bool {
    &&& drawn(config, cs, vs)
    &&& totalled(r)
    &&& forall|a: int|
        0 <= a < r.per_aggregator@.len() ==> line_of(
            config,
            a,
            mine(vs, a, vs.len() as int),
            &#[trigger] r.per_aggregator@[a],
        )
    &&& complete(config, cs, vs, size, r) || incomplete(config, set, vs, r)
}

/// What a benchmark with real cryptography gives, where a read of the flag
/// found it set (`set`) and one found it clear (`clear`).
pub open spec fn real_run<S: Fn(&PublicElectionArtifact) -> usize>(
    config: &BenchmarkConfig,
    cs: Seq<(usize, usize)>,
    set: bool,
    clear: bool,
    size: &S,
    r: &BenchmarkResult,
) -> bool {
    match setup_error(config) {
        Some(e) => abandoned(r) && failed_with(r, e),
        None => {
            ||| set && abandoned(r) && failed_with(r, "cancelled"@)
            ||| clear && exists|vs: Seq<BenchVoterView>| #[trigger] ran(config, cs, vs, set, size, r)
        },
    }
}

/// What a simulation gives.
pub open spec fn simulated(config: &BenchmarkConfig, cs: Seq<(usize, usize)>, r: &BenchmarkResult) -> bool {
    &&& unmeasured(r)
    &&& r.per_aggregator@.len() == config.aggregators
    &&& forall|a: int|
        0 <= a < r.per_aggregator@.len() ==> simulated_line(
            a,
            assigned_to(cs, a, cs.len() as int),
            bench_ids(config).len() as int + 2,
            &#[trigger] r.per_aggregator@[a],
        )
    &&& r.candidate_tally@ == r.expected_tally@
    &&& r.tally_matches_expected
    &&& r.success
    &&& r.error is None
}

/// What a benchmark gives for choices.
pub open spec fn reported<S: Fn(&PublicElectionArtifact) -> usize>(
    config: &BenchmarkConfig,
    cs: Seq<(usize, usize)>,
    set: bool,
    clear: bool,
    size: &S,
    r: &BenchmarkResult,
) -> bool {
    &&& r.voters_per_aggregator@.len() == config.aggregators
    &&& forall|a: int|
        0 <= a < config.aggregators ==> #[trigger] r.voters_per_aggregator@[a] == assigned_to(
            cs,
            a,
            cs.len() as int,
        )
    &&& r.expected_tally@ == expected(config, cs)
    &&& if config.real_crypto {
        real_run(config, cs, set, clear, size, r)
    } else {
        simulated(config, cs, r)
    }
}

/// A benchmark that ran to the end succeeds, where the candidates have
/// distinct ids.
pub proof fn law_benchmark_succeeds<S: Fn(&PublicElectionArtifact) -> usize>(
    config: &BenchmarkConfig,
    cs: Seq<(usize, usize)>,
    vs: Seq<BenchVoterView>,
    size: &S,
    r: &BenchmarkResult,
)
    requires
        complete(config, cs, vs, size, r),
        bench_ids(config).no_duplicates(),
        choices_ok(cs, config.aggregators as int, bench_ids(config).len() as int),
        cs.len() <= usize::MAX,
    ensures
        r.success,
        r.error is None,
        r.candidate_tally@ == expected(config, cs),
{
    let ids = bench_ids(config);
    assert forall|id: Seq<char>| #[trigger] r.candidate_tally@.dom().contains(id) implies
        r.candidate_tally@[id] == votes_of_id(ids, cs, id, cs.len() as int) by {
        lemma_votes_of_id_bound(ids, cs, id, cs.len() as int);
    }
    crate::benchmark_math::law_tally_as_expected(config, cs, r.candidate_tally@);
}

/// A benchmark with real cryptography that nobody cancels succeeds, where the
/// candidates have distinct ids, unless the setup fails or the run of an
/// aggregator stops for a reason of its own.
pub proof fn law_uncancelled_succeeds<S: Fn(&PublicElectionArtifact) -> usize>(
    config: &BenchmarkConfig,
    cs: Seq<(usize, usize)>,
    clear: bool,
    size: &S,
    r: &BenchmarkResult,
)
    requires
        reported(config, cs, false, clear, size, r),
        config.real_crypto,
        setup_error(config) is None,
        bench_ids(config).no_duplicates(),
        choices_ok(cs, config.aggregators as int, bench_ids(config).len() as int),
        cs.len() <= usize::MAX,
    ensures
        exists|vs: Seq<BenchVoterView>| #[trigger] drawn(config, cs, vs) && {
            ||| {
                &&& r.success
                &&& r.error is None
                &&& r.candidate_tally@ == expected(config, cs)
                &&& r.per_aggregator@.len() == config.aggregators
                &&& forall|a: int|
                    0 <= a < r.per_aggregator@.len() ==> (#[trigger] r.per_aggregator@[a]).verified
            }
            ||| exists|a: int, e: ErrorView|
                0 <= a < config.aggregators && #[trigger] stopped(
                    config,
                    aggregator_name(a),
                    mine(vs, a, vs.len() as int),
                    e,
                ) && failed_with(r, error_text(e))
        },
{
    let vs = choose|vs: Seq<BenchVoterView>| #[trigger] ran(config, cs, vs, false, size, r);
    assert(drawn(config, cs, vs));
    if complete(config, cs, vs, size, r) {
        law_benchmark_succeeds(config, cs, vs, size, r);
        assert forall|a: int| 0 <= a < r.per_aggregator@.len() implies (
        #[trigger] r.per_aggregator@[a]).verified by {
            assert(line_of(config, a, mine(vs, a, vs.len() as int), &r.per_aggregator@[a]));
        }
    } else {
        let a = r.per_aggregator@.len() as int;
        let e = choose|e: ErrorView|
            stopped_at(config, false, vs, a, e) && failed_with(r, #[trigger] error_text(e));
        assert(stopped(config, aggregator_name(a), mine(vs, a, vs.len() as int), e));
    }
}

proof fn lemma_votes_of_id_bound(
    ids: Seq<Seq<char>>,
    cs: Seq<(usize, usize)>,
    id: Seq<char>,
    count: int,
)
    requires
        0 <= count,
    ensures
        0 <= votes_of_id(ids, cs, id, count) <= count,
    decreases count,
{
    if count > 0 {
        lemma_votes_of_id_bound(ids, cs, id, count - 1);
    }
}

/// Counts the verified votes of all aggregators.
fn count_verified(
    config: &BenchmarkConfig,
    election: &ElectionParams,
    runs: &Runs,
    Ghost(cs): Ghost<Seq<(usize, usize)>>,
    Ghost(vs): Ghost<Seq<BenchVoterView>>,
) -> (tally: StringMap<usize>)
    requires
        candidate_ids(election.candidates@) == bench_ids(config),
        choose_as(vs, cs),
        cs.len() <= usize::MAX,
        choices_ok(cs, config.aggregators as int, bench_ids(config).len() as int),
        runs.lines@.len() == config.aggregators,
        runs_of(
            config,
            vs,
            runs.lines@,
            tally_views(runs.posts@),
            verification_views(runs.verifications@),
        ),
    ensures
        tally.wf(),
        tally@ == counted_votes(config, cs),
{
    let ghost ids = bench_ids(config);
    let ghost posts = tally_views(runs.posts@);
    let ghost found = verification_views(runs.verifications@);
    proof {
        assert(posts.len() == runs.posts@.len());
        assert forall|a: int| 0 <= a < posts.len() implies own_counts(
            ids,
            mine(vs, a, vs.len() as int),
            #[trigger] posts[a],
        ) by {
            assert(line_of(config, a, mine(vs, a, vs.len() as int), &runs.lines@[a]));
        }
        lemma_counts_fit(ids, vs, cs, posts);
        assert(candidate_ids(election.candidates@) =~= ids);
        lemma_totals_fit(ids, posts, found);
    }
    let tally = global_tally(election, &runs.posts, &runs.verifications);
    proof {
        assert forall|a: int| 0 <= a < posts.len() implies verified(
            found,
            (#[trigger] posts[a]).aggregator_id,
        ) by {
            assert(line_of(config, a, mine(vs, a, vs.len() as int), &runs.lines@[a]));
            assert(found[a].valid && found[a].aggregator_id == posts[a].aggregator_id);
        }
        assert forall|id: Seq<char>| #[trigger] tally@.dom().contains(id) implies tally@[id]
            == counted_votes(config, cs)[id] by {
            law_votes_counted(ids, vs, cs, posts, found, id);
        }
        assert(tally@ =~= counted_votes(config, cs));
    }
    tally
}

/// What a run starts from: counts, and nothing measured.
pub open spec fn begun(config: &BenchmarkConfig, cs: Seq<(usize, usize)>, r: &BenchmarkResult) -> bool {
    &&& describes(config, r)
    &&& r.voters_per_aggregator@.len() == config.aggregators
    &&& forall|a: int|
        0 <= a < config.aggregators ==> #[trigger] r.voters_per_aggregator@[a] == assigned_to(
            cs,
            a,
            cs.len() as int,
        )
    &&& r.expected_tally.wf()
    &&& r.expected_tally@ == expected(config, cs)
}

/// Runs the aggregators for voters that were made, and reports.
fn run_voters<
    P: Fn(ProgressEvent),
    C: Fn() -> bool,
    S: Fn(&PublicElectionArtifact) -> usize,
>(
    config: &BenchmarkConfig,
    election: &ElectionParams,
    labels: &ElectionLabels,
    voters: &Vec<BenchVoter>,
    begin: BenchmarkResult,
    progress: &P,
    cancel: &C,
    size: &S,
    Ghost(cs): Ghost<Seq<(usize, usize)>>,
) -> (r: BenchmarkResult)
    requires
        ready(config, election, labels@, cs, bench_views(voters@)),
        labels@ == election_labels(bench_eid(config), bench_candidates(config)),
        begun(config, cs, &begin),
        abandoned(&begin),
        begin.error is None,
        forall|e: ProgressEvent| call_requires(*progress, (e,)),
        call_requires(*cancel, ()),
        forall|a: &PublicElectionArtifact| call_requires(*size, (a,)),
    ensures
        begun(config, cs, &r),
        ran(config, cs, bench_views(voters@), call_ensures(*cancel, (), true), size, &r),
{
    let ghost set = call_ensures(*cancel, (), true);
    let mut result = begin;
    let ghost vs = bench_views(voters@);
    let (runs, stop) = run_aggregators(
        config,
        election,
        labels,
        voters,
        progress,
        cancel,
        Ghost(cs),
    );
    let ghost posts = tally_views(runs.posts@);
    let ghost found = verification_views(runs.verifications@);
    let ghost lines = runs.lines@;
    proof {
        assert forall|a: int| 0 <= a < lines.len() implies line_of(
            config,
            a,
            mine(vs, a, vs.len() as int),
            &#[trigger] lines[a],
        ) by {
        }
    }
    match stop {
        None => {
            let tally = count_verified(config, election, &runs, Ghost(cs), Ghost(vs));
            let artifact = make_artifact(
                config,
                election,
                labels,
                &runs.posts,
                &runs.verifications,
                &tally,
            );
            let bytes = size(&artifact);
            let same = tally.same_counts(&result.expected_tally);
            result.per_aggregator = runs.lines;
            result.candidate_tally = tally;
            result.public_artifact_size_bytes = bytes;
            result.tally_matches_expected = same;
            result.success = same;
            if !same {
                result.error = Some(
                    String::from_str("verified tally does not match expected tally"),
                );
            }
            add_totals(&mut result);
            proof {
                assert(published(config, vs, size, &result, posts, found, artifact));
                assert(complete(config, cs, vs, size, &result));
            }
            progress(
                event("done", String::from_str("benchmark complete"), None, Some((1, 1))),
            );
        },
        Some(e) => {
            result.per_aggregator = runs.lines;
            let text = e.to_text();
            result.error = Some(text.clone());
            add_totals(&mut result);
            proof {
                assert(failed_with(&result, error_text(e@)));
                assert(incomplete(config, set, vs, &result));
            }
            progress(event("failed", text, None, None));
        },
    }
    result
}

/// Runs a benchmark that is cancelled where `cancel` says so: it is asked when
/// the voters are made, and before each aggregator. Where it never says so,
/// nothing is reported as cancelled.
pub fn run_benchmark_until<
    A: Fn(usize) -> (usize, usize),
    P: Fn(ProgressEvent),
    C: Fn() -> bool,
    S: Fn(&PublicElectionArtifact) -> usize,
    M: Fn() -> Option<u64>,
>(
    config: &BenchmarkConfig,
    assign: &A,
    progress: &P,
    cancel: &C,
    size: &S,
    peak: &M,
) -> (r: BenchmarkResult)
    requires
        config_error(config) is None ==> benchable(config) && in_bounds(
            assign,
            config.voters as int,
            config.aggregators as int,
            bench_candidates(config).len() as int,
        ),
        forall|e: ProgressEvent| call_requires(*progress, (e,)),
        call_requires(*cancel, ()),
        forall|a: &PublicElectionArtifact| call_requires(*size, (a,)),
        call_requires(*peak, ()),
    ensures
        describes(config, &r),
        match config_error(config) {
            Some(e) => blank(&r) && failed_with(&r, e) && r.max_rss_bytes is None,
            None => call_ensures(*peak, (), r.max_rss_bytes) && exists|cs: Seq<(usize, usize)>|
                decided(assign, config.voters as int, cs) && #[trigger] reported(
                    config,
                    cs,
                    call_ensures(*cancel, (), true),
                    call_ensures(*cancel, (), false),
                    size,
                    &r,
                ),
        },
{
    let ghost set = call_ensures(*cancel, (), true);
    let ghost clear = call_ensures(*cancel, (), false);
    let started = moment();
    let candidates = candidates_for(config);
    let mut result = blank_result(config);
    proof {
        assert(candidate_texts(candidates@).len() == candidates@.len());
        assert(candidate_ids(candidates@).len() == candidates@.len());
    }
    if candidates.len() == 0 {
        result.error = Some(String::from_str("no candidates configured"));
        return result;
    }
    if config.aggregators == 0 || config.voters == 0 {
        result.error = Some(String::from_str("need at least one aggregator and one voter"));
        return result;
    }
    let k = candidates.len();
    let counted = count_choices(
        config.voters,
        config.aggregators,
        k,
        assign,
        config.real_crypto,
    );
    let ghost cs = choose|cs: Seq<(usize, usize)>|
        decided(assign, config.voters as int, cs) && #[trigger] counts(
            &counted,
            config.aggregators as int,
            k as int,
            cs,
            config.voters as int,
        ) && (config.real_crypto ==> counted.kept@ == cs);
    let Counted { per_aggregator, per_candidate, kept } = counted;
    result.expected_tally = tally_by_id(&candidates, &per_candidate);
    proof {
        let ids = bench_ids(config);
        let all = Seq::new(ids.len(), |j: int| voted_for(cs, j, cs.len() as int) as usize);
        assert(per_candidate@ =~= all);
        assert forall|a: int| 0 <= a < per_aggregator@.len() implies least_domain(
            #[trigger] per_aggregator@[a] as int,
            k as int + 2,
        ) <= usize::MAX / 2 + 1 by {
            lemma_assigned_bound(cs, a, cs.len() as int);
        }
        assert forall|i: int| 0 <= i < cs.len() implies (#[trigger] cs[i]).0 < config.aggregators
            && cs[i].1 < k by {
            assert(call_ensures(*assign, (i as usize,), cs[i]));
        }
    }
    if !config.real_crypto {
        result.per_aggregator = simulate_aggregators(&per_aggregator, k + 2);
        result.voters_per_aggregator = per_aggregator;
        result.candidate_tally = result.expected_tally.copy_counts();
        result.tally_matches_expected = true;
        result.max_rss_bytes = peak();
        result.total_ms = shorten(elapsed_millis(&started));
        result.success = true;
        proof {
            assert(simulated(config, cs, &result));
            assert(reported(config, cs, set, clear, size, &result));
        }
        progress(
            event(
                "done",
                String::from_str("simulation complete (no cryptography executed)"),
                None,
                Some((1, 1)),
            ),
        );
        return result;
    }
    result.voters_per_aggregator = per_aggregator;
    let mut r = run_pipeline(config, result, &kept, progress, cancel, size);
    let ghost made = r;
    r.max_rss_bytes = peak();
    r.total_ms = shorten(elapsed_millis(&started));
    proof {
        lemma_real_run(config, cs, set, clear, set, clear, size, &made, &r);
        assert(reported(config, cs, set, clear, size, &r));
    }
    r
}

/// Runs a benchmark. `assign` gives the aggregator and the candidate of a
/// voter, `progress` is told of each step, `size` measures what is published,
/// and `peak` gives the largest memory use so far, if it is known. A failure
/// is reported in the result. Others may set the flag `cancel` at any time, so
/// that a run may be reported as cancelled.
pub fn run_benchmark<
    A: Fn(usize) -> (usize, usize),
    P: Fn(ProgressEvent),
    S: Fn(&PublicElectionArtifact) -> usize,
    M: Fn() -> Option<u64>,
>(
    config: &BenchmarkConfig,
    assign: &A,
    progress: &P,
    cancel: &std::sync::atomic::AtomicBool,
    size: &S,
    peak: &M,
) -> (r: BenchmarkResult)
    requires
        config_error(config) is None ==> benchable(config) && in_bounds(
            assign,
            config.voters as int,
            config.aggregators as int,
            bench_candidates(config).len() as int,
        ),
        forall|e: ProgressEvent| call_requires(*progress, (e,)),
        forall|a: &PublicElectionArtifact| call_requires(*size, (a,)),
        call_requires(*peak, ()),
    ensures
        describes(config, &r),
        match config_error(config) {
            Some(e) => blank(&r) && failed_with(&r, e) && r.max_rss_bytes is None,
            None => call_ensures(*peak, (), r.max_rss_bytes) && exists|cs: Seq<(usize, usize)>|
                decided(assign, config.voters as int, cs) && #[trigger] reported(
                    config,
                    cs,
                    true,
                    true,
                    size,
                    &r,
                ),
        },
{
    let read = || -> (b: bool) { is_set(cancel) };
    let r = run_benchmark_until(config, assign, progress, &read, size, peak);
    proof {
        if config_error(config) is None {
            let (set, clear) = (call_ensures(read, (), true), call_ensures(read, (), false));
            let cs = choose|cs: Seq<(usize, usize)>|
                decided(assign, config.voters as int, cs) && #[trigger] reported(
                    config,
                    cs,
                    set,
                    clear,
                    size,
                    &r,
                );
            if config.real_crypto {
                lemma_real_run(config, cs, set, clear, true, true, size, &r, &r);
            }
            assert(reported(config, cs, true, true, size, &r));
        }
    }
    r
}

/// What a run gave does not depend on the memory use and the whole time, and it
/// stays right where more may have been read.
proof fn lemma_real_run<S: Fn(&PublicElectionArtifact) -> usize>(
    config: &BenchmarkConfig,
    cs: Seq<(usize, usize)>,
    set: bool,
    clear: bool,
    set2: bool,
    clear2: bool,
    size: &S,
    a: &BenchmarkResult,
    b: &BenchmarkResult,
)
    requires
        real_run(config, cs, set, clear, size, a),
        set ==> set2,
        clear ==> clear2,
        *b == (BenchmarkResult {
            max_rss_bytes: b.max_rss_bytes,
            total_ms: b.total_ms,
            ..*a
        }),
    ensures
        real_run(config, cs, set2, clear2, size, b),
{
    if exists|vs: Seq<BenchVoterView>| #[trigger] ran(config, cs, vs, set, size, a) {
        let vs = choose|vs: Seq<BenchVoterView>| #[trigger] ran(config, cs, vs, set, size, a);
        if complete(config, cs, vs, size, a) {
            let (posts, found, artifact) = choose|
                posts: Seq<TallyView>,
                found: Seq<VerificationView>,
                artifact: PublicElectionArtifact,
            | #[trigger] published(config, vs, size, a, posts, found, artifact);
            assert(published(config, vs, size, b, posts, found, artifact));
            assert(complete(config, cs, vs, size, b));
        } else {
            let e = choose|e: ErrorView|
                stopped_at(config, set, vs, a.per_aggregator@.len() as int, e) && failed_with(
                    a,
                    #[trigger] error_text(e),
                );
            assert(failed_with(b, error_text(e)));
            assert(incomplete(config, set2, vs, b));
        }
        assert(ran(config, cs, vs, set2, size, b));
    }
}

proof fn lemma_assigned_bound(cs: Seq<(usize, usize)>, a: int, count: int)
    requires
        0 <= count,
    ensures
        0 <= assigned_to(cs, a, count) <= count,
    decreases count,
{
    if count > 0 {
        lemma_assigned_bound(cs, a, count - 1);
    }
}

/// Goes on when the voters are made, unless the flag was found set then.
/// `cancel` reads it again before each aggregator.
pub fn after_voters<
    P: Fn(ProgressEvent),
    C: Fn() -> bool,
    S: Fn(&PublicElectionArtifact) -> usize,
>(
    cancelled: bool,
    config: &BenchmarkConfig,
    election: &ElectionParams,
    labels: &ElectionLabels,
    voters: &Vec<BenchVoter>,
    begin: BenchmarkResult,
    progress: &P,
    cancel: &C,
    size: &S,
    Ghost(cs): Ghost<Seq<(usize, usize)>>,
) -> (r: BenchmarkResult)
    requires
        ready(config, election, labels@, cs, bench_views(voters@)),
        labels@ == election_labels(bench_eid(config), bench_candidates(config)),
        begun(config, cs, &begin),
        abandoned(&begin),
        begin.error is None,
        forall|e: ProgressEvent| call_requires(*progress, (e,)),
        call_requires(*cancel, ()),
        forall|a: &PublicElectionArtifact| call_requires(*size, (a,)),
    ensures
        begun(config, cs, &r),
        cancelled ==> abandoned(&r) && failed_with(&r, "cancelled"@),
        !cancelled ==> ran(
            config,
            cs,
            bench_views(voters@),
            call_ensures(*cancel, (), true),
            size,
            &r,
        ),
{
    if cancelled {
        let mut result = begin;
        result.error = Some(String::from_str("cancelled"));
        return result;
    }
    run_voters(config, election, labels, voters, begin, progress, cancel, size, Ghost(cs))
}

/// Runs the whole pipeline for the voters' choices.
fn run_pipeline<
    P: Fn(ProgressEvent),
    C: Fn() -> bool,
    S: Fn(&PublicElectionArtifact) -> usize,
>(
    config: &BenchmarkConfig,
    begin: BenchmarkResult,
    choices: &Vec<(usize, usize)>,
    progress: &P,
    cancel: &C,
    size: &S,
) -> (r: BenchmarkResult)
    requires
        benchable(config),
        choices@.len() == config.voters,
        choices_ok(
            choices@,
            config.aggregators as int,
            bench_ids(config).len() as int,
        ),
        begun(config, choices@, &begin),
        abandoned(&begin),
        begin.error is None,
        forall|e: ProgressEvent| call_requires(*progress, (e,)),
        call_requires(*cancel, ()),
        forall|a: &PublicElectionArtifact| call_requires(*size, (a,)),
    ensures
        begun(config, choices@, &r),
        real_run(
            config,
            choices@,
            call_ensures(*cancel, (), true),
            call_ensures(*cancel, (), false),
            size,
            &r,
        ),
{
    let mut result = begin;
    let election = make_election(config);
    let pairs = election.candidate_pairs();
    let labels = match try_derive_election_labels(election.election_id.as_str(), &pairs) {
        Some(labels) => labels,
        None => {
            result.error = Some(String::from_str("labels cannot be derived"));
            return result;
        },
    };
    if !check_hashable(config, &election) {
        result.error = Some(String::from_str("delegation message cannot be hashed"));
        return result;
    }
    let mut message = String::from_str("generating ");
    push_decimal(&mut message, config.voters as u128);
    message.append(" voters with real keys");
    progress(event("voters", message, None, Some((0, 1))));
    let start = moment();
    let voters = generate_voters(config, &election, choices);
    result.voter_generation_ms = shorten(elapsed_millis(&start));
    proof {
        lemma_candidate_labels_len(bench_eid(config), bench_candidates(config));
        assert(bench_ids(config).len() == bench_candidates(config).len());
        assert(ready(config, &election, labels@, choices@, bench_views(voters@)));
    }
    let cancelled = cancel();
    let r = after_voters(
        cancelled,
        config,
        &election,
        &labels,
        &voters,
        result,
        progress,
        cancel,
        size,
        Ghost(choices@),
    );
    proof {
        if !cancelled {
            assert(ran(
                config,
                choices@,
                bench_views(voters@),
                call_ensures(*cancel, (), true),
                size,
                &r,
            ));
        }
    }
    r
}

} // verus!
