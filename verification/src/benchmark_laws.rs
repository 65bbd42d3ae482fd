//! What the numbers of a benchmark mean in terms of what its voters chose.

use vstd::prelude::*;

use crate::artifacts::PublicElectionArtifact;
use crate::benchmark::{
    assigned_to, bench_ids, voted_for, AggregatorBenchResult, BenchmarkConfig,
    BenchmarkResult,
};
use crate::benchmark_engine::{
    ran, registration_time, reported, setup_error, size_sum, time_total, totalled,
};
use crate::benchmark_math::{choices_ok, BenchVoterView};
use crate::count_laws::how_many;
use crate::sums::{lemma_sum_add, lemma_sum_ext, lemma_sum_single, lemma_sum_zero, sum};
use crate::tally::lemma_position_range;

verus! {

/// The voter chose the aggregator.
pub open spec fn sent_to(cs: Seq<(usize, usize)>, i: int, a: int) -> bool {
    cs[i].0 == a
}

/// The voter chose the candidate.
pub open spec fn picked(cs: Seq<(usize, usize)>, i: int, j: int) -> bool {
    cs[i].1 == j
}

proof fn lemma_assigned(cs: Seq<(usize, usize)>, a: int, n: int)
    requires
        0 <= n,
    ensures
        assigned_to(cs, a, n) == how_many(|i: int| sent_to(cs, i, a), n),
        0 <= assigned_to(cs, a, n) <= n,
    decreases n,
{
    if n > 0 {
        lemma_assigned(cs, a, n - 1);
    }
}

proof fn lemma_voted(cs: Seq<(usize, usize)>, j: int, n: int)
    requires
        0 <= n,
    ensures
        voted_for(cs, j, n) == how_many(|i: int| picked(cs, i, j), n),
        0 <= voted_for(cs, j, n) <= n,
    decreases n,
{
    if n > 0 {
        lemma_voted(cs, j, n - 1);
    }
}

proof fn lemma_assigned_total(cs: Seq<(usize, usize)>, m: int, n: int)
    requires
        0 <= n <= cs.len(),
        forall|i: int| 0 <= i < n ==> (#[trigger] cs[i]).0 < m,
    ensures
        sum(|a: int| assigned_to(cs, a, n), m) == n,
    decreases n,
{
    let f = |a: int| assigned_to(cs, a, n);
    if n == 0 {
        lemma_sum_zero(f, m);
    } else {
        assert(cs[n - 1].0 < m);
        let g = |a: int| assigned_to(cs, a, n - 1);
        let h = |a: int|
            if a == cs[n - 1].0 {
                1int
            } else {
                0int
            };
        lemma_assigned_total(cs, m, n - 1);
        lemma_sum_single(h, m, cs[n - 1].0 as int);
        lemma_sum_add(g, h, m);
        lemma_sum_ext(f, |a: int| g(a) + h(a), m);
    }
}

/// A benchmark lists for each aggregator how many voters chose it, and these
/// numbers add up to the number of voters.
pub proof fn law_voters_shared_out<S: Fn(&PublicElectionArtifact) -> usize>(
    config: &BenchmarkConfig,
    cs: Seq<(usize, usize)>,
    set: bool,
    clear: bool,
    size: &S,
    r: &BenchmarkResult,
)
    requires
        reported(config, cs, set, clear, size, r),
        choices_ok(cs, config.aggregators as int, bench_ids(config).len() as int),
    ensures
        r.voters_per_aggregator@.len() == config.aggregators,
        forall|a: int|
            0 <= a < config.aggregators ==> #[trigger] r.voters_per_aggregator@[a] == how_many(
                |i: int| sent_to(cs, i, a),
                cs.len() as int,
            ),
        sum(|a: int| r.voters_per_aggregator@[a] as int, config.aggregators as int) == cs.len(),
{
    let n = cs.len() as int;
    assert forall|a: int|
        0 <= a < config.aggregators implies #[trigger] r.voters_per_aggregator@[a] == how_many(
        |i: int| sent_to(cs, i, a),
        n,
    ) by {
        lemma_assigned(cs, a, n);
    }
    assert forall|i: int| 0 <= i < n implies (#[trigger] cs[i]).0 < config.aggregators by {
    }
    lemma_assigned_total(cs, config.aggregators as int, n);
    lemma_sum_ext(
        |a: int| r.voters_per_aggregator@[a] as int,
        |a: int| assigned_to(cs, a, n),
        config.aggregators as int,
    );
}

/// A benchmark expects for each candidate as many votes as voters chose that
/// candidate, where the candidates have distinct ids, and lists no other id.
pub proof fn law_expected_votes<S: Fn(&PublicElectionArtifact) -> usize>(
    config: &BenchmarkConfig,
    cs: Seq<(usize, usize)>,
    set: bool,
    clear: bool,
    size: &S,
    r: &BenchmarkResult,
)
    requires
        reported(config, cs, set, clear, size, r),
        bench_ids(config).no_duplicates(),
        cs.len() <= usize::MAX,
    ensures
        r.expected_tally@.dom() == bench_ids(config).to_set(),
        forall|j: int|
            0 <= j < bench_ids(config).len() ==> r.expected_tally@[#[trigger] bench_ids(config)[j]]
                == how_many(|i: int| picked(cs, i, j), cs.len() as int),
{
    let ids = bench_ids(config);
    let n = cs.len() as int;
    assert(r.expected_tally@.dom() =~= ids.to_set());
    assert forall|j: int| 0 <= j < ids.len() implies r.expected_tally@[#[trigger] ids[j]]
        == how_many(|i: int| picked(cs, i, j), n) by {
        assert(ids.contains(ids[j]));
        lemma_position_range(ids, ids[j], ids.len() as int);
        lemma_voted(cs, j, n);
    }
}

/// What a benchmark that succeeds has counted is what its voters chose. A
/// simulation succeeds always.
pub proof fn law_success_counts_votes<S: Fn(&PublicElectionArtifact) -> usize>(
    config: &BenchmarkConfig,
    cs: Seq<(usize, usize)>,
    set: bool,
    clear: bool,
    size: &S,
    r: &BenchmarkResult,
)
    requires
        reported(config, cs, set, clear, size, r),
        bench_ids(config).no_duplicates(),
        cs.len() <= usize::MAX,
    ensures
        !config.real_crypto ==> r.success,
        r.success ==> r.error is None && r.tally_matches_expected,
        r.success ==> r.per_aggregator@.len() == config.aggregators,
        r.success ==> r.candidate_tally@.dom() == bench_ids(config).to_set(),
        r.success ==> forall|j: int|
            0 <= j < bench_ids(config).len() ==> r.candidate_tally@[#[trigger] bench_ids(config)[j]]
                == how_many(|i: int| picked(cs, i, j), cs.len() as int),
        !r.success ==> r.error is Some && !r.tally_matches_expected,
{
    law_expected_votes(config, cs, set, clear, size, r);
}

proof fn lemma_time_total(
    lines: Seq<AggregatorBenchResult>,
    f: spec_fn(AggregatorBenchResult) -> u64,
    n: int,
)
    requires
        0 <= n <= lines.len(),
        sum(|a: int| f(lines[a]) as int, n) <= u64::MAX,
    ensures
        time_total(lines, f, n) == sum(|a: int| f(lines[a]) as int, n),
        0 <= sum(|a: int| f(lines[a]) as int, n),
    decreases n,
{
    if n > 0 {
        lemma_times_nonnegative(lines, f, n - 1);
        lemma_time_total(lines, f, n - 1);
    }
}

proof fn lemma_times_nonnegative(
    lines: Seq<AggregatorBenchResult>,
    f: spec_fn(AggregatorBenchResult) -> u64,
    n: int,
)
    ensures
        0 <= sum(|a: int| f(lines[a]) as int, n),
    decreases n,
{
    if n > 0 {
        lemma_times_nonnegative(lines, f, n - 1);
    }
}

/// The time that the registration of an aggregator took, in its parts.
pub open spec fn registration_parts(a: AggregatorBenchResult) -> int {
    a.registration_ms + a.finalization_ms + a.registration_validation_ms
}

proof fn lemma_registration_total(lines: Seq<AggregatorBenchResult>, n: int)
    requires
        0 <= n <= lines.len(),
        sum(|a: int| registration_parts(lines[a]), n) <= u64::MAX,
    ensures
        time_total(lines, |a: AggregatorBenchResult| registration_time(a), n) == sum(
            |a: int| registration_parts(lines[a]),
            n,
        ),
        0 <= sum(|a: int| registration_parts(lines[a]), n),
    decreases n,
{
    if n > 0 {
        lemma_parts_nonnegative(lines, n - 1);
        lemma_registration_total(lines, n - 1);
    }
}

proof fn lemma_parts_nonnegative(lines: Seq<AggregatorBenchResult>, n: int)
    ensures
        0 <= sum(|a: int| registration_parts(lines[a]), n),
    decreases n,
{
    if n > 0 {
        lemma_parts_nonnegative(lines, n - 1);
    }
}

proof fn lemma_size_sum(lines: Seq<AggregatorBenchResult>, n: int)
    requires
        0 <= n <= lines.len(),
        sum(|a: int| lines[a].proof_size_bytes as int, n) <= usize::MAX,
    ensures
        size_sum(lines, n) == sum(|a: int| lines[a].proof_size_bytes as int, n),
        0 <= sum(|a: int| lines[a].proof_size_bytes as int, n),
    decreases n,
{
    if n > 0 {
        lemma_sizes_nonnegative(lines, n - 1);
        lemma_size_sum(lines, n - 1);
    }
}

proof fn lemma_sizes_nonnegative(lines: Seq<AggregatorBenchResult>, n: int)
    ensures
        0 <= sum(|a: int| lines[a].proof_size_bytes as int, n),
    decreases n,
{
    if n > 0 {
        lemma_sizes_nonnegative(lines, n - 1);
    }
}

/// The times and sizes that a benchmark with real cryptography reports are
/// the sums over its aggregators, where they fit.
pub proof fn law_totals_are_sums<S: Fn(&PublicElectionArtifact) -> usize>(
    config: &BenchmarkConfig,
    cs: Seq<(usize, usize)>,
    set: bool,
    clear: bool,
    size: &S,
    r: &BenchmarkResult,
)
    requires
        reported(config, cs, set, clear, size, r),
        config.real_crypto,
    ensures
        ({
            let lines = r.per_aggregator@;
            let n = lines.len() as int;
            let registration = sum(|a: int| registration_parts(lines[a]), n);
            let tally = sum(|a: int| lines[a].tally_and_proving_ms as int, n);
            let proving = sum(|a: int| lines[a].epa_proving_ms as int, n);
            let verification = sum(|a: int| lines[a].epa_verification_ms as int, n);
            let bytes = sum(|a: int| lines[a].proof_size_bytes as int, n);
            &&& registration <= u64::MAX ==> r.registration_time_ms == registration
            &&& tally <= u64::MAX ==> r.tally_construction_and_proving_ms == tally
            &&& proving <= u64::MAX ==> r.epa_proving_time_ms == proving
            &&& verification <= u64::MAX ==> r.epa_verification_time_ms == verification
            &&& bytes <= usize::MAX ==> r.proof_size_bytes_total == bytes
        }),
{
    let lines = r.per_aggregator@;
    let n = lines.len() as int;
    if n > 0 {
        assert(setup_error(config) is None);
        let vs = choose|vs: Seq<BenchVoterView>| #[trigger] ran(config, cs, vs, set, size, r);
        assert(totalled(r));
        lemma_totals(r);
    }
}

proof fn lemma_totals(r: &BenchmarkResult)
    requires
        totalled(r),
    ensures
        ({
            let lines = r.per_aggregator@;
            let n = lines.len() as int;
            let registration = sum(|a: int| registration_parts(lines[a]), n);
            let tally = sum(|a: int| lines[a].tally_and_proving_ms as int, n);
            let proving = sum(|a: int| lines[a].epa_proving_ms as int, n);
            let verification = sum(|a: int| lines[a].epa_verification_ms as int, n);
            let bytes = sum(|a: int| lines[a].proof_size_bytes as int, n);
            &&& registration <= u64::MAX ==> r.registration_time_ms == registration
            &&& tally <= u64::MAX ==> r.tally_construction_and_proving_ms == tally
            &&& proving <= u64::MAX ==> r.epa_proving_time_ms == proving
            &&& verification <= u64::MAX ==> r.epa_verification_time_ms == verification
            &&& bytes <= usize::MAX ==> r.proof_size_bytes_total == bytes
        }),
{
    let lines = r.per_aggregator@;
    let n = lines.len() as int;
    let f = |a: AggregatorBenchResult| a.tally_and_proving_ms;
    let g = |a: AggregatorBenchResult| a.epa_proving_ms;
    let h = |a: AggregatorBenchResult| a.epa_verification_ms;
    lemma_sum_ext(|a: int| f(lines[a]) as int, |a: int| lines[a].tally_and_proving_ms as int, n);
    lemma_sum_ext(|a: int| g(lines[a]) as int, |a: int| lines[a].epa_proving_ms as int, n);
    lemma_sum_ext(|a: int| h(lines[a]) as int, |a: int| lines[a].epa_verification_ms as int, n);
    if sum(|a: int| lines[a].tally_and_proving_ms as int, n) <= u64::MAX {
        lemma_time_total(lines, f, n);
    }
    if sum(|a: int| lines[a].epa_proving_ms as int, n) <= u64::MAX {
        lemma_time_total(lines, g, n);
    }
    if sum(|a: int| lines[a].epa_verification_ms as int, n) <= u64::MAX {
        lemma_time_total(lines, h, n);
    }
    if sum(|a: int| registration_parts(lines[a]), n) <= u64::MAX {
        lemma_registration_total(lines, n);
    }
    if sum(|a: int| lines[a].proof_size_bytes as int, n) <= usize::MAX {
        lemma_size_sum(lines, n);
    }
}

} // verus!
