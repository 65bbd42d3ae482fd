//! Benchmarks and their jobs.

use std::cell::Cell;
use std::sync::atomic::AtomicBool;

use aggios_core::artifacts::PublicElectionArtifact;
use aggios_core::benchmark::{
    aggregator_id, aggregator_seed, assign_voter, blank_result, candidates_for, choice_seed,
    count_choices, key_seed, panic_result, result_to_csv, splitmix64, tally_by_id,
    AggregatorBenchResult, AssignmentStrategy, BenchmarkConfig, BenchmarkResult, ProgressEvent,
    VoteDistributionKind,
};
use aggios_core::benchmark_engine::{run_benchmark, run_benchmark_until};
use aggios_core::benchmark_run::make_election;
use aggios_core::election::{Candidate, ElectionTemplate};
use aggios_core::jobs::{
    check_voters, ended, finished, handle_benchmarks, job_id, status_str, BenchmarkAnswer,
    EventLog, JobStatus, Jobs,
};
use aggios_core::routes::route;

fn config(voters: usize, real_crypto: bool) -> BenchmarkConfig {
    BenchmarkConfig {
        voters,
        aggregators: 2,
        assignment: AssignmentStrategy::RoundRobin,
        vote_distribution: VoteDistributionKind::Fixed,
        real_crypto,
        ..BenchmarkConfig::default()
    }
}

fn run(config: &BenchmarkConfig, cancelled: bool) -> BenchmarkResult {
    let assign = |i: usize| assign_voter(config, i, 0, i % 3);
    run_benchmark(
        config,
        &assign,
        &|_e| {},
        &AtomicBool::new(cancelled),
        &|_a: &PublicElectionArtifact| 77,
        &|| Some(5),
    )
}

#[test]
fn seeds_are_mixed() {
    assert_eq!(splitmix64(0), 0xE220A8397B1DCDAF);
    assert_eq!(choice_seed(42, 3), splitmix64(42 ^ 3));
    assert_ne!(choice_seed(42, 3), key_seed(42, 3));
    assert_ne!(aggregator_seed(42, 0), aggregator_seed(42, 1));
}

#[test]
fn voters_go_round_the_aggregators() {
    let c = config(5, false);
    assert_eq!(assign_voter(&c, 3, 0, 2), (1, 2));
    let other = BenchmarkConfig { assignment: AssignmentStrategy::Uniform, ..c };
    assert_eq!(assign_voter(&other, 3, 0, 2), (0, 2));
    assert_eq!(aggregator_id(0), "A1");
    let counted = count_choices(5, 2, 3, &|i: usize| (i % 2, i % 3), true);
    assert_eq!(counted.per_aggregator, vec![3, 2]);
    assert_eq!(counted.per_candidate, vec![2, 2, 1]);
    assert_eq!(counted.kept, vec![(0, 0), (1, 1), (0, 2), (1, 0), (0, 1)]);
}

#[test]
fn custom_benchmarks_have_their_own_candidates() {
    let c = BenchmarkConfig {
        template: ElectionTemplate::Custom,
        custom_candidates: vec![Candidate { id: "x".into(), name: "X".into() }],
        ..config(5, false)
    };
    let candidates = candidates_for(&c);
    assert_eq!(candidates, c.custom_candidates);
    let tally = tally_by_id(&candidates, &vec![4]);
    assert_eq!(*tally.get("x").unwrap(), 4);
    let e = make_election(&c);
    assert_eq!(e.election_id, "bench-5-42");
    assert_eq!(e.aggregators, vec!["A1", "A2"]);
    assert_eq!(e.max_voters, 5);
}

#[test]
fn simulated_benchmarks_only_count() {
    let r = run(&config(7, false), false);
    assert!(r.success);
    assert!(r.error.is_none());
    assert_eq!(r.mode, "simulation (NON-CRYPTOGRAPHIC)");
    assert_eq!(r.voters_per_aggregator, vec![4, 3]);
    assert_eq!(*r.candidate_tally.get("alice").unwrap(), 3);
    assert_eq!(*r.expected_tally.get("bob").unwrap(), 2);
    assert!(r.tally_matches_expected);
    assert_eq!(r.max_rss_bytes, Some(5));
    assert!(r.per_aggregator.iter().all(|a| !a.verified));
}

#[test]
fn real_benchmarks_verify_what_they_prove() {
    let r = run(&config(6, true), false);
    assert!(r.success, "{:?}", r.error);
    assert_eq!(r.mode, "real-crypto");
    assert_eq!(r.public_artifact_size_bytes, 77);
    assert_eq!(r.per_aggregator.len(), 2);
    assert!(r.per_aggregator.iter().all(|a| a.verified));
    assert!(r.proof_size_bytes_total > 0);
    for id in ["alice", "bob", "charlie"] {
        assert_eq!(*r.candidate_tally.get(id).unwrap(), 2);
    }
}

#[test]
fn benchmarks_end_where_they_are_cancelled() {
    let c = config(6, true);
    let assign = |i: usize| assign_voter(&c, i, 0, i % 3);
    let run = |cancel_at: usize| {
        let asked = Cell::new(0usize);
        run_benchmark_until(
            &c,
            &assign,
            &|_e| {},
            &|| {
                asked.set(asked.get() + 1);
                asked.get() == cancel_at
            },
            &|_a: &PublicElectionArtifact| 77,
            &|| None,
        )
    };
    // Nobody cancels.
    let r = run(0);
    assert!(r.success && r.error.is_none() && r.tally_matches_expected);
    // The flag is set when it is asked first, or later.
    for at in [1, 2] {
        let r = run(at);
        assert!(!r.success);
        assert!(r.error.as_deref().unwrap().contains("cancelled"));
        assert!(r.per_aggregator.is_empty());
    }
}

#[test]
fn benchmarks_fail_with_a_message() {
    let r = run(&config(6, true), true);
    assert!(!r.success);
    assert_eq!(r.error.as_deref(), Some("cancelled"));

    let r = run(&config(0, true), false);
    assert_eq!(
        r.error.as_deref(),
        Some("need at least one aggregator and one voter")
    );
    let none = BenchmarkConfig { template: ElectionTemplate::Custom, ..config(3, true) };
    let r = run(&none, false);
    assert_eq!(r.error.as_deref(), Some("no candidates configured"));
    let r = panic_result(&config(3, true), "boom", Some(1));
    assert!(!r.success);
    assert_eq!(r.error.as_deref(), Some("panic during benchmark: boom"));
    assert_eq!(r.max_rss_bytes, Some(1));
}

#[test]
fn results_are_exported_as_rows() {
    let mut r = blank_result(&config(3, true));
    r.per_aggregator.push(AggregatorBenchResult {
        aggregator_id: "A1".into(),
        voters: 3,
        domain_size: 8,
        pad_count: 5,
        registration_ms: 1,
        finalization_ms: 2,
        registration_validation_ms: 3,
        tally_and_proving_ms: 4,
        epa_proving_ms: 5,
        epa_verification_ms: 6,
        proof_size_bytes: 700,
        verified: true,
    });
    r.registration_time_ms = 11;
    r.proof_size_bytes_total = 700;
    assert_eq!(
        result_to_csv(&r),
        "aggregator,voters,domain_size,pad_count,registration_ms,finalization_ms,\
         registration_validation_ms,tally_and_proving_ms,epa_proving_ms,epa_verification_ms,\
         proof_size_bytes,verified\n\
         A1,3,8,5,1,2,3,4,5,6,700,true\n\
         TOTAL,3,,,11,,,0,0,0,700,false\n"
    );
}

fn event(stage: &str) -> ProgressEvent {
    ProgressEvent {
        stage: stage.into(),
        message: String::new(),
        aggregator: None,
        fraction: None,
    }
}

#[test]
fn events_are_numbered() {
    let mut log = EventLog::new();
    log.push_event(event("a"), 1);
    log.push_event(event("b"), 2);
    let later = log.since(1);
    assert_eq!(later.len(), 1);
    assert_eq!(later[0].seq, 1);
    assert_eq!(later[0].event.stage, "b");
    assert!(log.since(9).is_empty());
}

#[test]
fn jobs_are_found_and_listed() {
    assert_eq!(job_id(3_000_012, 17), "bench-12-0011");
    assert_eq!(ended(true, true), JobStatus::Completed);
    assert_eq!(ended(false, true), JobStatus::Cancelled);
    assert_eq!(status_str(ended(false, false)), "failed");
    assert!(check_voters(10_000_000).is_ok());
    assert_eq!(check_voters(10_000_001).err().unwrap().message, "at most 10^7 voters");

    let c = config(3, false);
    let mut jobs: Jobs<u8> = Jobs::new();
    assert_eq!(jobs.next_id(7), "bench-7-0000");
    jobs.record(7, 1, 70, EventLog::new(), run(&c, false));
    jobs.record(8, 2, 80, EventLog::new(), blank_result(&c));
    let newest = jobs.newest_first();
    assert_eq!(newest.len(), 2);
    assert_eq!(newest[0].config, 2);
    assert_eq!(newest[0].status, JobStatus::Failed);
    assert_eq!(newest[1].status, JobStatus::Completed);
    assert_eq!(jobs.find_job("x").err().unwrap().status, 404);
    let job = jobs.find_job("bench-7-0000").unwrap();
    assert!(finished(job).unwrap().success);

    let call = route("GET", "/api/aggios/benchmarks/bench-7-0000/results.csv");
    match handle_benchmarks(&jobs, &call).unwrap() {
        BenchmarkAnswer::Csv(text) => assert!(text.ends_with(",true\n")),
        _ => panic!("not a table"),
    }
    let call = route("GET", "/api/aggios/benchmarks");
    match handle_benchmarks(&jobs, &call).unwrap() {
        BenchmarkAnswer::List(l) => assert_eq!(l.len(), 2),
        _ => panic!("not a list"),
    }
    let call = route("DELETE", "/api/aggios/benchmarks");
    match handle_benchmarks(&jobs, &call) {
        Err(e) => assert_eq!((e.status, e.message.as_str()), (404, "no such route")),
        Ok(_) => panic!("answered"),
    }
}
