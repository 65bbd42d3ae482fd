//! Benchmark jobs: their states, their events, and requests on them.

use vstd::prelude::*;

use crate::benchmark::{csv_rows, csv_total, result_to_csv, BenchmarkResult, ProgressEvent};
use crate::calls::on_benchmarks;
use crate::demo_state::{id_text, law_ids_distinct, refuses, DemoError, DemoResult};
use crate::routes::{Call, CallView};
use crate::text::{cat2, push_decimal, push_hexadecimal};

verus! {

/// How far a job is.
#[derive(Clone, Copy, Debug, PartialEq, Eq, Structural)]
pub enum JobStatus {
    Running,
    Completed,
    Failed,
    Cancelled,
}

/// The state of a job that has ended.
pub open spec fn end_status(success: bool, cancelled: bool) -> JobStatus {
    if success {
        JobStatus::Completed
    } else if cancelled {
        JobStatus::Cancelled
    } else {
        JobStatus::Failed
    }
}

/// The state of a job that has ended.
pub fn ended(success: bool, cancelled: bool) -> (s: JobStatus)
    ensures
        s == end_status(success, cancelled),
        s is Completed <==> success,
        s is Cancelled <==> !success && cancelled,
        s is Failed <==> !success && !cancelled,
{
    if success {
        JobStatus::Completed
    } else if cancelled {
        JobStatus::Cancelled
    } else {
        JobStatus::Failed
    }
}

/// The name of a state.
pub open spec fn status_text(s: JobStatus) -> Seq<char> {
    match s {
        JobStatus::Running => "running"@,
        JobStatus::Completed => "completed"@,
        JobStatus::Failed => "failed"@,
        JobStatus::Cancelled => "cancelled"@,
    }
}

/// The name of a state.
pub fn status_str(s: JobStatus) -> (r: &'static str)
    ensures
        r@ == status_text(s),
{
    match s {
        JobStatus::Running => "running",
        JobStatus::Completed => "completed",
        JobStatus::Failed => "failed",
        JobStatus::Cancelled => "cancelled",
    }
}

/// Why a benchmark is not started.
pub open spec fn size_refusal(voters: int) -> Option<(u16, Seq<char>)> {
    if voters > 10_000_000 {
        Some((400u16, "at most 10^7 voters"@))
    } else {
        None
    }
}

/// Checks that a benchmark is not too large to be started.
pub fn check_voters(voters: usize) -> (r: DemoResult<()>)
    ensures
        refuses(r, size_refusal(voters as int)),
        r is Ok <==> voters <= 10_000_000,
{
    if voters > 10_000_000 {
        Err(DemoError::bad("at most 10^7 voters"))
    } else {
        Ok(())
    }
}

/// The id of the job with a number.
pub fn job_id(now_ms: u64, n: u64) -> (id: String)
    ensures
        id@ == id_text("bench"@, now_ms as int, n as int),
{
    let mut id = cat2("bench", "-");
    push_decimal(&mut id, (now_ms % 1_000_000) as u128);
    id.append("-");
    push_hexadecimal(&mut id, n, 4);
    id
}

// ---- events ----------------------------------------------------------------------

/// An event with its number and the time.
#[derive(Debug)]
pub struct TimedEvent {
    pub seq: u64,
    pub timestamp_unix_ms: u64,
    pub event: ProgressEvent,
}

/// The events of a job.
#[derive(Debug)]
pub struct EventLog {
    pub events: Vec<TimedEvent>,
}

impl EventLog {
    /// The events are numbered from zero.
    pub open spec fn wf(&self) -> bool {
        forall|i: int| 0 <= i < self.events@.len() ==> (#[trigger] self.events@[i]).seq == i
    }

    pub fn new() -> (log: EventLog)
        ensures
            log.wf(),
            log.events@.len() == 0,
    {
        EventLog { events: Vec::new() }
    }

    /// Adds an event.
    pub fn push_event(&mut self, event: ProgressEvent, now_ms: u64)
        requires
            old(self).wf(),
        ensures
            final(self).wf(),
            final(self).events@.len() == old(self).events@.len() + 1,
            final(self).events@.drop_last() == old(self).events@,
            final(self).events@.last().timestamp_unix_ms == now_ms,
            final(self).events@.last().event == event,
    {
        let ghost before = self.events@;
        let seq = self.events.len() as u64;
        self.events.push(TimedEvent { seq, timestamp_unix_ms: now_ms, event });
        proof {
            assert(self.events@.drop_last() =~= before);
            assert forall|i: int| 0 <= i < self.events@.len() implies (#[trigger] self.events@[i]).seq
                == i by {
                if i < before.len() {
                    assert(self.events@[i] == before[i]);
                }
            }
        }
    }

    /// The number of events that come before one with a number.
    pub open spec fn before(&self, since: u64) -> int {
        if since <= self.events@.len() {
            since as int
        } else {
            self.events@.len() as int
        }
    }

    /// The events from a number on.
    pub fn since(&self, since: u64) -> (r: Vec<&TimedEvent>)
        requires
            self.wf(),
        ensures
            r@.len() == self.events@.len() - self.before(since),
            forall|i: int|
                0 <= i < r@.len() ==> *(#[trigger] r@[i]) == self.events@[self.before(since) + i],
            forall|i: int| 0 <= i < r@.len() ==> (#[trigger] r@[i]).seq >= since,
            forall|k: int|
                0 <= k < self.events@.len() && (#[trigger] self.events@[k]).seq >= since
                    ==> exists|i: int| 0 <= i < r@.len() && *(#[trigger] r@[i]) == self.events@[k],
    {
        let ghost start = self.before(since);
        let mut r: Vec<&TimedEvent> = Vec::new();
        let mut i: usize = 0;
        while i < self.events.len()
            invariant
                i <= self.events@.len(),
                self.wf(),
                start == self.before(since),
                r@.len() == if i <= start {
                    0
                } else {
                    i - start
                },
                forall|k: int|
                    0 <= k < r@.len() ==> *(#[trigger] r@[k]) == self.events@[start + k],
            decreases self.events.len() - i,
        {
            assert(self.events@[i as int].seq == i);
            if self.events[i].seq >= since {
                r.push(&self.events[i]);
            }
            i += 1;
        }
        proof {
            assert forall|k: int|
                0 <= k < self.events@.len() && (#[trigger] self.events@[k]).seq
                    >= since implies exists|i: int|
                0 <= i < r@.len() && *(#[trigger] r@[i]) == self.events@[k] by {
                assert(*r@[k - start] == self.events@[k]);
            }
        }
        r
    }
}

// ---- jobs ------------------------------------------------------------------------

/// A job, with what it was configured with.
#[derive(Debug)]
pub struct BenchJob<C> {
    pub id: String,
    pub config: C,
    pub created_unix_ms: u64,
    pub status: JobStatus,
    pub log: EventLog,
    pub result: Option<BenchmarkResult>,
}

/// All jobs, the oldest first.
#[derive(Debug)]
pub struct Jobs<C> {
    pub jobs: Vec<BenchJob<C>>,
}

/// The position of the first job with an id, from `i` on.
pub open spec fn first_job<C>(jobs: Seq<BenchJob<C>>, id: Seq<char>, i: int) -> Option<int>
    decreases jobs.len() - i,
{
    if i >= jobs.len() {
        None
    } else if jobs[i].id@ == id {
        Some(i)
    } else {
        first_job(jobs, id, i + 1)
    }
}

proof fn lemma_first_job<C>(jobs: Seq<BenchJob<C>>, id: Seq<char>, i: int)
    requires
        0 <= i,
    ensures
        match first_job(jobs, id, i) {
            Some(k) => i <= k < jobs.len() && jobs[k].id@ == id,
            None => forall|k: int| i <= k < jobs.len() ==> (#[trigger] jobs[k]).id@ != id,
        },
    decreases jobs.len() - i,
{
    if i < jobs.len() && jobs[i].id@ != id {
        lemma_first_job(jobs, id, i + 1);
    }
}

/// The id is that of the job with a number.
pub open spec fn numbered_job(id: Seq<char>, n: int) -> bool {
    exists|t: int| id == #[trigger] id_text("bench"@, t, n)
}

impl<C> Jobs<C> {
    /// The jobs are numbered, so that no two have the same id.
    pub open spec fn wf(&self) -> bool {
        forall|i: int| 0 <= i < self.jobs@.len() ==> numbered_job((#[trigger] self.jobs@[i]).id@, i)
    }

    pub fn new() -> (j: Jobs<C>)
        ensures
            j.wf(),
            j.jobs@.len() == 0,
    {
        Jobs { jobs: Vec::new() }
    }

    /// The id that the next job has, where it is started now.
    pub fn next_id(&self, now_ms: u64) -> (id: String)
        ensures
            id@ == id_text("bench"@, now_ms as int, self.jobs@.len() as int),
    {
        job_id(now_ms, self.jobs.len() as u64)
    }

    /// Records a job that has ended.
    pub fn record(
        &mut self,
        started_ms: u64,
        config: C,
        created_unix_ms: u64,
        log: EventLog,
        result: BenchmarkResult,
    )
        requires
            old(self).wf(),
        ensures
            final(self).wf(),
            final(self).jobs@ == old(self).jobs@.push(final(self).jobs@.last()),
            ({
                let job = final(self).jobs@.last();
                &&& job.id@ == id_text("bench"@, started_ms as int, old(self).jobs@.len() as int)
                &&& job.config == config
                &&& job.created_unix_ms == created_unix_ms
                &&& job.status == end_status(result.success, false)
                &&& job.log == log
                &&& job.result == Some(result)
            }),
    {
        let ghost before = self.jobs@;
        let id = self.next_id(started_ms);
        let status = ended(result.success, false);
        proof {
            assert(numbered_job(id@, before.len() as int));
        }
        self.jobs.push(
            BenchJob { id, config, created_unix_ms, status, log, result: Some(result) },
        );
        proof {
            assert forall|i: int| 0 <= i < self.jobs@.len() implies numbered_job(
                (#[trigger] self.jobs@[i]).id@,
                i,
            ) by {
                if i < before.len() {
                    assert(self.jobs@[i] == before[i]);
                }
            }
        }
    }

    /// The job with an id.
    pub fn find_job(&self, bid: &str) -> (r: DemoResult<&BenchJob<C>>)
        ensures
            match first_job(self.jobs@, bid@, 0) {
                Some(i) => r matches Ok(job) && *job == self.jobs@[i],
                None => r matches Err(e) && e@ == (404u16, "benchmark not found"@),
            },
            r is Ok <==> exists|i: int|
                0 <= i < self.jobs@.len() && (#[trigger] self.jobs@[i]).id@ == bid@,
            r matches Ok(job) ==> job.id@ == bid@,
    {
        proof {
            lemma_first_job(self.jobs@, bid@, 0);
        }
        let wanted = String::from_str(bid);
        let mut i: usize = 0;
        while i < self.jobs.len()
            invariant
                i <= self.jobs@.len(),
                wanted@ == bid@,
                first_job(self.jobs@, bid@, 0) == first_job(self.jobs@, bid@, i as int),
            decreases self.jobs.len() - i,
        {
            if self.jobs[i].id == wanted {
                return Ok(&self.jobs[i]);
            }
            i += 1;
        }
        Err(DemoError::not_found("benchmark not found"))
    }

    /// All jobs, the newest first.
    pub fn newest_first(&self) -> (r: Vec<&BenchJob<C>>)
        ensures
            r@.len() == self.jobs@.len(),
            forall|i: int|
                0 <= i < r@.len() ==> *(#[trigger] r@[i]) == self.jobs@[self.jobs@.len() - 1 - i],
    {
        let mut r: Vec<&BenchJob<C>> = Vec::new();
        let mut i: usize = self.jobs.len();
        while i > 0
            invariant
                i <= self.jobs@.len(),
                r@.len() == self.jobs@.len() - i,
                forall|k: int|
                    0 <= k < r@.len() ==> *(#[trigger] r@[k]) == self.jobs@[self.jobs@.len() - 1
                        - k],
            decreases i,
        {
            i -= 1;
            r.push(&self.jobs[i]);
        }
        r
    }
}

/// The ids of two jobs are different.
pub proof fn law_job_ids_distinct<C>(jobs: &Jobs<C>, i: int, j: int)
    requires
        jobs.wf(),
        0 <= i < jobs.jobs@.len(),
        0 <= j < jobs.jobs@.len(),
        jobs.jobs@[i].id@ == jobs.jobs@[j].id@,
    ensures
        i == j,
{
    assert(numbered_job(jobs.jobs@[i].id@, i));
    assert(numbered_job(jobs.jobs@[j].id@, j));
    let t = choose|t: int| jobs.jobs@[i].id@ == #[trigger] id_text("bench"@, t, i);
    let u = choose|u: int| jobs.jobs@[j].id@ == #[trigger] id_text("bench"@, u, j);
    law_ids_distinct("bench"@, t, i, u, j);
}

/// The result of a job, or the refusal while it runs.
pub fn finished<C>(job: &BenchJob<C>) -> (r: DemoResult<&BenchmarkResult>)
    ensures
        refuses(r, running_refusal(job)),
        r is Ok <==> job.result is Some,
        r matches Ok(x) ==> job.result == Some(*x),
{
    match &job.result {
        Some(x) => Ok(x),
        None => Err(DemoError::bad("benchmark still running")),
    }
}

/// The refusal while a job runs.
pub open spec fn running_refusal<C>(job: &BenchJob<C>) -> Option<(u16, Seq<char>)> {
    if job.result is None {
        Some((400u16, "benchmark still running"@))
    } else {
        None
    }
}

// ---- requests ----------------------------------------------------------------------

/// Why a running benchmark is not cancelled.
pub const NO_CANCEL_NOTE: &'static str =
    "cancellation is not available in the in-browser (single-threaded WASM) build";

/// The answer to a request on benchmarks.
pub enum BenchmarkAnswer<'a, C> {
    List(Vec<&'a BenchJob<C>>),
    Job(&'a BenchJob<C>),
    Events(&'a BenchJob<C>),
    /// A job that has a result.
    Result(&'a BenchJob<C>),
    Csv(String),
    NotCancelling(&'static str),
}

/// The refusal where there is no job with an id.
pub open spec fn job_refusal<C>(jobs: Seq<BenchJob<C>>, bid: Seq<char>) -> Option<
    (u16, Seq<char>),
> {
    match first_job(jobs, bid, 0) {
        Some(_) => None,
        None => Some((404u16, "benchmark not found"@)),
    }
}

/// The refusal where there is no job with an id, or it still runs.
pub open spec fn result_refusal<C>(jobs: Seq<BenchJob<C>>, bid: Seq<char>) -> Option<
    (u16, Seq<char>),
> {
    match first_job(jobs, bid, 0) {
        Some(i) => running_refusal(&jobs[i]),
        None => Some((404u16, "benchmark not found"@)),
    }
}

/// Why a request on benchmarks is refused.
pub open spec fn benchmark_refusal<C>(jobs: Seq<BenchJob<C>>, c: CallView) -> Option<
    (u16, Seq<char>),
> {
    match c {
        CallView::ListBenchmarks => None,
        CallView::GetBenchmark { bid } => job_refusal(jobs, bid),
        CallView::BenchmarkEvents { bid } => job_refusal(jobs, bid),
        CallView::BenchmarkJson { bid } => result_refusal(jobs, bid),
        CallView::BenchmarkCsv { bid } => result_refusal(jobs, bid),
        CallView::CancelBenchmark => None,
        _ => Some((404u16, "no such route"@)),
    }
}

/// The job with an id.
pub open spec fn job_with<C>(jobs: Seq<BenchJob<C>>, bid: Seq<char>) -> BenchJob<C> {
    jobs[first_job(jobs, bid, 0)->0]
}

/// The answer to a request on benchmarks that is not refused.
pub open spec fn benchmark_answers<C>(
    jobs: Seq<BenchJob<C>>,
    c: CallView,
    a: &BenchmarkAnswer<C>,
) -> bool {
    match c {
        CallView::ListBenchmarks => {
            &&& a matches BenchmarkAnswer::List(list)
            &&& list@.len() == jobs.len()
            &&& forall|i: int|
                0 <= i < list@.len() ==> *(#[trigger] list@[i]) == jobs[jobs.len() - 1 - i]
        },
        CallView::GetBenchmark { bid } => a matches BenchmarkAnswer::Job(job) && **job
            == job_with(jobs, bid),
        CallView::BenchmarkEvents { bid } => a matches BenchmarkAnswer::Events(job) && **job
            == job_with(jobs, bid),
        CallView::BenchmarkJson { bid } => a matches BenchmarkAnswer::Result(job) && **job
            == job_with(jobs, bid) && job.result is Some,
        CallView::BenchmarkCsv { bid } => {
            &&& a matches BenchmarkAnswer::Csv(text)
            &&& job_with(jobs, bid).result matches Some(x)
            &&& text@ == csv_rows(x.per_aggregator@) + csv_total(&x)
        },
        CallView::CancelBenchmark => a matches BenchmarkAnswer::NotCancelling(note) && note@
            == NO_CANCEL_NOTE@,
        _ => false,
    }
}

/// A job that was recorded is the one that its id asks for, and an id that no
/// job has is answered with 404.
pub proof fn law_recorded_job_found<C>(jobs: &Jobs<C>, bid: Seq<char>)
    requires
        jobs.wf(),
    ensures
        forall|i: int|
            0 <= i < jobs.jobs@.len() && (#[trigger] jobs.jobs@[i]).id@ == bid ==> {
                &&& benchmark_refusal(jobs.jobs@, (CallView::GetBenchmark { bid })) is None
                &&& benchmark_refusal(jobs.jobs@, (CallView::BenchmarkEvents { bid })) is None
                &&& job_with(jobs.jobs@, bid) == jobs.jobs@[i]
                &&& benchmark_refusal(jobs.jobs@, (CallView::BenchmarkJson { bid })) == if (
                jobs.jobs@[i].result is Some) {
                    None::<(u16, Seq<char>)>
                } else {
                    Some((400u16, "benchmark still running"@))
                }
                &&& benchmark_refusal(jobs.jobs@, (CallView::BenchmarkCsv { bid }))
                    == benchmark_refusal(jobs.jobs@, (CallView::BenchmarkJson { bid }))
            },
        (forall|i: int| 0 <= i < jobs.jobs@.len() ==> (#[trigger] jobs.jobs@[i]).id@ != bid) ==> {
            let missing = Some((404u16, "benchmark not found"@));
            &&& benchmark_refusal(jobs.jobs@, (CallView::GetBenchmark { bid })) == missing
            &&& benchmark_refusal(jobs.jobs@, (CallView::BenchmarkEvents { bid })) == missing
            &&& benchmark_refusal(jobs.jobs@, (CallView::BenchmarkJson { bid })) == missing
            &&& benchmark_refusal(jobs.jobs@, (CallView::BenchmarkCsv { bid })) == missing
        },
{
    lemma_first_job(jobs.jobs@, bid, 0);
    assert forall|i: int|
        0 <= i < jobs.jobs@.len() && (#[trigger] jobs.jobs@[i]).id@ == bid implies first_job(
        jobs.jobs@,
        bid,
        0,
    ) == Some(i) by {
        law_job_ids_distinct(jobs, i, first_job(jobs.jobs@, bid, 0)->0);
    }
}

/// Answers a request on benchmarks, but for one that starts a benchmark.
pub fn handle_benchmarks<'a, C>(jobs: &'a Jobs<C>, call: &Call) -> (r: DemoResult<
    BenchmarkAnswer<'a, C>,
>)
    requires
        on_benchmarks(call@),
        !(call@ is CreateBenchmark),
    ensures
        refuses(r, benchmark_refusal(jobs.jobs@, call@)),
        r matches Ok(a) ==> benchmark_answers(jobs.jobs@, call@, &a),
{
    match call {
        Call::ListBenchmarks => Ok(BenchmarkAnswer::List(jobs.newest_first())),
        Call::GetBenchmark { bid } => {
            match jobs.find_job(bid.as_str()) {
                Ok(job) => Ok(BenchmarkAnswer::Job(job)),
                Err(e) => Err(e),
            }
        },
        Call::BenchmarkEvents { bid } => {
            match jobs.find_job(bid.as_str()) {
                Ok(job) => Ok(BenchmarkAnswer::Events(job)),
                Err(e) => Err(e),
            }
        },
        Call::BenchmarkJson { bid } => {
            match jobs.find_job(bid.as_str()) {
                Ok(job) => match finished(job) {
                    Ok(_) => Ok(BenchmarkAnswer::Result(job)),
                    Err(e) => Err(e),
                },
                Err(e) => Err(e),
            }
        },
        Call::BenchmarkCsv { bid } => {
            match jobs.find_job(bid.as_str()) {
                Ok(job) => match finished(job) {
                    Ok(x) => Ok(BenchmarkAnswer::Csv(result_to_csv(x))),
                    Err(e) => Err(e),
                },
                Err(e) => Err(e),
            }
        },
        Call::CancelBenchmark => Ok(BenchmarkAnswer::NotCancelling(NO_CANCEL_NOTE)),
        _ => Err(DemoError::not_found("no such route")),
    }
}

} // verus!
