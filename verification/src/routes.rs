//! Requests: which call a method and a path stand for.

use vstd::prelude::*;
use vstd::string::*;

use crate::text::{cat4, same_text, texts};

verus! {

/// What all paths of the interface begin with.
pub const API_PREFIX: &'static str = "/api/aggios";

/// The number of voters that a request creates where it does not say.
pub fn one() -> (n: usize)
    ensures
        n == 1,
{
    1
}

// ---- paths -----------------------------------------------------------------------

/// The text begins with a prefix.
pub open spec fn begins(s: Seq<char>, prefix: Seq<char>) -> bool {
    s.len() >= prefix.len() && s.take(prefix.len() as int) == prefix
}

/// The text without a prefix, as often as it stands there.
pub open spec fn without_prefix(s: Seq<char>, prefix: Seq<char>) -> Seq<char>
    decreases s.len(),
{
    if prefix.len() > 0 && begins(s, prefix) {
        without_prefix(s.skip(prefix.len() as int), prefix)
    } else {
        s
    }
}

/// The text without a character at its start.
pub open spec fn without_leading(s: Seq<char>, c: char) -> Seq<char>
    decreases s.len(),
{
    if s.len() > 0 && s[0] == c {
        without_leading(s.skip(1), c)
    } else {
        s
    }
}

/// The text without a character at its end.
pub open spec fn without_trailing(s: Seq<char>, c: char) -> Seq<char>
    decreases s.len(),
{
    if s.len() > 0 && s.last() == c {
        without_trailing(s.drop_last(), c)
    } else {
        s
    }
}

/// The position of a character, from `i` on; the length where it is missing.
pub open spec fn find_char(s: Seq<char>, c: char, i: int) -> int
    decreases s.len() - i,
{
    if i >= s.len() {
        s.len() as int
    } else if s[i] == c {
        i
    } else {
        find_char(s, c, i + 1)
    }
}

/// A path without the common prefix, without slashes around it, and without a
/// query.
pub open spec fn core_path(path: Seq<char>) -> Seq<char> {
    let s = without_trailing(without_leading(without_prefix(path, API_PREFIX@), '/'), '/');
    s.take(find_char(s, '?', 0))
}

/// The parts of a path between slashes, from `i` on. Empty parts are left out.
pub open spec fn parts_from(s: Seq<char>, i: int) -> Seq<Seq<char>>
    decreases s.len() - i,
{
    if i >= s.len() {
        Seq::empty()
    } else if s[i] == '/' {
        parts_from(s, i + 1)
    } else {
        let j = find_char(s, '/', i);
        if i < j <= s.len() {
            seq![s.subrange(i, j)] + parts_from(s, j)
        } else {
            Seq::empty()
        }
    }
}

/// The parts of a path.
pub open spec fn path_parts(path: Seq<char>) -> Seq<Seq<char>> {
    parts_from(core_path(path), 0)
}

proof fn lemma_find_char(s: Seq<char>, c: char, i: int)
    requires
        0 <= i <= s.len(),
    ensures
        i <= find_char(s, c, i) <= s.len(),
        find_char(s, c, i) < s.len() ==> s[find_char(s, c, i)] == c,
    decreases s.len() - i,
{
    if i < s.len() && s[i] != c {
        lemma_find_char(s, c, i + 1);
    }
}

/// The position of a character, from `i` on.
fn find_in(s: &str, n: usize, c: char, start: usize) -> (r: usize)
    requires
        n == s@.len(),
        start <= n,
    ensures
        r == find_char(s@, c, start as int),
        start <= r <= n,
{
    let mut i: usize = start;
    while i < n && s.get_char(i) != c
        invariant
            start <= i <= n,
            n == s@.len(),
            find_char(s@, c, start as int) == find_char(s@, c, i as int),
        decreases n - i,
    {
        i += 1;
    }
    i
}

/// Whether a prefix stands at a position.
fn stands_at(s: &str, n: usize, at: usize, prefix: &str, m: usize) -> (b: bool)
    requires
        n == s@.len(),
        m == prefix@.len(),
        at <= n,
    ensures
        b == begins(s@.skip(at as int), prefix@),
{
    if n - at < m {
        return false;
    }
    let ghost rest = s@.skip(at as int);
    let mut i: usize = 0;
    while i < m
        invariant
            i <= m,
            n == s@.len(),
            m == prefix@.len(),
            at <= n,
            n - at >= m,
            rest == s@.skip(at as int),
            forall|k: int| 0 <= k < i ==> #[trigger] rest[k] == prefix@[k],
        decreases m - i,
    {
        if s.get_char(at + i) != prefix.get_char(i) {
            proof {
                assert(rest[i as int] != prefix@[i as int]);
                assert(rest.take(m as int)[i as int] == rest[i as int]);
            }
            return false;
        }
        assert(rest[i as int] == prefix@[i as int]);
        i += 1;
    }
    proof {
        assert(rest.take(m as int) =~= prefix@);
    }
    true
}

/// The path without the common prefix, the slashes around it and the query.
pub fn path_core(path: &str) -> (r: String)
    ensures
        r@ == core_path(path@),
{
    let n = path.unicode_len();
    let m = API_PREFIX.unicode_len();
    let ghost p = path@;
    let mut low: usize = 0;
    proof {
        reveal_strlit("/api/aggios");
        assert(p.skip(0) =~= p);
    }
    while stands_at(path, n, low, API_PREFIX, m)
        invariant
            low <= n,
            n == path@.len(),
            m == API_PREFIX@.len(),
            m > 0,
            p == path@,
            without_prefix(p, API_PREFIX@) == without_prefix(p.skip(low as int), API_PREFIX@),
        ensures
            low <= n,
            without_prefix(p, API_PREFIX@) == p.skip(low as int),
        decreases n - low,
    {
        proof {
            assert(p.skip(low as int).skip(m as int) =~= p.skip(low + m));
        }
        low += m;
    }
    let ghost a = p.skip(low as int);
    while low < n && path.get_char(low) == '/'
        invariant
            low <= n,
            n == path@.len(),
            p == path@,
            without_leading(a, '/') == without_leading(p.skip(low as int), '/'),
        ensures
            low <= n,
            without_leading(a, '/') == p.skip(low as int),
        decreases n - low,
    {
        proof {
            assert(p.skip(low as int)[0] == p[low as int]);
            assert(p.skip(low as int).skip(1) =~= p.skip(low + 1));
        }
        low += 1;
        proof {
            if low < n {
                assert(p.skip(low as int)[0] == p[low as int]);
            }
        }
    }
    let ghost b = p.skip(low as int);
    let mut high: usize = n;
    proof {
        assert(p.subrange(low as int, n as int) =~= b);
    }
    while low < high && path.get_char(high - 1) == '/'
        invariant
            low <= high <= n,
            n == path@.len(),
            p == path@,
            without_trailing(b, '/') == without_trailing(
                p.subrange(low as int, high as int),
                '/',
            ),
        ensures
            low <= high <= n,
            without_trailing(b, '/') == p.subrange(low as int, high as int),
        decreases high - low,
    {
        proof {
            let s = p.subrange(low as int, high as int);
            assert(s.last() == p[high - 1]);
            assert(s.drop_last() =~= p.subrange(low as int, high - 1));
        }
        high -= 1;
        proof {
            if low < high {
                assert(p.subrange(low as int, high as int).last() == p[high - 1]);
            }
        }
    }
    let trimmed = path.substring_char(low, high);
    let k = trimmed.unicode_len();
    let end = find_in(trimmed, k, '?', 0);
    let core = trimmed.substring_char(0, end);
    proof {
        assert(trimmed@.subrange(0, end as int) =~= trimmed@.take(end as int));
    }
    String::from_str(core)
}

/// The parts between slashes.
pub fn split_parts(core: &str) -> (r: Vec<String>)
    ensures
        texts(r@) == parts_from(core@, 0),
{
    let n = core.unicode_len();
    let mut r: Vec<String> = Vec::new();
    let mut i: usize = 0;
    proof {
        assert(texts(r@) + parts_from(core@, 0) =~= parts_from(core@, 0));
    }
    while i < n
        invariant
            i <= n,
            n == core@.len(),
            texts(r@) + parts_from(core@, i as int) == parts_from(core@, 0),
        decreases n - i,
    {
        if core.get_char(i) == '/' {
            i += 1;
        } else {
            let j = find_in(core, n, '/', i);
            let ghost before = texts(r@);
            proof {
                lemma_find_char(core@, '/', i as int);
                assert(find_char(core@, '/', i as int) == find_char(core@, '/', i + 1));
                lemma_find_char(core@, '/', i + 1);
            }
            r.push(String::from_str(core.substring_char(i, j)));
            proof {
                let part = core@.subrange(i as int, j as int);
                assert(texts(r@) =~= before.push(part));
                assert(texts(r@) + parts_from(core@, j as int) =~= before + (seq![part]
                    + parts_from(core@, j as int)));
            }
            i = j;
        }
    }
    proof {
        assert(texts(r@) + Seq::<Seq<char>>::empty() =~= texts(r@));
    }
    r
}

// ---- calls -------------------------------------------------------------------------

/// What a request asks for.
#[derive(Debug)]
pub enum Call {
    CreateElection,
    ListElections,
    GetElection { eid: String },
    SetPhase { eid: String },
    CreateVoters { eid: String },
    Register { eid: String },
    Vote { eid: String },
    Receipt { eid: String, vid: String },
    Finalize { eid: String, aid: String },
    Prove { eid: String, aid: String },
    Verify { eid: String, aid: String },
    Proof { eid: String, aid: String },
    VerifyAll { eid: String },
    Board { eid: String },
    Artifact { eid: String },
    CreateBenchmark,
    ListBenchmarks,
    GetBenchmark { bid: String },
    BenchmarkEvents { bid: String },
    BenchmarkJson { bid: String },
    BenchmarkCsv { bid: String },
    CancelBenchmark,
    /// A path under the benchmarks that stands for nothing.
    NoBenchmarkRoute,
    /// Any other path that stands for nothing, with what is answered.
    NoRoute { message: String },
}

/// What a request asks for, as values.
#[verifier::ext_equal]
pub enum CallView {
    CreateElection,
    ListElections,
    GetElection { eid: Seq<char> },
    SetPhase { eid: Seq<char> },
    CreateVoters { eid: Seq<char> },
    Register { eid: Seq<char> },
    Vote { eid: Seq<char> },
    Receipt { eid: Seq<char>, vid: Seq<char> },
    Finalize { eid: Seq<char>, aid: Seq<char> },
    Prove { eid: Seq<char>, aid: Seq<char> },
    Verify { eid: Seq<char>, aid: Seq<char> },
    Proof { eid: Seq<char>, aid: Seq<char> },
    VerifyAll { eid: Seq<char> },
    Board { eid: Seq<char> },
    Artifact { eid: Seq<char> },
    CreateBenchmark,
    ListBenchmarks,
    GetBenchmark { bid: Seq<char> },
    BenchmarkEvents { bid: Seq<char> },
    BenchmarkJson { bid: Seq<char> },
    BenchmarkCsv { bid: Seq<char> },
    CancelBenchmark,
    NoBenchmarkRoute,
    NoRoute { message: Seq<char> },
}

impl View for Call {
    type V = CallView;

    open spec fn view(&self) -> CallView {
        match self {
            Call::CreateElection => CallView::CreateElection,
            Call::ListElections => CallView::ListElections,
            Call::GetElection { eid } => CallView::GetElection { eid: eid@ },
            Call::SetPhase { eid } => CallView::SetPhase { eid: eid@ },
            Call::CreateVoters { eid } => CallView::CreateVoters { eid: eid@ },
            Call::Register { eid } => CallView::Register { eid: eid@ },
            Call::Vote { eid } => CallView::Vote { eid: eid@ },
            Call::Receipt { eid, vid } => CallView::Receipt { eid: eid@, vid: vid@ },
            Call::Finalize { eid, aid } => CallView::Finalize { eid: eid@, aid: aid@ },
            Call::Prove { eid, aid } => CallView::Prove { eid: eid@, aid: aid@ },
            Call::Verify { eid, aid } => CallView::Verify { eid: eid@, aid: aid@ },
            Call::Proof { eid, aid } => CallView::Proof { eid: eid@, aid: aid@ },
            Call::VerifyAll { eid } => CallView::VerifyAll { eid: eid@ },
            Call::Board { eid } => CallView::Board { eid: eid@ },
            Call::Artifact { eid } => CallView::Artifact { eid: eid@ },
            Call::CreateBenchmark => CallView::CreateBenchmark,
            Call::ListBenchmarks => CallView::ListBenchmarks,
            Call::GetBenchmark { bid } => CallView::GetBenchmark { bid: bid@ },
            Call::BenchmarkEvents { bid } => CallView::BenchmarkEvents { bid: bid@ },
            Call::BenchmarkJson { bid } => CallView::BenchmarkJson { bid: bid@ },
            Call::BenchmarkCsv { bid } => CallView::BenchmarkCsv { bid: bid@ },
            Call::CancelBenchmark => CallView::CancelBenchmark,
            Call::NoBenchmarkRoute => CallView::NoBenchmarkRoute,
            Call::NoRoute { message } => CallView::NoRoute { message: message@ },
        }
    }
}

/// What a method and the parts of a path under the benchmarks stand for.
pub open spec fn benchmark_call(method: Seq<char>, s: Seq<Seq<char>>) -> CallView {
    if method == "POST"@ && s.len() == 1 {
        CallView::CreateBenchmark
    } else if method == "GET"@ && s.len() == 1 {
        CallView::ListBenchmarks
    } else if method == "GET"@ && s.len() == 2 {
        CallView::GetBenchmark { bid: s[1] }
    } else if method == "GET"@ && s.len() == 3 && s[2] == "events"@ {
        CallView::BenchmarkEvents { bid: s[1] }
    } else if method == "GET"@ && s.len() == 3 && s[2] == "results.json"@ {
        CallView::BenchmarkJson { bid: s[1] }
    } else if method == "GET"@ && s.len() == 3 && s[2] == "results.csv"@ {
        CallView::BenchmarkCsv { bid: s[1] }
    } else if method == "POST"@ && s.len() == 3 && s[2] == "cancel"@ {
        CallView::CancelBenchmark
    } else {
        CallView::NoBenchmarkRoute
    }
}

/// What a method and the parts of a path under the elections stand for. Any
/// other path is named in the answer.
pub open spec fn election_call(method: Seq<char>, s: Seq<Seq<char>>, path: Seq<char>) -> CallView {
    if s.len() == 0 || s[0] != "elections"@ {
        CallView::NoRoute { message: no_route_text(method, path) }
    } else if method == "POST"@ && s.len() == 1 {
        CallView::CreateElection
    } else if method == "GET"@ && s.len() == 1 {
        CallView::ListElections
    } else if method == "GET"@ && s.len() == 2 {
        CallView::GetElection { eid: s[1] }
    } else if method == "POST"@ && s.len() == 3 && s[2] == "phase"@ {
        CallView::SetPhase { eid: s[1] }
    } else if method == "POST"@ && s.len() == 4 && s[2] == "voters"@ && s[3] == "demo-create"@ {
        CallView::CreateVoters { eid: s[1] }
    } else if method == "POST"@ && s.len() == 3 && s[2] == "register"@ {
        CallView::Register { eid: s[1] }
    } else if method == "POST"@ && s.len() == 3 && s[2] == "vote"@ {
        CallView::Vote { eid: s[1] }
    } else if method == "GET"@ && s.len() == 5 && s[2] == "voters"@ && s[4] == "receipt"@ {
        CallView::Receipt { eid: s[1], vid: s[3] }
    } else if method == "POST"@ && s.len() == 5 && s[2] == "voters"@ && s[4] == "verify-receipt"@ {
        CallView::Receipt { eid: s[1], vid: s[3] }
    } else if method == "POST"@ && s.len() == 5 && s[2] == "aggregators"@ && s[4] == "finalize-registration"@ {
        CallView::Finalize { eid: s[1], aid: s[3] }
    } else if method == "POST"@ && s.len() == 5 && s[2] == "aggregators"@ && s[4] == "prove"@ {
        CallView::Prove { eid: s[1], aid: s[3] }
    } else if method == "POST"@ && s.len() == 5 && s[2] == "aggregators"@ && s[4] == "verify"@ {
        CallView::Verify { eid: s[1], aid: s[3] }
    } else if method == "GET"@ && s.len() == 5 && s[2] == "aggregators"@ && s[4] == "proof.json"@ {
        CallView::Proof { eid: s[1], aid: s[3] }
    } else if method == "POST"@ && s.len() == 3 && s[2] == "verify-all"@ {
        CallView::VerifyAll { eid: s[1] }
    } else if method == "GET"@ && s.len() == 3 && s[2] == "bulletin-board"@ {
        CallView::Board { eid: s[1] }
    } else if method == "GET"@ && s.len() == 3 && s[2] == "public-artifact.json"@ {
        CallView::Artifact { eid: s[1] }
    } else {
        CallView::NoRoute { message: no_route_text(method, path) }
    }
}

/// The answer to a path that stands for nothing.
pub open spec fn no_route_text(method: Seq<char>, path: Seq<char>) -> Seq<char> {
    "no such route: "@ + method + " /"@ + path
}

/// What a method and a path stand for.
pub open spec fn routed(method: Seq<char>, path: Seq<char>) -> CallView {
    let s = path_parts(path);
    if s.len() > 0 && s[0] == "benchmarks"@ {
        benchmark_call(method, s)
    } else {
        election_call(method, s, core_path(path))
    }
}

fn route_benchmarks(method: &str, s: &Vec<String>) -> (r: Call)
    ensures
        r@ == benchmark_call(method@, texts(s@)),
{
    let is_get = same_text(method, "GET");
    let is_post = same_text(method, "POST");
    let n = s.len();
    proof {
        assert(texts(s@).len() == n);
    }
    if is_post && n == 1 {
        Call::CreateBenchmark
    } else if is_get && n == 1 {
        Call::ListBenchmarks
    } else if is_get && n == 2 {
        Call::GetBenchmark { bid: s[1].clone() }
    } else if is_get && n == 3 && same_text(s[2].as_str(), "events") {
        Call::BenchmarkEvents { bid: s[1].clone() }
    } else if is_get && n == 3 && same_text(s[2].as_str(), "results.json") {
        Call::BenchmarkJson { bid: s[1].clone() }
    } else if is_get && n == 3 && same_text(s[2].as_str(), "results.csv") {
        Call::BenchmarkCsv { bid: s[1].clone() }
    } else if is_post && n == 3 && same_text(s[2].as_str(), "cancel") {
        Call::CancelBenchmark
    } else {
        Call::NoBenchmarkRoute
    }
}

fn route_elections(method: &str, s: &Vec<String>, path: &str) -> (r: Call)
    ensures
        r@ == election_call(method@, texts(s@), path@),
{
    let is_get = same_text(method, "GET");
    let is_post = same_text(method, "POST");
    let n = s.len();
    proof {
        assert(texts(s@).len() == n);
    }
    if n == 0 || !same_text(s[0].as_str(), "elections") {
        return Call::NoRoute { message: cat4("no such route: ", method, " /", path) };
    }
    if is_post && n == 1 {
        Call::CreateElection
    } else if is_get && n == 1 {
        Call::ListElections
    } else if is_get && n == 2 {
        Call::GetElection { eid: s[1].clone() }
    } else if is_post && n == 3 && same_text(s[2].as_str(), "phase") {
        Call::SetPhase { eid: s[1].clone() }
    } else if is_post && n == 4 && same_text(s[2].as_str(), "voters") && same_text(s[3].as_str(), "demo-create") {
        Call::CreateVoters { eid: s[1].clone() }
    } else if is_post && n == 3 && same_text(s[2].as_str(), "register") {
        Call::Register { eid: s[1].clone() }
    } else if is_post && n == 3 && same_text(s[2].as_str(), "vote") {
        Call::Vote { eid: s[1].clone() }
    } else if is_get && n == 5 && same_text(s[2].as_str(), "voters") && same_text(s[4].as_str(), "receipt") {
        Call::Receipt { eid: s[1].clone(), vid: s[3].clone() }
    } else if is_post && n == 5 && same_text(s[2].as_str(), "voters") && same_text(s[4].as_str(), "verify-receipt") {
        Call::Receipt { eid: s[1].clone(), vid: s[3].clone() }
    } else if is_post && n == 5 && same_text(s[2].as_str(), "aggregators") && same_text(s[4].as_str(), "finalize-registration") {
        Call::Finalize { eid: s[1].clone(), aid: s[3].clone() }
    } else if is_post && n == 5 && same_text(s[2].as_str(), "aggregators") && same_text(s[4].as_str(), "prove") {
        Call::Prove { eid: s[1].clone(), aid: s[3].clone() }
    } else if is_post && n == 5 && same_text(s[2].as_str(), "aggregators") && same_text(s[4].as_str(), "verify") {
        Call::Verify { eid: s[1].clone(), aid: s[3].clone() }
    } else if is_get && n == 5 && same_text(s[2].as_str(), "aggregators") && same_text(s[4].as_str(), "proof.json") {
        Call::Proof { eid: s[1].clone(), aid: s[3].clone() }
    } else if is_post && n == 3 && same_text(s[2].as_str(), "verify-all") {
        Call::VerifyAll { eid: s[1].clone() }
    } else if is_get && n == 3 && same_text(s[2].as_str(), "bulletin-board") {
        Call::Board { eid: s[1].clone() }
    } else if is_get && n == 3 && same_text(s[2].as_str(), "public-artifact.json") {
        Call::Artifact { eid: s[1].clone() }
    } else {
        Call::NoRoute { message: cat4("no such route: ", method, " /", path) }
    }
}

/// What a method and a path stand for.
pub fn route(method: &str, path: &str) -> (r: Call)
    ensures
        r@ == routed(method@, path@),
{
    let core = path_core(path);
    let s = split_parts(core.as_str());
    proof {
        assert(texts(s@).len() == s@.len());
    }
    if s.len() > 0 && same_text(s[0].as_str(), "benchmarks") {
        route_benchmarks(method, &s)
    } else {
        route_elections(method, &s, core.as_str())
    }
}

} // verus!
