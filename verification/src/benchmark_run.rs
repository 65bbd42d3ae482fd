//! Running a benchmark with real cryptography: keys, delegations, tokens,
//! proofs, and their verification.

use vstd::prelude::*;

use crate::bls::{delegation_hashable, delegation_log, total, try_delegation_message_hash};
use crate::artifacts::{short_time, shorten};
use crate::benchmark::{
    aggregator_id, aggregator_name, aggregator_seed, bench_candidates, bench_ids, benchable,
    key_seed, key_seed_of, AggregatorBenchResult, BenchmarkConfig, ProgressEvent,
};
use crate::benchmark_math::{
    choices_ok, choose_as, lemma_mine_from, mine, own_counts, picks, BenchVoterView,
};
use crate::clock::{elapsed_millis, moment};
use crate::demo_state::srs_exists;
use crate::election::{
    candidate_ids, template_title, template_title_text, Candidate, ElectionParams, ElectionPhase,
    ElectionView, ARTIFACT_VERSION,
};
use crate::epa_adapter::{lemma_kept, lone_partition, zero_blinder_text, SrsBundle, EPA_BACKEND_ID};
use crate::error::{AggiosError, ErrorView, Result};
use crate::generator::{seeded_rng, seeded_scalar};
use crate::modular::{md, modulus};
use crate::labels::{ElectionLabels, LabelsView};
use crate::proof_bytes::MAX_COUNT;
use crate::registration::{
    accept_error, accept_registration, accepted_voter, distinct_voters, domain_error,
    domain_size_for, finalize_registration, finalized, law_finalized_is_valid, record_of,
    record_pks, record_views, registration_problems, token_sum, validate_finalized_registration,
    voter_views, FinalizedRegistration, RegisteredVoter, RegistrationView, VoterKeys, VoterView,
};
use crate::string_map::{viewed, StringMap};
use crate::tally::{
    ballots_of, build_and_prove_tally, built_input, indices_below, lemma_position_range,
    lemma_tally_shape, position_of, tally_error, tally_made, tally_witness, verify_aggregator_tally,
    AggregatorVerification, Ballots, TallyPost, TallyView, VerificationView,
};
use crate::tally_laws::{
    ballots_for, law_counts_votes, law_honest_tally, law_tally_verifies, votes_known,
};
use crate::text::{
    cat2, cat3, cat4, debug_shown, debug_text, decimal, lemma_decimal, push_decimal, texts,
};

verus! {

/// Whether a flag that others may set at any time is set now.
pub(crate) fn is_set(flag: &std::sync::atomic::AtomicBool) -> (set: bool) {
    flag.load(std::sync::atomic::Ordering::Relaxed)
}

// ---- the election ----------------------------------------------------------------

/// The id of the election of a benchmark.
pub open spec fn bench_eid(config: &BenchmarkConfig) -> Seq<char> {
    "bench-"@ + decimal(config.voters as int) + "-"@ + decimal(config.seed as int)
}

/// The ids of the aggregators.
pub open spec fn bench_aggregators(config: &BenchmarkConfig) -> Seq<Seq<char>> {
    Seq::new(config.aggregators as nat, |a: int| aggregator_name(a))
}

/// The election of a benchmark.
pub open spec fn bench_election(config: &BenchmarkConfig) -> ElectionView {
    ElectionView {
        version: ARTIFACT_VERSION,
        object_type: "aggios_election_params"@,
        curve: EPA_BACKEND_ID@,
        election_id: bench_eid(config),
        title: "Benchmark: "@ + template_title_text(config.template),
        description: "benchmark election"@,
        candidates: bench_candidates(config),
        aggregators: bench_aggregators(config),
        max_voters: config.voters,
        srs_ref: "epa-kzg10-bls12-381;deterministic-test-rng;n=per-aggregator"@,
        phase: ElectionPhase::Setup,
    }
}

fn aggregator_list(count: usize) -> (r: Vec<String>)
    ensures
        texts(r@) == Seq::new(count as nat, |a: int| aggregator_name(a)),
{
    let mut r: Vec<String> = Vec::new();
    let mut a: usize = 0;
    while a < count
        invariant
            a <= count,
            r@.len() == a,
            forall|b: int| 0 <= b < a ==> (#[trigger] r@[b])@ == aggregator_name(b),
        decreases count - a,
    {
        r.push(aggregator_id(a));
        a += 1;
    }
    proof {
        assert(texts(r@) =~= Seq::new(count as nat, |a: int| aggregator_name(a)));
    }
    r
}

/// The election of a benchmark.
pub fn make_election(config: &BenchmarkConfig) -> (r: ElectionParams)
    ensures
        r@ == bench_election(config),
        candidate_ids(r.candidates@) == bench_ids(config),
        r.partitions() == bench_candidates(config).len() + 2,
{
    let mut id = String::from_str("bench-");
    push_decimal(&mut id, config.voters as u128);
    id.append("-");
    push_decimal(&mut id, config.seed as u128);
    let candidates = crate::benchmark::candidates_for(config);
    let r = ElectionParams::new(
        id,
        cat2("Benchmark: ", template_title(config.template)),
        String::from_str("benchmark election"),
        candidates,
        aggregator_list(config.aggregators),
        config.voters,
    );
    proof {
        assert(r@ =~= bench_election(config));
        assert(crate::election::candidate_texts(r.candidates@).len() == r.candidates@.len());
    }
    r
}

// ---- voters ----------------------------------------------------------------------

/// A voter of a benchmark.
#[derive(Debug)]
pub struct BenchVoter {
    pub registered: RegisteredVoter,
    pub aggregator: usize,
    pub candidate: usize,
}

impl View for BenchVoter {
    type V = BenchVoterView;

    open spec fn view(&self) -> BenchVoterView {
        BenchVoterView {
            registered: self.registered@,
            aggregator: self.aggregator as int,
            candidate: self.candidate as int,
        }
    }
}

pub open spec fn bench_views(s: Seq<BenchVoter>) -> Seq<BenchVoterView> {
    Seq::new(s.len(), |i: int| s[i]@)
}

/// The id of the voter with an index.
pub open spec fn bench_voter_name(i: int) -> Seq<char> {
    "v"@ + decimal(i)
}

proof fn lemma_bench_voter_name(a: int, b: int)
    requires
        a >= 0,
        b >= 0,
        bench_voter_name(a) == bench_voter_name(b),
    ensures
        a == b,
{
    let p = "v"@;
    lemma_decimal(a);
    lemma_decimal(b);
    assert(decimal(a) =~= bench_voter_name(a).skip(p.len() as int));
    assert(decimal(b) =~= bench_voter_name(b).skip(p.len() as int));
}

/// What a voter with some keys sends to an aggregator.
pub open spec fn delegates(
    eid: Seq<char>,
    aid: Seq<char>,
    id: Seq<char>,
    keys: VoterKeys,
    v: VoterView,
) -> bool {
    &&& keys.matching()
    &&& v.voter_id == id
    &&& v.pk == keys.signing.pk@
    &&& v.pkv == keys.pkv@
    &&& v.skv == keys.skv@
    &&& v.sigma == md(delegation_log(eid, aid) * keys.signing.sk@)
}

/// A voter with fresh keys, who delegated to an aggregator.
pub open spec fn delegated(eid: Seq<char>, aid: Seq<char>, id: Seq<char>, v: VoterView) -> bool {
    exists|keys: VoterKeys| #[trigger] delegates(eid, aid, id, keys, v)
}

/// The voter with an index, with keys from the benchmark's seed, who delegated
/// to an aggregator.
pub open spec fn seeded_voter(config: &BenchmarkConfig, aid: Seq<char>, i: int) -> VoterView {
    let seed = key_seed_of(config.seed, i);
    let sk = md(seeded_scalar(seed, 0));
    let skv = md(seeded_scalar(seed, 1));
    VoterView {
        voter_id: bench_voter_name(i),
        pk: sk,
        pkv: skv,
        sigma: md(delegation_log(bench_eid(config), aid) * sk),
        skv,
    }
}

/// Voters with keys from the benchmark's seed, with the given choices.
pub open spec fn drawn(config: &BenchmarkConfig, cs: Seq<(usize, usize)>, vs: Seq<BenchVoterView>) -> bool {
    &&& choose_as(vs, cs)
    &&& forall|i: int|
        0 <= i < vs.len() ==> delegated(
            bench_eid(config),
            aggregator_name(cs[i].0 as int),
            bench_voter_name(i),
            (#[trigger] vs[i]).registered,
        ) && 0 <= vs[i].registered.skv < modulus() && vs[i].registered == seeded_voter(
            config,
            aggregator_name(cs[i].0 as int),
            i,
        )
}

/// The voters of a benchmark are determined by its configuration and the
/// choices: runs with the same seed have the same keys and signatures.
pub proof fn law_voters_determined(
    config: &BenchmarkConfig,
    cs: Seq<(usize, usize)>,
    vs: Seq<BenchVoterView>,
    ws: Seq<BenchVoterView>,
)
    requires
        drawn(config, cs, vs),
        drawn(config, cs, ws),
    ensures
        vs == ws,
{
    assert(vs =~= ws);
}

/// All delegation messages can be hashed.
pub open spec fn all_hashable(config: &BenchmarkConfig) -> bool {
    forall|a: int|
        0 <= a < config.aggregators ==> delegation_hashable(
            bench_eid(config),
            #[trigger] aggregator_name(a),
        )
}

pub(crate) fn check_hashable(config: &BenchmarkConfig, election: &ElectionParams) -> (ok: bool)
    requires
        election@ == bench_election(config),
    ensures
        ok == all_hashable(config),
{
    let mut a: usize = 0;
    proof {
        assert(texts(election.aggregators@) == bench_aggregators(config));
        assert(texts(election.aggregators@).len() == election.aggregators@.len());
    }
    while a < election.aggregators.len()
        invariant
            a <= election.aggregators.len(),
            election@ == bench_election(config),
            texts(election.aggregators@) == bench_aggregators(config),
            election.aggregators@.len() == config.aggregators,
            forall|b: int|
                0 <= b < a ==> delegation_hashable(
                    bench_eid(config),
                    #[trigger] aggregator_name(b),
                ),
        decreases election.aggregators.len() - a,
    {
        proof {
            assert(texts(election.aggregators@)[a as int] == aggregator_name(a as int));
        }
        if try_delegation_message_hash(
            election.election_id.as_str(),
            election.aggregators[a].as_str(),
        ).is_none() {
            return false;
        }
        a += 1;
    }
    true
}

/// Makes the keys and the delegations of all voters.
pub(crate) fn generate_voters(
    config: &BenchmarkConfig,
    election: &ElectionParams,
    choices: &Vec<(usize, usize)>,
) -> (r: Vec<BenchVoter>)
    requires
        election@ == bench_election(config),
        all_hashable(config),
        choices_ok(choices@, config.aggregators as int, bench_ids(config).len() as int),
    ensures
        drawn(config, choices@, bench_views(r@)),
{
    let ghost eid = bench_eid(config);
    let mut r: Vec<BenchVoter> = Vec::new();
    let mut i: usize = 0;
    proof {
        assert(texts(election.aggregators@) == bench_aggregators(config));
        assert(texts(election.aggregators@).len() == election.aggregators@.len());
    }
    while i < choices.len()
        invariant
            i <= choices.len(),
            eid == bench_eid(config),
            election@ == bench_election(config),
            all_hashable(config),
            texts(election.aggregators@) == bench_aggregators(config),
            election.aggregators@.len() == config.aggregators,
            choices_ok(choices@, config.aggregators as int, bench_ids(config).len() as int),
            r@.len() == i,
            forall|k: int|
                0 <= k < i ==> (#[trigger] r@[k]).aggregator == choices@[k].0 && r@[k].candidate
                    == choices@[k].1 && delegated(
                    eid,
                    aggregator_name(choices@[k].0 as int),
                    bench_voter_name(k),
                    r@[k].registered@,
                ) && 0 <= r@[k].registered@.skv < modulus() && r@[k].registered@ == seeded_voter(
                    config,
                    aggregator_name(choices@[k].0 as int),
                    k,
                ),
        decreases choices.len() - i,
    {
        let mut rng = seeded_rng(key_seed(config.seed, i));
        let keys = VoterKeys::generate(&mut rng);
        let (aggregator, candidate) = choices[i];
        proof {
            assert(choices@[i as int].0 < config.aggregators);
            assert(texts(election.aggregators@)[aggregator as int] == aggregator_name(
                aggregator as int,
            ));
            assert(delegation_hashable(eid, aggregator_name(aggregator as int)));
            keys.skv.lemma_range();
        }
        let sigma = keys.sign_delegation(
            election.election_id.as_str(),
            election.aggregators[aggregator].as_str(),
        );
        let mut voter_id = String::from_str("v");
        push_decimal(&mut voter_id, i as u128);
        let registered = RegisteredVoter {
            voter_id,
            pk: keys.signing.pk,
            pkv: keys.pkv,
            sigma,
            skv: keys.skv,
        };
        proof {
            assert(delegates(
                eid,
                aggregator_name(aggregator as int),
                bench_voter_name(i as int),
                keys,
                registered@,
            ));
            assert(registered@ =~= seeded_voter(
                config,
                aggregator_name(aggregator as int),
                i as int,
            ));
        }
        r.push(BenchVoter { registered, aggregator, candidate });
        i += 1;
    }
    proof {
        assert forall|k: int| 0 <= k < bench_views(r@).len() implies delegated(
            eid,
            aggregator_name(choices@[k].0 as int),
            bench_voter_name(k),
            (#[trigger] bench_views(r@)[k]).registered,
        ) && 0 <= bench_views(r@)[k].registered.skv < modulus() && bench_views(r@)[k].registered
            == seeded_voter(config, aggregator_name(choices@[k].0 as int), k) by {
            assert(r@[k].aggregator == choices@[k].0);
        }
        assert forall|k: int| 0 <= k < bench_views(r@).len() implies (#[trigger] bench_views(
            r@,
        )[k]).aggregator == choices@[k].0 && bench_views(r@)[k].candidate == choices@[k].1 by {
            assert(r@[k].aggregator == choices@[k].0);
        }
    }
    r
}

// ---- registration ---------------------------------------------------------------------

/// What the aggregator keeps of its voters.
pub open spec fn registered_of(own: Seq<BenchVoterView>) -> Seq<VoterView> {
    Seq::new(own.len(), |i: int| own[i].registered)
}

/// Why a voter is not accepted.
pub open spec fn voter_error(eid: Seq<char>, aid: Seq<char>, v: VoterView) -> Option<ErrorView> {
    accept_error(eid, aid, v.voter_id, v.pk, v.pkv, v.sigma, v.skv)
}

/// All voters are accepted.
pub open spec fn all_accepted(eid: Seq<char>, aid: Seq<char>, voters: Seq<VoterView>) -> bool {
    forall|i: int| 0 <= i < voters.len() ==> accepted_voter(eid, aid, #[trigger] voters[i])
}

/// Some voter is not accepted, with this error.
pub open spec fn some_refused(
    eid: Seq<char>,
    aid: Seq<char>,
    voters: Seq<VoterView>,
    e: ErrorView,
) -> bool {
    exists|i: int| 0 <= i < voters.len() && voter_error(eid, aid, #[trigger] voters[i]) == Some(e)
}

proof fn lemma_mine_grows(vs: Seq<BenchVoterView>, a: int, i: int, n: int)
    requires
        0 <= i <= n <= vs.len(),
    ensures
        mine(vs, a, i).len() <= mine(vs, a, n).len(),
        forall|k: int|
            0 <= k < mine(vs, a, i).len() ==> #[trigger] mine(vs, a, i)[k] == mine(vs, a, n)[k],
    decreases n,
{
    if i < n {
        lemma_mine_grows(vs, a, i, n - 1);
    }
}

/// Checks the voters of an aggregator.
fn register_voters(eid: &str, aid: &str, voters: &Vec<BenchVoter>, a: usize) -> (r: Result<
    Vec<RegisteredVoter>,
>)
    requires
        delegation_hashable(eid@, aid@),
    ensures
        ({
            let all = registered_of(mine(bench_views(voters@), a as int, voters@.len() as int));
            match r {
                Ok(list) => voter_views(list@) == all && all_accepted(eid@, aid@, all),
                Err(e) => some_refused(eid@, aid@, all, e@),
            }
        }),
{
    let ghost vs = bench_views(voters@);
    let ghost n = voters@.len() as int;
    let mut list: Vec<RegisteredVoter> = Vec::new();
    let mut i: usize = 0;
    proof {
        assert(voter_views(list@) =~= registered_of(mine(vs, a as int, 0)));
    }
    while i < voters.len()
        invariant
            i <= voters.len(),
            n == voters@.len(),
            vs == bench_views(voters@),
            delegation_hashable(eid@, aid@),
            voter_views(list@) == registered_of(mine(vs, a as int, i as int)),
            all_accepted(eid@, aid@, voter_views(list@)),
        decreases voters.len() - i,
    {
        let v = &voters[i];
        let ghost before = voter_views(list@);
        assert(vs[i as int] == v@);
        if v.aggregator == a {
            let ghost own = mine(vs, a as int, i + 1);
            assert(own == mine(vs, a as int, i as int).push(v@));
            match accept_registration(
                eid,
                aid,
                v.registered.voter_id.as_str(),
                &v.registered.pk,
                &v.registered.pkv,
                &v.registered.sigma,
                &v.registered.skv,
            ) {
                Ok(x) => {
                    proof {
                        assert(x@ =~= v.registered@);
                    }
                    list.push(x);
                    proof {
                        assert(voter_views(list@) =~= before.push(v.registered@));
                        assert(voter_views(list@) =~= registered_of(own));
                    }
                },
                Err(e) => {
                    proof {
                        lemma_mine_grows(vs, a as int, i + 1, n);
                        let all = registered_of(mine(vs, a as int, n));
                        let at = own.len() - 1;
                        assert(mine(vs, a as int, i + 1)[at] == v@);
                        assert(all[at] == v.registered@);
                        assert(voter_error(eid@, aid@, all[at]) == Some(e@));
                    }
                    return Err(e);
                },
            }
        }
        i += 1;
    }
    Ok(list)
}

/// The votes of the aggregator's voters, by voter id.
pub open spec fn votes_match(
    votes: Map<Seq<char>, Seq<char>>,
    own: Seq<BenchVoterView>,
    ids: Seq<Seq<char>>,
) -> bool {
    forall|i: int|
        0 <= i < own.len() ==> votes.dom().contains((#[trigger] own[i]).registered.voter_id)
            && votes[own[i].registered.voter_id] == ids[own[i].candidate]
}

/// The voters of an aggregator have distinct ids.
proof fn lemma_distinct_mine(config: &BenchmarkConfig, cs: Seq<(usize, usize)>, vs: Seq<BenchVoterView>, a: int, count: int)
    requires
        drawn(config, cs, vs),
        0 <= count <= vs.len(),
    ensures
        distinct_voters(registered_of(mine(vs, a, count))),
{
    let own = mine(vs, a, count);
    let at = lemma_mine_from(vs, a, count);
    let regs = registered_of(own);
    assert forall|i: int, j: int| 0 <= i < j < regs.len() implies (#[trigger] regs[i]).voter_id != (
    #[trigger] regs[j]).voter_id by {
        assert(own[i] == vs[at[i]] && own[j] == vs[at[j]]);
        assert(at[i] < at[j]);
        assert(delegated(
            bench_eid(config),
            aggregator_name(cs[at[i]].0 as int),
            bench_voter_name(at[i]),
            vs[at[i]].registered,
        ));
        assert(delegated(
            bench_eid(config),
            aggregator_name(cs[at[j]].0 as int),
            bench_voter_name(at[j]),
            vs[at[j]].registered,
        ));
        if regs[i].voter_id == regs[j].voter_id {
            lemma_bench_voter_name(at[i], at[j]);
        }
    }
}

/// The votes of the voters of an aggregator.
fn collect_votes(
    config: &BenchmarkConfig,
    voters: &Vec<BenchVoter>,
    a: usize,
    candidates: &Vec<Candidate>,
    Ghost(cs): Ghost<Seq<(usize, usize)>>,
) -> (r: StringMap<String>)
    requires
        drawn(config, cs, bench_views(voters@)),
        choices_ok(cs, config.aggregators as int, candidates@.len() as int),
    ensures
        r.wf(),
        votes_match(
            viewed(r@),
            mine(bench_views(voters@), a as int, voters@.len() as int),
            candidate_ids(candidates@),
        ),
{
    let ghost vs = bench_views(voters@);
    let ghost ids = candidate_ids(candidates@);
    let mut r: StringMap<String> = StringMap::new();
    let mut i: usize = 0;
    while i < voters.len()
        invariant
            i <= voters.len(),
            vs == bench_views(voters@),
            ids == candidate_ids(candidates@),
            drawn(config, cs, vs),
            choices_ok(cs, config.aggregators as int, candidates@.len() as int),
            r.wf(),
            votes_match(viewed(r@), mine(vs, a as int, i as int), ids),
        decreases voters.len() - i,
    {
        let v = &voters[i];
        let ghost before = r@;
        proof {
            assert(vs[i as int] == v@);
            assert(cs[i as int].1 < candidates@.len());
        }
        if v.aggregator == a {
            let c = &candidates[v.candidate].id;
            r.insert(v.registered.voter_id.clone(), c.clone());
            proof {
                let own = mine(vs, a as int, i + 1);
                let was = mine(vs, a as int, i as int);
                assert(own == was.push(v@));
                lemma_distinct_mine(config, cs, vs, a as int, i + 1);
                let regs = registered_of(own);
                assert forall|k: int| 0 <= k < own.len() implies viewed(r@).dom().contains(
                    (#[trigger] own[k]).registered.voter_id,
                ) && viewed(r@)[own[k].registered.voter_id] == ids[own[k].candidate] by {
                    if k < was.len() {
                        assert(own[k] == was[k]);
                        assert(viewed(before).dom().contains(was[k].registered.voter_id));
                        assert(regs[k].voter_id != regs[own.len() - 1].voter_id);
                        assert(regs[k] == own[k].registered);
                        assert(regs[own.len() - 1] == v.registered@);
                    } else {
                        assert(ids[v.candidate as int] == c@);
                    }
                }
            }
        }
        i += 1;
    }
    r
}

// ---- one aggregator ---------------------------------------------------------------------

/// The sizes of the partitions of an aggregator's tally: one for each
/// candidate, none without a vote, and the padding.
pub open spec fn bench_sizes(config: &BenchmarkConfig, own: Seq<BenchVoterView>) -> Seq<usize> {
    let ids = bench_ids(config);
    let k = ids.len() as int;
    let n = domain_size_for(own.len() as int, k + 2);
    Seq::new(
        (k + 2) as nat,
        |j: int|
            if j < k {
                picks(ids, own, j, own.len() as int) as usize
            } else if j == k {
                0
            } else {
                (n - own.len()) as usize
            },
    )
}

/// Why the run of an aggregator stops, where nobody cancels it.
pub open spec fn stopped(
    config: &BenchmarkConfig,
    aid: Seq<char>,
    own: Seq<BenchVoterView>,
    e: ErrorView,
) -> bool {
    let eid = bench_eid(config);
    let voters = registered_of(own);
    let k = bench_ids(config).len() as int + 2;
    let n = domain_size_for(own.len() as int, k);
    if !all_accepted(eid, aid, voters) {
        some_refused(eid, aid, voters, e)
    } else if domain_error(n) is Some {
        domain_error(n) == Some(e)
    } else {
        ||| e == ErrorView::Epa(zero_blinder_text()) && !lone_partition(bench_sizes(config, own))
        ||| invalid_registration(config, aid, voters, e)
        ||| k > MAX_COUNT && invalid_tally(aid, e)
    }
}

/// The registration was found invalid. With accepted voters this is so only
/// where the signatures or the keys add up to zero.
pub open spec fn invalid_registration(
    config: &BenchmarkConfig,
    aid: Seq<char>,
    voters: Seq<VoterView>,
    e: ErrorView,
) -> bool {
    exists|post: RegistrationView|
        invalid_post(config, aid, voters, post) && e == #[trigger] invalid_post_error(config, post)
}

/// The validators' findings on a post.
pub open spec fn findings_on(config: &BenchmarkConfig, post: RegistrationView) -> Seq<Seq<char>> {
    registration_problems(
        bench_eid(config),
        bench_aggregators(config),
        bench_ids(config).len() as int + 2,
        post,
        true,
    )
}

pub open spec fn invalid_post(
    config: &BenchmarkConfig,
    aid: Seq<char>,
    voters: Seq<VoterView>,
    post: RegistrationView,
) -> bool {
    &&& finalized(bench_eid(config), bench_ids(config).len() as int + 2, aid, voters, 0, post)
    &&& findings_on(config, post).len() > 0
    &&& voters.len() > 0
    &&& post.aggregate_sigma == 0 || md(total(record_pks(post.voters))) == 0
}

pub open spec fn invalid_post_error(config: &BenchmarkConfig, post: RegistrationView) -> ErrorView {
    ErrorView::Benchmark(
        "registration validation failed: "@ + debug_shown(findings_on(config, post)),
    )
}

/// A tally was found invalid, with some messages.
pub open spec fn invalid_tally(aid: Seq<char>, e: ErrorView) -> bool {
    exists|errors: Seq<Seq<char>>| e == #[trigger] invalid_tally_error(aid, errors)
}

pub open spec fn invalid_tally_error(aid: Seq<char>, errors: Seq<Seq<char>>) -> ErrorView {
    ErrorView::Benchmark("tally verification failed for "@ + aid + ": "@ + debug_shown(errors))
}

/// What the run of one aggregator gives.
pub struct Measured {
    pub line: AggregatorBenchResult,
    pub post: TallyPost,
    pub verification: AggregatorVerification,
}

/// What is reported of an aggregator.
pub open spec fn line_of(
    config: &BenchmarkConfig,
    a: int,
    own: Seq<BenchVoterView>,
    line: &AggregatorBenchResult,
) -> bool {
    &&& line.aggregator_id@ == aggregator_name(a)
    &&& line.voters == own.len()
    &&& line.domain_size == domain_size_for(
        own.len() as int,
        bench_ids(config).len() as int + 2,
    )
    &&& line.pad_count == line.domain_size - line.voters
    &&& line.verified
}

/// What is reported belongs to a tally and its verification.
pub open spec fn line_for(
    a: int,
    line: &AggregatorBenchResult,
    post: TallyView,
    v: VerificationView,
) -> bool {
    &&& post.aggregator_id == aggregator_name(a)
    &&& v.aggregator_id == aggregator_name(a)
    &&& v.valid
    &&& line.epa_proving_ms == short_time(post.proving_time_ms)
    &&& line.epa_verification_ms == short_time(v.verification_time_ms)
    &&& line.proof_size_bytes == post.proof_size_bytes
}

pub(crate) fn event(stage: &str, message: String, aggregator: Option<String>, fraction: Option<(usize, usize)>) -> (e:
    ProgressEvent)
    ensures
        e.stage@ == stage@,
        e.message == message,
        e.aggregator == aggregator,
        e.fraction == fraction,
{
    ProgressEvent { stage: String::from_str(stage), message, aggregator, fraction }
}

/// The choices in the ballots are those of the voters.
proof fn lemma_ballots(
    b: Ballots,
    own: Seq<BenchVoterView>,
    j: int,
    count: int,
)
    requires
        b.records.len() == own.len(),
        forall|i: int|
            0 <= i < own.len() ==> (#[trigger] b.records[i]).voter_id
                == own[i].registered.voter_id,
        votes_match(b.votes, own, b.candidates),
        forall|i: int| 0 <= i < own.len() ==> 0 <= (#[trigger] own[i]).candidate < b.candidates.len(),
        0 <= count <= own.len(),
    ensures
        ballots_for(b, j, count) == picks(b.candidates, own, j, count),
        0 <= ballots_for(b, j, count) <= count,
    decreases count,
{
    if count > 0 {
        lemma_ballots(b, own, j, count - 1);
        let i = count - 1;
        let ids = b.candidates;
        assert(b.records[i].voter_id == own[i].registered.voter_id);
        assert(b.votes[own[i].registered.voter_id] == ids[own[i].candidate]);
        let id = ids[own[i].candidate];
        lemma_position_range(ids, id, ids.len() as int);
        assert(position_of(ids, id) is Some);
    }
}

/// Nobody picks a position behind the candidates.
proof fn lemma_picks_none(ids: Seq<Seq<char>>, own: Seq<BenchVoterView>, count: int)
    ensures
        picks(ids, own, ids.len() as int, count) == 0,
    decreases count,
{
    if count > 0 {
        lemma_picks_none(ids, own, count - 1);
        lemma_position_range(ids, ids[own[count - 1].candidate], ids.len() as int);
    }
}

/// The partitions of a tally have the sizes that the choices give.
proof fn lemma_bench_sizes(
    config: &BenchmarkConfig,
    b: Ballots,
    labels: LabelsView,
    reg: RegistrationView,
    own: Seq<BenchVoterView>,
)
    requires
        finalized(
            bench_eid(config),
            b.candidates.len() as int + 2,
            reg.aggregator_id,
            registered_of(own),
            0,
            reg,
        ),
        b.records == reg.voters,
        b.candidates == bench_ids(config),
        votes_match(b.votes, own, b.candidates),
        forall|i: int| 0 <= i < own.len() ==> 0 <= (#[trigger] own[i]).candidate < b.candidates.len(),
        tally_error(b, bench_eid(config), labels, reg) is None,
    ensures
        built_input(b, bench_eid(config), labels, reg).sizes == bench_sizes(config, own),
{
    let eid = bench_eid(config);
    let n = reg.domain_size as int;
    let ids = b.candidates;
    let regs = registered_of(own);
    assert forall|i: int| 0 <= i < own.len() implies (#[trigger] b.records[i]).voter_id
        == own[i].registered.voter_id && b.records[i].idx < n by {
        assert(record_of(eid, reg.aggregator_id, n, regs[i], i, reg.voters[i]));
    }
    assert(indices_below(b.records, n));
    lemma_tally_shape(b, eid, reg);
    let sizes = built_input(b, eid, labels, reg).sizes;
    let want = bench_sizes(config, own);
    assert forall|j: int| 0 <= j < want.len() implies #[trigger] sizes[j] == want[j] by {
        assert(sizes[j] == tally_witness(b, eid, reg).partitions[j].len() as usize);
        if j <= ids.len() {
            law_counts_votes(b, eid, reg, j);
            lemma_ballots(b, own, j, own.len() as int);
            lemma_picks_none(ids, own, own.len() as int);
        }
    }
    assert(sizes =~= want);
}

/// The tally of an aggregator counts the votes of its voters.
proof fn lemma_own_counts(
    config: &BenchmarkConfig,
    b: Ballots,
    labels: LabelsView,
    reg: RegistrationView,
    post: TallyView,
    own: Seq<BenchVoterView>,
)
    requires
        finalized(
            bench_eid(config),
            b.candidates.len() as int + 2,
            reg.aggregator_id,
            registered_of(own),
            0,
            reg,
        ),
        b.records == reg.voters,
        b.candidates == bench_ids(config),
        votes_match(b.votes, own, b.candidates),
        forall|i: int| 0 <= i < own.len() ==> 0 <= (#[trigger] own[i]).candidate < b.candidates.len(),
        tally_error(b, bench_eid(config), labels, reg) is None,
        tally_made(b, bench_eid(config), labels, reg, post),
    ensures
        own_counts(b.candidates, own, post),
{
    let eid = bench_eid(config);
    let n = reg.domain_size as int;
    let ids = b.candidates;
    let regs = registered_of(own);
    assert forall|i: int| 0 <= i < own.len() implies (#[trigger] b.records[i]).voter_id
        == own[i].registered.voter_id && b.records[i].idx < n by {
        assert(record_of(eid, reg.aggregator_id, n, regs[i], i, reg.voters[i]));
    }
    assert(indices_below(b.records, n));
    lemma_tally_shape(b, eid, reg);
    let sizes = built_input(b, eid, labels, reg).sizes;
    assert forall|j: int| 0 <= j < ids.len() implies #[trigger] post.candidate_counts[j] == picks(
        ids,
        own,
        j,
        own.len() as int,
    ) by {
        law_counts_votes(b, eid, reg, j);
        lemma_ballots(b, own, j, own.len() as int);
        assert(post.candidate_counts[j] == sizes[j]);
        assert(sizes[j] == tally_witness(b, eid, reg).partitions[j].len() as usize);
        assert(own.len() <= n);
    }
}

/// The candidates of the voters of an aggregator exist.
proof fn lemma_mine_candidates(
    config: &BenchmarkConfig,
    cs: Seq<(usize, usize)>,
    vs: Seq<BenchVoterView>,
    a: int,
)
    requires
        drawn(config, cs, vs),
        choices_ok(cs, config.aggregators as int, bench_ids(config).len() as int),
    ensures
        ({
            let own = mine(vs, a, vs.len() as int);
            forall|i: int|
                0 <= i < own.len() ==> 0 <= (#[trigger] own[i]).candidate < bench_ids(config).len()
                    && 0 <= own[i].registered.skv < modulus()
        }),
{
    let own = mine(vs, a, vs.len() as int);
    let at = lemma_mine_from(vs, a, vs.len() as int);
    assert forall|i: int| 0 <= i < own.len() implies 0 <= (#[trigger] own[i]).candidate < bench_ids(
        config,
    ).len() && 0 <= own[i].registered.skv < modulus() by {
        assert(own[i] == vs[at[i]]);
        assert(vs[at[i]].candidate == cs[at[i]].1);
        assert(cs[at[i]].1 < bench_ids(config).len());
    }
}

proof fn lemma_mine_short(vs: Seq<BenchVoterView>, a: int, count: int)
    requires
        0 <= count <= vs.len(),
    ensures
        mine(vs, a, count).len() <= count,
    decreases count,
{
    if count > 0 {
        lemma_mine_short(vs, a, count - 1);
    }
}

/// What the steps of a run need to know of each other.
pub open spec fn ready(
    config: &BenchmarkConfig,
    election: &ElectionParams,
    labels: LabelsView,
    cs: Seq<(usize, usize)>,
    vs: Seq<BenchVoterView>,
) -> bool {
    &&& election@ == bench_election(config)
    &&& candidate_ids(election.candidates@) == bench_ids(config)
    &&& election.partitions() == bench_ids(config).len() + 2
    &&& labels.candidates.len() == bench_ids(config).len()
    &&& benchable(config)
    &&& all_hashable(config)
    &&& cs.len() == config.voters
    &&& drawn(config, cs, vs)
    &&& choices_ok(cs, config.aggregators as int, bench_ids(config).len() as int)
}

/// The aggregator posts its registration, and the validators check it.
fn settle_registration<P: Fn(ProgressEvent)>(
    config: &BenchmarkConfig,
    election: &ElectionParams,
    aid: &String,
    a: usize,
    accepted: &Vec<RegisteredVoter>,
    progress: &P,
    Ghost(labels): Ghost<LabelsView>,
    Ghost(cs): Ghost<Seq<(usize, usize)>>,
    Ghost(vs): Ghost<Seq<BenchVoterView>>,
) -> (r: Result<(FinalizedRegistration, u64, u64)>)
    requires
        ready(config, election, labels, cs, vs),
        a < config.aggregators,
        aid@ == aggregator_name(a as int),
        voter_views(accepted@) == registered_of(mine(vs, a as int, vs.len() as int)),
        all_accepted(bench_eid(config), aid@, voter_views(accepted@)),
        forall|e: ProgressEvent| call_requires(*progress, (e,)),
    ensures
        ({
            let own = mine(vs, a as int, vs.len() as int);
            let k = bench_ids(config).len() as int + 2;
            match r {
                Ok((post, _, _)) => domain_error(
                    domain_size_for(own.len() as int, k),
                ) is None && finalized(
                    bench_eid(config),
                    k,
                    aid@,
                    registered_of(own),
                    0,
                    post@,
                ) && srs_exists(post.domain_size as int),
                Err(e) => stopped(config, aid@, own, e@),
            }
        }),
{
    let ghost own = mine(vs, a as int, vs.len() as int);
    let ghost k = bench_ids(config).len() as int + 2;
    let ghost regs = registered_of(own);
    let ghost eid = bench_eid(config);
    proof {
        lemma_mine_short(vs, a as int, vs.len() as int);
        lemma_mine_candidates(config, cs, vs, a as int);
        lemma_distinct_mine(config, cs, vs, a as int, vs.len() as int);
        assert(accepted@.len() == voter_views(accepted@).len());
        assert(delegation_hashable(eid, aggregator_name(a as int)));
        assert(bench_candidates(config).len() == bench_ids(config).len());
    }
    progress(
        event(
            "finalize",
            cat3("aggregator ", aid.as_str(), ": finalizing registration (tokens + EqLog)"),
            Some(aid.clone()),
            None,
        ),
    );
    let start = moment();
    let mut rng = seeded_rng(aggregator_seed(config.seed, a));
    let (post, _) = match finalize_registration(election, aid.as_str(), accepted, 0, &mut rng) {
        Ok(x) => x,
        Err(e) => {
            return Err(e);
        },
    };
    let finalization_ms = shorten(elapsed_millis(&start));
    progress(
        event(
            "validate-registration",
            cat2("validator: checking registration post of ", aid.as_str()),
            Some(aid.clone()),
            None,
        ),
    );
    let start = moment();
    proof {
        assert(srs_exists(post.domain_size as int));
        assert(texts(election.aggregators@) == bench_aggregators(config));
        assert(bench_aggregators(config)[a as int] == aid@);
        assert(bench_aggregators(config).contains(aid@));
        assert forall|i: int| 0 <= i < regs.len() implies 0 <= (#[trigger] regs[i]).skv < modulus() by {
            assert(0 <= own[i].registered.skv < modulus());
        }
        law_finalized_is_valid(eid, bench_aggregators(config), k, aid@, regs, 0, post@);
        assert(record_views(post.voters@).len() == post.voters@.len());
        assert forall|i: int| 0 <= i < post.voters@.len() implies (#[trigger] post.voters@[i]).idx
            < post.domain_size by {
            assert(record_of(eid, aid@, post.domain_size as int, regs[i], i, post@.voters[i]));
        }
    }
    let report = match validate_finalized_registration(election, &post, true) {
        Ok(report) => report,
        Err(e) => {
            return Err(e);
        },
    };
    if !report.ok() {
        let message = cat2("registration validation failed: ", debug_text(&report.errors).as_str());
        proof {
            assert(texts(report.errors@).len() == report.errors@.len());
            assert(invalid_post(config, aid@, regs, post@));
            assert(message@ == "registration validation failed: "@ + debug_shown(
                findings_on(config, post@),
            ));
            assert(ErrorView::Benchmark(message@) == invalid_post_error(config, post@));
        }
        return Err(AggiosError::Benchmark(message));
    }
    let validation_ms = shorten(elapsed_millis(&start));
    Ok((post, finalization_ms, validation_ms))
}

/// The aggregator proves its tally, and the validators verify it.
fn settle_tally<P: Fn(ProgressEvent)>(
    config: &BenchmarkConfig,
    election: &ElectionParams,
    labels: &ElectionLabels,
    aid: &String,
    a: usize,
    voters: &Vec<BenchVoter>,
    accepted: &Vec<RegisteredVoter>,
    finalized_post: &FinalizedRegistration,
    progress: &P,
    Ghost(cs): Ghost<Seq<(usize, usize)>>,
) -> (r: Result<(TallyPost, AggregatorVerification, u64)>)
    requires
        ready(config, election, labels@, cs, bench_views(voters@)),
        a < config.aggregators,
        aid@ == aggregator_name(a as int),
        voter_views(accepted@) == registered_of(
            mine(bench_views(voters@), a as int, voters@.len() as int),
        ),
        all_accepted(bench_eid(config), aid@, voter_views(accepted@)),
        domain_error(
            domain_size_for(accepted@.len() as int, bench_ids(config).len() as int + 2),
        ) is None,
        finalized(
            bench_eid(config),
            bench_ids(config).len() as int + 2,
            aid@,
            voter_views(accepted@),
            0,
            finalized_post@,
        ),
        srs_exists(finalized_post.domain_size as int),
        forall|e: ProgressEvent| call_requires(*progress, (e,)),
    ensures
        ({
            let own = mine(bench_views(voters@), a as int, voters@.len() as int);
            match r {
                Ok((post, v, _)) => post@.aggregator_id == aid@ && v.aggregator_id@ == aid@
                    && v.valid && own_counts(bench_ids(config), own, post@),
                Err(e) => stopped(config, aid@, own, e@),
            }
        }),
{
    let ghost vs = bench_views(voters@);
    let ghost own = mine(vs, a as int, vs.len() as int);
    let ghost ids = bench_ids(config);
    let ghost eid = bench_eid(config);
    let mut message = cat3("aggregator ", aid.as_str(), ": building tally and running EPA prover (domain ");
    push_decimal(&mut message, finalized_post.domain_size as u128);
    message.append(")");
    progress(event("prove", message, Some(aid.clone()), None));
    let votes = collect_votes(config, voters, a, &election.candidates, Ghost(cs));
    let start = moment();
    let ghost b = ballots_of(election, finalized_post, accepted, &votes);
    proof {
        lemma_mine_candidates(config, cs, vs, a as int);
        lemma_distinct_mine(config, cs, vs, a as int, vs.len() as int);
        assert(vs.len() == voters@.len());
        assert(voter_views(accepted@).len() == accepted@.len());
        assert(b.records == finalized_post@.voters);
        lemma_honest(config, b, labels@, finalized_post@, own);
    }
    let post = match build_and_prove_tally(election, labels, finalized_post, accepted, &votes) {
        Ok(post) => post,
        Err(e) => {
            proof {
                lemma_bench_sizes(config, b, labels@, finalized_post@, own);
            }
            return Err(e);
        },
    };
    let tally_ms = shorten(elapsed_millis(&start));
    progress(
        event(
            "verify",
            cat2("validator: verifying EPA proof of ", aid.as_str()),
            Some(aid.clone()),
            None,
        ),
    );
    proof {
        lemma_own_counts(config, b, labels@, finalized_post@, post@, own);
        if ids.len() + 2 <= MAX_COUNT {
            lemma_kept(post.sizes@, post.sizes@.len() as int);
            law_tally_verifies(b, eid, labels@, finalized_post@, post@);
        }
    }
    let verification = verify_aggregator_tally(election, labels, finalized_post, &post);
    if !verification.valid {
        let message = cat4(
            "tally verification failed for ",
            aid.as_str(),
            ": ",
            debug_text(&verification.errors).as_str(),
        );
        proof {
            assert(ErrorView::Benchmark(message@) == invalid_tally_error(
                aid@,
                texts(verification.errors@),
            ));
        }
        return Err(AggiosError::Benchmark(message));
    }
    Ok((post, verification, tally_ms))
}

/// An honest aggregator can prove the tally of its voters' votes.
proof fn lemma_honest(
    config: &BenchmarkConfig,
    b: Ballots,
    labels: LabelsView,
    reg: RegistrationView,
    own: Seq<BenchVoterView>,
)
    requires
        b.candidates == bench_ids(config),
        b.registered == registered_of(own),
        b.records == reg.voters,
        votes_match(b.votes, own, b.candidates),
        forall|i: int| 0 <= i < own.len() ==> 0 <= (#[trigger] own[i]).candidate < b.candidates.len(),
        distinct_voters(b.registered),
        labels.candidates.len() == b.candidates.len(),
        finalized(
            bench_eid(config),
            b.candidates.len() as int + 2,
            reg.aggregator_id,
            b.registered,
            0,
            reg,
        ),
        srs_exists(reg.domain_size as int),
    ensures
        tally_error(b, bench_eid(config), labels, reg) is None,
        indices_below(b.records, reg.domain_size as int),
        reg.real_registered_count + reg.pad_count <= reg.domain_size,
        reg.domain_size != 1,
        reg.c_commit == token_sum(reg.voters, reg.pad_tokens),
{
    let eid = bench_eid(config);
    let n = reg.domain_size as int;
    assert forall|i: int| 0 <= i < b.records.len() implies (#[trigger] b.records[i]).idx < n
        && b.records[i].voter_id == own[i].registered.voter_id by {
        assert(record_of(eid, reg.aggregator_id, n, b.registered[i], i, reg.voters[i]));
        assert(b.registered[i] == own[i].registered);
    }
    assert(votes_known(b)) by {
        assert forall|i: int|
            0 <= i < b.records.len() && b.votes.dom().contains((#[trigger] b.records[i]).voter_id)
            implies b.candidates.contains(b.votes[b.records[i].voter_id]) by {
            assert(b.votes[own[i].registered.voter_id] == b.candidates[own[i].candidate]);
        }
    }
    let bundle = choose|bundle: SrsBundle| #[trigger] bundle.wf() && bundle.spec_size() == n;
    law_honest_tally(b, eid, labels, reg, 0, &bundle);
}

/// Runs one aggregator: registration, tally, and what validators check.
pub(crate) fn run_aggregator<P: Fn(ProgressEvent)>(
    config: &BenchmarkConfig,
    election: &ElectionParams,
    labels: &ElectionLabels,
    voters: &Vec<BenchVoter>,
    a: usize,
    progress: &P,
    Ghost(cs): Ghost<Seq<(usize, usize)>>,
) -> (r: Result<Measured>)
    requires
        ready(config, election, labels@, cs, bench_views(voters@)),
        a < config.aggregators,
        forall|e: ProgressEvent| call_requires(*progress, (e,)),
    ensures
        ({
            let own = mine(bench_views(voters@), a as int, voters@.len() as int);
            match r {
                Ok(x) => line_of(config, a as int, own, &x.line) && line_for(
                    a as int,
                    &x.line,
                    x.post@,
                    x.verification@,
                ) && own_counts(bench_ids(config), own, x.post@),
                Err(e) => stopped(config, aggregator_name(a as int), own, e@),
            }
        }),
{
    let ghost vs = bench_views(voters@);
    let ghost own = mine(vs, a as int, vs.len() as int);
    proof {
        assert(texts(election.aggregators@) == bench_aggregators(config));
        assert(texts(election.aggregators@).len() == election.aggregators@.len());
        assert(texts(election.aggregators@)[a as int] == aggregator_name(a as int));
        assert(delegation_hashable(bench_eid(config), aggregator_name(a as int)));
        lemma_mine_short(vs, a as int, vs.len() as int);
    }
    let aid = &election.aggregators[a];
    let count = count_own(voters, a);
    let mut message = cat3("aggregator ", aid.as_str(), ": registering ");
    push_decimal(&mut message, count as u128);
    message.append(" voters");
    progress(
        event("registration", message, Some(aid.clone()), Some((a, election.aggregators.len()))),
    );
    let start = moment();
    let accepted = match register_voters(election.election_id.as_str(), aid.as_str(), voters, a) {
        Ok(list) => list,
        Err(e) => {
            return Err(e);
        },
    };
    let registration_ms = shorten(elapsed_millis(&start));
    proof {
        assert(voter_views(accepted@).len() == accepted@.len());
    }
    let (post, finalization_ms, registration_validation_ms) = match settle_registration(
        config,
        election,
        aid,
        a,
        &accepted,
        progress,
        Ghost(labels@),
        Ghost(cs),
        Ghost(vs),
    ) {
        Ok(x) => x,
        Err(e) => {
            return Err(e);
        },
    };
    let (tally, verification, tally_and_proving_ms) = match settle_tally(
        config,
        election,
        labels,
        aid,
        a,
        voters,
        &accepted,
        &post,
        progress,
        Ghost(cs),
    ) {
        Ok(x) => x,
        Err(e) => {
            return Err(e);
        },
    };
    let line = AggregatorBenchResult {
        aggregator_id: aid.clone(),
        voters: count,
        domain_size: post.domain_size,
        pad_count: post.pad_count,
        registration_ms,
        finalization_ms,
        registration_validation_ms,
        tally_and_proving_ms,
        epa_proving_ms: shorten(tally.proving_time_ms),
        epa_verification_ms: shorten(verification.verification_time_ms),
        proof_size_bytes: tally.proof_size_bytes,
        verified: verification.valid,
    };
    Ok(Measured { line, post: tally, verification })
}

/// The number of voters of an aggregator.
fn count_own(voters: &Vec<BenchVoter>, a: usize) -> (n: usize)
    ensures
        n == mine(bench_views(voters@), a as int, voters@.len() as int).len(),
{
    let ghost vs = bench_views(voters@);
    let mut n: usize = 0;
    let mut i: usize = 0;
    while i < voters.len()
        invariant
            i <= voters.len(),
            vs == bench_views(voters@),
            n == mine(vs, a as int, i as int).len(),
            n <= i,
        decreases voters.len() - i,
    {
        assert(vs[i as int] == voters@[i as int]@);
        if voters[i].aggregator == a {
            n += 1;
        }
        i += 1;
    }
    n
}

} // verus!
