//! What the checks of registration establish: which voters are accepted, what
//! is reported of a post, and what a post without reports satisfies.

use vstd::arithmetic::power2::pow2;
use vstd::prelude::*;

use crate::bls::{aggregate_delegation_valid, delegation_valid};
use crate::domain::{least_power_of_two, pad_value};
use crate::eqlog::{eqlog_valid, EqLogContextView};
use crate::error::ErrorView;
use crate::modular::md;
use crate::poly::power_of_two;
use crate::registration::{
    accept_error, all_voter_ids, basis_for, content_problems, commitment_problems,
    domain_size_for, flagged, least_domain, lemma_flagged_contains, misplaced, misplaced_text,
    record_pks, record_sigmas, registration_problems, repeated, repeated_across_text,
    repeated_text, signature_problems, taus, unlinked, unlinked_text, unsigned,
    unsigned_text, voter_ids, wrong_pad, wrong_pad_text, RecordView, RegistrationView,
};
use crate::sums::{lemma_sum_ext, sum};
use crate::text::decimal;

verus! {

// ---- accepting a voter -----------------------------------------------------

/// A voter is accepted exactly if the delegation signature is valid for this
/// election and aggregator, and the voting key belongs to the secret.
pub proof fn law_voter_accepted(
    eid: Seq<char>,
    aid: Seq<char>,
    vid: Seq<char>,
    pk: int,
    pkv: int,
    sigma: int,
    skv: int,
)
    ensures
        accept_error(eid, aid, vid, pk, pkv, sigma, skv) is None <==> delegation_valid(
            sigma,
            pk,
            eid,
            aid,
        ) && pkv == skv,
        !delegation_valid(sigma, pk, eid, aid) ==> accept_error(
            eid,
            aid,
            vid,
            pk,
            pkv,
            sigma,
            skv,
        ) == Some(
            ErrorView::Registration(
                "invalid delegation signature for voter "@ + vid + " to aggregator "@ + aid,
            ),
        ),
        delegation_valid(sigma, pk, eid, aid) && pkv != skv ==> accept_error(
            eid,
            aid,
            vid,
            pk,
            pkv,
            sigma,
            skv,
        ) == Some(
            ErrorView::Registration(
                "voting key mismatch for voter "@ + vid + ": skv does not match pkv"@,
            ),
        ),
{
}

// ---- the size of the domain ------------------------------------------------

/// The domain is a power of two with room for all voters and for one label
/// more than there are partitions, and half of it would not have that room.
pub proof fn law_domain_is_least(count: int, partitions: int, n: int)
    requires
        count >= 0,
        partitions >= 0,
        least_power_of_two(n, least_domain(count, partitions)),
    ensures
        domain_size_for(count, partitions) == n,
        power_of_two(n),
        n >= count,
        n > partitions,
        n == 1 || n < 2 * count || n < 2 * (partitions + 1),
{
    crate::registration::law_domain_size(count, partitions, n);
    let k = choose|k: nat| n == #[trigger] pow2(k);
    if k > 0 {
        vstd::arithmetic::power2::lemma_pow2_unfold(k);
        let half = pow2((k - 1) as nat);
        vstd::arithmetic::power2::lemma_pow2_pos((k - 1) as nat);
        assert(half < least_domain(count, partitions));
    } else {
        vstd::arithmetic::power2::lemma2_to64();
    }
}

// ---- what is reported ------------------------------------------------------

/// Position `i` holds a record whose index is another number.
pub open spec fn index_fault(post: RegistrationView, i: int, message: Seq<char>) -> bool {
    let r = post.voters[i];
    0 <= i < post.voters.len() && r.idx != i && message == "voter "@ + r.voter_id + " has index "@
        + decimal(r.idx as int) + " but position "@ + decimal(i)
}

/// The records at two positions are of one voter.
pub open spec fn repeat_fault(post: RegistrationView, j: int, i: int, message: Seq<char>) -> bool {
    0 <= j < i < post.voters.len() && post.voters[j].voter_id == post.voters[i].voter_id && message
        == "duplicate voter "@ + post.voters[i].voter_id + " in post"@
}

/// The signature of record `i` is not one of its voter for this aggregator.
pub open spec fn signature_fault(
    eid: Seq<char>,
    post: RegistrationView,
    i: int,
    message: Seq<char>,
) -> bool {
    let r = post.voters[i];
    0 <= i < post.voters.len() && !delegation_valid(r.sigma, r.pk, eid, post.aggregator_id)
        && message == "delegation signature invalid for voter "@ + r.voter_id
}

/// The proof of record `i` does not link its token to its voting key.
pub open spec fn link_fault(
    eid: Seq<char>,
    post: RegistrationView,
    i: int,
    message: Seq<char>,
) -> bool {
    let r = post.voters[i];
    0 <= i < post.voters.len() && r.idx < post.domain_size && !eqlog_valid(
        basis_for(post.domain_size as int)[r.idx as int],
        r.tau,
        r.pkv,
        r.eqlog,
        EqLogContextView {
            election_id: eid,
            aggregator_id: post.aggregator_id,
            voter_id: r.voter_id,
            local_index: r.idx as int,
            domain_size: post.domain_size as int,
        },
    ) && message == "EqLog proof invalid for voter "@ + r.voter_id
}

/// Padding token `p` is not the public scalar times its basis point.
pub open spec fn pad_fault(
    eid: Seq<char>,
    post: RegistrationView,
    p: int,
    message: Seq<char>,
) -> bool {
    0 <= p < post.pad_tokens.len() && post.pad_tokens[p] != md(
        basis_for(post.domain_size as int)[post.real_registered_count + p] * pad_value(
            eid,
            post.aggregator_id,
            p,
        ),
    ) && message == "padding token "@ + decimal(p) + " does not match derivation"@
}

/// Something is wrong with the contents of a post, and what is said of it.
pub open spec fn post_fault(
    eid: Seq<char>,
    post: RegistrationView,
    use_aggregate: bool,
    message: Seq<char>,
) -> bool {
    ||| exists|i: int| #[trigger] index_fault(post, i, message)
    ||| exists|j: int, i: int| #[trigger] repeat_fault(post, j, i, message)
    ||| use_aggregate && message == "aggregate delegation signature invalid"@
        && !aggregate_delegation_valid(
        post.aggregate_sigma,
        Seq::new(post.voters.len(), |i: int| post.voters[i].pk),
        eid,
        post.aggregator_id,
    )
    ||| !use_aggregate && exists|i: int| #[trigger] signature_fault(eid, post, i, message)
    ||| !use_aggregate && message == "aggregate signature does not match individual signatures"@
        && post.aggregate_sigma != md(
        sum(|i: int| post.voters[i].sigma, post.voters.len() as int),
    )
    ||| exists|i: int| #[trigger] link_fault(eid, post, i, message)
    ||| exists|p: int| #[trigger] pad_fault(eid, post, p, message)
    ||| message == "C_commit does not equal the sum of registration tokens"@ && post.c_commit != md(
        sum(|i: int| post.voters[i].tau, post.voters.len() as int) + sum(
            |p: int| post.pad_tokens[p],
            post.pad_tokens.len() as int,
        ),
    )
}

/// The post is from an aggregator of the election, for the domain that its
/// number of voters calls for, and its counts fit together.
pub open spec fn post_in_shape(
    aggregators: Seq<Seq<char>>,
    partitions: int,
    post: RegistrationView,
) -> bool {
    &&& aggregators.contains(post.aggregator_id)
    &&& post.domain_size == domain_size_for(post.real_registered_count as int, partitions)
    &&& post.voters.len() == post.real_registered_count
    &&& post.pad_tokens.len() == post.pad_count
    &&& post.real_registered_count + post.pad_count == post.domain_size
}

proof fn lemma_flagged_means(
    n: int,
    wrong: spec_fn(int) -> bool,
    message: spec_fn(int) -> Seq<char>,
    m: Seq<char>,
)
    ensures
        flagged(n, wrong, message).contains(m) ==> exists|k: int|
            0 <= k < n && #[trigger] wrong(k) && message(k) == m,
    decreases n,
{
    if n > 0 {
        lemma_flagged_means(n - 1, wrong, message, m);
        let all = flagged(n, wrong, message);
        let before = flagged(n - 1, wrong, message);
        if all.contains(m) {
            let i = choose|i: int| 0 <= i < all.len() && all[i] == m;
            if i < before.len() {
                assert(before[i] == m);
                assert(before.contains(m));
                let k = choose|k: int| 0 <= k < n - 1 && #[trigger] wrong(k) && message(k) == m;
                assert(wrong(k));
            } else {
                assert(wrong(n - 1) && message(n - 1) == m);
            }
        }
    }
}

proof fn lemma_sum_contains(a: Seq<Seq<char>>, b: Seq<Seq<char>>, m: Seq<char>)
    ensures
        (a + b).contains(m) <==> a.contains(m) || b.contains(m),
{
    let c = a + b;
    if a.contains(m) {
        let i = choose|i: int| 0 <= i < a.len() && a[i] == m;
        assert(c[i] == m);
    }
    if b.contains(m) {
        let i = choose|i: int| 0 <= i < b.len() && b[i] == m;
        assert(c[a.len() + i] == m);
    }
    if c.contains(m) {
        let i = choose|i: int| 0 <= i < c.len() && c[i] == m;
        if i < a.len() {
            assert(a[i] == m);
        } else {
            assert(b[i - a.len()] == m);
        }
    }
}

proof fn lemma_index_part(post: RegistrationView, m: Seq<char>)
    ensures
        flagged(
            post.voters.len() as int,
            misplaced(post.voters),
            misplaced_text(post.voters),
        ).contains(m) <==> exists|i: int| #[trigger] index_fault(post, i, m),
{
    let (wrong, text) = (misplaced(post.voters), misplaced_text(post.voters));
    let n = post.voters.len() as int;
    lemma_flagged_means(n, wrong, text, m);
    if flagged(n, wrong, text).contains(m) {
        let k = choose|k: int| 0 <= k < n && #[trigger] wrong(k) && text(k) == m;
        assert(index_fault(post, k, m));
    }
    if exists|i: int| #[trigger] index_fault(post, i, m) {
        let i = choose|i: int| #[trigger] index_fault(post, i, m);
        assert(wrong(i));
        lemma_flagged_contains(n, wrong, text, i);
    }
}

proof fn lemma_repeat_part(post: RegistrationView, m: Seq<char>)
    ensures
        flagged(
            post.voters.len() as int,
            repeated(voter_ids(post.voters)),
            repeated_text(voter_ids(post.voters)),
        ).contains(m) <==> exists|j: int, i: int| #[trigger] repeat_fault(post, j, i, m),
{
    let ids = voter_ids(post.voters);
    let (wrong, text) = (repeated(ids), repeated_text(ids));
    let n = post.voters.len() as int;
    lemma_flagged_means(n, wrong, text, m);
    if flagged(n, wrong, text).contains(m) {
        let k = choose|k: int| 0 <= k < n && #[trigger] wrong(k) && text(k) == m;
        let before = ids.take(k);
        let j = choose|j: int| 0 <= j < before.len() && before[j] == ids[k];
        assert(ids[j] == ids[k]);
        assert(repeat_fault(post, j, k, m));
    }
    if exists|j: int, i: int| #[trigger] repeat_fault(post, j, i, m) {
        let (j, i) = choose|j: int, i: int| #[trigger] repeat_fault(post, j, i, m);
        assert(ids.take(i)[j] == ids[i]);
        assert(wrong(i));
        lemma_flagged_contains(n, wrong, text, i);
    }
}

proof fn lemma_link_part(eid: Seq<char>, post: RegistrationView, m: Seq<char>)
    ensures
        flagged(
            post.voters.len() as int,
            unlinked(eid, post),
            unlinked_text(post.voters),
        ).contains(m) <==> exists|i: int| #[trigger] link_fault(eid, post, i, m),
{
    let (wrong, text) = (unlinked(eid, post), unlinked_text(post.voters));
    let n = post.voters.len() as int;
    lemma_flagged_means(n, wrong, text, m);
    if flagged(n, wrong, text).contains(m) {
        let k = choose|k: int| 0 <= k < n && #[trigger] wrong(k) && text(k) == m;
        assert(link_fault(eid, post, k, m));
    }
    if exists|i: int| #[trigger] link_fault(eid, post, i, m) {
        let i = choose|i: int| #[trigger] link_fault(eid, post, i, m);
        assert(wrong(i));
        lemma_flagged_contains(n, wrong, text, i);
    }
}

proof fn lemma_pad_part(eid: Seq<char>, post: RegistrationView, m: Seq<char>)
    ensures
        flagged(post.pad_tokens.len() as int, wrong_pad(eid, post), wrong_pad_text()).contains(m)
            <==> exists|p: int| #[trigger] pad_fault(eid, post, p, m),
{
    let (wrong, text) = (wrong_pad(eid, post), wrong_pad_text());
    let n = post.pad_tokens.len() as int;
    lemma_flagged_means(n, wrong, text, m);
    if flagged(n, wrong, text).contains(m) {
        let k = choose|k: int| 0 <= k < n && #[trigger] wrong(k) && text(k) == m;
        assert(pad_fault(eid, post, k, m));
    }
    if exists|p: int| #[trigger] pad_fault(eid, post, p, m) {
        let p = choose|p: int| #[trigger] pad_fault(eid, post, p, m);
        assert(wrong(p));
        lemma_flagged_contains(n, wrong, text, p);
    }
}

proof fn lemma_signature_part(
    eid: Seq<char>,
    post: RegistrationView,
    use_aggregate: bool,
    m: Seq<char>,
)
    ensures
        signature_problems(post, eid, use_aggregate).contains(m) <==> {
            ||| use_aggregate && m == "aggregate delegation signature invalid"@
                && !aggregate_delegation_valid(
                post.aggregate_sigma,
                Seq::new(post.voters.len(), |i: int| post.voters[i].pk),
                eid,
                post.aggregator_id,
            )
            ||| !use_aggregate && exists|i: int| #[trigger] signature_fault(eid, post, i, m)
            ||| !use_aggregate && m == "aggregate signature does not match individual signatures"@
                && post.aggregate_sigma != md(
                sum(|i: int| post.voters[i].sigma, post.voters.len() as int),
            )
        },
{
    let aid = post.aggregator_id;
    let n = post.voters.len() as int;
    assert(record_pks(post.voters) =~= Seq::new(n as nat, |i: int| post.voters[i].pk));
    let s = record_sigmas(post.voters);
    lemma_sum_ext(|i: int| s[i], |i: int| post.voters[i].sigma, n);
    if use_aggregate {
        let one = seq!["aggregate delegation signature invalid"@];
        assert(one[0] == "aggregate delegation signature invalid"@);
        assert(one.contains(m) <==> m == "aggregate delegation signature invalid"@);
    } else {
        let (wrong, text) = (unsigned(eid, aid, post.voters), unsigned_text(post.voters));
        lemma_flagged_means(n, wrong, text, m);
        let single = flagged(n, wrong, text);
        if single.contains(m) {
            let k = choose|k: int| 0 <= k < n && #[trigger] wrong(k) && text(k) == m;
            assert(signature_fault(eid, post, k, m));
        }
        if exists|i: int| #[trigger] signature_fault(eid, post, i, m) {
            let i = choose|i: int| #[trigger] signature_fault(eid, post, i, m);
            assert(wrong(i));
            lemma_flagged_contains(n, wrong, text, i);
        }
        let text = "aggregate signature does not match individual signatures"@;
        let one = seq![text];
        assert(one[0] == text);
        assert(one.contains(m) <==> m == text);
        lemma_sum_contains(single, one, m);
        lemma_sum_contains(single, Seq::empty(), m);
    }
}

proof fn lemma_commitment_part(post: RegistrationView, m: Seq<char>)
    ensures
        commitment_problems(post).contains(m) <==> m
            == "C_commit does not equal the sum of registration tokens"@ && post.c_commit != md(
            sum(|i: int| post.voters[i].tau, post.voters.len() as int) + sum(
                |p: int| post.pad_tokens[p],
                post.pad_tokens.len() as int,
            ),
        ),
{
    let t = taus(post.voters);
    lemma_sum_ext(|i: int| t[i], |i: int| post.voters[i].tau, t.len() as int);
    let text = "C_commit does not equal the sum of registration tokens"@;
    let one = seq![text];
    assert(one[0] == text);
    assert(one.contains(m) <==> m == text);
}

/// Of a post in shape, all that is wrong with its contents is reported and
/// nothing else: every index, every repeated voter, every proof of equal
/// logarithms, every padding token and the commitment, whichever way the
/// signatures are checked; and the signatures, each by itself or by their sum.
pub proof fn law_post_faults_reported(
    eid: Seq<char>,
    aggregators: Seq<Seq<char>>,
    partitions: int,
    post: RegistrationView,
    use_aggregate: bool,
    message: Seq<char>,
)
    requires
        post_in_shape(aggregators, partitions, post),
    ensures
        registration_problems(eid, aggregators, partitions, post, use_aggregate).contains(message)
            <==> post_fault(eid, post, use_aggregate, message),
{
    let voters = post.voters;
    let n = voters.len() as int;
    let ids = voter_ids(voters);
    let a = flagged(n, misplaced(voters), misplaced_text(voters));
    let b = flagged(n, repeated(ids), repeated_text(ids));
    let c = signature_problems(post, eid, use_aggregate);
    let d = flagged(n, unlinked(eid, post), unlinked_text(voters));
    let e = flagged(post.pad_tokens.len() as int, wrong_pad(eid, post), wrong_pad_text());
    let f = commitment_problems(post);
    lemma_index_part(post, message);
    lemma_repeat_part(post, message);
    lemma_signature_part(eid, post, use_aggregate, message);
    lemma_link_part(eid, post, message);
    lemma_pad_part(eid, post, message);
    lemma_commitment_part(post, message);
    lemma_sum_contains(a, b, message);
    lemma_sum_contains(a + b, c, message);
    lemma_sum_contains(a + b + c, d, message);
    lemma_sum_contains(a + b + c + d, e, message);
    lemma_sum_contains(a + b + c + d + e, f, message);
    assert(registration_problems(eid, aggregators, partitions, post, use_aggregate)
        == content_problems(eid, post, use_aggregate));
}

/// Of a post that is not in shape, the first thing that is wrong is reported.
pub proof fn law_misshapen_post_reported(
    eid: Seq<char>,
    aggregators: Seq<Seq<char>>,
    partitions: int,
    post: RegistrationView,
    use_aggregate: bool,
)
    requires
        !post_in_shape(aggregators, partitions, post),
    ensures
        ({
            let expected = domain_size_for(post.real_registered_count as int, partitions);
            registration_problems(eid, aggregators, partitions, post, use_aggregate) == seq![
                if !aggregators.contains(post.aggregator_id) {
                    "unknown aggregator "@ + post.aggregator_id
                } else if post.domain_size != expected {
                    "domain size "@ + decimal(post.domain_size as int)
                        + " does not match expected "@ + decimal(expected)
                } else {
                    "inconsistent registration counts"@
                },
            ]
        }),
{
}

/// A post of which nothing is reported is in shape; its records are at their
/// indices, of different voters, and each is linked to its voting key; the
/// padding tokens are the public ones; the commitment is the sum of all
/// tokens; and the signatures are valid, each or by their sum.
pub proof fn law_unreported_post(
    eid: Seq<char>,
    aggregators: Seq<Seq<char>>,
    partitions: int,
    post: RegistrationView,
    use_aggregate: bool,
)
    requires
        registration_problems(eid, aggregators, partitions, post, use_aggregate).len() == 0,
    ensures
        post_in_shape(aggregators, partitions, post),
        forall|i: int| 0 <= i < post.voters.len() ==> (#[trigger] post.voters[i]).idx == i,
        forall|j: int, i: int|
            0 <= j < i < post.voters.len() ==> (#[trigger] post.voters[j]).voter_id != (
            #[trigger] post.voters[i]).voter_id,
        forall|i: int|
            0 <= i < post.voters.len() ==> linked(eid, post, #[trigger] post.voters[i], i),
        forall|p: int|
            0 <= p < post.pad_tokens.len() ==> #[trigger] post.pad_tokens[p] == md(
                basis_for(post.domain_size as int)[post.real_registered_count + p] * pad_value(
                    eid,
                    post.aggregator_id,
                    p,
                ),
            ),
        post.c_commit == md(
            sum(|i: int| post.voters[i].tau, post.voters.len() as int) + sum(
                |p: int| post.pad_tokens[p],
                post.pad_tokens.len() as int,
            ),
        ),
        use_aggregate ==> aggregate_delegation_valid(
            post.aggregate_sigma,
            Seq::new(post.voters.len(), |i: int| post.voters[i].pk),
            eid,
            post.aggregator_id,
        ),
        !use_aggregate ==> forall|i: int|
            0 <= i < post.voters.len() ==> delegation_valid(
                (#[trigger] post.voters[i]).sigma,
                post.voters[i].pk,
                eid,
                post.aggregator_id,
            ),
        !use_aggregate ==> post.aggregate_sigma == md(
            sum(|i: int| post.voters[i].sigma, post.voters.len() as int),
        ),
{
    let all = registration_problems(eid, aggregators, partitions, post, use_aggregate);
    if !post_in_shape(aggregators, partitions, post) {
        law_misshapen_post_reported(eid, aggregators, partitions, post, use_aggregate);
    }
    assert forall|m: Seq<char>| !#[trigger] post_fault(eid, post, use_aggregate, m) by {
        law_post_faults_reported(eid, aggregators, partitions, post, use_aggregate, m);
    }
    let agg = "aggregate delegation signature invalid"@;
    let sum_text = "aggregate signature does not match individual signatures"@;
    let commit = "C_commit does not equal the sum of registration tokens"@;
    assert(!post_fault(eid, post, use_aggregate, agg));
    assert(!post_fault(eid, post, use_aggregate, sum_text));
    assert(!post_fault(eid, post, use_aggregate, commit));
    assert forall|i: int| 0 <= i < post.voters.len() implies (#[trigger] post.voters[i]).idx == i by {
        let r = post.voters[i];
        let m = "voter "@ + r.voter_id + " has index "@ + decimal(r.idx as int) + " but position "@
            + decimal(i);
        assert(!post_fault(eid, post, use_aggregate, m));
        assert(!index_fault(post, i, m));
    }
    assert forall|j: int, i: int| 0 <= j < i < post.voters.len() implies (
    #[trigger] post.voters[j]).voter_id != (#[trigger] post.voters[i]).voter_id by {
        let m = "duplicate voter "@ + post.voters[i].voter_id + " in post"@;
        assert(!post_fault(eid, post, use_aggregate, m));
        assert(!repeat_fault(post, j, i, m));
    }
    assert forall|i: int| 0 <= i < post.voters.len() implies linked(
        eid,
        post,
        #[trigger] post.voters[i],
        i,
    ) by {
        let m = "EqLog proof invalid for voter "@ + post.voters[i].voter_id;
        assert(post.voters[i].idx == i);
        assert(!post_fault(eid, post, use_aggregate, m));
        assert(!link_fault(eid, post, i, m));
    }
    assert forall|p: int| 0 <= p < post.pad_tokens.len() implies #[trigger] post.pad_tokens[p]
        == md(
        basis_for(post.domain_size as int)[post.real_registered_count + p] * pad_value(
            eid,
            post.aggregator_id,
            p,
        ),
    ) by {
        let m = "padding token "@ + decimal(p) + " does not match derivation"@;
        assert(!post_fault(eid, post, use_aggregate, m));
        assert(!pad_fault(eid, post, p, m));
    }
    if !use_aggregate {
        assert forall|i: int| 0 <= i < post.voters.len() implies delegation_valid(
            (#[trigger] post.voters[i]).sigma,
            post.voters[i].pk,
            eid,
            post.aggregator_id,
        ) by {
            let m = "delegation signature invalid for voter "@ + post.voters[i].voter_id;
            assert(!post_fault(eid, post, use_aggregate, m));
            assert(!signature_fault(eid, post, i, m));
        }
    }
}

/// The record's proof is valid for its token and voting key, in the slot with
/// number `i` of the aggregator's domain.
pub open spec fn linked(eid: Seq<char>, post: RegistrationView, r: RecordView, i: int) -> bool {
    eqlog_valid(
        basis_for(post.domain_size as int)[i],
        r.tau,
        r.pkv,
        r.eqlog,
        EqLogContextView {
            election_id: eid,
            aggregator_id: post.aggregator_id,
            voter_id: r.voter_id,
            local_index: i,
            domain_size: post.domain_size as int,
        },
    )
}

// ---- one aggregator for each voter -----------------------------------------

/// The voter with an id is in the post with number `p`, at position `i`.
pub open spec fn posted_at(posts: Seq<RegistrationView>, p: int, i: int, id: Seq<char>) -> bool {
    0 <= p < posts.len() && 0 <= i < posts[p].voters.len() && posts[p].voters[i].voter_id == id
}

/// Two records of some posts are of one voter.
pub open spec fn posted_twice(posts: Seq<RegistrationView>, id: Seq<char>) -> bool {
    exists|p: int, i: int, q: int, j: int|
        #[trigger] posted_at(posts, p, i, id) && #[trigger] posted_at(posts, q, j, id) && (p != q
            || i != j)
}

/// The place of a record among the ids of all posts.
proof fn lemma_place_of(posts: Seq<RegistrationView>, p: int, i: int) -> (at: int)
    requires
        0 <= p < posts.len(),
        0 <= i < posts[p].voters.len(),
    ensures
        0 <= at < all_voter_ids(posts).len(),
        all_voter_ids(posts)[at] == posts[p].voters[i].voter_id,
        at == all_voter_ids(posts.take(p)).len() + i,
        at < all_voter_ids(posts.take(p + 1)).len(),
    decreases posts.len(),
{
    let rest = posts.drop_last();
    if p == posts.len() - 1 {
        assert(rest =~= posts.take(p));
        assert(posts.take(p + 1) =~= posts);
        all_voter_ids(rest).len() as int + i
    } else {
        let at = lemma_place_of(rest, p, i);
        assert(rest.take(p) =~= posts.take(p));
        assert(rest.take(p + 1) =~= posts.take(p + 1));
        at
    }
}

proof fn lemma_ids_grow(posts: Seq<RegistrationView>, a: int, b: int)
    requires
        0 <= a <= b <= posts.len(),
    ensures
        all_voter_ids(posts.take(a)).len() <= all_voter_ids(posts.take(b)).len(),
    decreases b,
{
    if a < b {
        lemma_ids_grow(posts, a, b - 1);
        assert(posts.take(b).drop_last() =~= posts.take(b - 1));
    }
}

proof fn lemma_record_at(posts: Seq<RegistrationView>, at: int) -> (r: (int, int))
    requires
        0 <= at < all_voter_ids(posts).len(),
    ensures
        posted_at(posts, r.0, r.1, all_voter_ids(posts)[at]),
        at == all_voter_ids(posts.take(r.0)).len() + r.1,
    decreases posts.len(),
{
    let rest = posts.drop_last();
    let before = all_voter_ids(rest);
    if at < before.len() {
        let r = lemma_record_at(rest, at);
        assert(rest.take(r.0) =~= posts.take(r.0));
        assert(posts[r.0] == rest[r.0]);
        r
    } else {
        assert(rest =~= posts.take(posts.len() - 1));
        (posts.len() - 1, at - before.len())
    }
}

/// A voter is reported over all posts exactly if two records, of two posts or
/// of one, are of that voter.
pub proof fn law_duplicates_reported(posts: Seq<RegistrationView>, id: Seq<char>)
    ensures
        ({
            let ids = all_voter_ids(posts);
            posted_twice(posts, id) ==> flagged(
                ids.len() as int,
                repeated(ids),
                repeated_across_text(ids),
            ).contains("voter "@ + id + " registered under more than one aggregator"@)
        }),
        ({
            let ids = all_voter_ids(posts);
            flagged(ids.len() as int, repeated(ids), repeated_across_text(ids)).len() == 0
                <==> forall|v: Seq<char>| !#[trigger] posted_twice(posts, v)
        }),
{
    let ids = all_voter_ids(posts);
    let n = ids.len() as int;
    let (wrong, text) = (repeated(ids), repeated_across_text(ids));
    let all = flagged(n, wrong, text);
    assert forall|v: Seq<char>| #[trigger] posted_twice(posts, v) implies all.contains(
        "voter "@ + v + " registered under more than one aggregator"@,
    ) by {
        let (p, i, q, j) = choose|p: int, i: int, q: int, j: int|
            #[trigger] posted_at(posts, p, i, v) && #[trigger] posted_at(posts, q, j, v) && (p != q
                || i != j);
        let a = lemma_place_of(posts, p, i);
        let b = lemma_place_of(posts, q, j);
        if p < q {
            lemma_ids_grow(posts, p + 1, q);
        } else if q < p {
            lemma_ids_grow(posts, q + 1, p);
        }
        let (low, high) = if a < b {
            (a, b)
        } else {
            (b, a)
        };
        assert(ids.take(high)[low] == ids[high]);
        assert(wrong(high));
        lemma_flagged_contains(n, wrong, text, high);
    }
    if all.len() == 0 {
        assert forall|v: Seq<char>| !#[trigger] posted_twice(posts, v) by {
            if posted_twice(posts, v) {
                assert(all.contains("voter "@ + v + " registered under more than one aggregator"@));
            }
        }
    } else {
        assert(all.contains(all[0]));
        lemma_flagged_means(n, wrong, text, all[0]);
        let k = choose|k: int| 0 <= k < n && #[trigger] wrong(k) && text(k) == all[0];
        let before = ids.take(k);
        let j = choose|j: int| 0 <= j < before.len() && before[j] == ids[k];
        assert(ids[j] == ids[k]);
        let r = lemma_record_at(posts, j);
        let s = lemma_record_at(posts, k);
        assert(posted_at(posts, r.0, r.1, ids[k]) && posted_at(posts, s.0, s.1, ids[k]));
        assert(posted_twice(posts, ids[k]));
    }
}

} // verus!
