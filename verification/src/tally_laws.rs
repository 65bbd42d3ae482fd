//! What holds of every tally: an honest one can be proved, a proved one is
//! found valid, and its sizes count the votes.

use vstd::prelude::*;

use crate::domain::pad_value;
use crate::epa::completeness::{flat, partition};
use crate::epa::partition_math::distinct_below;
use crate::epa_adapter::{
    epa_valid, index_error, input_error, kept_positions, label_index_error, label_numbers,
    lemma_kept, lemma_srs, partition_error, prove_error, size_total, srs, token_commitment, witness_error, SrsBundle,
    WitnessView,
};
use crate::epa::structs::ProofView;
use crate::labels::LabelsView;
use crate::proof_bytes::MAX_COUNT;
use crate::registration::{
    distinct_voters, finalized, law_commitment_of_tokens, record_of, token_sum, token_values,
    RegistrationView,
};
use crate::tally::{
    ballot_error, built_input, cast_ballots, choice, indices_below, lemma_cast_shape,
    lemma_choice_range, lemma_padding_shape, lemma_position_range, lemma_tally_shape, position_of,
    posted_input, registered_ids, secret, size_problems, sizes_of, srs_error, tally_error,
    tally_made, tally_problems, tally_proof, tally_verdict, tally_witness, with_padding, Ballots,
    TallyView,
};

verus! {

/// The number of the first `count` ballots that go to partition `j`.
pub open spec fn ballots_for(b: Ballots, j: int, count: int) -> int
    decreases count,
{
    if count <= 0 {
        0
    } else {
        ballots_for(b, j, count - 1) + if choice(b, count - 1) == j {
            1int
        } else {
            0int
        }
    }
}

proof fn lemma_cast_counts(b: Ballots, n: int, j: int, count: int)
    requires
        0 <= count <= b.records.len(),
        n >= 0,
        indices_below(b.records, n),
        ballot_error(b, count) is None,
        0 <= j <= b.candidates.len(),
    ensures
        cast_ballots(b, n, count).partitions[j].len() == ballots_for(b, j, count),
    decreases count,
{
    if count > 0 {
        lemma_cast_counts(b, n, j, count - 1);
        lemma_cast_shape(b, n, count - 1);
        lemma_choice_range(b, count - 1, count);
    }
}

/// A tally counts each voter once: under the candidate who was voted for, or
/// under no vote. Padding is counted by itself.
pub proof fn law_counts_votes(b: Ballots, eid: Seq<char>, reg: RegistrationView, j: int)
    requires
        indices_below(b.records, reg.domain_size as int),
        reg.real_registered_count + reg.pad_count <= reg.domain_size,
        ballot_error(b, b.records.len() as int) is None,
        0 <= j <= b.candidates.len(),
    ensures
        tally_witness(b, eid, reg).partitions[j].len() == ballots_for(
            b,
            j,
            b.records.len() as int,
        ),
        tally_witness(b, eid, reg).partitions[b.candidates.len() as int + 1].len()
            == reg.pad_count,
{
    let n = reg.domain_size as int;
    let count = b.records.len() as int;
    lemma_tally_shape(b, eid, reg);
    lemma_cast_shape(b, n, count);
    lemma_cast_counts(b, n, j, count);
    let w = cast_ballots(b, n, count);
    let (start, pads) = (reg.real_registered_count as int, reg.pad_count as int);
    lemma_padding_shape(w, eid, reg.aggregator_id, start, pads);
    assert(with_padding(w, eid, reg.aggregator_id, start, pads).partitions[j] == w.partitions[j]);
}

/// A tally that was made for a registration post is found valid, unless it has
/// more partitions that are not empty than a proof's lists may have members.
pub proof fn law_tally_verifies(
    b: Ballots,
    eid: Seq<char>,
    labels: LabelsView,
    reg: RegistrationView,
    post: TallyView,
)
    requires
        indices_below(b.records, reg.domain_size as int),
        reg.real_registered_count + reg.pad_count <= reg.domain_size,
        reg.c_commit == token_sum(reg.voters, reg.pad_tokens),
        kept_positions(post.sizes).len() <= MAX_COUNT,
        tally_error(b, eid, labels, reg) is None,
        tally_made(b, eid, labels, reg, post),
    ensures
        tally_verdict(eid, b.candidates.len() as int + 2, labels, reg, post) == (
            true,
            Seq::<Seq<char>>::empty(),
        ),
{
    let k = b.candidates.len() as int + 2;
    let witness = tally_witness(b, eid, reg);
    let input = built_input(b, eid, labels, reg);
    lemma_tally_shape(b, eid, reg);
    let none = Seq::<Seq<char>>::empty();
    assert(post.sizes.len() == k);
    assert(post.sizes[k - 1] == witness.partitions[k - 1].len());
    assert(size_problems(k, reg, post) =~= none);
    assert(tally_problems(k, labels, reg, post) =~= none);
    let view = choose|view: ProofView| #[trigger]
        tally_proof(input, witness, view, post.proof_bytes);
    lemma_kept(input.sizes, input.sizes.len() as int);
    assert(posted_input(eid, labels, reg, post) =~= input);
    assert(epa_valid(&srs(input.domain_size as int), input, view));
    assert(input_error(input, input.domain_size as int) is None) by {
        let n = reg.domain_size as int;
        assert(prove_error(&srs(n), input, witness) is None);
        let bundle = choose|bundle: SrsBundle|
            #[trigger] bundle.wf() && bundle.spec_size() == input.domain_size
                && crate::epa_adapter::proved(&bundle, input, witness, view);
        lemma_srs(&bundle);
    }
}

// ---- an honest tally can be proved -----------------------------------------

proof fn lemma_flat_push(lists: Seq<Seq<int>>, j: int, x: int)
    requires
        0 <= j < lists.len(),
    ensures
        flat(lists.update(j, lists[j].push(x))).to_multiset() == flat(lists).to_multiset().insert(
            x,
        ),
    decreases lists.len(),
{
    let now = lists.update(j, lists[j].push(x));
    let (a, l) = (lists.drop_last(), lists.last());
    vstd::seq_lib::lemma_multiset_commutative(flat(a), l);
    if j == lists.len() - 1 {
        assert(now.drop_last() =~= a);
        assert(now.last() == l.push(x));
        vstd::seq_lib::lemma_multiset_commutative(flat(a), l.push(x));
        vstd::seq_lib::to_multiset_build(l, x);
        assert(flat(now).to_multiset() =~= flat(lists).to_multiset().insert(x));
    } else {
        lemma_flat_push(a, j, x);
        assert(now.drop_last() =~= a.update(j, a[j].push(x)));
        assert(now.last() == l);
        vstd::seq_lib::lemma_multiset_commutative(flat(now.drop_last()), l);
        assert(flat(now).to_multiset() =~= flat(lists).to_multiset().insert(x));
    }
}

/// 0, 1, and so on.
pub open spec fn positions(n: int) -> Seq<int> {
    Seq::new(n as nat, |i: int| i)
}

proof fn lemma_positions_push(n: int)
    requires
        n >= 0,
    ensures
        positions(n + 1).to_multiset() == positions(n).to_multiset().insert(n),
{
    assert(positions(n + 1) =~= positions(n).push(n));
    vstd::seq_lib::to_multiset_build(positions(n), n);
}

/// Empty lists hold nothing.
proof fn lemma_flat_empty(lists: Seq<Seq<int>>)
    requires
        forall|j: int| 0 <= j < lists.len() ==> (#[trigger] lists[j]).len() == 0,
    ensures
        flat(lists) == Seq::<int>::empty(),
    decreases lists.len(),
{
    if lists.len() > 0 {
        let a = lists.drop_last();
        assert forall|j: int| 0 <= j < a.len() implies (#[trigger] a[j]).len() == 0 by {
            assert(lists[j].len() == 0);
        }
        lemma_flat_empty(a);
        assert(lists[lists.len() - 1].len() == 0);
        assert(flat(lists) =~= Seq::<int>::empty());
    }
}

/// The records of a post by its own voters: in order, and each voter known.
pub open spec fn in_order(b: Ballots) -> bool {
    &&& b.records.len() == b.registered.len()
    &&& distinct_voters(b.registered)
    &&& forall|i: int|
        0 <= i < b.records.len() ==> (#[trigger] b.records[i]).idx == i && b.records[i].voter_id
            == b.registered[i].voter_id
}

/// Each vote of a record names a candidate.
pub open spec fn votes_known(b: Ballots) -> bool {
    forall|i: int|
        0 <= i < b.records.len() && b.votes.dom().contains((#[trigger] b.records[i]).voter_id)
            ==> b.candidates.contains(b.votes[b.records[i].voter_id])
}

proof fn lemma_position_found(ids: Seq<Seq<char>>, id: Seq<char>)
    requires
        ids.contains(id),
    ensures
        position_of(ids, id) is Some,
{
    lemma_position_range(ids, id, ids.len() as int);
    let i = choose|i: int| 0 <= i < ids.len() && ids[i] == id;
    assert(ids[i] == id);
}

proof fn lemma_own_secret(b: Ballots, i: int)
    requires
        in_order(b),
        0 <= i < b.records.len(),
    ensures
        position_of(registered_ids(b.registered), b.records[i].voter_id) == Some(i),
        secret(b, i) == b.registered[i].skv,
{
    let ids = registered_ids(b.registered);
    let id = b.records[i].voter_id;
    assert(ids[i] == id);
    lemma_position_found(ids, id);
    lemma_position_range(ids, id, ids.len() as int);
    let j = position_of(ids, id)->0;
    if j < i {
        assert(b.registered[j].voter_id != b.registered[i].voter_id);
    } else if i < j {
        assert(b.registered[i].voter_id != b.registered[j].voter_id);
    }
}

proof fn lemma_no_ballot_error(b: Ballots, count: int)
    requires
        in_order(b),
        votes_known(b),
        0 <= count <= b.records.len(),
    ensures
        ballot_error(b, count) is None,
    decreases count,
{
    if count > 0 {
        let i = count - 1;
        lemma_no_ballot_error(b, i);
        lemma_own_secret(b, i);
        let id = b.records[i].voter_id;
        if b.votes.dom().contains(id) {
            lemma_position_found(b.candidates, b.votes[id]);
        }
    }
}

pub proof fn lemma_cast_in_order(b: Ballots, n: int, count: int)
    requires
        in_order(b),
        votes_known(b),
        0 <= count <= b.records.len() <= n,
    ensures
        flat(cast_ballots(b, n, count).partitions).to_multiset() == positions(
            count,
        ).to_multiset(),
        cast_ballots(b, n, count).values.len() == n,
        forall|i: int|
            0 <= i < n ==> #[trigger] cast_ballots(b, n, count).values[i] == if i < count {
                b.registered[i].skv
            } else {
                0
            },
    decreases count,
{
    assert(indices_below(b.records, n)) by {
        assert forall|i: int| 0 <= i < b.records.len() implies (#[trigger] b.records[i]).idx < n by {
        }
    }
    if count == 0 {
        lemma_flat_empty(cast_ballots(b, n, 0).partitions);
        assert(positions(0) =~= Seq::<int>::empty());
    } else {
        let i = count - 1;
        lemma_cast_in_order(b, n, i);
        lemma_no_ballot_error(b, count);
        lemma_cast_shape(b, n, i);
        lemma_choice_range(b, i, count);
        lemma_own_secret(b, i);
        let before = cast_ballots(b, n, i);
        assert(b.records[i].idx == i);
        lemma_flat_push(before.partitions, choice(b, i), i);
        lemma_positions_push(i);
    }
}

pub proof fn lemma_padding_in_order(
    w: WitnessView,
    eid: Seq<char>,
    aid: Seq<char>,
    start: int,
    count: int,
)
    requires
        w.partitions.len() >= 1,
        0 <= start,
        0 <= count,
        start + count <= w.values.len(),
        flat(w.partitions).to_multiset() == positions(start).to_multiset(),
    ensures
        flat(with_padding(w, eid, aid, start, count).partitions).to_multiset() == positions(
            start + count,
        ).to_multiset(),
        forall|i: int|
            0 <= i < w.values.len() ==> #[trigger] with_padding(
                w,
                eid,
                aid,
                start,
                count,
            ).values[i] == if start <= i < start + count {
                pad_value(eid, aid, i - start)
            } else {
                w.values[i]
            },
    decreases count,
{
    if count > 0 {
        lemma_padding_in_order(w, eid, aid, start, count - 1);
        lemma_padding_shape(w, eid, aid, start, count - 1);
        let before = with_padding(w, eid, aid, start, count - 1);
        lemma_flat_push(before.partitions, before.partitions.len() - 1, start + count - 1);
        lemma_positions_push(start + count - 1);
    }
}

/// Lists with the same indices as 0 to n - 1 are a partition.
pub proof fn lemma_positions_partition(lists: Seq<Seq<int>>, n: int)
    requires
        n >= 0,
        flat(lists).to_multiset() == positions(n).to_multiset(),
    ensures
        partition(lists, n),
{
    let one = seq![positions(n)];
    assert(one.drop_last() =~= Seq::<Seq<int>>::empty());
    assert(flat(one.drop_last()) == Seq::<int>::empty());
    assert(flat(one) =~= positions(n));
    let whole = seq![flat(lists)];
    assert(whole.drop_last() =~= Seq::<Seq<int>>::empty());
    assert(flat(whole.drop_last()) == Seq::<int>::empty());
    assert(flat(whole) =~= flat(lists));
    assert(partition(one, n)) by {
        assert forall|i: int| 0 <= i < n implies #[trigger] flat(one).contains(i) by {
            assert(positions(n)[i] == i);
        }
    }
    crate::epa::completeness::lemma_partition_reordered(one, whole, n);
}

/// Partitions are without error.
proof fn lemma_no_partition_error(lists: Seq<Seq<int>>, n: int, count: int)
    requires
        distinct_below(flat(lists), n),
        n <= usize::MAX,
        0 <= count <= lists.len(),
        flat(lists).len() == n,
    ensures
        partition_error(lists, sizes_of(lists), n, count) is None,
        size_total(sizes_of(lists), count) == flat(lists.take(count)).len(),
    decreases count,
{
    if count == 0 {
        assert(lists.take(0) =~= Seq::<Seq<int>>::empty());
    } else {
        let j = count - 1;
        lemma_no_partition_error(lists, n, j);
        let seen = flat(lists.take(j));
        let l = lists[j];
        assert(lists.take(count).drop_last() =~= lists.take(j));
        assert(lists.take(count).last() == l);
        crate::epa::completeness::lemma_prefix_len(lists, count);
        assert(l.len() <= n);
        assert(distinct_below(seen + l, n)) by {
            lemma_flat_prefix(lists, count, n);
        }
        lemma_no_index_error(seen, l, n, l.len() as int);
    }
}

/// The first lists of distinct indices hold distinct indices.
proof fn lemma_flat_prefix(lists: Seq<Seq<int>>, count: int, n: int)
    requires
        0 <= count <= lists.len(),
        distinct_below(flat(lists), n),
    ensures
        distinct_below(flat(lists.take(count)), n),
    decreases lists.len(),
{
    if count == lists.len() {
        assert(lists.take(count) =~= lists);
    } else {
        let rest = lists.drop_last();
        let (f, g) = (flat(lists), flat(rest));
        assert(distinct_below(g, n)) by {
            assert forall|i: int| 0 <= i < g.len() implies 0 <= #[trigger] g[i] < n by {
                assert(f[i] == g[i]);
            }
            assert forall|i: int, k: int| 0 <= i < k < g.len() implies #[trigger] g[i]
                != #[trigger] g[k] by {
                assert(f[i] == g[i] && f[k] == g[k]);
            }
        }
        lemma_flat_prefix(rest, count, n);
        assert(rest.take(count) =~= lists.take(count));
    }
}

proof fn lemma_no_index_error(seen: Seq<int>, part: Seq<int>, n: int, count: int)
    requires
        0 <= count <= part.len(),
        distinct_below(seen + part, n),
    ensures
        index_error(seen, part, n, count) is None,
    decreases count,
{
    if count > 0 {
        lemma_no_index_error(seen, part, n, count - 1);
        let all = seen + part;
        let at = seen.len() + count - 1;
        assert(all[at] == part[count - 1]);
        let before = seen + part.take(count - 1);
        assert forall|i: int| 0 <= i < before.len() implies before[i] != part[count - 1] by {
            assert(all[i] == before[i]);
            assert(all[i] != all[at]);
        }
    }
}

proof fn lemma_no_label_error(k: int, n: int, count: int)
    requires
        0 <= count <= k < n <= usize::MAX,
    ensures
        label_index_error(label_numbers(k), n, count) is None,
    decreases count,
{
    if count > 0 {
        lemma_no_label_error(k, n, count - 1);
        let s = label_numbers(k);
        assert(s[count - 1] == count);
        let before = s.take(count - 1);
        assert forall|i: int| 0 <= i < before.len() implies before[i] != s[count - 1] by {
            assert(before[i] == i + 1);
        }
    }
}

/// An aggregator that posted its accepted voters, each once, can prove a tally
/// of any votes for known candidates.
pub proof fn law_honest_tally(
    b: Ballots,
    eid: Seq<char>,
    labels: LabelsView,
    reg: RegistrationView,
    timestamp: u64,
    bundle: &SrsBundle,
)
    requires
        finalized(
            eid,
            b.candidates.len() as int + 2,
            reg.aggregator_id,
            b.registered,
            timestamp,
            reg,
        ),
        b.records == reg.voters,
        distinct_voters(b.registered),
        votes_known(b),
        labels.candidates.len() == b.candidates.len(),
        bundle.wf(),
        bundle.spec_size() == reg.domain_size,
    ensures
        tally_error(b, eid, labels, reg) is None,
{
    let n = reg.domain_size as int;
    let count = b.records.len() as int;
    let k = b.candidates.len() as int + 2;
    let aid = reg.aggregator_id;
    assert(in_order(b)) by {
        assert forall|i: int| 0 <= i < b.records.len() implies (#[trigger] b.records[i]).idx == i
            && b.records[i].voter_id == b.registered[i].voter_id by {
            assert(record_of(eid, aid, n, b.registered[i], i, reg.voters[i]));
        }
    }
    lemma_no_ballot_error(b, count);
    lemma_cast_in_order(b, n, count);
    let w = cast_ballots(b, n, count);
    assert(indices_below(b.records, n)) by {
        assert forall|i: int| 0 <= i < b.records.len() implies (#[trigger] b.records[i]).idx < n by {
        }
    }
    lemma_cast_shape(b, n, count);
    lemma_padding_in_order(w, eid, aid, count, n - count);
    lemma_tally_shape(b, eid, reg);
    let witness = tally_witness(b, eid, reg);
    let lists = witness.partitions;
    lemma_positions_partition(lists, n);
    lemma_no_partition_error(lists, n, lists.len() as int);
    assert(lists.take(lists.len() as int) =~= lists);
    lemma_no_label_error(k, n, k);
    let input = built_input(b, eid, labels, reg);
    assert(input.sizes == sizes_of(lists));
    assert(input_error(input, n) is None);
    assert(witness_error(input, witness) is None);
    law_commitment_of_tokens(eid, k, aid, b.registered, timestamp, reg, bundle);
    assert(witness.values =~= token_values(eid, aid, b.registered, n));
    lemma_srs(bundle);
    let s = srs(n);
    assert(token_commitment(bundle, witness.values) == token_commitment(&s, witness.values));
    assert(srs_error(n) is None);
}

} // verus!
