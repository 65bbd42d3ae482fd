//! What the checks around the proof of partition establish: which inputs and
//! witnesses are taken, and what a valid proof is bound to.

use vstd::arithmetic::power::pow;
use vstd::prelude::*;

use crate::curve::{g1_logs, g2_logs};
use crate::epa::completeness::flat;
use crate::epa::soundness::{law_labels_bound, law_sizes_bound, size_point, vanishing_of};
use crate::epa::structs::ProofView;
use crate::epa::utils::challenges;
use crate::epa_adapter::{
    adapter_statement, epa_valid, input_error, kept, kept_positions, label_index_error,
    lemma_witness_partition, natural, prove_error, selected, size_total, InputView,
    SrsBundle, WitnessView,
};
use crate::generator::test_scalar;
use crate::modular::{eqm, md};
use crate::sums::{lemma_sum_ext, sum};

verus! {

/// The sum of all sizes.
pub open spec fn sum_of_sizes(sizes: Seq<usize>) -> int {
    sum(|i: int| sizes[i] as int, sizes.len() as int)
}

pub proof fn lemma_size_total(sizes: Seq<usize>, count: int)
    ensures
        size_total(sizes, count) == sum(|i: int| sizes[i] as int, count),
    decreases count,
{
    if count > 0 {
        lemma_size_total(sizes, count - 1);
    }
}

proof fn lemma_kept_exact(sizes: Seq<usize>, count: int)
    requires
        0 <= count <= sizes.len(),
    ensures
        forall|j: int| #[trigger]
            kept(sizes, count).contains(j) <==> 0 <= j < count && sizes[j] > 0,
        forall|a: int, b: int|
            0 <= a < b < kept(sizes, count).len() ==> #[trigger] kept(sizes, count)[a]
                < #[trigger] kept(sizes, count)[b],
        forall|a: int|
            0 <= a < kept(sizes, count).len() ==> 0 <= #[trigger] kept(sizes, count)[a] < count,
    decreases count,
{
    let now = kept(sizes, count);
    if count > 0 {
        lemma_kept_exact(sizes, count - 1);
        let before = kept(sizes, count - 1);
        assert forall|j: int| #[trigger] now.contains(j) <==> 0 <= j < count && sizes[j] > 0 by {
            if now.contains(j) {
                let a = choose|a: int| 0 <= a < now.len() && now[a] == j;
                if a < before.len() {
                    assert(before[a] == j);
                    assert(before.contains(j));
                }
            }
            if 0 <= j < count - 1 && sizes[j] > 0 {
                assert(before.contains(j));
                let a = choose|a: int| 0 <= a < before.len() && before[a] == j;
                assert(now[a] == j);
            }
            if j == count - 1 && sizes[j] > 0 {
                assert(now[before.len() as int] == j);
            }
        }
    } else {
        assert(now =~= Seq::<int>::empty());
    }
}

/// The partitions that enter a proof are all those that are not empty, in
/// their order, and no others.
pub proof fn law_kept_positions(sizes: Seq<usize>)
    ensures
        forall|j: int| #[trigger]
            kept_positions(sizes).contains(j) <==> 0 <= j < sizes.len() && sizes[j] > 0,
        forall|a: int, b: int|
            0 <= a < b < kept_positions(sizes).len() ==> #[trigger] kept_positions(sizes)[a]
                < #[trigger] kept_positions(sizes)[b],
{
    lemma_kept_exact(sizes, sizes.len() as int);
}

// ---- public inputs and witnesses -------------------------------------------

/// Label indices lie in the domain, without its first element, and no two are
/// the same.
pub open spec fn proper_labels(indices: Seq<usize>, n: int) -> bool {
    &&& forall|i: int| 0 <= i < indices.len() ==> 0 < #[trigger] indices[i] < n
    &&& forall|i: int, j: int|
        0 <= i < j < indices.len() ==> #[trigger] indices[i] != #[trigger] indices[j]
}

proof fn lemma_label_errors(indices: Seq<usize>, n: int, count: int)
    requires
        0 <= count <= indices.len(),
    ensures
        label_index_error(indices, n, count) is None <==> proper_labels(indices.take(count), n),
    decreases count,
{
    let now = indices.take(count);
    if count > 0 {
        lemma_label_errors(indices, n, count - 1);
        let before = indices.take(count - 1);
        let x = indices[count - 1];
        assert(now =~= before.push(x));
        if label_index_error(indices, n, count) is None {
            assert forall|i: int, j: int| 0 <= i < j < now.len() implies #[trigger] now[i]
                != #[trigger] now[j] by {
                assert(before[i] == now[i]);
                if j < count - 1 {
                    assert(before[j] == now[j]);
                } else {
                    assert(before.contains(now[i]));
                }
            }
            assert forall|i: int| 0 <= i < now.len() implies 0 < #[trigger] now[i] < n by {
                if i < count - 1 {
                    assert(before[i] == now[i]);
                }
            }
        }
        if proper_labels(now, n) {
            assert(proper_labels(before, n)) by {
                assert forall|i: int| 0 <= i < before.len() implies 0 < #[trigger] before[i] < n by {
                    assert(now[i] == before[i]);
                }
                assert forall|i: int, j: int| 0 <= i < j < before.len() implies #[trigger] before[i]
                    != #[trigger] before[j] by {
                    assert(now[i] == before[i] && now[j] == before[j]);
                }
            }
            assert(now[count - 1] == x);
            if before.contains(x) {
                let i = choose|i: int| 0 <= i < before.len() && before[i] == x;
                assert(now[i] == x);
            }
        }
    }
}

/// A public input is taken exactly if it is for the domain at hand, has one
/// label and one label index for each of at least one partition, the sizes
/// sum to the domain, and the label indices are proper.
pub proof fn law_input_taken(input: InputView, n: int)
    ensures
        input_error(input, n) is None <==> {
            &&& input.domain_size == n
            &&& input.labels.len() == input.sizes.len()
            &&& input.label_indices.len() == input.sizes.len()
            &&& input.sizes.len() > 0
            &&& sum_of_sizes(input.sizes) == n
            &&& proper_labels(input.label_indices, n)
        },
{
    let k = input.label_indices.len() as int;
    lemma_size_total(input.sizes, input.sizes.len() as int);
    lemma_label_errors(input.label_indices, n, k);
    assert(input.label_indices.take(k) =~= input.label_indices);
}

/// An index lies at a place of the lists.
pub open spec fn placed(lists: Seq<Seq<int>>, x: int, j: int, i: int) -> bool {
    0 <= j < lists.len() && 0 <= i < lists[j].len() && lists[j][i] == x
}

/// An index lies at some place of the lists.
pub open spec fn somewhere(lists: Seq<Seq<int>>, x: int) -> bool {
    exists|j: int, i: int| #[trigger] placed(lists, x, j, i)
}

proof fn lemma_flat_place(lists: Seq<Seq<int>>, j: int, i: int) -> (at: int)
    requires
        0 <= j < lists.len(),
        0 <= i < lists[j].len(),
    ensures
        0 <= at < flat(lists).len(),
        flat(lists)[at] == lists[j][i],
        at == flat(lists.take(j)).len() + i,
        j + 1 <= lists.len() ==> at < flat(lists.take(j + 1)).len(),
    decreases lists.len(),
{
    let rest = lists.drop_last();
    if j == lists.len() - 1 {
        assert(rest =~= lists.take(j));
        assert(lists.take(j + 1) =~= lists);
        flat(rest).len() as int + i
    } else {
        let at = lemma_flat_place(rest, j, i);
        assert(rest.take(j) =~= lists.take(j));
        assert(rest.take(j + 1) =~= lists.take(j + 1));
        at
    }
}

proof fn lemma_flat_found(lists: Seq<Seq<int>>, x: int) -> (p: (int, int))
    requires
        flat(lists).contains(x),
    ensures
        placed(lists, x, p.0, p.1),
    decreases lists.len(),
{
    let rest = lists.drop_last();
    let at = choose|at: int| 0 <= at < flat(lists).len() && flat(lists)[at] == x;
    let before = flat(rest);
    if at < before.len() {
        assert(before[at] == x);
        let p = lemma_flat_found(rest, x);
        p
    } else {
        (lists.len() - 1, at - before.len())
    }
}

proof fn lemma_flat_prefix_len(lists: Seq<Seq<int>>, a: int, b: int)
    requires
        0 <= a <= b <= lists.len(),
    ensures
        flat(lists.take(a)).len() <= flat(lists.take(b)).len(),
    decreases b,
{
    if a < b {
        lemma_flat_prefix_len(lists, a, b - 1);
        assert(lists.take(b).drop_last() =~= lists.take(b - 1));
    }
}

/// Two places of different numbers in the lists are different places in a row.
proof fn lemma_places_differ(lists: Seq<Seq<int>>, j: int, i: int, k: int, l: int) -> (r: (int, int))
    requires
        0 <= j < lists.len(),
        0 <= i < lists[j].len(),
        0 <= k < lists.len(),
        0 <= l < lists[k].len(),
        j != k || i != l,
    ensures
        r.0 != r.1,
        0 <= r.0 < flat(lists).len(),
        0 <= r.1 < flat(lists).len(),
        flat(lists)[r.0] == lists[j][i],
        flat(lists)[r.1] == lists[k][l],
{
    let a = lemma_flat_place(lists, j, i);
    let b = lemma_flat_place(lists, k, l);
    if j < k {
        lemma_flat_prefix_len(lists, j + 1, k);
    } else if k < j {
        lemma_flat_prefix_len(lists, k + 1, j);
    }
    (a, b)
}

/// A proof is tried only for a witness that splits the domain: each partition
/// has its claimed size, every index of the domain is in some partition, and
/// no index is in two partitions or twice in one; there is a token for each
/// index, and the commitment is to these tokens.
pub proof fn law_witness_splits_domain(bundle: &SrsBundle, input: InputView, witness: WitnessView)
    requires
        natural(witness.partitions),
        prove_error(bundle, input, witness) is None,
    ensures
        ({
            let n = input.domain_size as int;
            let lists = witness.partitions;
            &&& witness.values.len() == n
            &&& lists.len() == input.sizes.len()
            &&& forall|j: int|
                0 <= j < lists.len() ==> (#[trigger] lists[j]).len() == input.sizes[j]
            &&& forall|j: int, i: int|
                0 <= j < lists.len() && 0 <= i < lists[j].len() ==> 0 <= #[trigger] lists[j][i] < n
            &&& forall|x: int|
                0 <= x < n ==> #[trigger] somewhere(lists, x)
            &&& forall|x: int, j: int, i: int, k: int, l: int|
                #[trigger] placed(lists, x, j, i) && #[trigger] placed(lists, x, k, l) ==> j == k
                    && i == l
            &&& input.commitment_c == md(
                sum(
                    |i: int| witness.values[i] * g1_logs(bundle.lagrange_g1@)[i],
                    witness.values.len() as int,
                ),
            )
        }),
{
    let n = input.domain_size as int;
    let lists = witness.partitions;
    lemma_witness_partition(input, witness);
    let all = flat(lists);
    assert forall|j: int, i: int| 0 <= j < lists.len() && 0 <= i < lists[j].len() implies 0
        <= #[trigger] lists[j][i] < n by {
        let at = lemma_flat_place(lists, j, i);
        assert(0 <= all[at] < n);
    }
    assert forall|x: int| 0 <= x < n implies #[trigger] somewhere(lists, x) by {
        assert(all.contains(x));
        let p = lemma_flat_found(lists, x);
        assert(placed(lists, x, p.0, p.1));
    }
    assert forall|x: int, j: int, i: int, k: int, l: int|
        #[trigger] placed(lists, x, j, i) && #[trigger] placed(lists, x, k, l) implies j == k && i
        == l by {
        if j != k || i != l {
            let r = lemma_places_differ(lists, j, i, k, l);
            if r.0 < r.1 {
                assert(all[r.0] != all[r.1]);
            } else {
                assert(all[r.1] != all[r.0]);
            }
        }
    }
}

// ---- what a valid proof is bound to ----------------------------------------

/// The commitment to the monomial for `size` elements, for the partition with
/// number `r` of those that are not empty.
pub open spec fn monomial(bundle: &SrsBundle, r: int, size: int) -> int {
    if r == 0 {
        g2_logs(bundle.pp.g2_powers@)[bundle.pp.max_degree - size]
    } else {
        g1_logs(bundle.pp.poly_ck.powers_of_g@)[bundle.pp.max_degree - size]
    }
}

/// A proof is valid for as many partitions that are not empty as it was made
/// for, and no other number.
pub proof fn law_partition_count_bound(
    bundle: &SrsBundle,
    input: InputView,
    other: InputView,
    view: ProofView,
)
    requires
        epa_valid(bundle, input, view),
        epa_valid(bundle, other, view),
    ensures
        kept_positions(input.sizes).len() == kept_positions(other.sizes).len(),
        view.round1.x.len() == kept_positions(input.sizes).len(),
        view.round1.v.len() == kept_positions(input.sizes).len(),
        view.round1.z_nonzero.len() + 1 == kept_positions(input.sizes).len(),
        view.p_nonzero.len() + 1 == kept_positions(input.sizes).len(),
        view.round1.y.len() + 2 == kept_positions(input.sizes).len()
            || kept_positions(input.sizes).len() == 1 && view.round1.y.len() == 0,
{
}

/// A proof that is valid for some sizes is valid for other sizes of the same
/// partitions only if the differences of their monomials, times the vanishing
/// polynomials, vanish over all partitions together.
pub proof fn law_posted_sizes_bound(
    bundle: &SrsBundle,
    input: InputView,
    sizes: Seq<usize>,
    view: ProofView,
)
    requires
        sizes.len() == input.sizes.len(),
        forall|j: int| 0 <= j < sizes.len() ==> (#[trigger] sizes[j] > 0 <==> input.sizes[j] > 0),
        epa_valid(bundle, input, view),
    ensures
        ({
            let at = kept_positions(input.sizes);
            epa_valid(bundle, (InputView { sizes, ..input }), view) <==> eqm(
                sum(
                    |r: int|
                        pow(test_scalar(0), (r + 1) as nat) * (test_scalar(0) * (monomial(
                            bundle,
                            r,
                            sizes[at[r]] as int,
                        ) - monomial(bundle, r, input.sizes[at[r]] as int)) * vanishing_of(
                            view,
                            r,
                        )),
                    at.len() as int,
                ),
                0,
            )
        }),
{
    let other = InputView { sizes, ..input };
    lemma_same_kept(sizes, input.sizes, sizes.len() as int);
    let at = kept_positions(input.sizes);
    let st = adapter_statement(bundle, input);
    let chosen = selected(sizes, at);
    law_sizes_bound(st, view, chosen);
    assert(adapter_statement(bundle, other) == crate::epa::verify::Statement {
        sizes: chosen,
        ..st
    });
    lemma_sum_ext(
        |j: int|
            pow(test_scalar(0), (j + 1) as nat) * (test_scalar(0) * (size_point(
                st,
                j,
                chosen[j] as int,
            ) - size_point(st, j, st.sizes[j] as int)) * vanishing_of(view, j)),
        |r: int|
            pow(test_scalar(0), (r + 1) as nat) * (test_scalar(0) * (monomial(
                bundle,
                r,
                sizes[at[r]] as int,
            ) - monomial(bundle, r, input.sizes[at[r]] as int)) * vanishing_of(view, r)),
        at.len() as int,
    );
}

proof fn lemma_same_kept(a: Seq<usize>, b: Seq<usize>, count: int)
    requires
        0 <= count <= a.len(),
        a.len() == b.len(),
        forall|j: int| 0 <= j < a.len() ==> (#[trigger] a[j] > 0 <==> b[j] > 0),
    ensures
        kept(a, count) == kept(b, count),
    decreases count,
{
    if count > 0 {
        lemma_same_kept(a, b, count - 1);
        assert(a[count - 1] > 0 <==> b[count - 1] > 0);
    }
}

/// A proof that is valid for some label indices is valid for others only if
/// the differences of the domain elements, times the challenges and the
/// committed parts, vanish over all partitions that are not empty together.
pub proof fn law_posted_labels_bound(
    bundle: &SrsBundle,
    input: InputView,
    indices: Seq<usize>,
    view: ProofView,
)
    requires
        epa_valid(bundle, input, view),
    ensures
        ({
            let at = kept_positions(input.sizes);
            let w = bundle.pp.domain.gen();
            let chi = challenges(input.commitment_c, view.round1, at.len());
            epa_valid(bundle, (InputView { label_indices: indices, ..input }), view) <==> eqm(
                sum(
                    |r: int|
                        pow(test_scalar(0), (r + 1) as nat) * (chi[r] * (pow(
                            w,
                            indices[at[r]] as nat,
                        ) - pow(w, input.label_indices[at[r]] as nat)) * view.round1.v[r]
                            * g2_logs(bundle.pp.g2_powers@)[0]),
                    at.len() as int,
                ),
                0,
            )
        }),
{
    let other = InputView { label_indices: indices, ..input };
    let at = kept_positions(input.sizes);
    let st = adapter_statement(bundle, input);
    let chosen = selected(indices, at);
    law_labels_bound(st, view, chosen);
    assert(adapter_statement(bundle, other) == crate::epa::verify::Statement {
        votes: chosen,
        ..st
    });
    let w = bundle.pp.domain.gen();
    let chi = challenges(input.commitment_c, view.round1, at.len());
    lemma_sum_ext(
        |j: int|
            pow(test_scalar(0), (j + 1) as nat) * (challenges(
                st.c_comm,
                view.round1,
                st.sizes.len(),
            )[j] * (pow(st.generator, chosen[j] as nat) - pow(st.generator, st.votes[j] as nat))
                * view.round1.v[j] * st.g2[0]),
        |r: int|
            pow(test_scalar(0), (r + 1) as nat) * (chi[r] * (pow(w, indices[at[r]] as nat) - pow(
                w,
                input.label_indices[at[r]] as nat,
            )) * view.round1.v[r] * g2_logs(bundle.pp.g2_powers@)[0]),
        at.len() as int,
    );
}

} // verus!
