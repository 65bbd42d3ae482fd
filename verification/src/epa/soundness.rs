//! What an accepted proof is bound to: the equation of every subset, and in
//! each the size, the label and the quotient of that subset.

use vstd::arithmetic::power::pow;
use vstd::prelude::*;
use vstd::utf8::encode_utf8;

use crate::curve::{g1_encoding, g2_encoding};
use crate::epa::partition_math::lemma_unit_pow;
use crate::epa::structs::{
    challenge_output, history_message, history_start, ProofView, Round1View, TRANSCRIPT_LABEL,
};
use crate::epa::utils::{
    challenge_history, challenges, numbered, round1_history, with_g1_points, with_g2_points,
};
use crate::epa::verify::{
    accepted, check_a, check_b, check_c, check_gap, full_y, shape_ok, Statement,
};
use crate::field::le_value;
use crate::generator::test_scalar;
use crate::modular::{
    eqm, lemma_eqm_add, lemma_eqm_cancel, lemma_eqm_scale, lemma_md_range, lemma_modulus, md,
};
use crate::poly_math::unit;
use crate::roots::lemma_unit_mul;
use crate::sums::{lemma_sum_add, lemma_sum_eqm, lemma_sum_ext, lemma_sum_single, lemma_sum_zero, sum};

verus! {

/// The commitment to the vanishing polynomial of subset `j`.
pub open spec fn vanishing_of(view: ProofView, j: int) -> int {
    if j == 0 {
        view.round1.z_0
    } else {
        view.round1.z_nonzero[j - 1]
    }
}

/// The commitment to the quotient for subset `j`.
pub open spec fn quotient_of(view: ProofView, j: int) -> int {
    if j == 0 {
        view.p_0
    } else {
        view.p_nonzero[j - 1]
    }
}

/// The commitment to the monomial that a subset of `size` elements calls for,
/// in the group in which the equation of subset `j` uses it.
pub open spec fn size_point(st: Statement, j: int, size: int) -> int {
    if j == 0 {
        st.g2[st.degree - size]
    } else {
        st.g1[st.degree - size]
    }
}

/// The running product before subset `j`.
pub open spec fn product_before(view: ProofView, j: int) -> int {
    if j == 1 {
        view.round1.z_0
    } else {
        view.round1.y[j - 2]
    }
}

/// The running product that includes subset `j`: of the last of `k` subsets it
/// is the vanishing polynomial of the domain.
pub open spec fn product_after(st: Statement, view: ProofView, k: int, j: int) -> int {
    if j == k - 1 {
        st.g1[st.degree] - st.g1[0]
    } else {
        view.round1.y[j - 1]
    }
}

/// The equation of subset `j` holds: the quotient and the monomial of the
/// size, times the vanishing polynomial of the subset, are the vanishing
/// polynomial of the domain, the difference between the vector and the label's
/// part of it, the shifted vanishing polynomial, and the running products.
pub open spec fn equation_holds(st: Statement, view: ProofView, j: int) -> bool {
    let k = st.sizes.len() as int;
    let phi = test_scalar(0);
    let chi = challenges(st.c_comm, view.round1, st.sizes.len())[j];
    let label = pow(st.generator, st.votes[j] as nat);
    let left = quotient_of(view, j) + phi * size_point(st, j, st.sizes[j] as int) + if j == 0 {
        0
    } else {
        (phi * phi) * product_before(view, j)
    };
    let right = (st.g1[st.degree] - st.g1[0]) + chi * (st.c_comm - label * view.round1.v[j]) + phi
        * view.round1.x[j] + if j == 0 {
        0
    } else {
        (phi * phi) * product_after(st, view, k, j)
    };
    eqm(left * vanishing_of(view, j), right * st.g2[0])
}

proof fn lemma_equation(st: Statement, view: ProofView, j: int)
    requires
        shape_ok(view, st.sizes.len() as int),
        0 <= j < st.sizes.len(),
    ensures
        ({
            let phi = test_scalar(0);
            let chi = challenges(st.c_comm, view.round1, st.sizes.len());
            equation_holds(st, view, j) <==> eqm(check_gap(st, view, phi, chi, j), 0)
        }),
{
    let phi = test_scalar(0);
    let chi = challenges(st.c_comm, view.round1, st.sizes.len());
    let k = st.sizes.len() as int;
    let ys = full_y(st, view);
    if j > 0 {
        assert(ys[j - 1] == product_before(view, j));
        assert(ys[j] == product_after(st, view, k, j));
    }
    let (a, b, c) = (
        check_a(st, view, phi, j),
        check_b(st, view, phi, j),
        check_c(st, view, phi, chi, j),
    );
    let (l, r) = (a * b, c * st.g2[0]);
    assert(a * b == b * a) by (nonlinear_arith);
    if eqm(l, r) {
        lemma_eqm_add(l, r, r, r);
    }
    if eqm(l - r, 0) {
        lemma_eqm_add(l - r, 0, r, r);
    }
}

/// An invertible value is not zero.
proof fn lemma_unit_nonzero(x: int)
    requires
        unit(x),
    ensures
        !eqm(x, 0),
{
    lemma_modulus();
    lemma_md_range(0);
    lemma_md_range(1);
    if eqm(x, 0) {
        let u = choose|u: int| eqm(#[trigger] (u * x), 1);
        lemma_eqm_scale(u, x, 0);
        assert(u * 0 == 0);
    }
}

/// An invertible factor does not make a value zero.
proof fn lemma_unit_times(u: int, x: int)
    requires
        unit(u),
        !eqm(x, 0),
    ensures
        !eqm(u * x, 0),
{
    if eqm(u * x, 0) {
        let v = choose|v: int| eqm(#[trigger] (v * u), 1);
        assert(u * 0 == 0);
        lemma_eqm_cancel(v, u, x, 0);
    }
}

/// A proof for which the equation of every subset holds is accepted.
pub proof fn law_all_equations_accepted(st: Statement, view: ProofView)
    requires
        shape_ok(view, st.sizes.len() as int),
        forall|j: int| 0 <= j < st.sizes.len() ==> #[trigger] equation_holds(st, view, j),
    ensures
        accepted(st, view),
{
    let n = st.sizes.len() as int;
    let phi = test_scalar(0);
    let chi = challenges(st.c_comm, view.round1, st.sizes.len());
    let f = |j: int| pow(phi, (j + 1) as nat) * check_gap(st, view, phi, chi, j);
    let zero = |j: int| 0int;
    assert forall|j: int| 0 <= j < n implies eqm(#[trigger] f(j), zero(j)) by {
        assert(equation_holds(st, view, j));
        lemma_equation(st, view, j);
        let p = pow(phi, (j + 1) as nat);
        lemma_eqm_scale(p, check_gap(st, view, phi, chi, j), 0);
        assert(p * 0 == 0);
    }
    lemma_sum_eqm(f, zero, n);
    lemma_sum_zero(zero, n);
}

/// A proof for which the equation of one subset fails, whichever it is, and
/// those of all others hold, is refused, if the combining scalar is invertible,
/// as every nonzero scalar is.
pub proof fn law_failed_equation_refused(st: Statement, view: ProofView, j: int)
    requires
        unit(test_scalar(0)),
        shape_ok(view, st.sizes.len() as int),
        0 <= j < st.sizes.len(),
        !equation_holds(st, view, j),
        forall|i: int|
            0 <= i < st.sizes.len() && i != j ==> #[trigger] equation_holds(st, view, i),
    ensures
        !accepted(st, view),
{
    let n = st.sizes.len() as int;
    let phi = test_scalar(0);
    let chi = challenges(st.c_comm, view.round1, st.sizes.len());
    let f = |i: int| pow(phi, (i + 1) as nat) * check_gap(st, view, phi, chi, i);
    let g = |i: int| if i == j { f(j) } else { 0 };
    assert forall|i: int| 0 <= i < n implies eqm(#[trigger] f(i), g(i)) by {
        if i != j {
            assert(equation_holds(st, view, i));
            lemma_equation(st, view, i);
            let p = pow(phi, (i + 1) as nat);
            lemma_eqm_scale(p, check_gap(st, view, phi, chi, i), 0);
            assert(p * 0 == 0);
        }
    }
    lemma_sum_eqm(f, g, n);
    lemma_sum_single(g, n, j);
    lemma_equation(st, view, j);
    lemma_unit_pow(phi, (j + 1) as nat);
    lemma_unit_times(pow(phi, (j + 1) as nat), check_gap(st, view, phi, chi, j));
}

/// Two statements whose equations differ by `d`: if the proof is accepted for
/// the first, it is for the second exactly if the combined differences vanish.
proof fn lemma_differences(
    a: Statement,
    va: ProofView,
    b: Statement,
    vb: ProofView,
    d: spec_fn(int) -> int,
)
    requires
        a.sizes.len() == b.sizes.len(),
        a.c_comm == b.c_comm,
        va.round1 == vb.round1,
        accepted(a, va),
        ({
            let phi = test_scalar(0);
            let chi = challenges(a.c_comm, va.round1, a.sizes.len());
            forall|j: int|
                0 <= j < a.sizes.len() ==> #[trigger] check_gap(b, vb, phi, chi, j) == check_gap(
                    a,
                    va,
                    phi,
                    chi,
                    j,
                ) + d(j)
        }),
    ensures
        accepted(b, vb) <==> eqm(
            sum(|j: int| pow(test_scalar(0), (j + 1) as nat) * d(j), a.sizes.len() as int),
            0,
        ),
{
    let n = a.sizes.len() as int;
    let phi = test_scalar(0);
    let chi = challenges(a.c_comm, va.round1, a.sizes.len());
    let f = |j: int| pow(phi, (j + 1) as nat) * check_gap(a, va, phi, chi, j);
    let g = |j: int| pow(phi, (j + 1) as nat) * check_gap(b, vb, phi, chi, j);
    let h = |j: int| pow(phi, (j + 1) as nat) * d(j);
    assert forall|j: int| 0 <= j < n implies #[trigger] g(j) == (|i: int| f(i) + h(i))(j) by {
        let (p, x, y) = (pow(phi, (j + 1) as nat), check_gap(a, va, phi, chi, j), d(j));
        assert(check_gap(b, vb, phi, chi, j) == x + y);
        assert(p * (x + y) == p * x + p * y) by (nonlinear_arith);
    }
    lemma_sum_ext(g, |i: int| f(i) + h(i), n);
    lemma_sum_add(f, h, n);
    assert(sum(g, n) == sum(f, n) + sum(h, n));
    lemma_eqm_add(sum(f, n), 0, sum(h, n), sum(h, n));
    assert(eqm(sum(g, n), sum(h, n)));
}

/// The claimed sizes of all subsets are bound by a proof: a proof that is
/// accepted for some sizes is accepted for others exactly if the differences
/// between the monomials of the sizes, times the vanishing polynomials of the
/// subsets, vanish when all subsets are combined.
pub proof fn law_sizes_bound(st: Statement, view: ProofView, sizes: Seq<usize>)
    requires
        sizes.len() == st.sizes.len(),
        shape_ok(view, st.sizes.len() as int),
        accepted(st, view),
    ensures
        accepted((Statement { sizes, ..st }), view) <==> eqm(
            sum(
                |j: int|
                    pow(test_scalar(0), (j + 1) as nat) * (test_scalar(0) * (size_point(
                        st,
                        j,
                        sizes[j] as int,
                    ) - size_point(st, j, st.sizes[j] as int)) * vanishing_of(view, j)),
                sizes.len() as int,
            ),
            0,
        ),
{
    let phi = test_scalar(0);
    let b = Statement { sizes, ..st };
    let chi = challenges(st.c_comm, view.round1, st.sizes.len());
    let d = |j: int|
        phi * (size_point(st, j, sizes[j] as int) - size_point(st, j, st.sizes[j] as int))
            * vanishing_of(view, j);
    assert forall|j: int| 0 <= j < st.sizes.len() implies #[trigger] check_gap(b, view, phi, chi, j)
        == check_gap(st, view, phi, chi, j) + d(j) by {
        let (x, y) = (size_point(st, j, st.sizes[j] as int), size_point(st, j, sizes[j] as int));
        let z = vanishing_of(view, j);
        assert(full_y(b, view) == full_y(st, view));
        assert(check_c(b, view, phi, chi, j) == check_c(st, view, phi, chi, j));
        if j == 0 {
            let p = view.p_0;
            assert(z * (p + phi * y) == z * (p + phi * x) + phi * (y - x) * z) by (nonlinear_arith);
        } else {
            let p = view.p_nonzero[j - 1];
            let q = (phi * phi) * full_y(st, view)[j - 1];
            assert((p + phi * y + q) * z == (p + phi * x + q) * z + phi * (y - x) * z)
                by (nonlinear_arith);
        }
    }
    lemma_differences(st, view, b, view, d);
    lemma_sum_ext(
        |j: int| pow(phi, (j + 1) as nat) * d(j),
        |j: int|
            pow(phi, (j + 1) as nat) * (phi * (size_point(st, j, sizes[j] as int) - size_point(
                st,
                j,
                st.sizes[j] as int,
            )) * vanishing_of(view, j)),
        sizes.len() as int,
    );
}

/// A proof that is accepted is refused where the size of one subset, whichever
/// it is, is replaced by another. The combining scalar, the vanishing
/// polynomial and the difference of the monomials are invertible, as every
/// nonzero scalar is.
pub proof fn law_other_size_refused(st: Statement, view: ProofView, j: int, size: usize)
    requires
        shape_ok(view, st.sizes.len() as int),
        accepted(st, view),
        0 <= j < st.sizes.len(),
        unit(test_scalar(0)),
        unit(size_point(st, j, size as int) - size_point(st, j, st.sizes[j] as int)),
        unit(vanishing_of(view, j)),
    ensures
        !accepted((Statement { sizes: st.sizes.update(j, size), ..st }), view),
{
    let phi = test_scalar(0);
    let sizes = st.sizes.update(j, size);
    let n = sizes.len() as int;
    law_sizes_bound(st, view, sizes);
    let f = |i: int|
        pow(phi, (i + 1) as nat) * (phi * (size_point(st, i, sizes[i] as int) - size_point(
            st,
            i,
            st.sizes[i] as int,
        )) * vanishing_of(view, i));
    assert forall|i: int| 0 <= i < n && i != j implies #[trigger] f(i) == 0 by {
        let (p, z) = (pow(phi, (i + 1) as nat), vanishing_of(view, i));
        assert(p * (phi * 0 * z) == 0) by (nonlinear_arith);
    }
    lemma_sum_single(f, n, j);
    let diff = size_point(st, j, size as int) - size_point(st, j, st.sizes[j] as int);
    lemma_unit_mul(phi, diff);
    lemma_unit_mul(phi * diff, vanishing_of(view, j));
    lemma_unit_pow(phi, (j + 1) as nat);
    lemma_unit_mul(pow(phi, (j + 1) as nat), phi * diff * vanishing_of(view, j));
    lemma_unit_nonzero(f(j));
}

/// The labels of all subsets are bound by a proof: a proof that is accepted for
/// some labels is accepted for others exactly if the differences between the
/// labels' domain elements, times the challenges and the subsets' parts of the
/// vector, vanish when all subsets are combined.
pub proof fn law_labels_bound(st: Statement, view: ProofView, votes: Seq<usize>)
    requires
        votes.len() == st.votes.len(),
        shape_ok(view, st.sizes.len() as int),
        accepted(st, view),
    ensures
        accepted((Statement { votes, ..st }), view) <==> eqm(
            sum(
                |j: int|
                    pow(test_scalar(0), (j + 1) as nat) * (challenges(
                        st.c_comm,
                        view.round1,
                        st.sizes.len(),
                    )[j] * (pow(st.generator, votes[j] as nat) - pow(
                        st.generator,
                        st.votes[j] as nat,
                    )) * view.round1.v[j] * st.g2[0]),
                st.sizes.len() as int,
            ),
            0,
        ),
{
    let phi = test_scalar(0);
    let b = Statement { votes, ..st };
    let chi = challenges(st.c_comm, view.round1, st.sizes.len());
    let d = |j: int|
        chi[j] * (pow(st.generator, votes[j] as nat) - pow(st.generator, st.votes[j] as nat))
            * view.round1.v[j] * st.g2[0];
    assert forall|j: int| 0 <= j < st.sizes.len() implies #[trigger] check_gap(b, view, phi, chi, j)
        == check_gap(st, view, phi, chi, j) + d(j) by {
        let (x, y) = (
            pow(st.generator, st.votes[j] as nat),
            pow(st.generator, votes[j] as nat),
        );
        assert(full_y(b, view) == full_y(st, view));
        assert(check_a(b, view, phi, j) == check_a(st, view, phi, j));
        let (c, v, e, one) = (st.c_comm, view.round1.v[j], chi[j], st.g2[0]);
        let zh = st.g1[st.degree] - st.g1[0];
        let rest = phi * view.round1.x[j] + if j == 0 {
            0
        } else {
            (phi * phi) * full_y(st, view)[j]
        };
        let (old_c, new_c) = (zh + e * (c - x * v) + rest, zh + e * (c - y * v) + rest);
        assert(check_c(st, view, phi, chi, j) == old_c);
        assert(check_c(b, view, phi, chi, j) == new_c);
        assert(e * (c - x * v) - e * (c - y * v) == e * (y - x) * v) by (nonlinear_arith);
        assert(old_c - new_c == e * (y - x) * v);
        let delta = e * (y - x) * v;
        assert(old_c * one - new_c * one == delta * one) by (nonlinear_arith)
            requires
                old_c - new_c == delta,
        ;
    }
    lemma_differences(st, view, b, view, d);
    lemma_sum_ext(
        |j: int| pow(phi, (j + 1) as nat) * d(j),
        |j: int|
            pow(phi, (j + 1) as nat) * (challenges(st.c_comm, view.round1, st.sizes.len())[j] * (
            pow(st.generator, votes[j] as nat) - pow(st.generator, st.votes[j] as nat))
                * view.round1.v[j] * st.g2[0]),
        st.sizes.len() as int,
    );
}

/// A proof that is accepted is refused where the label of one subset, whichever
/// it is, is replaced by another. The combining scalar, the challenge, the
/// difference of the labels' domain elements, the subset's part of the vector
/// and the base of the second group are invertible, as every nonzero scalar is.
pub proof fn law_other_label_refused(st: Statement, view: ProofView, j: int, label: usize)
    requires
        st.votes.len() == st.sizes.len(),
        shape_ok(view, st.sizes.len() as int),
        accepted(st, view),
        0 <= j < st.sizes.len(),
        unit(test_scalar(0)),
        unit(challenges(st.c_comm, view.round1, st.sizes.len())[j]),
        unit(pow(st.generator, label as nat) - pow(st.generator, st.votes[j] as nat)),
        unit(view.round1.v[j]),
        unit(st.g2[0]),
    ensures
        !accepted((Statement { votes: st.votes.update(j, label), ..st }), view),
{
    let phi = test_scalar(0);
    let votes = st.votes.update(j, label);
    let n = st.sizes.len() as int;
    law_labels_bound(st, view, votes);
    let f = |i: int|
        pow(phi, (i + 1) as nat) * (challenges(st.c_comm, view.round1, st.sizes.len())[i] * (pow(
            st.generator,
            votes[i] as nat,
        ) - pow(st.generator, st.votes[i] as nat)) * view.round1.v[i] * st.g2[0]);
    assert forall|i: int| 0 <= i < n && i != j implies #[trigger] f(i) == 0 by {
        let e = challenges(st.c_comm, view.round1, st.sizes.len())[i];
        let (p, v, one) = (pow(phi, (i + 1) as nat), view.round1.v[i], st.g2[0]);
        assert(p * (e * 0 * v * one) == 0) by (nonlinear_arith);
    }
    lemma_sum_single(f, n, j);
    let e = challenges(st.c_comm, view.round1, st.sizes.len())[j];
    let diff = pow(st.generator, label as nat) - pow(st.generator, st.votes[j] as nat);
    lemma_unit_mul(e, diff);
    lemma_unit_mul(e * diff, view.round1.v[j]);
    lemma_unit_mul(e * diff * view.round1.v[j], st.g2[0]);
    lemma_unit_pow(phi, (j + 1) as nat);
    lemma_unit_mul(pow(phi, (j + 1) as nat), e * diff * view.round1.v[j] * st.g2[0]);
    lemma_unit_nonzero(f(j));
}

/// The proof with another quotient for subset `j`.
pub open spec fn with_quotient(view: ProofView, j: int, q: int) -> ProofView {
    if j == 0 {
        ProofView { p_0: q, ..view }
    } else {
        ProofView { p_nonzero: view.p_nonzero.update(j - 1, q), ..view }
    }
}

/// A proof that is accepted is refused where the quotient of one subset,
/// whichever it is, is replaced by another. The combining scalar, the
/// vanishing polynomial and the difference of the quotients are invertible, as
/// every nonzero scalar is.
pub proof fn law_other_quotient_refused(st: Statement, view: ProofView, j: int, q: int)
    requires
        shape_ok(view, st.sizes.len() as int),
        accepted(st, view),
        0 <= j < st.sizes.len(),
        unit(test_scalar(0)),
        unit(q - quotient_of(view, j)),
        unit(vanishing_of(view, j)),
    ensures
        !accepted(st, with_quotient(view, j, q)),
{
    let phi = test_scalar(0);
    let n = st.sizes.len() as int;
    let other = with_quotient(view, j, q);
    let chi = challenges(st.c_comm, view.round1, st.sizes.len());
    let diff = q - quotient_of(view, j);
    let z = vanishing_of(view, j);
    let d = |i: int| if i == j { diff * z } else { 0 };
    assert forall|i: int| 0 <= i < n implies #[trigger] check_gap(st, other, phi, chi, i)
        == check_gap(st, view, phi, chi, i) + d(i) by {
        assert(full_y(st, other) == full_y(st, view));
        assert(check_c(st, other, phi, chi, i) == check_c(st, view, phi, chi, i));
        if i == j {
            let p = quotient_of(view, j);
            if j == 0 {
                let x = phi * st.g2[st.degree - st.sizes[0]];
                assert(z * (q + x) == z * (p + x) + (q - p) * z) by (nonlinear_arith);
            } else {
                let x = phi * st.g1[st.degree - st.sizes[j]];
                let y = (phi * phi) * full_y(st, view)[j - 1];
                assert((q + x + y) * z == (p + x + y) * z + (q - p) * z) by (nonlinear_arith);
            }
        }
    }
    lemma_differences(st, view, st, other, d);
    let f = |i: int| pow(phi, (i + 1) as nat) * d(i);
    assert forall|i: int| 0 <= i < n && i != j implies #[trigger] f(i) == 0 by {
        let p = pow(phi, (i + 1) as nat);
        assert(p * 0 == 0);
    }
    lemma_sum_single(f, n, j);
    lemma_unit_mul(diff, z);
    lemma_unit_pow(phi, (j + 1) as nat);
    lemma_unit_mul(pow(phi, (j + 1) as nat), diff * z);
    lemma_unit_nonzero(f(j));
}

// ---- the challenges --------------------------------------------------------

proof fn lemma_g1_messages(history: Seq<(int, Seq<u8>, Seq<u8>)>, base: Seq<u8>, logs: Seq<int>)
    ensures
        ({
            let all = with_g1_points(history, base, logs);
            &&& all.len() == history.len() + logs.len()
            &&& forall|i: int| 0 <= i < history.len() ==> #[trigger] all[i] == history[i]
            &&& forall|i: int|
                0 <= i < logs.len() ==> (#[trigger] all[history.len() + i]).2 == g1_encoding(
                    logs[i],
                )
        }),
    decreases logs.len(),
{
    if logs.len() > 0 {
        lemma_g1_messages(history, base, logs.drop_last());
    }
}

proof fn lemma_g2_messages(history: Seq<(int, Seq<u8>, Seq<u8>)>, base: Seq<u8>, logs: Seq<int>)
    ensures
        ({
            let all = with_g2_points(history, base, logs);
            &&& all.len() == history.len() + logs.len()
            &&& forall|i: int| 0 <= i < history.len() ==> #[trigger] all[i] == history[i]
            &&& forall|i: int|
                0 <= i < logs.len() ==> (#[trigger] all[history.len() + i]).2 == g2_encoding(
                    logs[i],
                )
        }),
    decreases logs.len(),
{
    if logs.len() > 0 {
        lemma_g2_messages(history, base, logs.drop_last());
    }
}

/// What a transcript has absorbed holds the commitment to the vector and, in
/// their order, all commitments of the first round, encoded.
pub open spec fn sees_round1(
    history: Seq<(int, Seq<u8>, Seq<u8>)>,
    c_comm: int,
    p: Round1View,
) -> bool {
    let at_z0 = 2 + p.x.len();
    let at_z = at_z0 + 1;
    let at_v = at_z + p.z_nonzero.len();
    let at_y = at_v + p.v.len();
    &&& history.len() >= at_y + p.y.len()
    &&& history[1].2 == g1_encoding(c_comm)
    &&& forall|i: int| 0 <= i < p.x.len() ==> (#[trigger] history[2 + i]).2 == g1_encoding(p.x[i])
    &&& history[at_z0 as int].2 == g1_encoding(p.z_0)
    &&& forall|i: int|
        0 <= i < p.z_nonzero.len() ==> (#[trigger] history[at_z + i]).2 == g2_encoding(
            p.z_nonzero[i],
        )
    &&& forall|i: int|
        0 <= i < p.v.len() ==> (#[trigger] history[at_v + i]).2 == g1_encoding(p.v[i])
    &&& forall|i: int|
        0 <= i < p.y.len() ==> (#[trigger] history[at_y + i]).2 == g1_encoding(p.y[i])
}

proof fn lemma_round1_history(c_comm: int, p: Round1View)
    ensures
        sees_round1(round1_history(c_comm, p), c_comm, p),
        round1_history(c_comm, p).len() == 3 + p.x.len() + p.z_nonzero.len() + p.v.len()
            + p.y.len(),
{
    let h0 = history_message(
        history_start(encode_utf8(TRANSCRIPT_LABEL@)),
        encode_utf8("c_com"@),
        g1_encoding(c_comm),
    );
    let h1 = with_g1_points(h0, encode_utf8("x_com"@), p.x);
    let h2 = history_message(h1, encode_utf8("z_0_comm"@), g1_encoding(p.z_0));
    let h3 = with_g2_points(h2, encode_utf8("z_comm"@), p.z_nonzero);
    let h4 = with_g1_points(h3, encode_utf8("v_comm"@), p.v);
    lemma_g1_messages(h0, encode_utf8("x_com"@), p.x);
    lemma_g2_messages(h2, encode_utf8("z_comm"@), p.z_nonzero);
    lemma_g1_messages(h3, encode_utf8("v_comm"@), p.v);
    lemma_g1_messages(h4, encode_utf8("y_comm"@), p.y);
    let h = round1_history(c_comm, p);
    assert(h[1] == h4[1] && h4[1] == h3[1] && h3[1] == h2[1] && h2[1] == h1[1] && h1[1] == h0[1]);
    assert forall|i: int| 0 <= i < p.x.len() implies (#[trigger] h[2 + i]).2 == g1_encoding(
        p.x[i],
    ) by {
        assert(h[2 + i] == h4[2 + i] && h4[2 + i] == h3[2 + i] && h3[2 + i] == h2[2 + i]);
        assert(h1[h0.len() + i].2 == g1_encoding(p.x[i]));
    }
    let z0 = 2 + p.x.len() as int;
    assert(h[z0] == h4[z0] && h4[z0] == h3[z0] && h3[z0] == h2[z0]);
    assert forall|i: int| 0 <= i < p.z_nonzero.len() implies (#[trigger] h[z0 + 1 + i]).2
        == g2_encoding(p.z_nonzero[i]) by {
        assert(h[z0 + 1 + i] == h4[z0 + 1 + i] && h4[z0 + 1 + i] == h3[z0 + 1 + i]);
        assert(h3[h2.len() + i].2 == g2_encoding(p.z_nonzero[i]));
    }
    let v = z0 + 1 + p.z_nonzero.len();
    assert forall|i: int| 0 <= i < p.v.len() implies (#[trigger] h[v + i]).2 == g1_encoding(
        p.v[i],
    ) by {
        assert(h[v + i] == h4[v + i]);
        assert(h4[h3.len() + i].2 == g1_encoding(p.v[i]));
    }
    let y = v + p.v.len();
    assert forall|i: int| 0 <= i < p.y.len() implies (#[trigger] h[y + i]).2 == g1_encoding(
        p.y[i],
    ) by {
        assert(h[h4.len() + i].2 == g1_encoding(p.y[i]));
    }
}

proof fn lemma_challenge_history(history: Seq<(int, Seq<u8>, Seq<u8>)>, count: int)
    requires
        count >= 0,
    ensures
        ({
            let all = challenge_history(history, count);
            &&& all.len() == history.len() + 2 * count
            &&& forall|i: int| 0 <= i < history.len() ==> #[trigger] all[i] == history[i]
        }),
    decreases count,
{
    if count > 0 {
        lemma_challenge_history(history, count - 1);
    }
}

/// Every challenge is the reduced output of a transcript that has absorbed the
/// commitment to the vector and every commitment of the first round; no two
/// challenges of a proof are taken after equally many messages.
pub proof fn law_challenge_sees_all(c_comm: int, p: Round1View, k: nat, j: int)
    requires
        0 <= j < k,
    ensures
        exists|history: Seq<(int, Seq<u8>, Seq<u8>)>, label: Seq<u8>|
            challenges(c_comm, p, k)[j] == md(
                le_value(#[trigger] challenge_output(history, label)),
            ) && sees_round1(history, c_comm, p) && history.len() == 3 + p.x.len()
                + p.z_nonzero.len() + p.v.len() + p.y.len() + 2 * j,
{
    let start = round1_history(c_comm, p);
    let h = challenge_history(start, j);
    lemma_round1_history(c_comm, p);
    lemma_challenge_history(start, j);
    let label = numbered(encode_utf8("chi"@), j);
    assert(challenges(c_comm, p, k)[j] == md(le_value(challenge_output(h, label))));
    assert(sees_round1(h, c_comm, p)) by {
        let (z0, z) = (2 + p.x.len() as int, 3 + p.x.len() as int);
        let v = z + p.z_nonzero.len();
        let y = v + p.v.len();
        assert(h[1] == start[1] && h[z0] == start[z0]);
        assert forall|i: int| 0 <= i < p.x.len() implies (#[trigger] h[2 + i]).2 == g1_encoding(
            p.x[i],
        ) by {
            assert(h[2 + i] == start[2 + i]);
        }
        assert forall|i: int| 0 <= i < p.z_nonzero.len() implies (#[trigger] h[z + i]).2
            == g2_encoding(p.z_nonzero[i]) by {
            assert(h[z + i] == start[z + i]);
        }
        assert forall|i: int| 0 <= i < p.v.len() implies (#[trigger] h[v + i]).2 == g1_encoding(
            p.v[i],
        ) by {
            assert(h[v + i] == start[v + i]);
        }
        assert forall|i: int| 0 <= i < p.y.len() implies (#[trigger] h[y + i]).2 == g1_encoding(
            p.y[i],
        ) by {
            assert(h[y + i] == start[y + i]);
        }
    }
}

} // verus!
