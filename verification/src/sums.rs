//! Finite sums of integers.

use vstd::prelude::*;

use crate::modular::{eqm, lemma_eqm_add};

verus! {

/// `f(0) + f(1) + ... + f(n - 1)`.
pub open spec fn sum(f: spec_fn(int) -> int, n: int) -> int
    decreases n,
{
    if n <= 0 {
        0
    } else {
        sum(f, n - 1) + f(n - 1)
    }
}

pub proof fn lemma_sum_ext(f: spec_fn(int) -> int, g: spec_fn(int) -> int, n: int)
    requires
        forall|i: int| 0 <= i < n ==> #[trigger] f(i) == g(i),
    ensures
        sum(f, n) == sum(g, n),
    decreases n,
{
    if n > 0 {
        lemma_sum_ext(f, g, n - 1);
    }
}

pub proof fn lemma_sum_eqm(f: spec_fn(int) -> int, g: spec_fn(int) -> int, n: int)
    requires
        forall|i: int| 0 <= i < n ==> eqm(#[trigger] f(i), g(i)),
    ensures
        eqm(sum(f, n), sum(g, n)),
    decreases n,
{
    if n > 0 {
        lemma_sum_eqm(f, g, n - 1);
        lemma_eqm_add(sum(f, n - 1), sum(g, n - 1), f(n - 1), g(n - 1));
    }
}

pub proof fn lemma_sum_zero(f: spec_fn(int) -> int, n: int)
    requires
        forall|i: int| 0 <= i < n ==> #[trigger] f(i) == 0,
    ensures
        sum(f, n) == 0,
    decreases n,
{
    if n > 0 {
        lemma_sum_zero(f, n - 1);
    }
}

pub proof fn lemma_sum_add(f: spec_fn(int) -> int, g: spec_fn(int) -> int, n: int)
    ensures
        sum(|i: int| f(i) + g(i), n) == sum(f, n) + sum(g, n),
    decreases n,
{
    if n > 0 {
        lemma_sum_add(f, g, n - 1);
    }
}

pub proof fn lemma_sum_scale(c: int, f: spec_fn(int) -> int, n: int)
    ensures
        sum(|i: int| c * f(i), n) == c * sum(f, n),
    decreases n,
{
    if n > 0 {
        lemma_sum_scale(c, f, n - 1);
        assert(c * (sum(f, n - 1) + f(n - 1)) == c * sum(f, n - 1) + c * f(n - 1))
            by (nonlinear_arith);
    } else {
        assert(c * 0 == 0);
    }
}

/// The first term split off.
pub proof fn lemma_sum_first(f: spec_fn(int) -> int, n: int)
    requires
        n > 0,
    ensures
        sum(f, n) == f(0) + sum(|i: int| f(i + 1), n - 1),
    decreases n,
{
    if n == 1 {
        assert(sum(f, 0) == 0);
    } else {
        lemma_sum_first(f, n - 1);
        let g = |i: int| f(i + 1);
        assert(sum(g, n - 1) == sum(g, n - 2) + g(n - 2));
    }
}

/// A sum split in two at `n`.
pub proof fn lemma_sum_split(f: spec_fn(int) -> int, n: int, m: int)
    requires
        n >= 0,
        m >= 0,
    ensures
        sum(f, n + m) == sum(f, n) + sum(|i: int| f(n + i), m),
    decreases m,
{
    let g = |i: int| f(n + i);
    if m > 0 {
        lemma_sum_split(f, n, m - 1);
        assert(sum(f, n + m) == sum(f, n + m - 1) + f(n + m - 1));
        assert(sum(g, m) == sum(g, m - 1) + g(m - 1));
    }
}

/// The terms in reverse order.
pub proof fn lemma_sum_rev(f: spec_fn(int) -> int, n: int)
    ensures
        sum(f, n) == sum(|i: int| f(n - 1 - i), n),
    decreases n,
{
    if n > 0 {
        let g = |i: int| f(n - 1 - i);
        lemma_sum_first(g, n);
        let h = |i: int| g(i + 1);
        lemma_sum_rev(f, n - 1);
        assert(sum(|i: int| f(n - 1 - 1 - i), n - 1) == sum(h, n - 1)) by {
            lemma_sum_ext(|i: int| f(n - 1 - 1 - i), h, n - 1);
        }
    }
}

/// The terms of even index, then those of odd index.
pub proof fn lemma_sum_even_odd(f: spec_fn(int) -> int, n: int)
    requires
        n >= 0,
    ensures
        sum(f, 2 * n) == sum(|j: int| f(2 * j), n) + sum(|j: int| f(2 * j + 1), n),
    decreases n,
{
    if n > 0 {
        lemma_sum_even_odd(f, n - 1);
        assert(sum(f, 2 * n) == sum(f, 2 * n - 1) + f(2 * n - 1));
        assert(sum(f, 2 * n - 1) == sum(f, 2 * n - 2) + f(2 * n - 2));
        let e = |j: int| f(2 * j);
        let o = |j: int| f(2 * j + 1);
        assert(sum(e, n) == sum(e, n - 1) + e(n - 1));
        assert(sum(o, n) == sum(o, n - 1) + o(n - 1));
    }
}

/// The order of two summations does not matter.
pub proof fn lemma_sum_swap(f: spec_fn(int, int) -> int, n: int, m: int)
    ensures
        sum(|i: int| sum(|j: int| f(i, j), m), n) == sum(|j: int| sum(|i: int| f(i, j), n), m),
    decreases n,
{
    let col = |n2: int| |j: int| sum(|i: int| f(i, j), n2);
    let row = |i: int| sum(|j: int| f(i, j), m);
    if n > 0 {
        lemma_sum_swap(f, n - 1, m);
        let last = |j: int| f(n - 1, j);
        lemma_sum_add(col(n - 1), last, m);
        lemma_sum_ext(col(n), |j: int| col(n - 1)(j) + last(j), m);
        assert(sum(row, n) == sum(row, n - 1) + row(n - 1));
        lemma_sum_ext(last, |j: int| f(n - 1, j), m);
        lemma_sum_ext(col(n), |j: int| sum(|i: int| f(i, j), n), m);
        lemma_sum_ext(col(n - 1), |j: int| sum(|i: int| f(i, j), n - 1), m);
    } else {
        assert forall|j: int| 0 <= j < m implies #[trigger] col(n)(j) == 0 by {}
        lemma_sum_zero(col(n), m);
        lemma_sum_ext(col(n), |j: int| sum(|i: int| f(i, j), n), m);
    }
}

/// A sum with one possibly nonzero term.
pub proof fn lemma_sum_single(f: spec_fn(int) -> int, n: int, k: int)
    requires
        0 <= k < n,
        forall|i: int| 0 <= i < n && i != k ==> #[trigger] f(i) == 0,
    ensures
        sum(f, n) == f(k),
    decreases n,
{
    if k == n - 1 {
        lemma_sum_zero(f, n - 1);
    } else {
        lemma_sum_single(f, n - 1, k);
    }
}

} // verus!
