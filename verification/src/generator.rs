//! Random number generators: what they give, and in what order.
//!
//! A generator is viewed as the words that it gives next, from number 0 on.
//! What is drawn from it is a function of these words, and takes some of them.

use vstd::prelude::*;

verus! {

/// The random number generator that keys, nonces, blinders and votes are drawn
/// from.
#[verifier::external_type_specification]
#[verifier::external_body]
pub struct ExStdRng(rand::rngs::StdRng);

/// The words that a generator gives next, counted from zero.
pub uninterp spec fn words(rng: rand::rngs::StdRng) -> Map<int, u32>;

/// What is left of a generator's words after the first `n`.
pub open spec fn skipped(w: Map<int, u32>, n: int) -> Map<int, u32> {
    Map::new(|i: int| i >= 0, |i: int| w[i + n])
}

// ---- generators ------------------------------------------------------------

/// The word with a number of the generator with the fixed seed.
pub uninterp spec fn fixed_word(i: int) -> u32;

/// The words of the generator with the fixed seed.
pub open spec fn fixed_words() -> Map<int, u32> {
    Map::new(|i: int| i >= 0, |i: int| fixed_word(i))
}

/// `ark_std::test_rng`: a generator with a fixed seed, which gives the same
/// words each time.
#[verifier::external_body]
fn test_generator() -> (rng: rand::rngs::StdRng)
    ensures
        words(rng) == Map::new(|i: int| i >= 0, |i: int| fixed_word(i)),
{
    ark_std::test_rng()
}

/// The generator with the fixed seed, at its start.
pub(crate) fn fixed_rng() -> (rng: rand::rngs::StdRng)
    ensures
        words(rng) == fixed_words(),
{
    let rng = test_generator();
    proof {
        assert(words(rng) =~= fixed_words());
    }
    rng
}

/// The word with a number of the generator that is made from a seed.
pub uninterp spec fn seeded_word(seed: u64, i: int) -> u32;

/// The words of the generator that is made from a seed.
pub open spec fn seeded_words(seed: u64) -> Map<int, u32> {
    Map::new(|i: int| i >= 0, |i: int| seeded_word(seed, i))
}

/// `SeedableRng::seed_from_u64` of `rand`: a generator that is determined by
/// the seed, and with it the words that it gives.
#[verifier::external_body]
fn generator_from(seed: u64) -> (rng: rand::rngs::StdRng)
    ensures
        words(rng) == Map::new(|i: int| i >= 0, |i: int| seeded_word(seed, i)),
{
    rand::SeedableRng::seed_from_u64(seed)
}

/// The generator made from a seed, at its start.
pub(crate) fn seeded_rng(seed: u64) -> (rng: rand::rngs::StdRng)
    ensures
        words(rng) == seeded_words(seed),
{
    let rng = generator_from(seed);
    proof {
        assert(words(rng) =~= seeded_words(seed));
    }
    rng
}

/// `SeedableRng::from_rng` of `rand` on `rand::thread_rng()`: a generator
/// seeded by the thread's own. What it gives rests on chance.
#[verifier::external_body]
pub(crate) fn thread_seeded_rng() -> (rng: rand::rngs::StdRng) {
    rand::SeedableRng::from_rng(rand::thread_rng()).unwrap()
}

// ---- scalars ---------------------------------------------------------------

/// The scalar that is drawn from a generator with these words, and the number
/// of words that it takes.
pub uninterp spec fn scalar_draw(w: Map<int, u32>) -> (int, int);

/// The words that are left after a scalar was drawn.
pub open spec fn after_scalar(w: Map<int, u32>) -> Map<int, u32> {
    skipped(w, scalar_draw(w).1)
}

/// The words that are left after `n` scalars were drawn.
pub open spec fn after_scalars(w: Map<int, u32>, n: int) -> Map<int, u32>
    decreases n,
{
    if n <= 0 {
        w
    } else {
        after_scalar(after_scalars(w, n - 1))
    }
}

/// The scalar with a number that is drawn from these words.
pub open spec fn nth_scalar(w: Map<int, u32>, i: int) -> int {
    scalar_draw(after_scalars(w, i)).0
}

/// The scalars that a generator gives next, counted from zero.
pub open spec fn upcoming(rng: rand::rngs::StdRng, i: int) -> int {
    nth_scalar(words(rng), i)
}

/// The scalars that the generator with the fixed seed gives.
pub open spec fn test_scalar(i: int) -> int {
    nth_scalar(fixed_words(), i)
}

/// The scalars that the generator made from a seed gives.
pub open spec fn seeded_scalar(seed: u64, i: int) -> int {
    nth_scalar(seeded_words(seed), i)
}

/// A generator stands where another one stands after `n` more scalars.
pub open spec fn later(before: rand::rngs::StdRng, after: rand::rngs::StdRng, n: int) -> bool {
    words(after) == after_scalars(words(before), n)
}

proof fn lemma_after_scalars(w: Map<int, u32>, m: int, n: int)
    requires
        m >= 0,
        n >= 0,
    ensures
        after_scalars(after_scalars(w, m), n) == after_scalars(w, m + n),
    decreases n,
{
    if n > 0 {
        lemma_after_scalars(w, m, n - 1);
    }
}

/// What a later generator gives, the earlier one gives later.
pub proof fn lemma_upcoming(
    before: rand::rngs::StdRng,
    after: rand::rngs::StdRng,
    n: int,
    i: int,
)
    requires
        later(before, after, n),
        n >= 0,
        i >= 0,
    ensures
        upcoming(after, i) == upcoming(before, n + i),
{
    lemma_after_scalars(words(before), n, i);
}

/// Steps of a generator add up.
pub proof fn lemma_later(
    first: rand::rngs::StdRng,
    second: rand::rngs::StdRng,
    third: rand::rngs::StdRng,
    m: int,
    n: int,
)
    requires
        later(first, second, m),
        later(second, third, n),
        m >= 0,
        n >= 0,
    ensures
        later(first, third, m + n),
{
    lemma_after_scalars(words(first), m, n);
}

} // verus!
