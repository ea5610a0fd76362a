//! Randomness drawn from `rand` / `rand_chacha`. Draws from a generator that
//! is passed along are not described; a shuffle from a freshly seeded
//! generator is named as a function of its seed and its input.

use vstd::prelude::*;
use rand::Rng;
use rand::SeedableRng;
use rand::seq::SliceRandom;
use rand_chacha::ChaCha12Rng;

verus! {

#[verifier::external_type_specification]
#[verifier::external_body]
pub struct ExChaCha12Rng(rand_chacha::ChaCha12Rng);

/// Calls `ChaCha12Rng::seed_from_u64`. Nothing is stated of the generator made.
#[verifier::external_body]
pub(crate) fn chacha_from_seed(seed: u64) -> ChaCha12Rng {
    ChaCha12Rng::seed_from_u64(seed)
}

/// Calls `Rng::random::<[u8; 16]>` on a ChaCha generator (one `u32` drawn
/// per byte). The bytes are random: nothing is stated of them.
#[verifier::external_body]
pub(crate) fn chacha_next_bytes(rng: &mut ChaCha12Rng) -> [u8; 16] {
    rng.random::<[u8; 16]>()
}

/// Calls `Rng::random_ratio(1, 2)` on a ChaCha generator: a fair coin, drawn
/// as one `u64` compared with `2^63`. The value is random: nothing is stated
/// of it.
#[verifier::external_body]
pub(crate) fn chacha_next_bool(rng: &mut ChaCha12Rng) -> bool {
    rng.random_ratio(1, 2)
}

/// Calls `rand::random::<[u8; 16]>` (thread-local generator). Nothing is
/// stated of the bytes.
#[verifier::external_body]
pub(crate) fn thread_next_bytes() -> [u8; 16] {
    rand::random::<[u8; 16]>()
}

/// What `SliceRandom::shuffle` leaves in a vector holding `v` when it draws
/// from a `ChaCha12Rng` made by `seed_from_u64(seed)`. The generator is
/// deterministic and portable, so this is a function of `seed` and `v`.
pub uninterp spec fn seeded_shuffle_spec(seed: u64, v: Seq<usize>) -> Seq<usize>;

/// Calls `SliceRandom::shuffle` on `v`, drawing from a `ChaCha12Rng` made by
/// `seed_from_u64(seed)`. The result is the named `seeded_shuffle_spec` of the
/// seed and the input; the shuffle only swaps, so the length and the multiset
/// of elements are kept. Which permutation a seed gives is not stated.
#[verifier::external_body]
pub(crate) fn chacha_shuffle_seeded(v: &mut Vec<usize>, seed: u64)
    ensures
        final(v)@ == seeded_shuffle_spec(seed, old(v)@),
        final(v)@.len() == old(v)@.len(),
        final(v)@.to_multiset() == old(v)@.to_multiset(),
{
    let mut rng = ChaCha12Rng::seed_from_u64(seed);
    v.shuffle(&mut rng)
}

} // verus!
