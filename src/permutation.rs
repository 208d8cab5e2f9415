//! The seed-derived permutation of a grid: its coordinates listed column by
//! column, then shuffled by a generator built from the seed alone.
use crate::grid::{
    column_major, grid_positions, is_grid_permutation, lemma_column_major_is_permutation,
    lemma_permutation_by_multiset,
};
use rand::seq::SliceRandom;
use rand::SeedableRng;
use rand_pcg::Pcg64;
use vstd::prelude::*;

verus! {

/// The order in which a shuffle seeded with `seed` leaves `items`.
pub uninterp spec fn seeded_shuffle(seed: u64, items: Seq<(u32, u32)>) -> Seq<(u32, u32)>;

/// Relies on `rand_pcg::Pcg64::seed_from_u64` and `rand::seq::SliceRandom::shuffle`:
/// the generator is built from `seed` alone and handed only to the shuffle,
/// a Fisher-Yates pass that swaps entries of the slice and never panics, so
/// the result reorders `items` and depends on `seed` and `items` alone.
#[verifier::external_body]
fn shuffle_with_seed(items: Vec<(u32, u32)>, seed: u64) -> (r: Vec<(u32, u32)>)
    ensures
        r@ == seeded_shuffle(seed, items@),
        r@.to_multiset() == items@.to_multiset(),
{
    let mut items = items;
    let mut rng = Pcg64::seed_from_u64(seed);
    items.shuffle(&mut rng);
    items
}

/// The permutation that `seed` gives a `width` x `height` grid: the
/// column-by-column listing, shuffled with the seed widened to 64 bits.
pub open spec fn permutation_of(width: u32, height: u32, seed: u32) -> Seq<(u32, u32)> {
    seeded_shuffle(seed as u64, column_major(width, height))
}

/// Lists every coordinate of the grid once, in the order that `seed` gives.
pub fn generate_permutation(width: u32, height: u32, seed: u32) -> (r: Vec<(u32, u32)>)
    requires
        width * height <= usize::MAX,
    ensures
        r@ == permutation_of(width, height, seed),
        is_grid_permutation(r@, width, height),
{
    let positions = grid_positions(width, height);
    let r = shuffle_with_seed(positions, seed as u64);
    proof {
        lemma_column_major_is_permutation(width, height);
        lemma_permutation_by_multiset(r@, column_major(width, height), width, height);
    }
    r
}

} // verus!
