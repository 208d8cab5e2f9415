//! Moving pixels by a permutation of the grid, forwards and back.
use crate::grid::{
    check_permutation, in_grid, is_grid_permutation, lemma_raster_cell, lemma_raster_index_bounds,
    lemma_raster_index_injective, raster_cell, raster_index,
};
use crate::permutation::{generate_permutation, permutation_of};
use crate::raster::{PixelBuffer, Rgba, ScrambleError};
use vstd::prelude::*;

verus! {

/// Forward mapping: position `i` of the result holds the pixel of `src` at
/// coordinate `perm[i]`.
pub open spec fn scrambled(src: Seq<Rgba>, width: u32, perm: Seq<(u32, u32)>) -> Seq<Rgba> {
    Seq::new(perm.len(), |i: int| src[raster_index(perm[i], width as nat)])
}

/// The index at which `perm` lists coordinate `c`.
pub open spec fn position_in(perm: Seq<(u32, u32)>, c: (u32, u32)) -> int {
    choose|i: int| 0 <= i < perm.len() && perm[i] == c
}

/// Inverse mapping: the pixel at coordinate `perm[i]` of the result is the
/// one at position `i` of `src`.
pub open spec fn unscrambled(src: Seq<Rgba>, width: u32, perm: Seq<(u32, u32)>) -> Seq<Rgba> {
    Seq::new(perm.len(), |j: int| src[position_in(perm, raster_cell(j, width as nat))])
}

/// Row-major position `j` of the grid is named by the entry of a grid
/// permutation at index `position_in(perm, raster_cell(j))`.
proof fn lemma_position_in(perm: Seq<(u32, u32)>, width: u32, height: u32, j: int)
    requires
        is_grid_permutation(perm, width, height),
        0 <= j < width * height,
    ensures
        0 <= position_in(perm, raster_cell(j, width as nat)) < perm.len(),
        perm[position_in(perm, raster_cell(j, width as nat))] == raster_cell(j, width as nat),
        raster_index(perm[position_in(perm, raster_cell(j, width as nat))], width as nat) == j,
{
    lemma_raster_cell(j, width, height);
    let c = raster_cell(j, width as nat);
    assert(perm.contains(c));
}

/// Builds the scrambled image: the pixel at coordinate `perm[i]` of `src`
/// goes to row-major position `i`, that is to `(i mod width, i div width)`.
/// Refused unless `src` has one pixel per coordinate and `perm` lists every
/// coordinate of its grid once.
pub fn scramble(src: &PixelBuffer, perm: &Vec<(u32, u32)>) -> (r: Result<PixelBuffer, ScrambleError>)
    ensures
        r is Ok <==> src.wf() && is_grid_permutation(perm@, src.width, src.height),
        r is Ok ==> r->Ok_0.wf() && r->Ok_0.width == src.width && r->Ok_0.height == src.height
            && r->Ok_0.pixels@ == scrambled(src.pixels@, src.width, perm@),
        r is Err ==> r->Err_0 == ScrambleError::DimensionMismatch,
{
    if src.has_valid_size() && check_permutation(perm, src.width, src.height) {
        Ok(scramble_by(src, perm))
    } else {
        Err(ScrambleError::DimensionMismatch)
    }
}

/// Undoes `scramble`: the pixel at row-major position `i` of `src` goes back
/// to coordinate `perm[i]`. Refused unless `src` has one pixel per
/// coordinate and `perm` lists every coordinate of its grid once.
pub fn unscramble(src: &PixelBuffer, perm: &Vec<(u32, u32)>) -> (r: Result<PixelBuffer, ScrambleError>)
    ensures
        r is Ok <==> src.wf() && is_grid_permutation(perm@, src.width, src.height),
        r is Ok ==> r->Ok_0.wf() && r->Ok_0.width == src.width && r->Ok_0.height == src.height
            && r->Ok_0.pixels@ == unscrambled(src.pixels@, src.width, perm@),
        r is Err ==> r->Err_0 == ScrambleError::DimensionMismatch,
{
    if src.has_valid_size() && check_permutation(perm, src.width, src.height) {
        Ok(unscramble_by(src, perm))
    } else {
        Err(ScrambleError::DimensionMismatch)
    }
}

/// The forward move, on inputs already known to fit together.
fn scramble_by(src: &PixelBuffer, perm: &Vec<(u32, u32)>) -> (r: PixelBuffer)
    requires
        src.wf(),
        is_grid_permutation(perm@, src.width, src.height),
    ensures
        r.wf(),
        r.width == src.width,
        r.height == src.height,
        r.pixels@ == scrambled(src.pixels@, src.width, perm@),
{
    let n: usize = perm.len();
    let width: u32 = src.width;
    let mut pixels: Vec<Rgba> = Vec::new();
    let mut idx: usize = 0;
    while idx < n
        invariant
            src.wf(),
            is_grid_permutation(perm@, src.width, src.height),
            n == perm@.len(),
            width == src.width,
            idx <= n,
            pixels@.len() == idx,
            forall|k: int| 0 <= k < idx ==> #[trigger] pixels@[k] == scrambled(src.pixels@, width, perm@)[k],
        decreases n - idx,
    {
        let (x, y) = perm[idx];
        proof {
            assert(in_grid(perm@[idx as int], src.width as nat, src.height as nat));
        }
        let pixel = src.get_pixel(x, y);
        pixels.push(pixel);
        idx = idx + 1;
    }
    assert(pixels@ =~= scrambled(src.pixels@, width, perm@));
    PixelBuffer { width: src.width, height: src.height, pixels }
}

/// The inverse move, on inputs already known to fit together.
fn unscramble_by(src: &PixelBuffer, perm: &Vec<(u32, u32)>) -> (r: PixelBuffer)
    requires
        src.wf(),
        is_grid_permutation(perm@, src.width, src.height),
    ensures
        r.wf(),
        r.width == src.width,
        r.height == src.height,
        r.pixels@ == unscrambled(src.pixels@, src.width, perm@),
{
    let n: usize = perm.len();
    let width: u32 = src.width;
    let height: u32 = src.height;
    let mut dest = PixelBuffer::blank(width, height);
    let mut idx: usize = 0;
    while idx < n
        invariant
            src.wf(),
            dest.wf(),
            is_grid_permutation(perm@, width, height),
            n == perm@.len(),
            width == src.width,
            height == src.height,
            dest.width == width,
            dest.height == height,
            idx <= n,
            forall|k: int|
                0 <= k < idx ==> dest.pixels@[raster_index(#[trigger] perm@[k], width as nat)]
                    == src.pixels@[k],
        decreases n - idx,
    {
        let (x, y) = perm[idx];
        let ghost c = perm@[idx as int];
        proof {
            assert(in_grid(c, width as nat, height as nat));
            lemma_raster_index_bounds(c, width as nat, height as nat);
            assert forall|k: int| 0 <= k < idx implies raster_index(#[trigger] perm@[k], width as nat)
                != raster_index(c, width as nat) by {
                assert(in_grid(perm@[k], width as nat, height as nat));
                if raster_index(perm@[k], width as nat) == raster_index(c, width as nat) {
                    lemma_raster_index_injective(perm@[k], c, width as nat, height as nat);
                }
            }
        }
        let pos: usize = y as usize * width as usize + x as usize;
        let pixel: Rgba = src.pixels[idx];
        let ghost before = dest.pixels@;
        assert(pos == raster_index(c, width as nat));
        dest.pixels.set(pos, pixel);
        assert forall|k: int| 0 <= k < idx + 1 implies dest.pixels@[raster_index(
            #[trigger] perm@[k],
            width as nat,
        )] == src.pixels@[k] by {
            assert(in_grid(perm@[k], width as nat, height as nat));
            lemma_raster_index_bounds(perm@[k], width as nat, height as nat);
            if k < idx {
                assert(raster_index(perm@[k], width as nat) != raster_index(c, width as nat));
                assert(before[raster_index(perm@[k], width as nat)] == src.pixels@[k]);
            }
        }
        idx = idx + 1;
    }
    assert forall|j: int| 0 <= j < n implies #[trigger] dest.pixels@[j] == unscrambled(
        src.pixels@,
        width,
        perm@,
    )[j] by {
        lemma_position_in(perm@, width, height, j);
    }
    assert(dest.pixels@ =~= unscrambled(src.pixels@, width, perm@));
    dest
}

/// Unscrambling what was scrambled by the same grid permutation gives back
/// the original pixels, whatever they are.
pub proof fn lemma_round_trip(pixels: Seq<Rgba>, width: u32, height: u32, perm: Seq<(u32, u32)>)
    requires
        pixels.len() == width * height,
        is_grid_permutation(perm, width, height),
    ensures
        unscrambled(scrambled(pixels, width, perm), width, perm) == pixels,
{
    let s = scrambled(pixels, width, perm);
    let u = unscrambled(s, width, perm);
    assert forall|j: int| 0 <= j < pixels.len() implies #[trigger] u[j] == pixels[j] by {
        lemma_position_in(perm, width, height, j);
    }
    assert(u =~= pixels);
}

/// Scrambling what was unscrambled by the same grid permutation gives back
/// the original pixels too: the two directions are inverse to each other.
pub proof fn lemma_round_trip_reversed(
    pixels: Seq<Rgba>,
    width: u32,
    height: u32,
    perm: Seq<(u32, u32)>,
)
    requires
        pixels.len() == width * height,
        is_grid_permutation(perm, width, height),
    ensures
        scrambled(unscrambled(pixels, width, perm), width, perm) == pixels,
{
    let u = unscrambled(pixels, width, perm);
    let s = scrambled(u, width, perm);
    assert forall|i: int| 0 <= i < pixels.len() implies #[trigger] s[i] == pixels[i] by {
        let c = perm[i];
        assert(in_grid(c, width as nat, height as nat));
        lemma_raster_index_bounds(c, width as nat, height as nat);
        let j = raster_index(c, width as nat);
        lemma_position_in(perm, width, height, j);
        let k = position_in(perm, raster_cell(j, width as nat));
        lemma_raster_cell(j, width, height);
        lemma_raster_index_injective(perm[k], c, width as nat, height as nat);
        assert(perm[k] == perm[i]);
    }
    assert(s =~= pixels);
}

/// On a grid of one pixel the only permutation lists `(0, 0)`, and both
/// directions leave the pixel where it is.
pub proof fn lemma_single_pixel(pixels: Seq<Rgba>, perm: Seq<(u32, u32)>)
    requires
        pixels.len() == 1,
        is_grid_permutation(perm, 1, 1),
    ensures
        perm == seq![(0u32, 0u32)],
        scrambled(pixels, 1, perm) == pixels,
        unscrambled(pixels, 1, perm) == pixels,
{
    assert(in_grid(perm[0], 1, 1));
    assert(perm =~= seq![(0u32, 0u32)]);
    assert(scrambled(pixels, 1, perm) =~= pixels);
    lemma_position_in(perm, 1, 1, 0);
    assert(unscrambled(pixels, 1, perm) =~= pixels);
}

/// Two permutations generated from the same width, height and seed are the
/// same sequence.
pub proof fn lemma_permutation_deterministic(
    width: u32,
    height: u32,
    seed: u32,
    first: Seq<(u32, u32)>,
    second: Seq<(u32, u32)>,
)
    requires
        first == permutation_of(width, height, seed),
        second == permutation_of(width, height, seed),
    ensures
        first == second,
{
}

/// Scrambles `img` by the permutation that `salt` gives its grid.
pub fn scramble_pixels(img: &PixelBuffer, salt: u32) -> (r: PixelBuffer)
    requires
        img.wf(),
    ensures
        is_grid_permutation(permutation_of(img.width, img.height, salt), img.width, img.height),
        r.wf(),
        r.width == img.width,
        r.height == img.height,
        r.pixels@ == scrambled(img.pixels@, img.width, permutation_of(img.width, img.height, salt)),
{
    let positions = generate_permutation(img.width, img.height, salt);
    scramble_by(img, &positions)
}

/// Restores an image that `scramble_pixels` made with the same `salt`.
pub fn unscramble_pixels(img: &PixelBuffer, salt: u32) -> (r: PixelBuffer)
    requires
        img.wf(),
    ensures
        is_grid_permutation(permutation_of(img.width, img.height, salt), img.width, img.height),
        r.wf(),
        r.width == img.width,
        r.height == img.height,
        r.pixels@ == unscrambled(img.pixels@, img.width, permutation_of(img.width, img.height, salt)),
{
    let positions = generate_permutation(img.width, img.height, salt);
    unscramble_by(img, &positions)
}

} // verus!
