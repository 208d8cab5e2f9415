use pixel_scramble::{
    check_permutation, generate_permutation, grid_positions, scramble, scramble_pixels, unscramble,
    unscramble_pixels, PixelBuffer, Rgba, ScrambleError,
};

fn px(v: u8) -> Rgba {
    Rgba { r: v, g: v.wrapping_mul(3), b: v.wrapping_add(7), a: 255 }
}

fn numbered(width: u32, height: u32) -> PixelBuffer {
    let pixels: Vec<Rgba> = (0..width * height).map(|i| px(i as u8)).collect();
    PixelBuffer::new(width, height, pixels).unwrap()
}

fn all_cells_once(perm: &[(u32, u32)], width: u32, height: u32) -> bool {
    let mut seen = vec![false; (width * height) as usize];
    for &(x, y) in perm {
        if x >= width || y >= height {
            return false;
        }
        let i = (y * width + x) as usize;
        if seen[i] {
            return false;
        }
        seen[i] = true;
    }
    perm.len() == (width * height) as usize && seen.iter().all(|&s| s)
}

#[test]
fn golden_permutation_two_by_two_seed_42() {
    assert_eq!(generate_permutation(2, 2, 42), vec![(0, 1), (0, 0), (1, 1), (1, 0)]);
}

#[test]
fn two_by_two_scramble_then_unscramble_restores_labels() {
    let (a, b, c, d) = (px(10), px(20), px(30), px(40));
    // A at (0,0), B at (0,1), C at (1,0), D at (1,1); rows are stored in turn.
    let img = PixelBuffer::new(2, 2, vec![a, c, b, d]).unwrap();
    let scrambled = scramble_pixels(&img, 42);
    assert_eq!(scrambled.pixels(), &vec![b, a, d, c]);
    let restored = unscramble_pixels(&scrambled, 42);
    assert_eq!(restored.get_pixel(0, 0), a);
    assert_eq!(restored.get_pixel(0, 1), b);
    assert_eq!(restored.get_pixel(1, 0), c);
    assert_eq!(restored.get_pixel(1, 1), d);
    assert_eq!(restored, img);
}

#[test]
fn seed_zero_is_reproducible() {
    assert_eq!(generate_permutation(2, 2, 0), vec![(0, 1), (1, 0), (0, 0), (1, 1)]);
    assert_eq!(generate_permutation(2, 2, 0), generate_permutation(2, 2, 0));
}

#[test]
fn same_inputs_give_same_permutation() {
    assert_eq!(generate_permutation(7, 5, 12345), generate_permutation(7, 5, 12345));
}

#[test]
fn different_seeds_give_different_permutations() {
    let one = generate_permutation(4, 4, 1);
    let two = generate_permutation(4, 4, 2);
    assert_eq!(one[0], (0, 0));
    assert_eq!(two[0], (1, 3));
    assert_ne!(one, two);
}

#[test]
fn permutation_lists_every_cell_once() {
    for &(w, h, seed) in &[(1, 1, 0), (3, 5, 9), (8, 2, 42), (16, 16, 4_000_000_000)] {
        let perm = generate_permutation(w, h, seed);
        assert!(all_cells_once(&perm, w, h));
    }
}

#[test]
fn non_square_permutation_golden() {
    assert_eq!(
        generate_permutation(3, 2, 42),
        vec![(2, 1), (0, 0), (2, 0), (1, 0), (1, 1), (0, 1)]
    );
}

#[test]
fn round_trip_restores_non_square_image() {
    for &(w, h) in &[(3, 2), (2, 3), (5, 1), (1, 5), (6, 7)] {
        for seed in [0u32, 1, 42, u32::MAX] {
            let img = numbered(w, h);
            let back = unscramble_pixels(&scramble_pixels(&img, seed), seed);
            assert_eq!(back, img);
        }
    }
}

#[test]
fn unscramble_with_wrong_seed_differs() {
    let img = numbered(4, 4);
    let scrambled = scramble_pixels(&img, 1);
    assert_ne!(scrambled, img);
    let wrong = unscramble_pixels(&scrambled, 2);
    assert_ne!(wrong, img);
}

#[test]
fn single_pixel_is_left_alone() {
    assert_eq!(generate_permutation(1, 1, 7), vec![(0, 0)]);
    let img = PixelBuffer::new(1, 1, vec![px(99)]).unwrap();
    assert_eq!(scramble_pixels(&img, 7), img);
    assert_eq!(unscramble_pixels(&img, 7), img);
}

#[test]
fn zero_area_grid_has_empty_permutation() {
    assert!(generate_permutation(0, 5, 3).is_empty());
    assert!(generate_permutation(5, 0, 3).is_empty());
    let img = PixelBuffer::new(0, 3, vec![]).unwrap();
    assert_eq!(scramble_pixels(&img, 3).pixels().len(), 0);
}

#[test]
fn grid_positions_go_column_by_column() {
    assert_eq!(
        grid_positions(2, 3),
        vec![(0, 0), (0, 1), (0, 2), (1, 0), (1, 1), (1, 2)]
    );
}

#[test]
fn scramble_and_unscramble_follow_the_table() {
    let img = numbered(3, 1);
    let perm = vec![(2, 0), (0, 0), (1, 0)];
    let s = scramble(&img, &perm).unwrap();
    assert_eq!(s.pixels(), &vec![px(2), px(0), px(1)]);
    let u = unscramble(&s, &perm).unwrap();
    assert_eq!(u, img);
    assert_eq!(unscramble(&img, &perm).unwrap().pixels(), &vec![px(1), px(2), px(0)]);
}

#[test]
fn new_rejects_wrong_pixel_count() {
    assert_eq!(PixelBuffer::new(2, 2, vec![px(1); 3]), Err(ScrambleError::DimensionMismatch));
    assert_eq!(PixelBuffer::new(2, 2, vec![px(1); 5]), Err(ScrambleError::DimensionMismatch));
    let ok = PixelBuffer::new(2, 3, vec![px(1); 6]).unwrap();
    assert_eq!((ok.width(), ok.height()), (2, 3));
}

#[test]
fn blank_buffer_is_transparent_black() {
    let b = PixelBuffer::blank(3, 2);
    assert_eq!(b.pixels(), &vec![Rgba { r: 0, g: 0, b: 0, a: 0 }; 6]);
}

#[test]
fn check_permutation_accepts_only_grid_permutations() {
    assert!(check_permutation(&vec![(1, 0), (0, 0), (1, 1), (0, 1)], 2, 2));
    assert!(check_permutation(&generate_permutation(5, 3, 8), 5, 3));
    assert!(check_permutation(&vec![], 0, 4));
    assert!(!check_permutation(&vec![(1, 0), (0, 0), (1, 1)], 2, 2));
    assert!(!check_permutation(&vec![(1, 0), (0, 0), (1, 1), (0, 1), (0, 0)], 2, 2));
    assert!(!check_permutation(&vec![(1, 0), (0, 0), (1, 1), (1, 0)], 2, 2));
    assert!(!check_permutation(&vec![(1, 0), (0, 0), (1, 1), (0, 2)], 2, 2));
    assert!(!check_permutation(&vec![(1, 0), (0, 0), (1, 1), (2, 0)], 2, 2));
}

#[test]
fn scramble_rejects_mismatched_permutation() {
    let img = numbered(2, 2);
    let short = vec![(0, 0), (1, 0), (0, 1)];
    assert_eq!(scramble(&img, &short), Err(ScrambleError::DimensionMismatch));
    assert_eq!(unscramble(&img, &short), Err(ScrambleError::DimensionMismatch));
    let repeated = vec![(0, 0), (1, 0), (0, 1), (0, 0)];
    assert_eq!(scramble(&img, &repeated), Err(ScrambleError::DimensionMismatch));
    assert_eq!(unscramble(&img, &repeated), Err(ScrambleError::DimensionMismatch));
    let for_other_size = generate_permutation(4, 1, 5);
    assert_eq!(scramble(&img, &for_other_size), Err(ScrambleError::DimensionMismatch));
}

#[test]
fn scramble_rejects_buffer_of_wrong_size() {
    let bad = PixelBuffer { width: 2, height: 2, pixels: vec![px(1); 3] };
    let perm = generate_permutation(2, 2, 42);
    assert_eq!(scramble(&bad, &perm), Err(ScrambleError::DimensionMismatch));
    assert_eq!(unscramble(&bad, &perm), Err(ScrambleError::DimensionMismatch));
}

#[test]
fn scramble_with_generated_table_matches_salted_scramble() {
    let img = numbered(5, 4);
    let perm = generate_permutation(5, 4, 77);
    assert_eq!(scramble(&img, &perm).unwrap(), scramble_pixels(&img, 77));
    let s = scramble_pixels(&img, 77);
    assert_eq!(unscramble(&s, &perm).unwrap(), img);
}
