//! Pixel coordinates of a `width` x `height` grid, the two orders in which
//! they are numbered, and what it means for a sequence of them to be a
//! permutation of the grid.
use vstd::arithmetic::div_mod::{lemma_fundamental_div_mod, lemma_fundamental_div_mod_converse};
use vstd::arithmetic::mul::{lemma_mul_inequality, lemma_mul_is_distributive_add_other_way};
use vstd::prelude::*;

verus! {

/// A coordinate `(x, y)` lies inside a grid of the given size.
pub open spec fn in_grid(c: (u32, u32), width: nat, height: nat) -> bool {
    (c.0 as nat) < width && (c.1 as nat) < height
}

/// Row-major position of a coordinate: the index of its pixel in a raster
/// buffer of the given width.
pub open spec fn raster_index(c: (u32, u32), width: nat) -> int {
    c.1 * width + c.0
}

/// The coordinate whose row-major position is `i`: `(i mod width, i div width)`.
pub open spec fn raster_cell(i: int, width: nat) -> (u32, u32) {
    ((i % (width as int)) as u32, (i / (width as int)) as u32)
}

/// All coordinates of the grid, column by column: every `y` for `x = 0`,
/// then every `y` for `x = 1`, and so on.
pub open spec fn column_major(width: u32, height: u32) -> Seq<(u32, u32)> {
    Seq::new(
        (width * height) as nat,
        |i: int| ((i / (height as int)) as u32, (i % (height as int)) as u32),
    )
}

/// `p` lists every coordinate of the grid exactly once.
pub open spec fn is_grid_permutation(p: Seq<(u32, u32)>, width: u32, height: u32) -> bool {
    &&& p.len() == width * height
    &&& p.no_duplicates()
    &&& forall|i: int| 0 <= i < p.len() ==> in_grid(#[trigger] p[i], width as nat, height as nat)
    &&& forall|c: (u32, u32)| in_grid(c, width as nat, height as nat) ==> #[trigger] p.contains(c)
}

/// A coordinate inside the grid has a row-major position inside the buffer.
pub proof fn lemma_raster_index_bounds(c: (u32, u32), width: nat, height: nat)
    requires
        in_grid(c, width, height),
    ensures
        0 <= raster_index(c, width) < width * height,
{
    lemma_mul_inequality(c.1 as int + 1, height as int, width as int);
    lemma_mul_is_distributive_add_other_way(width as int, c.1 as int, 1);
}

/// Every position of the buffer belongs to exactly one coordinate of the grid.
pub proof fn lemma_raster_cell(i: int, width: u32, height: u32)
    requires
        0 <= i < width * height,
    ensures
        in_grid(raster_cell(i, width as nat), width as nat, height as nat),
        raster_index(raster_cell(i, width as nat), width as nat) == i,
{
    assert(height * width == width * height) by (nonlinear_arith);
    lemma_column_major_index(i, height, width);
    lemma_fundamental_div_mod(i, width as int);
}

/// Quotient and remainder of a position of the grid's listing by one side
/// stay below the two sides.
proof fn lemma_column_major_index(i: int, width: u32, height: u32)
    requires
        0 <= i < width * height,
    ensures
        height > 0,
        0 <= i / (height as int) < width,
        0 <= i % (height as int) < height,
{
    assert(height > 0) by (nonlinear_arith)
        requires
            0 <= i < width * height,
    ;
    lemma_fundamental_div_mod(i, height as int);
    let q = i / (height as int);
    let r = i % (height as int);
    assert(0 <= q < width) by (nonlinear_arith)
        requires
            i == height * q + r,
            0 <= r < height,
            0 <= i < width * height,
    ;
}

/// Two coordinates of the grid with the same row-major position are equal.
pub proof fn lemma_raster_index_injective(c1: (u32, u32), c2: (u32, u32), width: nat, height: nat)
    requires
        in_grid(c1, width, height),
        in_grid(c2, width, height),
        raster_index(c1, width) == raster_index(c2, width),
    ensures
        c1 == c2,
{
    let i = raster_index(c1, width);
    lemma_fundamental_div_mod_converse(i, width as int, c1.1 as int, c1.0 as int);
    lemma_fundamental_div_mod_converse(i, width as int, c2.1 as int, c2.0 as int);
}

/// The `i`-th entry of the column-by-column listing.
proof fn lemma_column_major_entry(x: int, y: int, width: u32, height: u32)
    requires
        0 <= x < width,
        0 <= y < height,
    ensures
        0 <= x * height + y < width * height,
        column_major(width, height)[x * height + y] == (x as u32, y as u32),
{
    lemma_mul_inequality(x + 1, width as int, height as int);
    lemma_mul_is_distributive_add_other_way(height as int, x, 1);
    lemma_fundamental_div_mod_converse(x * height + y, height as int, x, y);
}

/// The column-by-column listing is a permutation of the grid.
pub proof fn lemma_column_major_is_permutation(width: u32, height: u32)
    ensures
        is_grid_permutation(column_major(width, height), width, height),
{
    let s = column_major(width, height);
    assert forall|i: int| 0 <= i < s.len() implies in_grid(#[trigger] s[i], width as nat, height as nat) by {
        lemma_column_major_index(i, width, height);
    }
    assert forall|i: int, j: int| 0 <= i < s.len() && 0 <= j < s.len() && i != j implies s[i]
        != s[j] by {
        lemma_column_major_index(i, width, height);
        lemma_column_major_index(j, width, height);
        lemma_fundamental_div_mod(i, height as int);
        lemma_fundamental_div_mod(j, height as int);
    }
    assert forall|c: (u32, u32)| in_grid(c, width as nat, height as nat) implies #[trigger] s.contains(
        c,
    ) by {
        lemma_column_major_entry(c.0 as int, c.1 as int, width, height);
        assert(s[c.0 * height + c.1] == c);
    }
}

/// A sequence with the same elements, counted with multiplicity, as a
/// permutation of the grid is one too.
pub proof fn lemma_permutation_by_multiset(
    p: Seq<(u32, u32)>,
    q: Seq<(u32, u32)>,
    width: u32,
    height: u32,
)
    requires
        is_grid_permutation(q, width, height),
        p.to_multiset() == q.to_multiset(),
    ensures
        is_grid_permutation(p, width, height),
{
    broadcast use vstd::seq_lib::group_to_multiset_ensures;

    assert(p.len() == q.len()) by {
        vstd::seq_lib::to_multiset_len(p);
        vstd::seq_lib::to_multiset_len(q);
    }
    q.lemma_multiset_has_no_duplicates();
    p.lemma_multiset_has_no_duplicates_conv();
    assert forall|i: int| 0 <= i < p.len() implies in_grid(#[trigger] p[i], width as nat, height as nat) by {
        assert(p.to_multiset().count(p[i]) > 0);
        assert(q.to_multiset().count(p[i]) > 0);
    }
    assert forall|c: (u32, u32)| in_grid(c, width as nat, height as nat) implies #[trigger] p.contains(
        c,
    ) by {
        assert(q.to_multiset().count(c) > 0);
        assert(p.to_multiset().count(c) > 0);
    }
}

/// All coordinates of the grid, listed column by column.
pub fn grid_positions(width: u32, height: u32) -> (r: Vec<(u32, u32)>)
    requires
        width * height <= usize::MAX,
    ensures
        r@ == column_major(width, height),
{
    let mut r: Vec<(u32, u32)> = Vec::new();
    let mut x: u32 = 0;
    while x < width
        invariant
            x <= width,
            width * height <= usize::MAX,
            r@.len() == x * height,
            forall|k: int| 0 <= k < r@.len() ==> #[trigger] r@[k] == column_major(width, height)[k],
        decreases width - x,
    {
        let mut y: u32 = 0;
        while y < height
            invariant
                x < width,
                y <= height,
                width * height <= usize::MAX,
                r@.len() == x * height + y,
                forall|k: int| 0 <= k < r@.len() ==> #[trigger] r@[k] == column_major(width, height)[k],
            decreases height - y,
        {
            proof {
                lemma_column_major_entry(x as int, y as int, width, height);
            }
            r.push((x, y));
            y = y + 1;
        }
        proof {
            lemma_mul_is_distributive_add_other_way(height as int, x as int, 1);
        }
        x = x + 1;
    }
    assert(r@ =~= column_major(width, height));
    r
}

/// Whether `perm` lists every coordinate of the grid exactly once.
pub fn check_permutation(perm: &Vec<(u32, u32)>, width: u32, height: u32) -> (r: bool)
    ensures
        r == is_grid_permutation(perm@, width, height),
{
    proof {
        assert(width * height <= u32::MAX * u32::MAX) by (nonlinear_arith)
            requires
                width <= u32::MAX,
                height <= u32::MAX,
        ;
    }
    let area: u64 = width as u64 * height as u64;
    if perm.len() as u64 != area {
        return false;
    }
    let n: usize = perm.len();
    let mut seen: Vec<bool> = Vec::new();
    let mut i: usize = 0;
    while i < n
        invariant
            i <= n,
            seen@.len() == i,
            forall|p: int| 0 <= p < i ==> !#[trigger] seen@[p],
        decreases n - i,
    {
        seen.push(false);
        i = i + 1;
    }
    let mut idx: usize = 0;
    while idx < n
        invariant
            n == perm@.len(),
            n == width * height,
            idx <= n,
            seen@.len() == n,
            forall|k: int| 0 <= k < idx ==> in_grid(#[trigger] perm@[k], width as nat, height as nat),
            forall|k: int| 0 <= k < idx ==> #[trigger] seen@[raster_index(perm@[k], width as nat)],
            forall|p: int|
                0 <= p < n && #[trigger] seen@[p] ==> exists|k: int|
                    0 <= k < idx && raster_index(#[trigger] perm@[k], width as nat) == p,
            forall|k1: int, k2: int|
                0 <= k1 < idx && 0 <= k2 < idx && k1 != k2 ==> #[trigger] perm@[k1]
                    != #[trigger] perm@[k2],
        decreases n - idx,
    {
        let (x, y) = perm[idx];
        let ghost c = perm@[idx as int];
        if x >= width || y >= height {
            assert(!in_grid(perm@[idx as int], width as nat, height as nat));
            return false;
        }
        proof {
            lemma_raster_index_bounds(c, width as nat, height as nat);
        }
        let pos: usize = y as usize * width as usize + x as usize;
        assert(pos == raster_index(c, width as nat));
        if seen[pos] {
            let ghost k = choose|k: int| 0 <= k < idx && raster_index(#[trigger] perm@[k], width as nat) == pos;
            proof {
                lemma_raster_index_injective(perm@[k], c, width as nat, height as nat);
                assert(perm@[k] == perm@[idx as int]);
            }
            return false;
        }
        proof {
            assert forall|k: int| 0 <= k < idx implies perm@[k] != c by {
                if perm@[k] == c {
                    assert(seen@[raster_index(perm@[k], width as nat)]);
                }
            }
        }
        let ghost before = seen@;
        seen.set(pos, true);
        proof {
            assert forall|k: int| 0 <= k < idx + 1 implies #[trigger] seen@[raster_index(
                perm@[k],
                width as nat,
            )] by {
                lemma_raster_index_bounds(perm@[k], width as nat, height as nat);
                if k < idx {
                    assert(before[raster_index(perm@[k], width as nat)]);
                }
            }
            assert forall|p: int| 0 <= p < n && #[trigger] seen@[p] implies exists|k: int|
                0 <= k < idx + 1 && raster_index(#[trigger] perm@[k], width as nat) == p by {
                if p != pos {
                    assert(before[p]);
                } else {
                    assert(raster_index(perm@[idx as int], width as nat) == p);
                }
            }
        }
        idx = idx + 1;
    }
    let mut p: usize = 0;
    while p < n
        invariant
            n == perm@.len(),
            n == width * height,
            p <= n,
            seen@.len() == n,
            forall|k: int| 0 <= k < n ==> in_grid(#[trigger] perm@[k], width as nat, height as nat),
            forall|k: int| 0 <= k < n ==> #[trigger] seen@[raster_index(perm@[k], width as nat)],
            forall|q: int|
                0 <= q < n && #[trigger] seen@[q] ==> exists|k: int|
                    0 <= k < n && raster_index(#[trigger] perm@[k], width as nat) == q,
            forall|q: int| 0 <= q < p ==> #[trigger] seen@[q],
        decreases n - p,
    {
        if !seen[p] {
            proof {
                lemma_raster_cell(p as int, width, height);
                let c = raster_cell(p as int, width as nat);
                if perm@.contains(c) {
                    let k = choose|k: int| 0 <= k < perm@.len() && perm@[k] == c;
                    assert(seen@[raster_index(perm@[k], width as nat)]);
                }
            }
            return false;
        }
        p = p + 1;
    }
    proof {
        assert forall|c: (u32, u32)| in_grid(c, width as nat, height as nat) implies #[trigger] perm@.contains(
            c,
        ) by {
            lemma_raster_index_bounds(c, width as nat, height as nat);
            let q = raster_index(c, width as nat);
            assert(seen@[q]);
            let k = choose|k: int| 0 <= k < n && raster_index(#[trigger] perm@[k], width as nat) == q;
            lemma_raster_index_injective(perm@[k], c, width as nat, height as nat);
        }
    }
    true
}

} // verus!
