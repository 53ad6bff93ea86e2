//! Square arrays that hold a hexagonal lattice: cell (q, r) of a lattice of
//! radius R sits in row r + R, column q + R of an array 2R + 1 wide.

use crate::hex;
use vstd::prelude::*;

verus! {

/// Row stride of a lattice of radius `radius`.
pub open spec fn width(radius: int) -> int {
    2 * radius + 1
}

/// Number of array entries of a lattice of radius `radius`.
pub open spec fn area(radius: int) -> int {
    width(radius) * width(radius)
}

/// Whether the array of a lattice of radius `radius` holds cell (q, r).
pub open spec fn on_grid(radius: int, q: int, r: int) -> bool {
    -radius <= q <= radius && -radius <= r <= radius
}

/// Array index of cell (q, r).
pub open spec fn flat(radius: int, q: int, r: int) -> int {
    (r + radius) * width(radius) + (q + radius)
}

/// The cell at an array index.
pub open spec fn cell_of(radius: int, i: int) -> hex::Cell {
    (i % width(radius) - radius, i / width(radius) - radius)
}

/// Distance in the array from a cell to its k-th neighbour.
pub open spec fn offset(w: int, k: int) -> int {
    hex::direction(k).1 * w + hex::direction(k).0
}

/// Most cells that a lattice radius may span here.
pub const MAX_RADIUS: i32 = 0x100_0000;

/// Cell (q, r) lies inside the array, and its index leads back to it.
pub proof fn flat_is_inverted(radius: int, q: int, r: int)
    requires
        on_grid(radius, q, r),
    ensures
        0 <= flat(radius, q, r) < area(radius),
        cell_of(radius, flat(radius, q, r)) == (q, r),
{
    let w = width(radius);
    let (x, y) = (q + radius, r + radius);
    assert(0 <= y * w + x < w * w) by (nonlinear_arith)
        requires
            0 <= x < w,
            0 <= y < w,
    ;
    vstd::arithmetic::div_mod::lemma_fundamental_div_mod_converse(y * w + x, w, y, x);
    assert(w * y == y * w) by (nonlinear_arith);
}

/// Every array index is that of the cell found there.
pub proof fn cell_is_inverted(radius: int, i: int)
    requires
        0 <= i < area(radius),
        radius >= 0,
    ensures
        on_grid(radius, cell_of(radius, i).0, cell_of(radius, i).1),
        flat(radius, cell_of(radius, i).0, cell_of(radius, i).1) == i,
{
    let w = width(radius);
    vstd::arithmetic::div_mod::lemma_fundamental_div_mod(i, w);
    assert(0 <= i / w < w) by (nonlinear_arith)
        requires
            0 <= i < w * w,
            w > 0,
    ;
    assert(w * (i / w) == (i / w) * w) by (nonlinear_arith);
}

/// Moving to a neighbour moves by a fixed distance in the array.
pub proof fn flat_of_neighbour(radius: int, q: int, r: int, k: int)
    requires
        0 <= k < 6,
    ensures
        flat(radius, q + hex::direction(k).0, r + hex::direction(k).1) == flat(radius, q, r)
            + offset(width(radius), k),
{
    let w = width(radius);
    let d = hex::direction(k);
    assert((r + d.1 + radius) * w == (r + radius) * w + d.1 * w) by (nonlinear_arith);
}

/// Different cells have different indices.
pub proof fn flat_is_injective(radius: int, a: hex::Cell, b: hex::Cell)
    requires
        on_grid(radius, a.0, a.1),
        on_grid(radius, b.0, b.1),
    ensures
        flat(radius, a.0, a.1) == flat(radius, b.0, b.1) <==> a == b,
{
    flat_is_inverted(radius, a.0, a.1);
    flat_is_inverted(radius, b.0, b.1);
}

/// Array index of cell (q, r) of a lattice of the given radius.
pub fn flat_index(radius: i32, q: i32, r: i32) -> (i: usize)
    requires
        0 <= radius <= MAX_RADIUS,
        on_grid(radius as int, q as int, r as int),
        area(radius as int) <= usize::MAX,
    ensures
        i == flat(radius as int, q as int, r as int),
        i < area(radius as int),
{
    let w: usize = (2 * radius + 1) as usize;
    let x: usize = (q + radius) as usize;
    let y: usize = (r + radius) as usize;
    proof {
        flat_is_inverted(radius as int, q as int, r as int);
        assert(0 <= y * w <= y * w + x) by (nonlinear_arith)
            requires
                0 <= x,
                0 <= y,
                0 <= w,
        ;
    }
    y * w + x
}

/// The cell at an array index of a lattice of the given radius.
pub fn cell_at_index(radius: i32, i: usize) -> (c: (i32, i32))
    requires
        0 <= radius <= MAX_RADIUS,
        i < area(radius as int),
    ensures
        (c.0 as int, c.1 as int) == cell_of(radius as int, i as int),
        on_grid(radius as int, c.0 as int, c.1 as int),
        flat(radius as int, c.0 as int, c.1 as int) == i,
{
    let w: usize = (2 * radius + 1) as usize;
    proof {
        cell_is_inverted(radius as int, i as int);
    }
    ((i % w) as i32 - radius, (i / w) as i32 - radius)
}

/// The array index of the k-th neighbour of the cell at index `i`, in an array
/// of length `n` whose rows are `w` long; none past the ends of the cell's row
/// or past the first or last row.
pub open spec fn beside(n: int, w: int, i: int, k: int) -> Option<int> {
    let j = i + offset(w, k);
    if w > 0 && 0 <= i % w + hex::direction(k).0 < w && 0 <= j < n {
        Some(j)
    } else {
        None
    }
}

/// Index of the k-th neighbour of entry `i` in an array of length `n` and
/// row stride `w`, if the array holds it.
pub fn neighbour(n: usize, w: usize, i: usize, k: usize) -> (j: Option<usize>)
    requires
        k < 6,
    ensures
        match j {
            Some(j) => beside(n as int, w as int, i as int, k as int) == Some(j as int),
            None => beside(n as int, w as int, i as int, k as int) is None,
        },
{
    if w == 0 {
        return None;
    }
    let column: usize = i % w;
    if (k == 0 || k == 4) && column + 1 == w || (k == 1 || k == 5) && column == 0 {
        return None;
    }
    let row: i128 = w as i128;
    let step: i128 = match k {
        0 => 1,
        1 => -1,
        2 => row,
        3 => -row,
        4 => 1 - row,
        _ => row - 1,
    };
    proof {
        let u = w as int;
        assert(0 * u == 0 && 1 * u == u && -1 * u == -u) by (nonlinear_arith);
        assert(offset(w as int, k as int) == step);
    }
    let j: i128 = i as i128 + step;
    if 0 <= j && j < n as i128 {
        Some(j as usize)
    } else {
        None
    }
}

/// Neighbours in the array are neighbours on the lattice: the entry beside
/// that of a cell is the entry of the cell one step along the direction, where
/// the array holds that cell, and there is none elsewhere.
pub proof fn neighbours_go_by_coordinates(radius: int, q: int, r: int, k: int)
    requires
        on_grid(radius, q, r),
        0 <= k < 6,
    ensures
        beside(area(radius), width(radius), flat(radius, q, r), k) == if on_grid(
            radius,
            q + hex::direction(k).0,
            r + hex::direction(k).1,
        ) {
            Some(flat(radius, q + hex::direction(k).0, r + hex::direction(k).1))
        } else {
            None
        },
{
    let (d, w) = (hex::direction(k), width(radius));
    let (x, y) = (q + d.0 + radius, r + d.1 + radius);
    flat_is_inverted(radius, q, r);
    flat_of_neighbour(radius, q, r, k);
    if on_grid(radius, q + d.0, r + d.1) {
        flat_is_inverted(radius, q + d.0, r + d.1);
    } else if 0 <= x < w {
        assert(y * w + x < 0 || y * w + x >= w * w) by (nonlinear_arith)
            requires
                0 <= x < w,
                y < 0 || y >= w,
        ;
    }
}

/// Cells nearer than the rim of the array have all six neighbours in it.
pub proof fn inner_cells_have_all_neighbours(radius: int, q: int, r: int, k: int)
    requires
        hex::dist(q, r) < radius,
        0 <= k < 6,
    ensures
        on_grid(radius, q, r),
        on_grid(radius, q + hex::direction(k).0, r + hex::direction(k).1),
        hex::dist(q + hex::direction(k).0, r + hex::direction(k).1) <= radius,
        beside(area(radius), width(radius), flat(radius, q, r), k) == Some(
            flat(radius, q + hex::direction(k).0, r + hex::direction(k).1),
        ),
{
    neighbours_go_by_coordinates(radius, q, r, k);
}

} // verus!
