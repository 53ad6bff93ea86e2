//! The hexagonal lattice in axial coordinates: distances, the six neighbour
//! directions, and the twelve symmetries about the centre.

use vstd::prelude::*;

verus! {

/// A cell in axial coordinates, as a mathematical pair.
pub type Cell = (int, int);

pub open spec fn abs(x: int) -> int {
    if x < 0 {
        -x
    } else {
        x
    }
}

pub open spec fn max(x: int, y: int) -> int {
    if x < y {
        y
    } else {
        x
    }
}

/// Hex distance of cell (q, r) from the centre.
pub open spec fn dist(q: int, r: int) -> int {
    max(max(abs(q), abs(r)), abs(q + r))
}

/// The k-th neighbour direction (k in 0..6).
pub open spec fn direction(k: int) -> Cell {
    if k == 0 {
        (1, 0)
    } else if k == 1 {
        (-1, 0)
    } else if k == 2 {
        (0, 1)
    } else if k == 3 {
        (0, -1)
    } else if k == 4 {
        (1, -1)
    } else {
        (-1, 1)
    }
}

/// Whether two cells share an edge.
pub open spec fn adjacent(a: Cell, b: Cell) -> bool {
    dist(b.0 - a.0, b.1 - a.1) == 1
}

/// Rotation by 60 degrees about the centre.
pub open spec fn rotate(c: Cell) -> Cell {
    (-c.1, c.0 + c.1)
}

/// Reflection that exchanges the two axes.
pub open spec fn mirror(c: Cell) -> Cell {
    (c.1, c.0)
}

/// `c` rotated by 60 degrees `k` times.
pub open spec fn rotated(c: Cell, k: nat) -> Cell
    decreases k,
{
    if k == 0 {
        c
    } else {
        rotate(rotated(c, (k - 1) as nat))
    }
}

/// The twelve images of `c`: six rotations, each with its mirror image.
pub open spec fn image(c: Cell, k: nat) -> Cell {
    if k < 6 {
        rotated(c, k)
    } else {
        mirror(rotated(c, (k - 6) as nat))
    }
}

/// Whether `a` is one of the twelve images of `c`.
pub open spec fn same_orbit(c: Cell, a: Cell) -> bool {
    exists|k: nat| k < 12 && #[trigger] image(c, k) == a
}

/// Lexicographic order of pairs.
pub open spec fn lex_le(a: Cell, b: Cell) -> bool {
    a.0 < b.0 || (a.0 == b.0 && a.1 <= b.1)
}

pub open spec fn lex_min(a: Cell, b: Cell) -> Cell {
    if lex_le(a, b) {
        a
    } else {
        b
    }
}

/// Least of the first `k` rotations of `c` and their mirror images.
pub open spec fn least_rotation(c: Cell, k: nat) -> Cell
    decreases k,
{
    if k == 0 {
        lex_min(c, mirror(c))
    } else {
        let x = rotated(c, k);
        lex_min(lex_min(least_rotation(c, (k - 1) as nat), x), mirror(x))
    }
}

/// Representative of a symmetry class: its lexicographically least member.
pub open spec fn representative(c: Cell) -> Cell {
    least_rotation(c, 5)
}

/// Order of cells by rows, and within a row by columns.
pub open spec fn row_order(a: (i32, i32), b: (i32, i32)) -> bool {
    a.1 < b.1 || (a.1 == b.1 && a.0 < b.0)
}

/// Whether the coordinates of (q, r) and its images all fit a machine word.
pub open spec fn in_range(q: int, r: int) -> bool {
    dist(q, r) <= i32::MAX
}

/// Colour of a cell in the 3-colouring of the lattice.
pub open spec fn colour(q: int, r: int) -> int {
    (q - r) % 3
}

fn magnitude(x: i32) -> (m: i32)
    requires
        x > i32::MIN,
    ensures
        m == abs(x as int),
{
    if x < 0 {
        -x
    } else {
        x
    }
}

/// Hex distance from the centre in axial coordinates.
pub fn hex_distance(q: i32, r: i32) -> (d: i32)
    requires
        in_range(q as int, r as int),
    ensures
        d == dist(q as int, r as int),
{
    let a: i32 = magnitude(q);
    let b: i32 = magnitude(r);
    let c: i32 = magnitude(q + r);
    let ab: i32 = if a < b { b } else { a };
    if ab < c {
        c
    } else {
        ab
    }
}

/// The six neighbour directions, in the order in which sites are scanned.
pub fn directions() -> (ds: [(i32, i32); 6])
    ensures
        forall|k: int|
            0 <= k < 6 ==> (#[trigger] ds[k]).0 == direction(k).0 && ds[k].1 == direction(k).1,
{
    [(1, 0), (-1, 0), (0, 1), (0, -1), (1, -1), (-1, 1)]
}

/// Range of q for row r inside the updated region (hex distance < radius).
pub fn inner_range(radius: i32, r: i32) -> (range: Option<(i32, i32)>)
    requires
        radius > i32::MIN,
        r > i32::MIN,
        abs(r as int) < radius ==> radius - 1 + abs(r as int) <= i32::MAX,
    ensures
        range is None <==> abs(r as int) >= radius,
        range matches Some((lo, hi)) ==> lo <= hi && forall|q: int|
            lo <= q <= hi <==> #[trigger] dist(q, r as int) < radius,
{
    let m: i32 = radius - 1;
    if magnitude(r) > m {
        return None;
    }
    let lo: i32 = if -m < -m - r { -m - r } else { -m };
    let hi: i32 = if m - r < m { m - r } else { m };
    Some((lo, hi))
}

fn less(a: (i32, i32), b: (i32, i32)) -> (l: (i32, i32))
    ensures
        (l.0 as int, l.1 as int) == lex_min((a.0 as int, a.1 as int), (b.0 as int, b.1 as int)),
{
    if a.0 < b.0 || (a.0 == b.0 && a.1 <= b.1) {
        a
    } else {
        b
    }
}

/// Representative of the symmetry class of cell (q, r) under the twelve
/// symmetries of the hexagonal lattice (six rotations, each with a mirror).
pub fn canonical(q: i32, r: i32) -> (c: (i32, i32))
    requires
        in_range(q as int, r as int),
    ensures
        (c.0 as int, c.1 as int) == representative((q as int, r as int)),
        same_orbit((q as int, r as int), (c.0 as int, c.1 as int)),
        forall|k: nat|
            k < 12 ==> lex_le((c.0 as int, c.1 as int), #[trigger] image((q as int, r as int), k)),
{
    let ghost cell: Cell = (q as int, r as int);
    let mut x: i32 = q;
    let mut y: i32 = r;
    let mut best: (i32, i32) = less((q, r), (r, q));
    let mut k: usize = 0;
    while k < 5
        invariant
            k <= 5,
            cell == (q as int, r as int),
            in_range(q as int, r as int),
            dist(x as int, y as int) == dist(q as int, r as int),
            (x as int, y as int) == rotated(cell, k as nat),
            (best.0 as int, best.1 as int) == least_rotation(cell, k as nat),
        decreases 5 - k,
    {
        let turned: (i32, i32) = (-y, x + y);
        x = turned.0;
        y = turned.1;
        best = less(less(best, (x, y)), (y, x));
        k = k + 1;
    }
    proof {
        representative_is_least(cell);
    }
    best
}

/// The representative is a member of the class, and no member precedes it.
pub proof fn representative_is_least(c: Cell)
    ensures
        same_orbit(c, representative(c)),
        forall|k: nat| k < 12 ==> lex_le(representative(c), #[trigger] image(c, k)),
{
    reveal_with_fuel(rotated, 7);
    reveal_with_fuel(least_rotation, 7);
    let best = representative(c);
    assert(forall|k: nat| k < 12 ==> #[trigger] image(c, k) == image(c, k));
    let i0 = image(c, 0);
    let i1 = image(c, 1);
    let i2 = image(c, 2);
    let i3 = image(c, 3);
    let i4 = image(c, 4);
    let i5 = image(c, 5);
    let i6 = image(c, 6);
    let i7 = image(c, 7);
    let i8 = image(c, 8);
    let i9 = image(c, 9);
    let i10 = image(c, 10);
    let i11 = image(c, 11);
    assert(best == i0 || best == i1 || best == i2 || best == i3 || best == i4 || best == i5
        || best == i6 || best == i7 || best == i8 || best == i9 || best == i10 || best == i11);
    assert forall|k: nat| k < 12 implies lex_le(best, #[trigger] image(c, k)) by {
        assert(k == 0 || k == 1 || k == 2 || k == 3 || k == 4 || k == 5 || k == 6 || k == 7 || k
            == 8 || k == 9 || k == 10 || k == 11);
    }
}

/// Six rotations are the identity.
pub proof fn six_rotations_return(c: Cell)
    ensures
        rotated(c, 1) == (-c.1, c.0 + c.1),
        rotated(c, 2) == (-c.0 - c.1, c.0),
        rotated(c, 3) == (-c.0, -c.1),
        rotated(c, 4) == (c.1, -c.0 - c.1),
        rotated(c, 5) == (c.0 + c.1, -c.0),
        rotated(c, 6) == c,
{
    reveal_with_fuel(rotated, 7);
}

/// Every image of the rotation or mirror image of a cell is an image of the
/// cell itself.
proof fn images_of_moved_cell(c: Cell, k: nat)
    requires
        k < 12,
    ensures
        same_orbit(c, image(rotate(c), k)),
        same_orbit(c, image(mirror(c), k)),
{
    six_rotations_return(c);
    six_rotations_return(rotate(c));
    six_rotations_return(mirror(c));
    assert(rotated(c, 0) == c && rotated(rotate(c), 0) == rotate(c) && rotated(mirror(c), 0)
        == mirror(c));
    let turned: nat = if k == 5 {
        0
    } else if k == 11 {
        6
    } else {
        k + 1
    };
    assert(image(c, turned) == image(rotate(c), k));
    let flipped: nat = if k == 0 {
        6
    } else if k < 6 {
        (12 - k) as nat
    } else if k == 6 {
        0
    } else {
        (12 - k) as nat
    };
    assert(image(c, flipped) == image(mirror(c), k));
}

/// The representative is the same for a cell, its rotation and its mirror
/// image.
pub proof fn representative_is_invariant(c: Cell)
    ensures
        representative(rotate(c)) == representative(c),
        representative(mirror(c)) == representative(c),
{
    representative_is_least(c);
    representative_is_least(rotate(c));
    representative_is_least(mirror(c));
    six_rotations_return(c);
    let kr = choose|k: nat| k < 12 && #[trigger] image(rotate(c), k) == representative(rotate(c));
    let km = choose|k: nat| k < 12 && #[trigger] image(mirror(c), k) == representative(mirror(c));
    images_of_moved_cell(c, kr);
    images_of_moved_cell(c, km);
    let kc = choose|k: nat| k < 12 && #[trigger] image(c, k) == representative(c);
    image_seen_from_moved_cell(c, kc);
}

/// Every image of a cell is an image of its rotation and of its mirror image.
proof fn image_seen_from_moved_cell(c: Cell, k: nat)
    requires
        k < 12,
    ensures
        same_orbit(rotate(c), image(c, k)),
        same_orbit(mirror(c), image(c, k)),
{
    six_rotations_return(c);
    six_rotations_return(rotate(c));
    assert(mirror(mirror(c)) == c);
    images_of_moved_cell(mirror(c), k);
    assert(rotated(c, 0) == c && rotated(rotate(c), 0) == rotate(c));
    let back: nat = if k == 0 {
        5
    } else if k == 6 {
        11
    } else {
        (k - 1) as nat
    };
    assert(image(rotate(c), back) == image(c, k));
}

/// Two cells have the same representative exactly when each is an image of
/// the other.
pub proof fn representatives_agree_on_orbits(c: Cell, d: Cell)
    ensures
        representative(c) == representative(d) <==> same_orbit(c, d),
{
    representative_is_least(c);
    representative_is_least(d);
    if same_orbit(c, d) {
        let k = choose|k: nat| k < 12 && #[trigger] image(c, k) == d;
        let turns: nat = if k < 6 {
            k
        } else {
            (k - 6) as nat
        };
        representative_of_rotated(c, turns);
        representative_is_invariant(rotated(c, turns));
    }
    if representative(c) == representative(d) {
        let k = choose|k: nat| k < 12 && #[trigger] image(c, k) == representative(c);
        let l = choose|l: nat| l < 12 && #[trigger] image(d, l) == representative(d);
        images_compose(c, d, k, l);
    }
}

proof fn representative_of_rotated(c: Cell, k: nat)
    ensures
        representative(rotated(c, k)) == representative(c),
    decreases k,
{
    if k > 0 {
        representative_of_rotated(c, (k - 1) as nat);
        representative_is_invariant(rotated(c, (k - 1) as nat));
    }
}

proof fn orbit_is_closed(c: Cell, a: Cell)
    requires
        same_orbit(c, a),
    ensures
        same_orbit(c, rotate(a)),
        same_orbit(c, mirror(a)),
{
    let k = choose|k: nat| k < 12 && #[trigger] image(c, k) == a;
    six_rotations_return(c);
    assert(rotated(c, 0) == c);
    let turned: nat = if k == 5 {
        0
    } else if k < 5 {
        k + 1
    } else if k == 6 {
        11
    } else {
        (k - 1) as nat
    };
    assert(image(c, turned) == rotate(a));
    let flipped: nat = if k < 6 {
        k + 6
    } else {
        (k - 6) as nat
    };
    assert(image(c, flipped) == mirror(a));
}

proof fn orbit_is_closed_under_rotations(c: Cell, a: Cell, k: nat)
    requires
        same_orbit(c, a),
    ensures
        same_orbit(c, rotated(a, k)),
    decreases k,
{
    if k > 0 {
        orbit_is_closed_under_rotations(c, a, (k - 1) as nat);
        orbit_is_closed(c, rotated(a, (k - 1) as nat));
    }
}

proof fn rotations_add(c: Cell, k: nat, l: nat)
    ensures
        rotated(rotated(c, k), l) == rotated(c, k + l),
    decreases l,
{
    if l > 0 {
        rotations_add(c, k, (l - 1) as nat);
    }
}

/// If an image of `c` is an image of `d`, then `d` is an image of `c`.
proof fn images_compose(c: Cell, d: Cell, k: nat, l: nat)
    requires
        k < 12,
        l < 12,
        image(c, k) == image(d, l),
    ensures
        same_orbit(c, d),
{
    let a = image(c, k);
    six_rotations_return(d);
    if l < 6 {
        orbit_is_closed_under_rotations(c, a, (6 - l) as nat);
        rotations_add(d, l, (6 - l) as nat);
    } else {
        orbit_is_closed(c, a);
        orbit_is_closed_under_rotations(c, mirror(a), (12 - l) as nat);
        rotations_add(d, (l - 6) as nat, (12 - l) as nat);
    }
}

/// The symmetries keep the distance from the centre, and (q, r) is at
/// distance zero only at the centre.
pub proof fn symmetries_keep_distance(c: Cell)
    ensures
        dist(rotate(c).0, rotate(c).1) == dist(c.0, c.1),
        dist(mirror(c).0, mirror(c).1) == dist(c.0, c.1),
        dist(c.0, c.1) >= 0,
        dist(c.0, c.1) == 0 <==> c == (0int, 0int),
{
}

/// The hex distance satisfies the triangle inequality.
pub proof fn distance_is_subadditive(a: Cell, b: Cell)
    ensures
        dist(a.0 + b.0, a.1 + b.1) <= dist(a.0, a.1) + dist(b.0, b.1),
{
}

/// The six directions are exactly the cells at distance one.
pub proof fn directions_are_the_unit_cells(q: int, r: int)
    ensures
        dist(q, r) == 1 <==> exists|k: int| 0 <= k < 6 && #[trigger] direction(k) == (q, r),
{
    if dist(q, r) == 1 {
        assert(direction(0) == (q, r) || direction(1) == (q, r) || direction(2) == (q, r)
            || direction(3) == (q, r) || direction(4) == (q, r) || direction(5) == (q, r));
    }
}

/// Every cell but the centre has a neighbour one step closer to the centre.
pub proof fn some_neighbour_is_closer(c: Cell)
    requires
        c != (0int, 0int),
    ensures
        exists|k: int|
            0 <= k < 6 && dist(c.0 + (#[trigger] direction(k)).0, c.1 + direction(k).1) == dist(
                c.0,
                c.1,
            ) - 1,
{
    let d = dist(c.0, c.1);
    assert(dist(c.0 + direction(0).0, c.1 + direction(0).1) == d - 1 || dist(
        c.0 + direction(1).0,
        c.1 + direction(1).1,
    ) == d - 1 || dist(c.0 + direction(2).0, c.1 + direction(2).1) == d - 1 || dist(
        c.0 + direction(3).0,
        c.1 + direction(3).1,
    ) == d - 1 || dist(c.0 + direction(4).0, c.1 + direction(4).1) == d - 1 || dist(
        c.0 + direction(5).0,
        c.1 + direction(5).1,
    ) == d - 1);
}

/// Neighbouring cells have different colours.
pub proof fn neighbours_differ_in_colour(a: Cell, b: Cell)
    requires
        adjacent(a, b),
    ensures
        colour(a.0, a.1) != colour(b.0, b.1),
{
}

} // verus!
