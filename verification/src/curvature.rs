//! In-plane curvature of the crystal's edge, measured by counting ice.
//!
//! The ice fraction of a disc around a point on the interface falls below a
//! half by an amount proportional to the curvature there.  The interface runs
//! between a boundary cell and its ice neighbours, so the ice is counted in
//! discs centred on the cell and on those neighbours, and the estimate is then
//! averaged over the boundary cells within the disc, which smooths the
//! staircase.

use crate::hex;
use crate::lattice;
use vstd::prelude::*;

verus! {

/// Widest disc, in cells.
pub const MAX_DISC: i32 = 0x1_0000;

/// Ice counts behind the curvature estimate at one boundary cell.
pub struct Sample {
    /// Ice cells in the disc around the cell.
    pub own: usize,
    /// Ice cells in the disc around each of its ice neighbours.
    pub around: Vec<usize>,
}

/// Cells within hex distance `rc` of the centre, row by row.
pub fn disc(rc: i32) -> (cells: Vec<(i32, i32)>)
    requires
        0 <= rc <= MAX_DISC,
    ensures
        forall|q: i32, r: i32|
            #[trigger] cells@.contains((q, r)) <==> hex::dist(q as int, r as int) <= rc,
        forall|a: int, b: int| 0 <= a < b < cells@.len() ==> hex::row_order(
            cells@[a],
            cells@[b],
        ),
{
    let mut cells: Vec<(i32, i32)> = Vec::new();
    let mut r: i32 = -rc;
    while r <= rc
        invariant
            0 <= rc <= MAX_DISC,
            -rc <= r <= rc + 1,
            forall|x: i32, y: i32|
                #[trigger] cells@.contains((x, y)) <==> hex::dist(x as int, y as int) <= rc && y < r,
            forall|a: int| 0 <= a < cells@.len() ==> (#[trigger] cells@[a]).1 < r,
            forall|a: int, b: int| 0 <= a < b < cells@.len() ==> hex::row_order(
            cells@[a],
            cells@[b],
        ),
        decreases rc + 1 - r,
    {
        let mut q: i32 = -rc;
        while q <= rc
            invariant
                0 <= rc <= MAX_DISC,
                -rc <= r <= rc,
                -rc <= q <= rc + 1,
                forall|x: i32, y: i32|
                    #[trigger] cells@.contains((x, y)) <==> hex::dist(x as int, y as int) <= rc && (y
                        < r || (y == r && x < q)),
                forall|a: int|
                    0 <= a < cells@.len() ==> (#[trigger] cells@[a]).1 < r || (cells@[a].1 == r
                        && cells@[a].0 < q),
                forall|a: int, b: int| 0 <= a < b < cells@.len() ==> hex::row_order(
            cells@[a],
            cells@[b],
        ),
            decreases rc + 1 - q,
        {
            let ghost prior = cells@;
            if hex::hex_distance(q, r) <= rc {
                cells.push((q, r));
                proof {
                    assert forall|x: i32, y: i32|
                        #[trigger] cells@.contains((x, y)) <==> hex::dist(x as int, y as int) <= rc
                            && (y < r || (y == r && x < q + 1)) by {
                        assert(cells@[prior.len() as int] == (q, r));
                        if prior.contains((x, y)) {
                            let k = choose|k: int| 0 <= k < prior.len() && prior[k] == (x, y);
                            assert(cells@[k] == (x, y));
                        }
                        if cells@.contains((x, y)) && (x, y) != (q, r) {
                            let k = choose|k: int| 0 <= k < cells@.len() && cells@[k] == (x, y);
                            assert(prior[k] == (x, y));
                        }
                    }
                }
            }
            q = q + 1;
        }
        r = r + 1;
    }
    cells
}

/// Whether cell (q, r) is ice, on a lattice of radius `radius`.
pub open spec fn ice_at(ice: Seq<bool>, radius: int, q: int, r: int) -> bool {
    ice[lattice::flat(radius, q, r)]
}

/// How many of the first `m` cells of `disc`, laid around (q, r), are ice.
pub open spec fn ice_in_disc(
    ice: Seq<bool>,
    radius: int,
    disc: Seq<(i32, i32)>,
    q: int,
    r: int,
    m: nat,
) -> nat
    decreases m,
{
    if m == 0 {
        0
    } else {
        ice_in_disc(ice, radius, disc, q, r, (m - 1) as nat) + if ice_at(
            ice,
            radius,
            q + disc[m - 1].0,
            r + disc[m - 1].1,
        ) {
            1nat
        } else {
            0
        }
    }
}

/// Whether `disc` lies within hex distance `rc` of the centre.
pub open spec fn disc_within(disc: Seq<(i32, i32)>, rc: int) -> bool {
    forall|k: int|
        0 <= k < disc.len() ==> hex::dist((#[trigger] disc[k]).0 as int, disc[k].1 as int) <= rc
}

/// Whether the arrays fit a lattice of radius `radius`.
pub open spec fn fits(ice: Seq<bool>, radius: int) -> bool {
    &&& 0 <= radius <= lattice::MAX_RADIUS
    &&& ice.len() == lattice::area(radius)
    &&& ice.len() <= usize::MAX
}

/// Number of ice cells of `disc` laid around (q, r).
pub fn disc_ice(
    ice: &Vec<bool>,
    radius: i32,
    disc: &Vec<(i32, i32)>,
    rc: i32,
    q: i32,
    r: i32,
) -> (count: usize)
    requires
        fits(ice@, radius as int),
        0 <= rc <= MAX_DISC,
        disc_within(disc@, rc as int),
        hex::dist(q as int, r as int) + rc <= radius,
    ensures
        count == ice_in_disc(ice@, radius as int, disc@, q as int, r as int, disc@.len()),
        count <= disc@.len(),
{
    let mut count: usize = 0;
    let mut k: usize = 0;
    while k < disc.len()
        invariant
            fits(ice@, radius as int),
            0 <= rc <= MAX_DISC,
            disc_within(disc@, rc as int),
            hex::dist(q as int, r as int) + rc <= radius,
            k <= disc@.len(),
            count == ice_in_disc(ice@, radius as int, disc@, q as int, r as int, k as nat),
            count <= k,
        decreases disc@.len() - k,
    {
        let d: (i32, i32) = disc[k];
        proof {
            assert(hex::dist(disc@[k as int].0 as int, disc@[k as int].1 as int) <= rc);
            hex::distance_is_subadditive((q as int, r as int), (d.0 as int, d.1 as int));
        }
        if ice[lattice::flat_index(radius, q + d.0, r + d.1)] {
            count = count + 1;
        }
        k = k + 1;
    }
    count
}

/// Whether an array entry has an ice neighbour, in an array of row stride `w`.
pub open spec fn touches_ice(ice: Seq<bool>, w: int, i: int) -> bool {
    exists|k: int| 0 <= k < 6 && #[trigger] ice_beside(ice, w, i, k)
}

pub open spec fn ice_beside(ice: Seq<bool>, w: int, i: int, k: int) -> bool {
    lattice::beside(ice.len() as int, w, i, k) matches Some(j) && ice[j]
}

/// Whether vapour cell `i` has an ice neighbour.
pub fn curv_is_boundary(ice: &Vec<bool>, w: usize, i: usize) -> (b: bool)
    ensures
        b == touches_ice(ice@, w as int, i as int),
{
    let mut k: usize = 0;
    while k < 6
        invariant
            k <= 6,
            forall|m: int| 0 <= m < k ==> !#[trigger] ice_beside(ice@, w as int, i as int, m),
        decreases 6 - k,
    {
        match lattice::neighbour(ice.len(), w, i, k) {
            Some(j) => {
                if ice[j] {
                    assert(ice_beside(ice@, w as int, i as int, k as int));
                    return true;
                }
            },
            None => {},
        }
        k = k + 1;
    }
    false
}

/// Ice counts in the discs around the ice neighbours of (q, r), among its
/// first `m` directions.
pub open spec fn counts_around(
    ice: Seq<bool>,
    radius: int,
    disc: Seq<(i32, i32)>,
    q: int,
    r: int,
    m: nat,
) -> Seq<nat>
    decreases m,
{
    if m == 0 {
        Seq::empty()
    } else {
        let d = hex::direction(m - 1);
        let before = counts_around(ice, radius, disc, q, r, (m - 1) as nat);
        if ice_at(ice, radius, q + d.0, r + d.1) {
            before.push(ice_in_disc(ice, radius, disc, q + d.0, r + d.1, disc.len()))
        } else {
            before
        }
    }
}

/// Whether the curvature is sampled at (q, r): a vapour cell that touches ice,
/// with room for the discs.
pub open spec fn sampled(ice: Seq<bool>, radius: int, rc: int, q: int, r: int) -> bool {
    &&& hex::dist(q, r) < radius - rc
    &&& !ice_at(ice, radius, q, r)
    &&& exists|k: int|
        0 <= k < 6 && ice_at(
            ice,
            radius,
            q + (#[trigger] hex::direction(k)).0,
            r + hex::direction(k).1,
        )
}

/// Ice counts behind the curvature estimate at cell (q, r); none where the
/// cell is not on the boundary or the discs do not fit the lattice.
pub fn sample(
    ice: &Vec<bool>,
    radius: i32,
    disc: &Vec<(i32, i32)>,
    rc: i32,
    q: i32,
    r: i32,
) -> (s: Option<Sample>)
    requires
        fits(ice@, radius as int),
        1 <= rc <= MAX_DISC,
        disc_within(disc@, rc as int),
        lattice::on_grid(radius as int, q as int, r as int),
    ensures
        s is Some <==> sampled(ice@, radius as int, rc as int, q as int, r as int),
        s matches Some(s) ==> {
            &&& s.own == ice_in_disc(ice@, radius as int, disc@, q as int, r as int, disc@.len())
            &&& s.around@.map(|k: int, c: usize| c as nat) == counts_around(
                ice@,
                radius as int,
                disc@,
                q as int,
                r as int,
                6,
            )
            &&& s.around@.len() > 0
        },
{
    if hex::hex_distance(q, r) >= radius - rc || ice[lattice::flat_index(radius, q, r)] {
        return None;
    }
    let ds: [(i32, i32); 6] = hex::directions();
    let mut around: Vec<usize> = Vec::new();
    let mut k: usize = 0;
    proof {
        assert(around@.map(|k: int, c: usize| c as nat) =~= Seq::<nat>::empty());
    }
    while k < 6
        invariant
            fits(ice@, radius as int),
            1 <= rc <= MAX_DISC,
            disc_within(disc@, rc as int),
            hex::dist(q as int, r as int) < radius - rc,
            k <= 6,
            forall|m: int|
                0 <= m < 6 ==> (#[trigger] ds[m]).0 == hex::direction(m).0 && ds[m].1
                    == hex::direction(m).1,
            around@.map(|k: int, c: usize| c as nat) == counts_around(
                ice@,
                radius as int,
                disc@,
                q as int,
                r as int,
                k as nat,
            ),
            around@.len() > 0 <==> exists|m: int|
                0 <= m < k && ice_at(
                    ice@,
                    radius as int,
                    q + (#[trigger] hex::direction(m)).0,
                    r + hex::direction(m).1,
                ),
        decreases 6 - k,
    {
        let d: (i32, i32) = ds[k];
        let ghost dir = hex::direction(k as int);
        proof {
            assert(hex::dist(q + dir.0, r + dir.1) <= radius - rc);
        }
        let ghost prior = around@;
        if ice[lattice::flat_index(radius, q + d.0, r + d.1)] {
            let count: usize = disc_ice(ice, radius, disc, rc, q + d.0, r + d.1);
            around.push(count);
            proof {
                assert(around@.map(|k: int, c: usize| c as nat) =~= prior.map(
                    |k: int, c: usize| c as nat,
                ).push(count as nat));
            }
        }
        k = k + 1;
    }
    if around.len() == 0 {
        return None;
    }
    Some(Sample { own: disc_ice(ice, radius, disc, rc, q, r), around })
}

/// Array entries of the first `m` cells of `disc`, laid around (q, r), that
/// have a sample.
pub open spec fn sampled_in_disc(
    known: Seq<bool>,
    radius: int,
    disc: Seq<(i32, i32)>,
    q: int,
    r: int,
    m: nat,
) -> Seq<usize>
    decreases m,
{
    if m == 0 {
        Seq::empty()
    } else {
        let at = lattice::flat(radius, q + disc[m - 1].0, r + disc[m - 1].1);
        let before = sampled_in_disc(known, radius, disc, q, r, (m - 1) as nat);
        if known[at] {
            before.push(at as usize)
        } else {
            before
        }
    }
}

/// Array entries whose samples are averaged into the curvature at cell
/// (q, r): those of the disc around it.  None where the cell itself has no
/// sample or the disc does not fit the sampled part of the lattice.
pub fn smoothing_sources(
    known: &Vec<bool>,
    radius: i32,
    disc: &Vec<(i32, i32)>,
    rc: i32,
    q: i32,
    r: i32,
) -> (entries: Option<Vec<usize>>)
    requires
        fits(known@, radius as int),
        0 <= rc <= MAX_DISC,
        disc_within(disc@, rc as int),
        lattice::on_grid(radius as int, q as int, r as int),
    ensures
        entries is Some <==> hex::dist(q as int, r as int) < radius - 2 * rc && known@[lattice::flat(
            radius as int,
            q as int,
            r as int,
        )],
        entries matches Some(e) ==> e@ == sampled_in_disc(
            known@,
            radius as int,
            disc@,
            q as int,
            r as int,
            disc@.len(),
        ),
{
    if hex::hex_distance(q, r) >= radius - 2 * rc || !known[lattice::flat_index(radius, q, r)] {
        return None;
    }
    let mut entries: Vec<usize> = Vec::new();
    let mut k: usize = 0;
    while k < disc.len()
        invariant
            fits(known@, radius as int),
            0 <= rc <= MAX_DISC,
            disc_within(disc@, rc as int),
            hex::dist(q as int, r as int) < radius - 2 * rc,
            k <= disc@.len(),
            entries@ == sampled_in_disc(
                known@,
                radius as int,
                disc@,
                q as int,
                r as int,
                k as nat,
            ),
        decreases disc@.len() - k,
    {
        let d: (i32, i32) = disc[k];
        proof {
            assert(hex::dist(disc@[k as int].0 as int, disc@[k as int].1 as int) <= rc);
            hex::distance_is_subadditive((q as int, r as int), (d.0 as int, d.1 as int));
        }
        let at: usize = lattice::flat_index(radius, q + d.0, r + d.1);
        if known[at] {
            entries.push(at);
        }
        k = k + 1;
    }
    Some(entries)
}

/// A lattice all of vapour or all of ice has no curvature: nothing is sampled
/// on it.
pub proof fn uniform_lattices_are_not_sampled(ice: Seq<bool>, radius: int, rc: int, q: int, r: int)
    requires
        fits(ice, radius),
        rc >= 1,
        forall|i: int, j: int| 0 <= i < ice.len() && 0 <= j < ice.len() ==> ice[i] == ice[j],
    ensures
        !sampled(ice, radius, rc, q, r),
{
    if sampled(ice, radius, rc, q, r) {
        let k = choose|k: int|
            0 <= k < 6 && ice_at(
                ice,
                radius,
                q + (#[trigger] hex::direction(k)).0,
                r + hex::direction(k).1,
            );
        let d = hex::direction(k);
        lattice::flat_is_inverted(radius, q, r);
        lattice::flat_is_inverted(radius, q + d.0, r + d.1);
    }
}

/// Every cell of a disc is counted once, as ice or as vapour: the ice counts of a
/// lattice and of its negative add up to the disc.
pub proof fn discs_count_every_cell_once(
    ice: Seq<bool>,
    negative: Seq<bool>,
    radius: int,
    disc: Seq<(i32, i32)>,
    rc: int,
    q: int,
    r: int,
    m: nat,
)
    requires
        fits(ice, radius),
        negative == ice.map_values(|b: bool| !b),
        disc_within(disc, rc),
        hex::dist(q, r) + rc <= radius,
        m <= disc.len(),
    ensures
        ice_in_disc(ice, radius, disc, q, r, m) + ice_in_disc(negative, radius, disc, q, r, m) == m,
    decreases m,
{
    if m > 0 {
        let d = disc[m - 1];
        discs_count_every_cell_once(ice, negative, radius, disc, rc, q, r, (m - 1) as nat);
        hex::distance_is_subadditive((q, r), (d.0 as int, d.1 as int));
        lattice::flat_is_inverted(radius, q + d.0, r + d.1);
    }
}

/// More ice never lowers a count.
pub proof fn more_ice_counts_more(
    ice: Seq<bool>,
    more: Seq<bool>,
    radius: int,
    disc: Seq<(i32, i32)>,
    rc: int,
    q: int,
    r: int,
    m: nat,
)
    requires
        fits(ice, radius),
        more.len() == ice.len(),
        forall|i: int| 0 <= i < ice.len() && #[trigger] ice[i] ==> more[i],
        disc_within(disc, rc),
        hex::dist(q, r) + rc <= radius,
        m <= disc.len(),
    ensures
        ice_in_disc(ice, radius, disc, q, r, m) <= ice_in_disc(more, radius, disc, q, r, m),
    decreases m,
{
    if m > 0 {
        let d = disc[m - 1];
        more_ice_counts_more(ice, more, radius, disc, rc, q, r, (m - 1) as nat);
        hex::distance_is_subadditive((q, r), (d.0 as int, d.1 as int));
        lattice::flat_is_inverted(radius, q + d.0, r + d.1);
        assert(ice[lattice::flat(radius, q + d.0, r + d.1)] ==> more[lattice::flat(
            radius,
            q + d.0,
            r + d.1,
        )]);
    }
}

/// The curvature is sampled exactly at the vapour cells that share an edge with
/// an ice cell and lie far enough inside for the discs, and there is one count for
/// each of the ice cells around.
pub proof fn samples_lie_on_the_boundary(ice: Seq<bool>, radius: int, disc: Seq<(i32, i32)>, rc: int, q: int, r: int)
    requires
        fits(ice, radius),
        rc >= 1,
        hex::dist(q, r) < radius - rc,
    ensures
        sampled(ice, radius, rc, q, r) <==> !ice[lattice::flat(radius, q, r)] && exists|
            x: int,
            y: int,
        |
            hex::adjacent((q, r), (x, y)) && #[trigger] ice_at(ice, radius, x, y),
        counts_around(ice, radius, disc, q, r, 6).len() == one_if(
            ice_at(ice, radius, q + 1, r),
        ) + one_if(ice_at(ice, radius, q - 1, r)) + one_if(ice_at(ice, radius, q, r + 1)) + one_if(
            ice_at(ice, radius, q, r - 1),
        ) + one_if(ice_at(ice, radius, q + 1, r - 1)) + one_if(ice_at(ice, radius, q - 1, r + 1)),
{
    reveal_with_fuel(counts_around, 7);
    if sampled(ice, radius, rc, q, r) {
        let k = choose|k: int|
            0 <= k < 6 && ice_at(
                ice,
                radius,
                q + (#[trigger] hex::direction(k)).0,
                r + hex::direction(k).1,
            );
        let d = hex::direction(k);
        assert(hex::adjacent((q, r), (q + d.0, r + d.1)));
    }
    if exists|x: int, y: int| hex::adjacent((q, r), (x, y)) && #[trigger] ice_at(ice, radius, x, y) {
        let (x, y) = choose|x: int, y: int|
            hex::adjacent((q, r), (x, y)) && #[trigger] ice_at(ice, radius, x, y);
        hex::directions_are_the_unit_cells(x - q, y - r);
        let k = choose|k: int| 0 <= k < 6 && #[trigger] hex::direction(k) == (x - q, y - r);
        assert(ice_at(ice, radius, q + hex::direction(k).0, r + hex::direction(k).1));
    }
}

/// One for a cell that is there, zero for one that is not.
pub open spec fn one_if(b: bool) -> int {
    if b {
        1
    } else {
        0
    }
}

/// Sum of the first `m` of some counts.
pub open spec fn sum_of(counts: Seq<nat>, m: nat) -> nat
    decreases m,
{
    if m == 0 {
        0
    } else {
        sum_of(counts, (m - 1) as nat) + counts[m - 1]
    }
}

proof fn disc_counts_are_bounded(
    ice: Seq<bool>,
    radius: int,
    disc: Seq<(i32, i32)>,
    q: int,
    r: int,
    m: nat,
)
    ensures
        ice_in_disc(ice, radius, disc, q, r, m) <= m,
    decreases m,
{
    if m > 0 {
        disc_counts_are_bounded(ice, radius, disc, q, r, (m - 1) as nat);
    }
}

proof fn counts_around_are_bounded(
    ice: Seq<bool>,
    radius: int,
    disc: Seq<(i32, i32)>,
    q: int,
    r: int,
    m: nat,
)
    ensures
        forall|k: int|
            0 <= k < counts_around(ice, radius, disc, q, r, m).len() ==> #[trigger] counts_around(
                ice,
                radius,
                disc,
                q,
                r,
                m,
            )[k] <= disc.len(),
    decreases m,
{
    if m > 0 {
        let d = hex::direction(m - 1);
        let before = counts_around(ice, radius, disc, q, r, (m - 1) as nat);
        let after = counts_around(ice, radius, disc, q, r, m);
        counts_around_are_bounded(ice, radius, disc, q, r, (m - 1) as nat);
        disc_counts_are_bounded(ice, radius, disc, q + d.0, r + d.1, disc.len());
        assert forall|k: int| 0 <= k < after.len() implies #[trigger] after[k] <= disc.len() by {
            if k < before.len() {
                assert(after[k] == before[k]);
            }
        }
    }
}

proof fn sums_are_bounded(counts: Seq<nat>, most: nat, m: nat)
    requires
        m <= counts.len(),
        forall|k: int| 0 <= k < counts.len() ==> #[trigger] counts[k] <= most,
    ensures
        sum_of(counts, m) <= m * most,
    decreases m,
{
    if m > 0 {
        sums_are_bounded(counts, most, (m - 1) as nat);
        assert((m - 1) * most + most == m * most) by (nonlinear_arith);
    }
}

/// The curvature estimate is at most half its scale.  The estimate is scale
/// times (1/2 - f), where f is the mean of the ice fraction of the cell's own
/// disc and the mean fraction of its neighbours' discs; over their common
/// denominator, twice the number of discs around times their size, the
/// bracket's numerator is no larger than half of it, either way.
pub proof fn curvature_is_at_most_half_its_scale(
    ice: Seq<bool>,
    radius: int,
    disc: Seq<(i32, i32)>,
    q: int,
    r: int,
)
    ensures
        ({
            let own = ice_in_disc(ice, radius, disc, q, r, disc.len());
            let around = counts_around(ice, radius, disc, q, r, 6);
            let whole = around.len() * disc.len();
            -whole <= whole - (around.len() * own + sum_of(around, around.len())) <= whole
        }),
{
    let own = ice_in_disc(ice, radius, disc, q, r, disc.len());
    let around = counts_around(ice, radius, disc, q, r, 6);
    disc_counts_are_bounded(ice, radius, disc, q, r, disc.len());
    counts_around_are_bounded(ice, radius, disc, q, r, 6);
    sums_are_bounded(around, disc.len(), around.len());
    let (n, size) = (around.len(), disc.len());
    assert(0 <= n * own <= n * size) by (nonlinear_arith)
        requires
            own <= size,
    ;
}

proof fn sources_have_samples(
    known: Seq<bool>,
    radius: int,
    disc: Seq<(i32, i32)>,
    rc: int,
    q: int,
    r: int,
    m: nat,
)
    requires
        fits(known, radius),
        disc_within(disc, rc),
        hex::dist(q, r) + rc <= radius,
        m <= disc.len(),
    ensures
        forall|k: int|
            0 <= k < sampled_in_disc(known, radius, disc, q, r, m).len() ==> {
                let e = #[trigger] sampled_in_disc(known, radius, disc, q, r, m)[k];
                e < known.len() && known[e as int]
            },
        known[lattice::flat(radius, q, r)] && disc.take(m as int).contains((0i32, 0i32))
            ==> sampled_in_disc(known, radius, disc, q, r, m).contains(
            lattice::flat(radius, q, r) as usize,
        ),
    decreases m,
{
    if m > 0 {
        let d = disc[m - 1];
        let before = sampled_in_disc(known, radius, disc, q, r, (m - 1) as nat);
        let after = sampled_in_disc(known, radius, disc, q, r, m);
        sources_have_samples(known, radius, disc, rc, q, r, (m - 1) as nat);
        hex::distance_is_subadditive((q, r), (d.0 as int, d.1 as int));
        let at = lattice::flat(radius, q + d.0, r + d.1);
        lattice::flat_is_inverted(radius, q + d.0, r + d.1);
        let own = lattice::flat(radius, q, r);
        if known[own] && disc.take(m as int).contains((0i32, 0i32)) {
            if d == (0i32, 0i32) {
                assert(after[before.len() as int] == own as usize);
            } else {
                let k = choose|k: int|
                    0 <= k < m && #[trigger] disc.take(m as int)[k] == (0i32, 0i32);
                assert(disc.take(m - 1)[k] == (0i32, 0i32));
                let l = choose|l: int| 0 <= l < before.len() && #[trigger] before[l] == own as usize;
                assert(after[l] == own as usize);
            }
        }
    }
}

proof fn sources_are_complete(
    known: Seq<bool>,
    radius: int,
    disc: Seq<(i32, i32)>,
    q: int,
    r: int,
    k: int,
    m: nat,
)
    requires
        0 <= k < m <= disc.len(),
        known[lattice::flat(radius, q + disc[k].0, r + disc[k].1)],
    ensures
        sampled_in_disc(known, radius, disc, q, r, m).contains(
            lattice::flat(radius, q + disc[k].0, r + disc[k].1) as usize,
        ),
    decreases m,
{
    let e = lattice::flat(radius, q + disc[k].0, r + disc[k].1) as usize;
    let before = sampled_in_disc(known, radius, disc, q, r, (m - 1) as nat);
    let here = sampled_in_disc(known, radius, disc, q, r, m);
    if k == m - 1 {
        assert(here[before.len() as int] == e);
    } else {
        sources_are_complete(known, radius, disc, q, r, k, (m - 1) as nat);
        let l = choose|l: int| 0 <= l < before.len() && #[trigger] before[l] == e;
        assert(here[l] == e);
    }
}

/// No sample within the disc is left out of the mean.
pub proof fn smoothing_leaves_no_sample_out(
    known: Seq<bool>,
    radius: int,
    disc: Seq<(i32, i32)>,
    q: int,
    r: int,
    d: (i32, i32),
)
    requires
        disc.contains(d),
        known[lattice::flat(radius, q + d.0, r + d.1)],
    ensures
        sampled_in_disc(known, radius, disc, q, r, disc.len()).contains(
            lattice::flat(radius, q + d.0, r + d.1) as usize,
        ),
{
    let k = choose|k: int| 0 <= k < disc.len() && disc[k] == d;
    sources_are_complete(known, radius, disc, q, r, k, disc.len());
}

/// The curvature at a cell is the mean of samples around it, its own among
/// them: every source has a sample, and where the disc holds its centre, a
/// sampled cell is a source of its own curvature, so there is at least one.
pub proof fn smoothing_averages_samples(
    known: Seq<bool>,
    radius: int,
    disc: Seq<(i32, i32)>,
    rc: int,
    q: int,
    r: int,
)
    requires
        fits(known, radius),
        disc_within(disc, rc),
        hex::dist(q, r) + rc <= radius,
    ensures
        forall|k: int|
            0 <= k < sampled_in_disc(known, radius, disc, q, r, disc.len()).len() ==> {
                let e = #[trigger] sampled_in_disc(known, radius, disc, q, r, disc.len())[k];
                e < known.len() && known[e as int]
            },
        known[lattice::flat(radius, q, r)] && disc.contains((0i32, 0i32)) ==> sampled_in_disc(
            known,
            radius,
            disc,
            q,
            r,
            disc.len(),
        ).contains(lattice::flat(radius, q, r) as usize),
{
    sources_have_samples(known, radius, disc, rc, q, r, disc.len());
    assert(disc.take(disc.len() as int) =~= disc);
}

/// Radius, in cells, of the disc of known curvature against which discs of
/// radius `rc` are calibrated.
pub fn calibration_radius(rc: i32) -> (rho: i32)
    requires
        0 <= rc <= MAX_DISC,
    ensures
        rho == 12 * rc,
{
    12 * rc
}

/// Lattice radius that holds the calibration disc: hex distance exceeds
/// Euclidean distance by up to 2/sqrt 3, here rounded up to 1.16, with room
/// for the discs of both passes.
pub fn calibration_lattice(rc: i32) -> (radius: i32)
    requires
        0 <= rc <= MAX_DISC,
    ensures
        radius == 12 * rc * 116 / 100 + 2 * rc + 2,
{
    12 * rc * 116 / 100 + 2 * rc + 2
}

/// Whether cell (q, r) lies within Euclidean distance `rho` of the centre.
pub open spec fn in_round_disc(q: int, r: int, rho: int) -> bool {
    q * q + q * r + r * r <= rho * rho
}

/// The round disc is round: a cell, whose centre lies at q + r/2 along one axis and
/// r times half the root of three along the other, is in it exactly where that is
/// no further than its radius from the centre.
pub proof fn round_discs_are_round(q: int, r: int, rho: int)
    ensures
        in_round_disc(q, r, rho) <==> (2 * q + r) * (2 * q + r) + 3 * (r * r) <= (2 * rho) * (2
            * rho),
{
    assert((2 * q + r) * (2 * q + r) + 3 * (r * r) == 4 * (q * q + q * r + r * r))
        by (nonlinear_arith);
    assert((2 * rho) * (2 * rho) == 4 * (rho * rho)) by (nonlinear_arith);
}

/// The round disc of radius `rho` on a lattice of radius `radius`.
pub fn round_disc(radius: i32, rho: i32) -> (ice: Vec<bool>)
    requires
        0 <= radius <= lattice::MAX_RADIUS,
        0 <= rho <= lattice::MAX_RADIUS,
        lattice::area(radius as int) <= usize::MAX,
    ensures
        fits(ice@, radius as int),
        forall|i: int|
            0 <= i < ice@.len() ==> #[trigger] ice@[i] == in_round_disc(
                lattice::cell_of(radius as int, i).0,
                lattice::cell_of(radius as int, i).1,
                rho as int,
            ),
{
    let w: usize = (2 * radius + 1) as usize;
    let n: usize = w * w;
    let mut ice: Vec<bool> = Vec::new();
    let mut i: usize = 0;
    while i < n
        invariant
            0 <= radius <= lattice::MAX_RADIUS,
            0 <= rho <= lattice::MAX_RADIUS,
            n == lattice::area(radius as int),
            i <= n,
            ice@.len() == i,
            forall|k: int|
                0 <= k < i ==> #[trigger] ice@[k] == in_round_disc(
                    lattice::cell_of(radius as int, k).0,
                    lattice::cell_of(radius as int, k).1,
                    rho as int,
                ),
        decreases n - i,
    {
        let c: (i32, i32) = lattice::cell_at_index(radius, i);
        ice.push(within_round_disc(c.0, c.1, rho));
        i = i + 1;
    }
    ice
}

fn within_round_disc(q: i32, r: i32, rho: i32) -> (b: bool)
    requires
        -lattice::MAX_RADIUS <= q <= lattice::MAX_RADIUS,
        -lattice::MAX_RADIUS <= r <= lattice::MAX_RADIUS,
        0 <= rho <= lattice::MAX_RADIUS,
    ensures
        b == in_round_disc(q as int, r as int, rho as int),
{
    let x: i64 = q as i64;
    let y: i64 = r as i64;
    let z: i64 = rho as i64;
    proof {
        let m = lattice::MAX_RADIUS as int;
        assert(0 <= x * x <= m * m && 0 <= y * y <= m * m && 0 <= z * z <= m * m && -m * m <= x * y
            <= m * m) by (nonlinear_arith)
            requires
                -m <= x <= m,
                -m <= y <= m,
                0 <= z <= m,
                m >= 0,
        ;
        assert(m * m == 0x1_0000_0000_0000) by (nonlinear_arith)
            requires
                m == 0x100_0000,
        ;
    }
    x * x + x * y + y * y <= z * z
}

/// The calibration disc lies inside its lattice with room for the discs of
/// both passes on every side.
pub proof fn calibration_disc_has_room(rc: int, q: int, r: int)
    requires
        1 <= rc <= MAX_DISC,
        in_round_disc(q, r, 12 * rc),
    ensures
        hex::dist(q, r) + 2 * rc < 12 * rc * 116 / 100 + 2 * rc + 2,
{
    let rho = 12 * rc;
    assert(3 * (hex::dist(q, r) * hex::dist(q, r)) <= 4 * (rho * rho)) by {
        three_quarters_of_distance(q, r);
    }
    let d = hex::dist(q, r);
    assert(100 * d <= 116 * rho) by (nonlinear_arith)
        requires
            3 * (d * d) <= 4 * (rho * rho),
            rho >= 0,
            d >= 0,
    ;
}

/// The squared Euclidean distance is at least three quarters of the squared
/// hex distance.
proof fn three_quarters_of_distance(q: int, r: int)
    ensures
        3 * (hex::dist(q, r) * hex::dist(q, r)) <= 4 * (q * q + q * r + r * r),
{
    let s = q + r;
    assert(4 * (q * q + q * r + r * r) == 3 * (q * q) + (q + 2 * r) * (q + 2 * r)) by (nonlinear_arith);
    assert(4 * (q * q + q * r + r * r) == 3 * (r * r) + (2 * q + r) * (2 * q + r)) by (nonlinear_arith);
    assert(4 * (q * q + q * r + r * r) == 3 * (s * s) + (q - r) * (q - r)) by (nonlinear_arith)
        requires
            s == q + r,
    ;
    assert((q + 2 * r) * (q + 2 * r) >= 0) by (nonlinear_arith);
    assert((2 * q + r) * (2 * q + r) >= 0) by (nonlinear_arith);
    assert((q - r) * (q - r) >= 0) by (nonlinear_arith);
    assert((-q) * (-q) == q * q && (-r) * (-r) == r * r && (-s) * (-s) == s * s) by (nonlinear_arith);
}

} // verus!
