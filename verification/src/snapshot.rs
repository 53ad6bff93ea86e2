//! Frozen copies of the crystal for rendering, and the scale on which their
//! thickness is shown.

use crate::automaton::Automaton;
use crate::hex;
use crate::lattice;
use crate::order;
use vstd::prelude::*;

verus! {

/// Frozen copy of the crystal for rendering.  Masses and heights are patterns
/// of non-negative singles.
pub struct Snapshot {
    /// Domain radius in cells.
    pub radius: i32,
    /// Row stride (2 radius + 1).
    pub width: usize,
    /// Crystal mass per cell; none for cells that are not crystal.
    pub mass: Vec<Option<u32>>,
    /// Extent of each crystal cell along the c-axis, in cells (0 elsewhere).
    pub height: Vec<u32>,
    /// Largest hex distance of any crystal cell from the centre.
    pub crystal_radius: i32,
    /// Number of crystal cells.
    pub crystal_cells: usize,
    /// Automaton step at which the snapshot was taken.
    pub step: u64,
    /// Water molecules in the crystal (the pattern of a double).
    pub molecules: u64,
}

/// Crystal cells among the first `m` entries of a mass table, as (q, r, mass).
pub open spec fn crystal_list(mass: Seq<Option<u32>>, radius: int, m: nat) -> Seq<(i32, i32, u32)>
    decreases m,
{
    if m == 0 {
        Seq::empty()
    } else {
        let before = crystal_list(mass, radius, (m - 1) as nat);
        let c = lattice::cell_of(radius, m - 1);
        match mass[m - 1] {
            Some(x) => before.push((c.0 as i32, c.1 as i32, x)),
            None => before,
        }
    }
}

/// Largest entry among the first `m`, zero if there is none.
pub open spec fn largest(s: Seq<u32>, m: nat) -> u32
    decreases m,
{
    if m == 0 {
        0
    } else {
        let before = largest(s, (m - 1) as nat);
        if before < s[m - 1] {
            s[m - 1]
        } else {
            before
        }
    }
}

impl Snapshot {
    /// Whether the tables fit the lattice.
    pub open spec fn wf(self) -> bool {
        &&& 0 <= self.radius <= lattice::MAX_RADIUS
        &&& self.width == lattice::width(self.radius as int)
        &&& self.mass@.len() == lattice::area(self.radius as int)
        &&& self.height@.len() == self.mass@.len()
    }

    /// Mass of cell (q, r), if it is crystal.
    pub open spec fn mass_of(self, q: int, r: int) -> Option<u32> {
        if lattice::on_grid(self.radius as int, q, r) {
            self.mass@[lattice::flat(self.radius as int, q, r)]
        } else {
            None
        }
    }

    /// Height of cell (q, r), none off the lattice.
    pub open spec fn height_of(self, q: int, r: int) -> u32 {
        if lattice::on_grid(self.radius as int, q, r) {
            self.height@[lattice::flat(self.radius as int, q, r)]
        } else {
            0
        }
    }

    /// The crystal cells, row by row, as (q, r, mass).
    pub open spec fn crystal(self) -> Seq<(i32, i32, u32)> {
        crystal_list(self.mass@, self.radius as int, self.mass@.len())
    }

    /// Crystal mass at axial coordinates (q, r), or `None` outside the crystal.
    pub fn mass_at(&self, q: i32, r: i32) -> (m: Option<u32>)
        requires
            self.wf(),
        ensures
            m == self.mass_of(q as int, r as int),
    {
        let big_r: i32 = self.radius;
        if q < -big_r || q > big_r || r < -big_r || r > big_r {
            return None;
        }
        assert(self.mass.len() == lattice::area(big_r as int));
        self.mass[lattice::flat_index(big_r, q, r)]
    }

    /// Height of cell (q, r) along the c-axis, in cells (0 off the lattice).
    pub fn height_at(&self, q: i32, r: i32) -> (h: u32)
        requires
            self.wf(),
        ensures
            h == if lattice::on_grid(self.radius as int, q as int, r as int) {
                self.height@[lattice::flat(self.radius as int, q as int, r as int)]
            } else {
                0
            },
            h == self.height_of(q as int, r as int),
    {
        let big_r: i32 = self.radius;
        if q < -big_r || q > big_r || r < -big_r || r > big_r {
            return 0;
        }
        assert(self.height.len() == lattice::area(big_r as int));
        self.height[lattice::flat_index(big_r, q, r)]
    }

    /// Tallest cell, in cells.
    pub fn max_height(&self) -> (h: u32)
        ensures
            h == largest(self.height@, self.height@.len()),
            forall|i: int| 0 <= i < self.height@.len() ==> #[trigger] self.height@[i] <= h,
            h == 0 || exists|i: int| 0 <= i < self.height@.len() && #[trigger] self.height@[i] == h,
    {
        let mut h: u32 = 0;
        let mut i: usize = 0;
        while i < self.height.len()
            invariant
                i <= self.height@.len(),
                h == largest(self.height@, i as nat),
                forall|k: int| 0 <= k < i ==> #[trigger] self.height@[k] <= h,
                h == 0 || exists|k: int| 0 <= k < i && #[trigger] self.height@[k] == h,
            decreases self.height@.len() - i,
        {
            let x: u32 = self.height[i];
            if h < x {
                h = x;
            }
            i = i + 1;
        }
        h
    }

    /// Crystal cells as (q, r, mass), row by row.
    pub fn cells(&self) -> (cells: Vec<(i32, i32, u32)>)
        requires
            self.wf(),
        ensures
            cells@ == self.crystal(),
    {
        let mut cells: Vec<(i32, i32, u32)> = Vec::new();
        let mut i: usize = 0;
        while i < self.mass.len()
            invariant
                self.wf(),
                i <= self.mass@.len(),
                cells@ == crystal_list(self.mass@, self.radius as int, i as nat),
            decreases self.mass@.len() - i,
        {
            match self.mass[i] {
                Some(m) => {
                    let c: (i32, i32) = lattice::cell_at_index(self.radius, i);
                    cells.push((c.0, c.1, m));
                },
                None => {},
            }
            i = i + 1;
        }
        cells
    }

    /// Entries of those of the first `m` neighbours of cell (q, r) that are
    /// crystal.
    pub open spec fn crystal_beside(self, q: int, r: int, m: nat) -> Seq<usize>
        decreases m,
    {
        if m == 0 {
            Seq::empty()
        } else {
            let before = self.crystal_beside(q, r, (m - 1) as nat);
            let (x, y) = (q + hex::direction(m - 1).0, r + hex::direction(m - 1).1);
            if self.mass_of(x, y) is Some {
                before.push(lattice::flat(self.radius as int, x, y) as usize)
            } else {
                before
            }
        }
    }

    /// Entries over which one smoothing pass averages entry `i`: the cell and
    /// its crystal neighbours; none where the cell is not crystal.
    pub fn smoothing_sources(&self, i: usize) -> (entries: Option<Vec<usize>>)
        requires
            self.wf(),
            i < self.mass@.len(),
        ensures
            entries is Some <==> self.mass@[i as int] is Some,
            entries matches Some(e) ==> ({
                let (q, r) = lattice::cell_of(self.radius as int, i as int);
                e@ == seq![i] + self.crystal_beside(q, r, 6)
            }),
    {
        if self.mass[i].is_none() {
            return None;
        }
        let ghost (q, r) = lattice::cell_of(self.radius as int, i as int);
        let mut entries: Vec<usize> = Vec::new();
        entries.push(i);
        let mut k: usize = 0;
        proof {
            lattice::cell_is_inverted(self.radius as int, i as int);
            assert(entries@ =~= seq![i] + Seq::<usize>::empty());
        }
        while k < 6
            invariant
                self.wf(),
                i < self.mass@.len(),
                k <= 6,
                lattice::on_grid(self.radius as int, q, r),
                lattice::flat(self.radius as int, q, r) == i,
                entries@ == seq![i] + self.crystal_beside(q, r, k as nat),
            decreases 6 - k,
        {
            proof {
                lattice::neighbours_go_by_coordinates(self.radius as int, q, r, k as int);
            }
            match lattice::neighbour(self.mass.len(), self.width, i, k) {
                Some(j) => {
                    if self.mass[j].is_some() {
                        entries.push(j);
                        proof {
                            assert(entries@ =~= seq![i] + self.crystal_beside(
                                q,
                                r,
                                (k + 1) as nat,
                            ));
                        }
                    }
                },
                None => {},
            }
            k = k + 1;
        }
        Some(entries)
    }

    proof fn crystal_beside_holds(self, q: int, r: int, x: int, y: int, m: nat)
        requires
            self.wf(),
            m <= 6,
            lattice::on_grid(self.radius as int, x, y),
        ensures
            self.crystal_beside(q, r, m).contains(
                lattice::flat(self.radius as int, x, y) as usize,
            ) <==> self.mass_of(x, y) is Some && exists|k: int|
                0 <= k < m && #[trigger] hex::direction(k) == (x - q, y - r),
        decreases m,
    {
        let radius = self.radius as int;
        let e = lattice::flat(radius, x, y) as usize;
        assert(self.mass.len() == lattice::area(radius));
        lattice::flat_is_inverted(radius, x, y);
        if m > 0 {
            self.crystal_beside_holds(q, r, x, y, (m - 1) as nat);
            let before = self.crystal_beside(q, r, (m - 1) as nat);
            let here = self.crystal_beside(q, r, m);
            let d = hex::direction(m - 1);
            let (u, v) = (q + d.0, r + d.1);
            if self.mass_of(u, v) is Some {
                lattice::flat_is_inverted(radius, u, v);
                lattice::flat_is_injective(radius, (u, v), (x, y));
                assert(here.last() == lattice::flat(radius, u, v) as usize);
                if before.contains(e) {
                    let t = choose|t: int| 0 <= t < before.len() && before[t] == e;
                    assert(here[t] == e);
                }
                if here.contains(e) && here.last() != e {
                    let t = choose|t: int| 0 <= t < here.len() && here[t] == e;
                    assert(before[t] == e);
                }
                if (u, v) == (x, y) {
                    assert(here[here.len() - 1] == e);
                }
            }
        }
    }

    /// Smoothing mixes neighbours only, and mixes them both ways: another cell
    /// is averaged into a crystal cell exactly where it is crystal too and one
    /// step away.
    pub proof fn smoothing_mixes_neighbours(self, a: hex::Cell, b: hex::Cell)
        requires
            self.wf(),
            self.mass_of(a.0, a.1) is Some,
            lattice::on_grid(self.radius as int, b.0, b.1),
        ensures
            self.crystal_beside(a.0, a.1, 6).contains(
                lattice::flat(self.radius as int, b.0, b.1) as usize,
            ) <==> self.mass_of(b.0, b.1) is Some && hex::adjacent(a, b),
            self.mass_of(b.0, b.1) is Some ==> (self.crystal_beside(a.0, a.1, 6).contains(
                lattice::flat(self.radius as int, b.0, b.1) as usize,
            ) <==> self.crystal_beside(b.0, b.1, 6).contains(
                lattice::flat(self.radius as int, a.0, a.1) as usize,
            )),
    {
        self.crystal_beside_holds(a.0, a.1, b.0, b.1, 6);
        self.crystal_beside_holds(b.0, b.1, a.0, a.1, 6);
        hex::directions_are_the_unit_cells(b.0 - a.0, b.1 - a.1);
        hex::directions_are_the_unit_cells(a.0 - b.0, a.1 - b.1);
    }

    /// The masses of the crystal cells as sorting keys.
    pub open spec fn mass_keys(self) -> Seq<u128> {
        self.crystal().map(|k: int, c: (i32, i32, u32)| c.2 as u128)
    }

    /// The masses of the crystal cells, in ascending order.
    pub fn sorted_masses(&self) -> (masses: Vec<u128>)
        requires
            self.wf(),
        ensures
            masses@ == order::ascending(self.mass_keys()),
            masses@.len() == self.crystal().len(),
            forall|k: int| 0 <= k < masses@.len() ==> #[trigger] masses@[k] <= u32::MAX,
    {
        let cells: Vec<(i32, i32, u32)> = self.cells();
        let mut keys: Vec<u128> = Vec::new();
        let mut i: usize = 0;
        while i < cells.len()
            invariant
                cells@ == self.crystal(),
                i <= cells@.len(),
                keys@.len() == i,
                forall|k: int| 0 <= k < i ==> #[trigger] keys@[k] == cells@[k].2 as u128,
            decreases cells@.len() - i,
        {
            keys.push(cells[i].2 as u128);
            i = i + 1;
        }
        proof {
            assert(keys@ =~= self.mass_keys());
        }
        order::sort(&mut keys);
        proof {
            assert forall|k: int| 0 <= k < keys@.len() implies #[trigger] keys@[k] <= u32::MAX by {
                assert(keys@.contains(keys@[k]));
                let m = choose|m: int|
                    0 <= m < self.mass_keys().len() && self.mass_keys()[m] == keys@[k];
            }
        }
        keys
    }
}

/// Maps crystal mass to a normalised thickness, against a high percentile of
/// the final crystal so that the same map serves every animation frame.
#[derive(Clone, Copy, PartialEq, Eq, Structural, Debug)]
pub struct MassScale {
    /// Mass shown at full thickness (the pattern of a single).
    pub reference: u32,
}

/// Pattern of one.
pub const ONE: u32 = 0x3f80_0000;

/// Pattern of a millionth, the least reference mass.
pub const LEAST_REFERENCE: u32 = 0x3586_37bd;

/// Position, in an ascending list of `n` masses, of the given percentile.
pub open spec fn percentile(n: int, percent: int) -> int {
    (n - 1) * percent / 100
}

fn percentile_index(n: usize, percent: usize) -> (k: usize)
    requires
        n >= 1,
        percent <= 100,
    ensures
        k == percentile(n as int, percent as int),
        k < n,
{
    proof {
        let (a, p) = (n - 1, percent as int);
        assert(0 <= a * p <= a * 100) by (nonlinear_arith)
            requires
                a >= 0,
                0 <= p <= 100,
        ;
    }
    ((n - 1) as u128 * percent as u128 / 100) as usize
}

impl MassScale {
    /// Scale on which the 97th percentile of the crystal's masses is shown at
    /// full thickness (one where there is no crystal).
    pub fn from_snapshot(snap: &Snapshot) -> (scale: MassScale)
        requires
            snap.wf(),
        ensures
            ({
                let n = snap.crystal().len() as int;
                let mass = order::ascending(snap.mass_keys())[percentile(n, 97)];
                scale.reference == if n == 0 {
                    ONE as int
                } else {
                    hex::max(mass as int, LEAST_REFERENCE as int)
                }
            }),
            scale.reference == reference_of(*snap),
    {
        let masses: Vec<u128> = snap.sorted_masses();
        if masses.len() == 0 {
            return MassScale { reference: ONE };
        }
        let k: usize = percentile_index(masses.len(), 97);
        let mass: u32 = masses[k] as u32;
        MassScale {
            reference: if mass < LEAST_REFERENCE {
                LEAST_REFERENCE
            } else {
                mass
            },
        }
    }
}

/// The percentiles at which the thickness bands of a drawing begin.
pub open spec fn band_percent(k: int) -> int {
    if k == 0 {
        0
    } else if k == 1 {
        15
    } else if k == 2 {
        30
    } else if k == 3 {
        45
    } else if k == 4 {
        60
    } else if k == 5 {
        73
    } else if k == 6 {
        84
    } else if k == 7 {
        92
    } else {
        97
    }
}

/// Thresholds of the first `m` bands over ascending masses: their percentiles,
/// without those that repeat the one before.
pub open spec fn band_list(masses: Seq<u128>, m: nat) -> Seq<u32>
    decreases m,
{
    if m == 0 {
        Seq::empty()
    } else {
        let before = band_list(masses, (m - 1) as nat);
        let threshold = masses[percentile(masses.len() as int, band_percent(m - 1))] as u32;
        if before.len() > 0 && threshold <= before.last() {
            before
        } else {
            before.push(threshold)
        }
    }
}

proof fn crystal_list_holds(mass: Seq<Option<u32>>, radius: int, m: nat, i: int) -> (k: int)
    requires
        0 <= i < m <= mass.len(),
        mass[i] is Some,
    ensures
        0 <= k < crystal_list(mass, radius, m).len(),
        crystal_list(mass, radius, m)[k] == (
            lattice::cell_of(radius, i).0 as i32,
            lattice::cell_of(radius, i).1 as i32,
            mass[i].unwrap(),
        ),
    decreases m,
{
    if i == m - 1 {
        crystal_list(mass, radius, m).len() - 1
    } else {
        crystal_list_holds(mass, radius, (m - 1) as nat, i)
    }
}

proof fn listed_cells_are_crystal(snap: Snapshot, m: nat, k: int)
    requires
        snap.wf(),
        m <= snap.mass@.len(),
        0 <= k < crystal_list(snap.mass@, snap.radius as int, m).len(),
    ensures
        ({
            let c = crystal_list(snap.mass@, snap.radius as int, m)[k];
            let (q, r) = (c.0 as int, c.1 as int);
            &&& snap.mass_of(q, r) == Some(c.2)
            &&& lattice::on_grid(snap.radius as int, q, r)
            &&& lattice::flat(snap.radius as int, q, r) < m
        }),
    decreases m,
{
    let before = crystal_list(snap.mass@, snap.radius as int, (m - 1) as nat);
    if k < before.len() {
        listed_cells_are_crystal(snap, (m - 1) as nat, k);
    } else {
        lattice::cell_is_inverted(snap.radius as int, m - 1);
    }
}

proof fn listed_cells_are_in_order(snap: Snapshot, m: nat, a: int, b: int)
    requires
        snap.wf(),
        m <= snap.mass@.len(),
        0 <= a < b < crystal_list(snap.mass@, snap.radius as int, m).len(),
    ensures
        ({
            let list = crystal_list(snap.mass@, snap.radius as int, m);
            hex::row_order((list[a].0, list[a].1), (list[b].0, list[b].1))
        }),
    decreases m,
{
    let radius = snap.radius as int;
    let before = crystal_list(snap.mass@, radius, (m - 1) as nat);
    if b < before.len() {
        listed_cells_are_in_order(snap, (m - 1) as nat, a, b);
    } else {
        let x = before[a];
        listed_cells_are_crystal(snap, (m - 1) as nat, a);
        lattice::cell_is_inverted(radius, m - 1);
        let (q, r) = lattice::cell_of(radius, m - 1);
        let (u, v, w) = (x.0 + radius, x.1 + radius, lattice::width(radius));
        assert(v < r + radius || (v == r + radius && u < q + radius)) by (nonlinear_arith)
            requires
                v * w + u < (r + radius) * w + (q + radius),
                0 <= u < w,
                0 <= q + radius < w,
        ;
    }
}

/// The list of crystal cells holds each crystal cell once, with its mass, and
/// nothing else, row by row.
pub proof fn the_list_holds_the_crystal(snap: Snapshot, q: i32, r: i32, m: u32)
    requires
        snap.wf(),
    ensures
        snap.crystal().contains((q, r, m)) <==> snap.mass_of(q as int, r as int) == Some(m),
        forall|a: int, b: int|
            0 <= a < b < snap.crystal().len() ==> hex::row_order(
                ((#[trigger] snap.crystal()[a]).0, snap.crystal()[a].1),
                ((#[trigger] snap.crystal()[b]).0, snap.crystal()[b].1),
            ),
{
    let n = snap.mass@.len();
    let radius = snap.radius as int;
    if snap.crystal().contains((q, r, m)) {
        let k = choose|k: int| 0 <= k < snap.crystal().len() && snap.crystal()[k] == (q, r, m);
        listed_cells_are_crystal(snap, n, k);
    }
    if snap.mass_of(q as int, r as int) == Some(m) {
        let i = lattice::flat(radius, q as int, r as int);
        lattice::flat_is_inverted(radius, q as int, r as int);
        let k = crystal_list_holds(snap.mass@, radius, n, i);
        assert(snap.crystal()[k] == (q, r, m));
    }
    assert forall|a: int, b: int| 0 <= a < b < snap.crystal().len() implies hex::row_order(
        ((#[trigger] snap.crystal()[a]).0, snap.crystal()[a].1),
        ((#[trigger] snap.crystal()[b]).0, snap.crystal()[b].1),
    ) by {
        listed_cells_are_in_order(snap, n, a, b);
    }
}

/// A percentile is the last place in the list that at most that share of the way
/// leads to.
pub proof fn percentiles_are_shares_of_the_way(n: int, percent: int)
    requires
        n >= 1,
        0 <= percent <= 100,
    ensures
        0 <= percentile(n, percent) < n,
        100 * percentile(n, percent) <= percent * (n - 1) < 100 * percentile(n, percent) + 100,
        percent == 0 ==> percentile(n, percent) == 0,
        percent == 100 ==> percentile(n, percent) == n - 1,
{
    let a = n - 1;
    assert(0 <= a * percent <= a * 100) by (nonlinear_arith)
        requires
            a >= 0,
            0 <= percent <= 100,
    ;
    assert(a * percent == percent * a) by (nonlinear_arith);
    if percent == 0 {
        assert(a * percent == 0) by (nonlinear_arith)
            requires
                percent == 0,
        ;
    }
    if percent == 100 {
        assert(a * percent == a * 100) by (nonlinear_arith)
            requires
                percent == 100,
        ;
    }
}

/// The bands begin at the thinnest cell and rise to the 97th percentile, in nine
/// steps that never stay level and get closer towards the thick end.
pub proof fn band_percentiles_rise(k: int)
    requires
        0 <= k < 8,
    ensures
        band_percent(0) == 0,
        band_percent(8) == 97,
        band_percent(k) < band_percent(k + 1),
        k > 0 ==> band_percent(k + 1) - band_percent(k) <= band_percent(k) - band_percent(k - 1),
{
}

proof fn bands_hold_their_percentiles(masses: Seq<u128>, m: nat, k: int)
    requires
        masses.len() > 0,
        forall|i: int, j: int| 0 <= i <= j < masses.len() ==> masses[i] <= masses[j],
        forall|i: int| 0 <= i < masses.len() ==> #[trigger] masses[i] <= u32::MAX,
        0 <= k < m <= 9,
    ensures
        band_list(masses, m).contains(
            masses[percentile(masses.len() as int, band_percent(k))] as u32,
        ),
        band_list(masses, m).last() == masses[percentile(
            masses.len() as int,
            band_percent(m - 1),
        )] as u32,
    decreases m,
{
    let n = masses.len() as int;
    let before = band_list(masses, (m - 1) as nat);
    let here = band_list(masses, m);
    let place = percentile(n, band_percent(m - 1));
    percentiles_are_shares_of_the_way(n, band_percent(m - 1));
    bands_rise(masses, (m - 1) as nat);
    bands_rise(masses, m);
    if m > 1 {
        let prior = percentile(n, band_percent(m - 2));
        band_percentiles_rise(m - 2);
        percentiles_are_shares_of_the_way(n, band_percent(m - 2));
        let (p, q, a) = (band_percent(m - 2), band_percent(m - 1), n - 1);
        assert(p * a <= q * a) by (nonlinear_arith)
            requires
                p <= q,
                a >= 0,
        ;
        assert(masses[prior] <= masses[place]);
        bands_hold_their_percentiles(masses, (m - 1) as nat, m - 2);
    }
    let x = masses[percentile(n, band_percent(k))] as u32;
    if k < m - 1 {
        bands_hold_their_percentiles(masses, (m - 1) as nat, k);
        let t = choose|t: int| 0 <= t < before.len() && before[t] == x;
        assert(here[t] == x);
    } else {
        assert(here[here.len() - 1] == x);
    }
}

proof fn bands_are_percentiles(masses: Seq<u128>, m: nat, b: int)
    requires
        0 <= b < band_list(masses, m).len(),
    ensures
        exists|k: int|
            0 <= k < m && band_list(masses, m)[b] == masses[percentile(
                masses.len() as int,
                #[trigger] band_percent(k),
            )] as u32,
    decreases m,
{
    let before = band_list(masses, (m - 1) as nat);
    if b < before.len() {
        bands_are_percentiles(masses, (m - 1) as nat, b);
        let k = choose|k: int|
            0 <= k < m - 1 && before[b] == masses[percentile(
                masses.len() as int,
                #[trigger] band_percent(k),
            )] as u32;
        assert(band_list(masses, m)[b] == masses[percentile(
            masses.len() as int,
            band_percent(k),
        )] as u32);
    } else {
        assert(band_list(masses, m)[b] == masses[percentile(
            masses.len() as int,
            band_percent(m - 1),
        )] as u32);
    }
}

/// The thresholds of the bands are the masses at the nine percentiles, each of
/// them, and none else.
pub proof fn bands_are_the_masses_at_the_percentiles(snap: Snapshot, k: int, b: int)
    requires
        snap.wf(),
        snap.crystal().len() > 0,
        0 <= k < 9,
    ensures
        ({
            let masses = order::ascending(snap.mass_keys());
            let bands = band_list(masses, 9);
            let n = masses.len() as int;
            &&& bands.contains(masses[percentile(n, band_percent(k))] as u32)
            &&& 0 <= b < bands.len() ==> exists|p: int|
                0 <= p < 9 && bands[b] == masses[percentile(n, #[trigger] band_percent(p))] as u32
        }),
{
    let keys = snap.mass_keys();
    let masses = order::ascending(keys);
    order::ascending_is_in_order(keys);
    assert forall|i: int| 0 <= i < masses.len() implies #[trigger] masses[i] <= u32::MAX by {
        assert(masses.contains(masses[i]));
        let j = choose|j: int| 0 <= j < keys.len() && keys[j] == masses[i];
    }
    bands_hold_their_percentiles(masses, 9, k);
    if 0 <= b < band_list(masses, 9).len() {
        bands_are_percentiles(masses, 9, b);
    }
}

/// The reference mass of a crystal: that of its 97th percentile, or a millionth if
/// that is more; one where there is no crystal.
pub open spec fn reference_of(snap: Snapshot) -> int {
    let n = snap.crystal().len() as int;
    if n == 0 {
        ONE as int
    } else {
        hex::max(
            order::ascending(snap.mass_keys())[percentile(n, 97)] as int,
            LEAST_REFERENCE as int,
        )
    }
}

/// Against the reference mass, all but the heaviest three per cent of the cells
/// are shown at full thickness at most, and from that percentile on at full
/// thickness or more, unless all that is under a millionth.
pub proof fn the_scale_is_set_by_the_heavy_cells(snap: Snapshot, k: int)
    requires
        snap.wf(),
        0 <= k < snap.crystal().len(),
    ensures
        ({
            let masses = order::ascending(snap.mass_keys());
            let n = snap.crystal().len() as int;
            &&& masses.len() == n
            &&& 100 * k <= 97 * (n - 1) ==> masses[k] <= reference_of(snap)
            &&& 100 * k > 97 * (n - 1) ==> masses[k] >= reference_of(snap) || reference_of(snap)
                == LEAST_REFERENCE
            &&& reference_of(snap) >= LEAST_REFERENCE
        }),
{
    let keys = snap.mass_keys();
    let n = snap.crystal().len() as int;
    let masses = order::ascending(keys);
    order::ascending_is_in_order(keys);
    percentiles_are_shares_of_the_way(n, 97);
    let p = percentile(n, 97);
    if k <= p {
        assert(masses[k] <= masses[p]);
    } else {
        assert(masses[p] <= masses[k]);
    }
}

proof fn bands_rise(masses: Seq<u128>, m: nat)
    ensures
        band_list(masses, m).len() >= if m > 0 {
            1int
        } else {
            0
        },
        m > 0 ==> band_list(masses, m)[0] == masses[percentile(masses.len() as int, 0)] as u32,
        forall|a: int, b: int|
            0 <= a < b < band_list(masses, m).len() ==> band_list(masses, m)[a] < band_list(
                masses,
                m,
            )[b],
    decreases m,
{
    if m > 0 {
        bands_rise(masses, (m - 1) as nat);
    }
}

/// The thickness bands are nested, and the first one is the whole crystal: a
/// crystal cell's mass reaches the first threshold, and where it reaches a
/// threshold it reaches those before it.
pub proof fn bands_are_nested(snap: Snapshot, q: int, r: int, m: u32)
    requires
        snap.wf(),
        snap.mass_of(q, r) == Some(m),
    ensures
        ({
            let bands = band_list(order::ascending(snap.mass_keys()), 9);
            &&& bands.len() > 0
            &&& m >= bands[0]
            &&& forall|a: int, b: int|
                0 <= a <= b < bands.len() && m >= #[trigger] bands[b] ==> m >= #[trigger] bands[a]
        }),
{
    let keys = snap.mass_keys();
    let masses = order::ascending(keys);
    let i = lattice::flat(snap.radius as int, q, r);
    lattice::flat_is_inverted(snap.radius as int, q, r);
    let k = crystal_list_holds(snap.mass@, snap.radius as int, snap.mass@.len(), i);
    assert(keys[k] == m);
    order::ascending_starts_least(keys, k);
    bands_rise(masses, 9);
    assert((masses.len() - 1) * 0 / 100 == 0) by (nonlinear_arith);
}

/// Mass thresholds of the nested thickness bands, from thin to thick.
pub fn bands(snap: &Snapshot) -> (thresholds: Vec<u32>)
    requires
        snap.wf(),
        snap.crystal().len() > 0,
    ensures
        thresholds@ == band_list(order::ascending(snap.mass_keys()), 9),
        1 <= thresholds@.len() <= 9,
        forall|a: int, b: int|
            0 <= a < b < thresholds@.len() ==> thresholds@[a] < thresholds@[b],
{
    let masses: Vec<u128> = snap.sorted_masses();
    let percents: [usize; 9] = [0, 15, 30, 45, 60, 73, 84, 92, 97];
    let mut thresholds: Vec<u32> = Vec::new();
    let mut k: usize = 0;
    while k < 9
        invariant
            masses@ == order::ascending(snap.mass_keys()),
            masses@.len() > 0,
            forall|k: int| 0 <= k < masses@.len() ==> #[trigger] masses@[k] <= u32::MAX,
            k <= 9,
            percents@ == seq![0usize, 15, 30, 45, 60, 73, 84, 92, 97],
            thresholds@ == band_list(masses@, k as nat),
            thresholds@.len() <= k,
            k > 0 ==> thresholds@.len() > 0,
            forall|a: int, b: int|
                0 <= a < b < thresholds@.len() ==> thresholds@[a] < thresholds@[b],
        decreases 9 - k,
    {
        let at: usize = percentile_index(masses.len(), percents[k]);
        assert(percents@[k as int] == band_percent(k as int));
        let threshold: u32 = masses[at] as u32;
        let n: usize = thresholds.len();
        if n == 0 || threshold > thresholds[n - 1] {
            thresholds.push(threshold);
        }
        k = k + 1;
    }
    thresholds
}

impl Snapshot {
    /// Whether this is a frozen copy of a crystal with the given masses and number
    /// of molecules.
    pub open spec fn copies(self, crystal: Automaton, mass: Seq<u32>, molecules: u64) -> bool {
        &&& self.wf()
        &&& self.radius == crystal.radius()
        &&& self.height@ == crystal.h@
        &&& self.crystal_radius == crystal.crystal_radius
        &&& self.crystal_cells == crystal.crystal_cells
        &&& self.step == crystal.step
        &&& self.molecules == molecules
        &&& forall|i: int|
            0 <= i < crystal.n() ==> #[trigger] self.mass@[i] == if crystal.ice@[i] {
                Some(mass[i])
            } else {
                None
            }
    }

    /// A frozen copy shows the crystal as it is: a cell has a mass exactly where it
    /// is crystal, and then its own, at the same coordinates, and the list of its
    /// cells is as long as the crystal's count.
    pub proof fn copies_show_the_crystal(
        self,
        crystal: Automaton,
        mass: Seq<u32>,
        molecules: u64,
        q: int,
        r: int,
    )
        requires
            crystal.wf(),
            mass.len() == crystal.n(),
            self.copies(crystal, mass, molecules),
        ensures
            self.mass_of(q, r) is Some <==> crystal.crystal_at(q, r),
            crystal.crystal_at(q, r) ==> self.mass_of(q, r) == Some(
                mass[lattice::flat(crystal.radius(), q, r)],
            ),
            self.height_of(q, r) == if lattice::on_grid(crystal.radius(), q, r) {
                crystal.h@[lattice::flat(crystal.radius(), q, r)]
            } else {
                0
            },
            self.crystal().len() == crystal.crystal_cells,
            self.step == crystal.step && self.crystal_radius == crystal.crystal_radius,
    {
        if lattice::on_grid(crystal.radius(), q, r) {
            lattice::flat_is_inverted(crystal.radius(), q, r);
        }
        crystal_is_counted(crystal.ice@, self.mass@, crystal.radius(), crystal.n() as nat);
        assert(crystal.ice@.take(crystal.n()) =~= crystal.ice@);
    }
}

impl Automaton {
    /// Frozen copy of the crystal, given the mass of each cell and the number
    /// of molecules in the crystal (the pattern of a double).
    pub fn snapshot(&self, mass: &Vec<u32>, molecules: u64) -> (snap: Snapshot)
        requires
            self.wf(),
            mass@.len() == self.n(),
        ensures
            snap.wf(),
            snap.copies(*self, mass@, molecules),
            snap.radius == self.radius(),
            snap.height@ == self.h@,
            snap.crystal_radius == self.crystal_radius,
            snap.crystal_cells == self.crystal_cells,
            snap.step == self.step,
            snap.molecules == molecules,
            forall|i: int|
                0 <= i < self.n() ==> #[trigger] snap.mass@[i] == if self.ice@[i] {
                    Some(mass@[i])
                } else {
                    None
                },
            snap.crystal().len() == snap.crystal_cells,
    {
        let n: usize = self.ice.len();
        proof {
            assert(self.stack.layer_ok(0));
        }
        let mut masses: Vec<Option<u32>> = Vec::new();
        let mut height: Vec<u32> = Vec::new();
        let mut i: usize = 0;
        while i < n
            invariant
                self.wf(),
                mass@.len() == self.n(),
                n == self.n(),
                i <= n,
                masses@.len() == i,
                height@.len() == i,
                forall|k: int| 0 <= k < i ==> #[trigger] height@[k] == self.h@[k],
                forall|k: int|
                    0 <= k < i ==> #[trigger] masses@[k] == if self.ice@[k] {
                        Some(mass@[k])
                    } else {
                        None
                    },
            decreases n - i,
        {
            masses.push(if self.ice[i] {
                Some(mass[i])
            } else {
                None
            });
            height.push(self.h[i]);
            i = i + 1;
        }
        let snap = Snapshot {
            radius: self.stack.radius,
            width: self.stack.layers[0].w,
            mass: masses,
            height,
            crystal_radius: self.crystal_radius,
            crystal_cells: self.crystal_cells,
            step: self.step,
            molecules,
        };
        proof {
            crystal_is_counted(self.ice@, snap.mass@, self.radius(), self.n() as nat);
            assert(self.ice@.take(self.n()) =~= self.ice@);
            assert(snap.height@ =~= self.h@);
        }
        snap
    }
}

proof fn crystal_is_counted(ice: Seq<bool>, mass: Seq<Option<u32>>, radius: int, m: nat)
    requires
        m <= ice.len(),
        ice.len() == mass.len(),
        forall|i: int| 0 <= i < ice.len() ==> (#[trigger] mass[i] is Some <==> ice[i]),
    ensures
        crystal_list(mass, radius, m).len() == crate::automaton::count(ice.take(m as int)),
    decreases m,
{
    if m > 0 {
        crystal_is_counted(ice, mass, radius, (m - 1) as nat);
        assert(ice.take(m as int).drop_last() =~= ice.take(m - 1));
        assert(mass[m - 1] is Some <==> ice[m - 1]);
    }
}

} // verus!
