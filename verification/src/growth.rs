//! Growth steps as a whole: what marking, settling, attaching and raising do
//! together, and what holds of every step and of every run of steps.

use crate::automaton::Automaton;
use crate::curvature;
use crate::draw;
use crate::hex;
use crate::lattice;
use crate::number;
use crate::piece;
use crate::sites;
use crate::symmetry;
use vstd::prelude::*;

verus! {

/// What a growth step goes by, besides the crystal: one entry per lattice cell
/// in each table.
pub struct Growth {
    /// Mass that each site holds (patterns of singles).
    pub fill: Seq<u32>,
    /// Nucleation threshold of each site.
    pub threshold: Seq<u32>,
    /// Whether facet and tip sites wait for their draw.
    pub stochastic: bool,
    /// Whether the images of a cell share one draw.
    pub symmetric: bool,
    /// Height of each crystal cell at the end of the step (patterns of singles).
    pub heights: Seq<u32>,
}

impl Growth {
    /// Whether the images of a cell never draw apart: they share one draw, or
    /// draws are off.
    pub open spec fn shares_draws(self) -> bool {
        self.symmetric || !self.stochastic
    }

    /// Whether the site at entry `i` holds a full cell of mass.
    pub open spec fn fills_up(self, i: int) -> bool {
        self.fill[i] >= sites::FULL
    }

    /// Whether cell (q, r), its rotation and its mirror image are full alike,
    /// and have the same threshold where draws are on.
    pub open spec fn agrees_on(self, radius: int, q: int, r: int) -> bool {
        let own = lattice::flat(radius, q, r);
        let rotated = lattice::flat(radius, -r, q + r);
        let mirrored = lattice::flat(radius, r, q);
        &&& self.fills_up(rotated) == self.fills_up(own)
        &&& self.fills_up(mirrored) == self.fills_up(own)
        &&& self.stochastic ==> symmetry::agrees(self.threshold, radius, q, r)
    }

    /// Whether symmetric cells of the lattice are full alike, and have the same
    /// threshold where draws are on.
    pub open spec fn decides_alike(self, radius: int) -> bool {
        forall|q: int, r: int| hex::dist(q, r) <= radius ==> #[trigger] self.agrees_on(radius, q, r)
    }
}

impl Automaton {
    /// Whether the cell at entry `i` joins the crystal in a step.
    pub open spec fn joins(self, i: int, growth: Growth) -> bool {
        self.joins_as(
            self.site_kind(i),
            i,
            growth.fill[i],
            growth.threshold[i],
            growth.stochastic,
            growth.symmetric,
        )
    }

    /// Whether this is the crystal `before` after one growth step.
    pub open spec fn grown_from(self, before: Automaton, growth: Growth) -> bool {
        &&& self.stack == before.stack
        &&& self.seed == before.seed
        &&& self.step == before.step + 1
        &&& forall|i: int|
            0 <= i < before.n() ==> #[trigger] self.ice@[i] == (before.ice@[i] || before.joins(
                i,
                growth,
            ))
        &&& forall|i: int|
            0 <= i < before.n() ==> #[trigger] self.h@[i] == if self.ice@[i] {
                growth.heights[i]
            } else {
                before.h@[i]
            }
    }

    /// Whether the cell at entry `j` is ice and shares an edge with the cell at
    /// entry `i`.
    pub open spec fn touching(self, i: int, j: int) -> bool {
        0 <= j < self.n() && self.ice@[j] && hex::adjacent(self.cell(i), self.cell(j))
    }

    /// Whether at least three ice cells share an edge with the cell at entry
    /// `i`.
    pub open spec fn touches_three(self, i: int) -> bool {
        exists|a: int, b: int, c: int|
            #[trigger] self.touching(i, a) && #[trigger] self.touching(i, b)
                && #[trigger] self.touching(i, c) && a != b && b != c && a != c
    }

    /// Whether a neighbour of the cell at entry `i` is ice.
    pub open spec fn touches_ice(self, i: int) -> bool {
        exists|j: int|
            0 <= j < self.n() && #[trigger] self.ice@[j] && hex::adjacent(
                self.cell(i),
                self.cell(j),
            )
    }
}

/// Marking the sites, settling them, attaching those that join, raising the
/// crystal and counting the step make one growth step, with the derived tables
/// refreshed before the marking or the raising or not.
pub proof fn a_step_is_made_of_its_parts(
    crystal: Automaton,
    refreshed: Automaton,
    marked: Automaton,
    settled: Automaton,
    attached: Automaton,
    rimmed: Automaton,
    raised: Automaton,
    finished: Automaton,
    growth: Growth,
    edges: Seq<u32>,
)
    requires
        refreshed.same_crystal(crystal),
        refreshed.step == crystal.step,
        marked.marked_from(refreshed),
        settled.settled_from(
            marked,
            growth.fill,
            growth.threshold,
            growth.stochastic,
            growth.symmetric,
        ),
        attached.attached_from(settled, edges),
        rimmed.same_crystal(attached),
        rimmed.step == attached.step,
        raised.raised_from(rimmed, growth.heights),
        finished.finished_from(raised),
    ensures
        finished.grown_from(crystal, growth),
{
    assert forall|i: int| 0 <= i < crystal.n() implies #[trigger] finished.ice@[i] == (
    crystal.ice@[i] || crystal.joins(i, growth)) by {
        sites::same_ice_around(refreshed, crystal, i, 6);
        assert(marked.attach@[i] == crystal.site_kind(i));
        assert(attached.ice@[i] == (settled.ice@[i] || settled.attach@[i] != 0));
    }
    assert forall|i: int| 0 <= i < crystal.n() implies #[trigger] finished.h@[i] == if finished.ice@[i] {
        growth.heights[i]
    } else {
        crystal.h@[i]
    } by {
        assert(raised.h@[i] == finished.h@[i]);
        assert(attached.ice@[i] == (settled.ice@[i] || settled.attach@[i] != 0));
        assert(attached.h@[i] == rimmed.h@[i]);
    }
}

/// A site that joins touches the crystal, and lies at most one cell further out
/// than it and inside the outer ring.
proof fn joining_cells_are_near(crystal: Automaton, i: int)
    requires
        crystal.sized(),
        crystal.counted(),
        0 <= i < crystal.n(),
        crystal.site_kind(i) != 0,
    ensures
        crystal.touches_ice(i),
        crystal.far(i) < crystal.radius(),
        crystal.far(i) <= crystal.crystal_radius + 1,
{
    let big_r = crystal.radius();
    assert(crystal.stack.layer_ok(0));
    symmetry::sites_touch_the_crystal(crystal, i);
    let k = choose|k: int| 0 <= k < 6 && #[trigger] crystal.ice_beside(i, k);
    let c = crystal.cell(i);
    let d = hex::direction(k);
    let b = (c.0 + d.0, c.1 + d.1);
    lattice::cell_is_inverted(big_r, i);
    lattice::neighbours_go_by_coordinates(big_r, c.0, c.1, k);
    let j = lattice::flat(big_r, b.0, b.1);
    lattice::flat_is_inverted(big_r, b.0, b.1);
    assert(crystal.ice@[j]);
    assert(hex::adjacent(c, crystal.cell(j)));
    hex::distance_is_subadditive(b, (-d.0, -d.1));
    assert(crystal.far(j) <= crystal.crystal_radius);
}

/// A growth step widens the crystal by at most one cell: it keeps every crystal
/// cell, each new one touches the crystal as it was and lies inside the outer
/// ring, the counters describe the new crystal, and the radius grows by one cell
/// or not at all.
pub proof fn a_step_adds_at_most_one_ring(crystal: Automaton, grown: Automaton, growth: Growth)
    requires
        crystal.wf(),
        grown.wf(),
        grown.grown_from(crystal, growth),
    ensures
        grown.step == crystal.step + 1,
        forall|i: int| 0 <= i < crystal.n() && #[trigger] crystal.ice@[i] ==> grown.ice@[i],
        forall|i: int|
            0 <= i < crystal.n() && #[trigger] grown.ice@[i] && !crystal.ice@[i]
                ==> crystal.touches_ice(i) && crystal.far(i) < crystal.radius(),
        grown.crystal_cells == crate::automaton::count(grown.ice@),
        crystal.crystal_cells <= grown.crystal_cells,
        crystal.crystal_radius <= grown.crystal_radius <= crystal.crystal_radius + 1,
{
    assert forall|i: int| 0 <= i < crystal.n() && #[trigger] grown.ice@[i] && !crystal.ice@[i] implies
        crystal.touches_ice(i) && crystal.far(i) < crystal.radius() && crystal.far(i)
        <= crystal.crystal_radius + 1 by {
        joining_cells_are_near(crystal, i);
    }
    assert forall|i: int| 0 <= i < crystal.n() && #[trigger] crystal.ice@[i] implies grown.ice@[i] by {}
    crate::automaton::count_is_monotone(crystal.ice@, grown.ice@);
    let f = choose|f: int|
        0 <= f < crystal.n() && #[trigger] crystal.ice@[f] && crystal.far(f)
            == crystal.crystal_radius;
    assert(grown.ice@[f]);
    assert(grown.far(f) == crystal.far(f));
    let g = choose|g: int|
        0 <= g < grown.n() && #[trigger] grown.ice@[g] && grown.far(g) == grown.crystal_radius;
    assert(grown.far(g) == crystal.far(g));
    if crystal.ice@[g] {
        assert(crystal.far(g) <= crystal.crystal_radius);
    }
}

/// The entry of the neighbour of cell (q, r) in direction `k`.
spec fn toward(radius: int, q: int, r: int, k: int) -> int {
    lattice::flat(radius, q + hex::direction(k).0, r + hex::direction(k).1)
}

proof fn ice_lies_in_a_direction(crystal: Automaton, i: int, k: int)
    requires
        crystal.sized(),
        0 <= i < crystal.n(),
        crystal.far(i) < crystal.radius(),
        0 <= k < 6,
    ensures
        ({
            let j = toward(crystal.radius(), crystal.cell(i).0, crystal.cell(i).1, k);
            &&& 0 <= j < crystal.n()
            &&& crystal.cell(j) == (
                crystal.cell(i).0 + hex::direction(k).0,
                crystal.cell(i).1 + hex::direction(k).1,
            )
            &&& crystal.ice_beside(i, k) == crystal.touching(i, j)
            &&& crystal.ice_beside(i, k) == crystal.ice@[j]
        }),
{
    let (big_r, c, d) = (crystal.radius(), crystal.cell(i), hex::direction(k));
    assert(crystal.stack.layer_ok(0));
    lattice::cell_is_inverted(big_r, i);
    lattice::inner_cells_have_all_neighbours(big_r, c.0, c.1, k);
    lattice::neighbours_go_by_coordinates(big_r, c.0, c.1, k);
    hex::distance_is_subadditive(c, d);
    lattice::flat_is_inverted(big_r, c.0 + d.0, c.1 + d.1);
}

proof fn touching_cells_lie_in_a_direction(crystal: Automaton, i: int, j: int) -> (k: int)
    requires
        crystal.sized(),
        0 <= i < crystal.n(),
        crystal.touching(i, j),
    ensures
        0 <= k < 6,
        j == toward(crystal.radius(), crystal.cell(i).0, crystal.cell(i).1, k),
{
    let (c, d) = (crystal.cell(i), crystal.cell(j));
    assert(crystal.stack.layer_ok(0));
    lattice::cell_is_inverted(crystal.radius(), j);
    hex::directions_are_the_unit_cells(d.0 - c.0, d.1 - c.1);
    choose|k: int| 0 <= k < 6 && #[trigger] hex::direction(k) == (d.0 - c.0, d.1 - c.1)
}

proof fn neighbours_are_counted(crystal: Automaton, i: int)
    requires
        crystal.sized(),
        0 <= i < crystal.n(),
        crystal.far(i) < crystal.radius(),
    ensures
        crystal.ice_around(i) > 0 <==> crystal.touches_ice(i),
        crystal.ice_around(i) >= 3 <==> crystal.touches_three(i),
{
    let (big_r, q, r) = (crystal.radius(), crystal.cell(i).0, crystal.cell(i).1);
    reveal_with_fuel(Automaton::ice_among, 7);
    ice_lies_in_a_direction(crystal, i, 0);
    ice_lies_in_a_direction(crystal, i, 1);
    ice_lies_in_a_direction(crystal, i, 2);
    ice_lies_in_a_direction(crystal, i, 3);
    ice_lies_in_a_direction(crystal, i, 4);
    ice_lies_in_a_direction(crystal, i, 5);
    let j0 = toward(big_r, q, r, 0);
    let j1 = toward(big_r, q, r, 1);
    let j2 = toward(big_r, q, r, 2);
    let j3 = toward(big_r, q, r, 3);
    let j4 = toward(big_r, q, r, 4);
    let j5 = toward(big_r, q, r, 5);
    if crystal.touches_ice(i) {
        let j = choose|j: int|
            0 <= j < crystal.n() && #[trigger] crystal.ice@[j] && hex::adjacent(
                crystal.cell(i),
                crystal.cell(j),
            );
        assert(crystal.touching(i, j));
        let k = touching_cells_lie_in_a_direction(crystal, i, j);
    }
    if crystal.ice_around(i) > 0 {
        let j = if crystal.ice@[j0] {
            j0
        } else if crystal.ice@[j1] {
            j1
        } else if crystal.ice@[j2] {
            j2
        } else if crystal.ice@[j3] {
            j3
        } else if crystal.ice@[j4] {
            j4
        } else {
            j5
        };
        assert(crystal.touching(i, j));
        assert(crystal.ice@[j]);
    }
    if crystal.touches_three(i) {
        let (a, b, c) = choose|a: int, b: int, c: int|
            #[trigger] crystal.touching(i, a) && #[trigger] crystal.touching(i, b)
                && #[trigger] crystal.touching(i, c) && a != b && b != c && a != c;
        let ka = touching_cells_lie_in_a_direction(crystal, i, a);
        let kb = touching_cells_lie_in_a_direction(crystal, i, b);
        let kc = touching_cells_lie_in_a_direction(crystal, i, c);
        assert(ka != kb && kb != kc && ka != kc);
    }
}

/// The boundary sites are the vapour cells inside the outer ring that share an
/// edge with an ice cell, and the kinks among them are those that share one with
/// three or more; marking them changes no cell.
pub proof fn sites_are_the_vapour_beside_ice(crystal: Automaton, marked: Automaton, i: int)
    requires
        crystal.sized(),
        marked.marked_from(crystal),
        0 <= i < crystal.n(),
    ensures
        marked.attach@[i] != 0 <==> !crystal.ice@[i] && crystal.far(i) < crystal.radius()
            && crystal.touches_ice(i),
        marked.attach@[i] == 2 <==> !crystal.ice@[i] && crystal.far(i) < crystal.radius()
            && crystal.touches_three(i),
        marked.attach@[i] <= 2,
        marked.ice@[i] == crystal.ice@[i],
        marked.h@[i] == crystal.h@[i],
{
    if crystal.far(i) < crystal.radius() {
        neighbours_are_counted(crystal, i);
    }
}

/// A cell of mass is full at 0.9999 of a cell, within a hundred-thousandth of a
/// cell.
pub proof fn fullness_is_a_ten_thousandth_short_of_a_cell(growth: Growth, i: int)
    ensures
        10_000 * number::single(growth.fill[i]) >= 9_999 * number::single_unit()
            ==> growth.fills_up(i),
        growth.fills_up(i) ==> 100_000 * number::single(growth.fill[i]) >= 99_989
            * number::single_unit(),
{
    let f = growth.fill[i];
    let p = vstd::arithmetic::power2::pow2(125) as int;
    number::singles_are_ordered(f, sites::FULL);
    vstd::arithmetic::power2::lemma_pow2_adds(24, 125);
    vstd::arithmetic::power2::lemma2_to64();
    vstd::arithmetic::power2::lemma_pow2_pos(125);
    assert(0x3f7f_f972int / 0x80_0000 == 126 && 0x3f7f_f972int % 0x80_0000 == 0x7f_f972);
    assert(number::single(sites::FULL) == 0xff_f972 * p);
    assert(number::single_unit() == 0x100_0000 * p);
}

/// Notches and holes close: a vapour cell inside the outer ring that touches
/// three or more ice cells, as one does that is surrounded by ice, joins the
/// crystal in a step in which it holds a cell of mass, whatever it draws.
pub proof fn full_notches_close(crystal: Automaton, grown: Automaton, growth: Growth, i: int)
    requires
        crystal.sized(),
        grown.grown_from(crystal, growth),
        0 <= i < crystal.n(),
        !crystal.ice@[i],
        crystal.far(i) < crystal.radius(),
        crystal.touches_three(i) || (forall|k: int|
            0 <= k < 6 ==> #[trigger] curvature::ice_at(
                crystal.ice@,
                crystal.radius(),
                crystal.cell(i).0 + hex::direction(k).0,
                crystal.cell(i).1 + hex::direction(k).1,
            )),
        number::single(growth.fill[i]) >= number::single_unit(),
    ensures
        grown.ice@[i],
{
    neighbours_are_counted(crystal, i);
    if !crystal.touches_three(i) {
        reveal_with_fuel(Automaton::ice_among, 7);
        ice_lies_in_a_direction(crystal, i, 0);
        ice_lies_in_a_direction(crystal, i, 1);
        ice_lies_in_a_direction(crystal, i, 2);
        let c = crystal.cell(i);
        assert(curvature::ice_at(
            crystal.ice@,
            crystal.radius(),
            c.0 + hex::direction(0).0,
            c.1 + hex::direction(0).1,
        ));
        assert(curvature::ice_at(
            crystal.ice@,
            crystal.radius(),
            c.0 + hex::direction(1).0,
            c.1 + hex::direction(1).1,
        ));
        assert(curvature::ice_at(
            crystal.ice@,
            crystal.radius(),
            c.0 + hex::direction(2).0,
            c.1 + hex::direction(2).1,
        ));
    }
    fullness_is_a_ten_thousandth_short_of_a_cell(growth, i);
}

/// Nothing but full vapour cells joins a crystal in a step.
pub proof fn only_full_cells_join(crystal: Automaton, grown: Automaton, growth: Growth, i: int)
    requires
        crystal.sized(),
        grown.grown_from(crystal, growth),
        0 <= i < crystal.n(),
        grown.ice@[i],
        !crystal.ice@[i],
    ensures
        100_000 * number::single(growth.fill[i]) >= 99_989 * number::single_unit(),
        grown.h@[i] == growth.heights[i],
{
    fullness_is_a_ten_thousandth_short_of_a_cell(growth, i);
}

/// A site of one or two ice neighbours that is full joins without fail where
/// draws are off or its threshold is out of reach of every draw, and never where
/// its threshold is zero; with more mass or a higher threshold it joins all the
/// more.  No cell joins that is not full.
pub proof fn facets_wait_for_their_draw(crystal: Automaton, growth: Growth, more: Growth, i: int)
    requires
        crystal.sized(),
        0 <= i < crystal.n(),
        !crystal.ice@[i],
        crystal.far(i) < crystal.radius(),
        crystal.touches_ice(i),
        !crystal.touches_three(i),
        more.fill[i] >= growth.fill[i],
        more.threshold[i] >= growth.threshold[i],
        more.stochastic == growth.stochastic,
        more.symmetric == growth.symmetric,
    ensures
        !growth.stochastic || growth.threshold[i] >= 0x100_0000 ==> (crystal.joins(i, growth)
            <==> growth.fills_up(i)),
        growth.stochastic && growth.threshold[i] == 0 ==> !crystal.joins(i, growth),
        crystal.joins(i, growth) ==> growth.fills_up(i) && crystal.joins(i, more),
{
    neighbours_are_counted(crystal, i);
    let c = draw::drawing_cell(crystal.cell(i).0, crystal.cell(i).1, growth.symmetric);
    let h = draw::mixed(draw::draw_source(crystal.seed, crystal.step, c));
    assert((h >> 40u64) < 0x100_0000) by (bit_vector);
}

/// Whether each crystal follows from the one before it by the step between
/// them.
pub open spec fn is_run(crystals: Seq<Automaton>, growths: Seq<Growth>) -> bool {
    &&& crystals.len() == growths.len() + 1
    &&& forall|k: int| 0 <= k < crystals.len() ==> (#[trigger] crystals[k]).wf()
    &&& forall|k: int| 0 <= k < growths.len() ==> #[trigger] steps_on(crystals, growths, k)
}

/// Whether step `k` leads from one crystal to the next.
pub open spec fn steps_on(crystals: Seq<Automaton>, growths: Seq<Growth>, k: int) -> bool {
    crystals[k + 1].grown_from(crystals[k], growths[k])
}

/// A run only ever grows its crystal, by at most one cell in radius per step.
pub proof fn runs_grow_ring_by_ring(crystals: Seq<Automaton>, growths: Seq<Growth>, m: nat)
    requires
        is_run(crystals, growths),
        m < crystals.len(),
    ensures
        crystals[m as int].stack == crystals[0].stack,
        crystals[m as int].step == crystals[0].step + m,
        forall|i: int|
            0 <= i < crystals[0].n() && #[trigger] crystals[0].ice@[i] ==> crystals[m as int].ice@[i],
        crystals[0].crystal_cells <= crystals[m as int].crystal_cells,
        crystals[0].crystal_radius <= crystals[m as int].crystal_radius
            <= crystals[0].crystal_radius + m,
    decreases m,
{
    if m > 0 {
        let p = m - 1;
        runs_grow_ring_by_ring(crystals, growths, p as nat);
        assert(steps_on(crystals, growths, p));
        a_step_adds_at_most_one_ring(crystals[p], crystals[p + 1], growths[p]);
    }
}

/// A run whose draws are shared between images (or off) keeps a symmetric
/// crystal symmetric throughout, if in every step symmetric sites are full alike
/// and have the same threshold; and its heights too, if symmetric cells always
/// get the same height.
pub proof fn runs_stay_symmetric(crystals: Seq<Automaton>, growths: Seq<Growth>, m: nat)
    requires
        is_run(crystals, growths),
        m < crystals.len(),
        symmetry::symmetric(crystals[0].ice@, crystals[0].radius()),
        forall|k: int|
            0 <= k < growths.len() ==> (#[trigger] growths[k]).shares_draws() && growths[k].decides_alike(
                crystals[0].radius(),
            ),
    ensures
        symmetry::symmetric(crystals[m as int].ice@, crystals[0].radius()),
        symmetry::symmetric(crystals[0].h@, crystals[0].radius()) && (forall|k: int|
            0 <= k < growths.len() ==> symmetry::symmetric(
                (#[trigger] growths[k]).heights,
                crystals[0].radius(),
            )) ==> symmetry::symmetric(crystals[m as int].h@, crystals[0].radius()),
    decreases m,
{
    if m > 0 {
        let p = m - 1;
        runs_stay_symmetric(crystals, growths, p as nat);
        runs_grow_ring_by_ring(crystals, growths, p as nat);
        assert(steps_on(crystals, growths, p));
        assert(growths[p].shares_draws());
        symmetry::growth_keeps_symmetry(crystals[p], crystals[p + 1], growths[p]);
    }
}

/// A run keeps a crystal in one piece throughout.
pub proof fn runs_stay_in_one_piece(crystals: Seq<Automaton>, growths: Seq<Growth>, m: nat)
    requires
        is_run(crystals, growths),
        m < crystals.len(),
        crystals[0].in_one_piece(),
    ensures
        crystals[m as int].in_one_piece(),
    decreases m,
{
    if m > 0 {
        let p = m - 1;
        runs_stay_in_one_piece(crystals, growths, p as nat);
        assert(steps_on(crystals, growths, p));
        assert(crystals[p].wf());
        piece::growth_keeps_one_piece(crystals[p], crystals[p + 1]);
    }
}

} // verus!
